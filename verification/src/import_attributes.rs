//! Reading import attributes.

use vstd::prelude::*;

use crate::analysis::ImportAttribute;
use crate::analysis::ImportAttributeView;
use crate::analysis::ImportAttributes;
use crate::analysis::ImportAttributesView;
use crate::order::same_text;
use crate::ordered_map::law_text_map_insert;
use crate::ordered_map::text_map;
use crate::ordered_map::OrderedMap;
use crate::syntax::Expr;
use crate::syntax::ExprOrSpread;
use crate::syntax::Lit;
use crate::syntax::ObjectLit;
use crate::syntax::Prop;
use crate::syntax::PropName;
use crate::syntax::PropOrSpread;

verus! {

/// Attributes by their names.
pub type AttributeMap = Map<Seq<char>, ImportAttributeView>;

/// The text of a key that is a name or a string.
pub open spec fn key_text(key: PropName) -> Option<Seq<char>> {
    match key {
        PropName::Ident(name) => Some(name@),
        PropName::Str(text) => Some(text@),
        PropName::Other => None,
    }
}

/// The text of the key of a property that is a key and a value.
pub open spec fn prop_key(prop: PropOrSpread) -> Option<Seq<char>> {
    match prop {
        PropOrSpread::Prop(Prop::KeyValue(key_value)) => key_text(key_value.key),
        _ => None,
    }
}

/// The value of a property that is a key and a value.
pub open spec fn prop_value(prop: PropOrSpread) -> Expr {
    match prop {
        PropOrSpread::Prop(Prop::KeyValue(key_value)) => key_value.value,
        _ => Expr::Other,
    }
}

/// The attribute that an expression gives: only a string is known.
pub open spec fn attribute_of(value: Expr) -> ImportAttributeView {
    match value {
        Expr::Lit(Lit::Str(text)) => ImportAttributeView::Known(text@),
        _ => ImportAttributeView::Unknown,
    }
}

/// The attributes of a declaration: the properties that have a key and a string as value. The
/// last of a key counts; everything else is skipped.
pub open spec fn string_attributes(props: Seq<PropOrSpread>) -> AttributeMap
    decreases props.len(),
{
    if props.len() == 0 {
        Map::empty()
    } else {
        let rest = string_attributes(props.drop_last());
        match (prop_key(props.last()), attribute_of(prop_value(props.last()))) {
            (Some(key), ImportAttributeView::Known(text)) => rest.insert(
                key,
                ImportAttributeView::Known(text),
            ),
            _ => rest,
        }
    }
}

/// The attributes that properties with keys give, the last of each key.
pub open spec fn all_attributes(props: Seq<PropOrSpread>) -> AttributeMap
    decreases props.len(),
{
    if props.len() == 0 {
        Map::empty()
    } else {
        all_attributes(props.drop_last()).insert(
            prop_key(props.last())->0,
            attribute_of(prop_value(props.last())),
        )
    }
}

/// Whether every property has a key and a value.
pub open spec fn all_keyed(props: Seq<PropOrSpread>) -> bool {
    forall|i: int| 0 <= i < props.len() ==> prop_key(#[trigger] props[i]) is Some
}

/// The attributes of an object, which are known only if every property has a key and a value.
pub open spec fn object_attributes(props: Seq<PropOrSpread>) -> Option<AttributeMap> {
    if all_keyed(props) {
        Some(all_attributes(props))
    } else {
        None
    }
}

/// The attributes of an expression, which are known only if it is an object.
pub open spec fn expr_attributes(expr: Expr) -> Option<AttributeMap> {
    match expr {
        Expr::Object(lit) => object_attributes(lit.props@),
        _ => None,
    }
}

/// Whether a property has the key `with`.
pub open spec fn is_with(prop: PropOrSpread) -> bool {
    prop_key(prop) == Some(seq!['w', 'i', 't', 'h'])
}

/// Whether a property has the key `assert`.
pub open spec fn is_assert(prop: PropOrSpread) -> bool {
    prop_key(prop) == Some(seq!['a', 's', 's', 'e', 'r', 't'])
}

/// Whether the attributes of a dynamic import may come from a property: from each `with`, and
/// from each `assert` that no `with` stands before.
pub open spec fn counts(props: Seq<PropOrSpread>, i: int) -> bool {
    is_with(props[i]) || (is_assert(props[i]) && forall|j: int|
        0 <= j < i ==> !is_with(#[trigger] props[j]))
}

/// The last of the first `n` properties that counts.
pub open spec fn last_that_counts(props: Seq<PropOrSpread>, n: int) -> Option<int>
    decreases n,
{
    if n <= 0 {
        None
    } else if counts(props, n - 1) {
        Some(n - 1)
    } else {
        last_that_counts(props, n - 1)
    }
}

/// Whether a property keeps the attributes of a dynamic import from being known: it has no key
/// and value, or it counts and does not hold attributes.
pub open spec fn obscures(props: Seq<PropOrSpread>, i: int) -> bool {
    prop_key(props[i]) is None || (counts(props, i) && expr_attributes(
        prop_value(props[i]),
    ) is None)
}

/// The attributes of a dynamic import that has properties as its options.
pub open spec fn option_attributes(props: Seq<PropOrSpread>) -> ImportAttributesView {
    if exists|i: int| 0 <= i < props.len() && #[trigger] obscures(props, i) {
        ImportAttributesView::Unknown
    } else {
        match last_that_counts(props, props.len() as int) {
            Some(i) => ImportAttributesView::Known(expr_attributes(prop_value(props[i]))->0),
            None => ImportAttributesView::Absent,
        }
    }
}

/// The attributes of a dynamic import with a second argument, or without one.
pub open spec fn dynamic_attributes(arg: Option<ExprOrSpread>) -> ImportAttributesView {
    match arg {
        None => ImportAttributesView::Absent,
        Some(arg) => match (arg.spread, arg.expr) {
            (false, Expr::Object(lit)) => option_attributes(lit.props@),
            _ => ImportAttributesView::Unknown,
        },
    }
}

/// The attributes of a declaration with an object behind `with`, or without one.
pub open spec fn declared_attributes(attrs: Option<ObjectLit>) -> ImportAttributesView {
    match attrs {
        Some(lit) => ImportAttributesView::Known(string_attributes(lit.props@)),
        None => ImportAttributesView::Absent,
    }
}

/// The attributes of an import type with an object behind `with`.
pub open spec fn literal_attributes(lit: ObjectLit) -> ImportAttributesView {
    match object_attributes(lit.props@) {
        Some(attributes) => ImportAttributesView::Known(attributes),
        None => ImportAttributesView::Unknown,
    }
}

fn known_key(key: &PropName) -> (r: Option<&String>)
    ensures
        r.deep_view() == key_text(*key),
{
    match key {
        PropName::Str(key) => Some(key),
        PropName::Ident(ident) => Some(ident),
        PropName::Other => None,
    }
}

fn keyed(prop: &PropOrSpread) -> (r: Option<(&String, &Expr)>)
    ensures
        r is Some <==> prop_key(*prop) is Some,
        r matches Some(key_value) ==> prop_key(*prop) == Some(key_value.0@) && *key_value.1
            == prop_value(*prop),
{
    match prop {
        PropOrSpread::Prop(Prop::KeyValue(key_value)) => match known_key(&key_value.key) {
            Some(key) => Some((key, &key_value.value)),
            None => None,
        },
        _ => None,
    }
}

fn attribute(value: &Expr) -> (r: ImportAttribute)
    ensures
        r.deep_view() == attribute_of(*value),
{
    match value {
        Expr::Lit(Lit::Str(text)) => ImportAttribute::Known(text.clone()),
        _ => ImportAttribute::Unknown,
    }
}

fn no_attributes() -> (r: OrderedMap<String, ImportAttribute>)
    ensures
        r.wf(),
        text_map(r.deep_view()) == Map::<Seq<char>, ImportAttributeView>::empty(),
{
    let r = OrderedMap::new();
    assert(text_map(r.deep_view()) =~= Map::empty());
    r
}

fn add_attribute(
    attributes: &mut OrderedMap<String, ImportAttribute>,
    key: &String,
    value: ImportAttribute,
)
    requires
        old(attributes).wf(),
    ensures
        final(attributes).wf(),
        text_map(final(attributes).deep_view()) == text_map(old(attributes).deep_view()).insert(
            key@,
            value.deep_view(),
        ),
{
    proof {
        law_text_map_insert(attributes.deep_view(), key@, value.deep_view());
    }
    attributes.insert(key.clone(), value);
}

/// Parses import attributes into a map. According to proposal the values
/// can only be strings (https://github.com/tc39/proposal-import-attributes#should-more-than-just-strings-be-supported-as-attribute-values)
/// and thus non-string values are skipped.
pub fn parse_import_attributes(maybe_attrs: Option<&ObjectLit>) -> (r: ImportAttributes)
    ensures
        r.wf(),
        r.deep_view() == match maybe_attrs {
            Some(attrs) => declared_attributes(Some(*attrs)),
            None => declared_attributes(None),
        },
{
    let attrs = match maybe_attrs {
        Some(attrs) => attrs,
        None => return ImportAttributes::Absent,
    };
    let ghost props = attrs.props@;
    let mut import_attributes = no_attributes();
    let mut i: usize = 0;
    assert(props.take(0) =~= Seq::empty());
    while i < attrs.props.len()
        invariant
            i <= attrs.props.len(),
            props == attrs.props@,
            import_attributes.wf(),
            text_map(import_attributes.deep_view()) == string_attributes(props.take(i as int)),
        decreases attrs.props.len() - i,
    {
        proof {
            assert(props.take(i + 1).drop_last() =~= props.take(i as int));
            assert(props.take(i + 1).last() == props[i as int]);
        }
        if let Some((key, value)) = keyed(&attrs.props[i]) {
            if let Expr::Lit(Lit::Str(text)) = value {
                add_attribute(&mut import_attributes, key, ImportAttribute::Known(text.clone()));
            }
        }
        i = i + 1;
    }
    assert(props.take(i as int) =~= props);
    ImportAttributes::Known(import_attributes)
}

/// Parses import attributes from an object all of whose properties have to be understood: one
/// that is not a key and a value leaves the attributes unknown.
pub fn parse_import_attributes_from_object_lit(attributes_lit: &ObjectLit) -> (r:
    ImportAttributes)
    ensures
        r.wf(),
        r.deep_view() == literal_attributes(*attributes_lit),
{
    let ghost props = attributes_lit.props@;
    let mut attributes_map = no_attributes();
    let mut i: usize = 0;
    assert(props.take(0) =~= Seq::empty());
    while i < attributes_lit.props.len()
        invariant
            i <= attributes_lit.props.len(),
            props == attributes_lit.props@,
            attributes_map.wf(),
            forall|j: int| 0 <= j < i ==> prop_key(#[trigger] props[j]) is Some,
            text_map(attributes_map.deep_view()) == all_attributes(props.take(i as int)),
        decreases attributes_lit.props.len() - i,
    {
        proof {
            assert(props.take(i + 1).drop_last() =~= props.take(i as int));
            assert(props.take(i + 1).last() == props[i as int]);
        }
        match keyed(&attributes_lit.props[i]) {
            Some((key, value)) => {
                add_attribute(&mut attributes_map, key, attribute(value));
            },
            None => {
                assert(prop_key(props[i as int]) is None);
                return ImportAttributes::Unknown;
            },
        }
        i = i + 1;
    }
    assert(props.take(i as int) =~= props);
    ImportAttributes::Known(attributes_map)
}

/// Parses import attributes from the second arg of a dynamic import.
pub fn parse_dynamic_import_attributes(arg: Option<&ExprOrSpread>) -> (r: ImportAttributes)
    ensures
        r.wf(),
        r.deep_view() == match arg {
            Some(arg) => dynamic_attributes(Some(*arg)),
            None => dynamic_attributes(None),
        },
{
    let options = match arg {
        Some(options) => options,
        None => return ImportAttributes::Absent,
    };
    if options.spread {
        return ImportAttributes::Unknown;
    }
    let object_lit = match &options.expr {
        Expr::Object(object_lit) => object_lit,
        _ => return ImportAttributes::Unknown,
    };
    let ghost props = object_lit.props@;
    let mut attributes_map = no_attributes();
    let mut had_attributes_key: bool = false;
    let mut had_with_key: bool = false;
    let mut i: usize = 0;
    proof {
        reveal_strlit("with");
        reveal_strlit("assert");
        assert("with"@ =~= seq!['w', 'i', 't', 'h']);
        assert("assert"@ =~= seq!['a', 's', 's', 'e', 'r', 't']);
    }
    while i < object_lit.props.len()
        invariant
            i <= object_lit.props.len(),
            props == object_lit.props@,
            arg == Some(options),
            options.expr == Expr::Object(*object_lit),
            !options.spread,
            "with"@ == seq!['w', 'i', 't', 'h'],
            "assert"@ == seq!['a', 's', 's', 'e', 'r', 't'],
            attributes_map.wf(),
            had_with_key <==> exists|j: int| 0 <= j < i && is_with(#[trigger] props[j]),
            had_attributes_key <==> last_that_counts(props, i as int) is Some,
            had_attributes_key ==> Some(text_map(attributes_map.deep_view())) == expr_attributes(
                prop_value(props[last_that_counts(props, i as int)->0]),
            ),
            forall|j: int| 0 <= j < i ==> !(#[trigger] obscures(props, j)),
        decreases object_lit.props.len() - i,
    {
        let (key, value) = match keyed(&object_lit.props[i]) {
            Some(key_value) => key_value,
            None => {
                assert(obscures(props, i as int));
                return ImportAttributes::Unknown;
            },
        };
        let is_with_key = same_text(key.as_str(), "with");
        let is_assert_key = same_text(key.as_str(), "assert");
        assert(is_with_key == is_with(props[i as int]));
        assert(is_assert_key == is_assert(props[i as int]));
        if is_with_key || (is_assert_key && !had_with_key) {
            assert(counts(props, i as int));
            had_attributes_key = true;
            had_with_key = is_with_key;
            let attributes_lit = match value {
                Expr::Object(lit) => lit,
                _ => {
                    assert(obscures(props, i as int));
                    return ImportAttributes::Unknown;
                },
            };
            match parse_import_attributes_from_object_lit(attributes_lit) {
                ImportAttributes::Known(map) => {
                    attributes_map = map;
                },
                value => {
                    assert(obscures(props, i as int));
                    return value;
                },
            }
        }
        i = i + 1;
    }
    if had_attributes_key {
        ImportAttributes::Known(attributes_map)
    } else {
        ImportAttributes::Absent
    }
}

/// The attributes of a declaration have strings as values.
pub proof fn law_declared_attributes_are_strings(props: Seq<PropOrSpread>, name: Seq<char>)
    requires
        string_attributes(props).contains_key(name),
    ensures
        string_attributes(props)[name] is Known,
    decreases props.len(),
{
    if props.len() > 0 && string_attributes(props.drop_last()).contains_key(name) {
        law_declared_attributes_are_strings(props.drop_last(), name);
    }
}

/// A property of a declaration whose value is not a string, or which is not a key and a value,
/// changes nothing.
pub proof fn law_other_properties_are_skipped(props: Seq<PropOrSpread>, i: int)
    requires
        0 <= i < props.len(),
        prop_key(props[i]) is None || attribute_of(prop_value(props[i])) is Unknown,
    ensures
        string_attributes(props.remove(i)) == string_attributes(props),
    decreases props.len(),
{
    if i == props.len() - 1 {
        assert(props.remove(i) =~= props.drop_last());
    } else {
        law_other_properties_are_skipped(props.drop_last(), i);
        assert(props.remove(i).drop_last() =~= props.drop_last().remove(i));
    }
}

/// Of the strings that a declaration gives an attribute, the last counts.
pub proof fn law_last_declared_value_counts(props: Seq<PropOrSpread>, i: int)
    requires
        0 <= i < props.len(),
        prop_key(props[i]) is Some,
        attribute_of(prop_value(props[i])) is Known,
        forall|j: int|
            i < j < props.len() ==> prop_key(#[trigger] props[j]) != prop_key(props[i])
                || attribute_of(prop_value(props[j])) is Unknown,
    ensures
        string_attributes(props).contains_key(prop_key(props[i])->0),
        string_attributes(props)[prop_key(props[i])->0] == attribute_of(prop_value(props[i])),
    decreases props.len(),
{
    if i < props.len() - 1 {
        assert forall|j: int| i < j < props.drop_last().len() implies prop_key(
            #[trigger] props.drop_last()[j],
        ) != prop_key(props[i]) || attribute_of(prop_value(props.drop_last()[j])) is Unknown by {
            assert(props.drop_last()[j] == props[j]);
        }
        law_last_declared_value_counts(props.drop_last(), i);
    }
}

/// Of the values that an object gives an attribute, the last counts, whether it is a string or
/// not.
pub proof fn law_last_value_counts(props: Seq<PropOrSpread>, i: int)
    requires
        all_keyed(props),
        0 <= i < props.len(),
        forall|j: int|
            i < j < props.len() ==> prop_key(#[trigger] props[j]) != prop_key(props[i]),
    ensures
        object_attributes(props) matches Some(attributes) && attributes.contains_key(
            prop_key(props[i])->0,
        ) && attributes[prop_key(props[i])->0] == attribute_of(prop_value(props[i])),
    decreases props.len(),
{
    if i < props.len() - 1 {
        assert forall|j: int| 0 <= j < props.drop_last().len() implies prop_key(
            #[trigger] props.drop_last()[j],
        ) is Some by {
            assert(props.drop_last()[j] == props[j]);
        }
        assert forall|j: int| i < j < props.drop_last().len() implies prop_key(
            #[trigger] props.drop_last()[j],
        ) != prop_key(props[i]) by {
            assert(props.drop_last()[j] == props[j]);
        }
        law_last_value_counts(props.drop_last(), i);
    }
}

proof fn lemma_last_with_counts_last(props: Seq<PropOrSpread>, i: int, n: int)
    requires
        0 <= i < n <= props.len(),
        is_with(props[i]),
        forall|j: int| i < j < n ==> !is_with(#[trigger] props[j]),
    ensures
        last_that_counts(props, n) == Some(i),
    decreases n,
{
    if n - 1 > i {
        lemma_last_with_counts_last(props, i, n - 1);
    }
}

/// Where the options of a dynamic import have a `with` and its attributes are known, they are
/// those of the last `with`, whatever `assert` stands before or behind it.
pub proof fn law_with_goes_before_assert(props: Seq<PropOrSpread>, i: int)
    requires
        0 <= i < props.len(),
        is_with(props[i]),
        forall|j: int| i < j < props.len() ==> !is_with(#[trigger] props[j]),
        option_attributes(props) !is Unknown,
    ensures
        expr_attributes(prop_value(props[i])) matches Some(attributes) && option_attributes(props)
            == ImportAttributesView::Known(attributes),
{
    lemma_last_with_counts_last(props, i, props.len() as int);
    assert(!obscures(props, i));
}

proof fn lemma_last_that_counts_of_prefix(props: Seq<PropOrSpread>, prop: PropOrSpread, n: int)
    requires
        n <= props.len(),
    ensures
        last_that_counts(props.push(prop), n) == last_that_counts(props, n),
    decreases n,
{
    if n > 0 {
        lemma_counts_of_prefix(props, prop, n - 1);
        lemma_last_that_counts_of_prefix(props, prop, n - 1);
    }
}

proof fn lemma_counts_of_prefix(props: Seq<PropOrSpread>, prop: PropOrSpread, i: int)
    requires
        0 <= i < props.len(),
    ensures
        counts(props.push(prop), i) == counts(props, i),
{
    assert forall|j: int| 0 <= j < props.len() implies #[trigger] props.push(prop)[j]
        == props[j] by {}
    if forall|j: int| 0 <= j < i ==> !is_with(#[trigger] props.push(prop)[j]) {
        assert forall|j: int| 0 <= j < i implies !is_with(#[trigger] props[j]) by {
            assert(!is_with(props.push(prop)[j]));
        }
    }
}

/// An `assert` behind a `with` is not looked at.
pub proof fn law_assert_behind_with_is_ignored(
    props: Seq<PropOrSpread>,
    i: int,
    prop: PropOrSpread,
)
    requires
        0 <= i < props.len(),
        is_with(props[i]),
        is_assert(prop),
    ensures
        option_attributes(props.push(prop)) == option_attributes(props),
{
    let all = props.push(prop);
    let n = props.len() as int;
    assert(all[i] == props[i]);
    assert(all[n] == prop);
    assert(!is_with(prop)) by {
        assert(seq!['w', 'i', 't', 'h'].len() != seq!['a', 's', 's', 'e', 'r', 't'].len());
    }
    assert(!counts(all, n));
    assert forall|j: int| 0 <= j < n implies obscures(all, j) == #[trigger] obscures(props, j) by {
        lemma_counts_of_prefix(props, prop, j);
    }
    if exists|j: int| 0 <= j < props.len() && #[trigger] obscures(props, j) {
        let j = choose|j: int| 0 <= j < props.len() && #[trigger] obscures(props, j);
        assert(obscures(all, j));
    }
    if exists|j: int| 0 <= j < all.len() && #[trigger] obscures(all, j) {
        let j = choose|j: int| 0 <= j < all.len() && #[trigger] obscures(all, j);
        assert(obscures(props, j));
    }
    lemma_last_that_counts_of_prefix(props, prop, n);
    lemma_last_that_counts_is_before(props, n);
}

proof fn lemma_last_that_counts_is_before(props: Seq<PropOrSpread>, n: int)
    ensures
        last_that_counts(props, n) matches Some(i) ==> 0 <= i < n,
    decreases n,
{
    if n > 0 {
        lemma_last_that_counts_is_before(props, n - 1);
    }
}

} // verus!
