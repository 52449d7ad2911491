//! What holds of the import attributes of every object, in terms of its properties.

use vstd::prelude::*;

use crate::analysis::ImportAttributeView;
use crate::analysis::ImportAttributesView;
use crate::import_attributes::all_attributes;
use crate::import_attributes::all_keyed;
use crate::import_attributes::counts;
use crate::import_attributes::declared_attributes;
use crate::import_attributes::dynamic_attributes;
use crate::import_attributes::expr_attributes;
use crate::import_attributes::is_assert;
use crate::import_attributes::is_with;
use crate::import_attributes::last_that_counts;
use crate::import_attributes::literal_attributes;
use crate::import_attributes::obscures;
use crate::import_attributes::prop_key;
use crate::import_attributes::prop_value;
use crate::import_attributes::string_attributes;
use crate::syntax::Expr;
use crate::syntax::ExprOrSpread;
use crate::syntax::Lit;
use crate::syntax::ObjectLit;
use crate::syntax::Prop;
use crate::syntax::PropName;
use crate::syntax::PropOrSpread;

verus! {

/// Whether a property puts a value under a name, which is written as a name or as a string.
pub open spec fn assigns(prop: PropOrSpread, name: Seq<char>, value: Expr) -> bool {
    prop matches PropOrSpread::Prop(Prop::KeyValue(pair)) && pair.value == value && (
    match pair.key {
        PropName::Ident(text) => text@ == name,
        PropName::Str(text) => text@ == name,
        PropName::Other => false,
    })
}

/// Whether a property puts some value under a name.
pub open spec fn is_named(prop: PropOrSpread, name: Seq<char>) -> bool {
    exists|value: Expr| #[trigger] assigns(prop, name, value)
}

/// Whether a property puts some string under a name.
pub open spec fn is_named_string(prop: PropOrSpread, name: Seq<char>) -> bool {
    exists|text: String| #[trigger] assigns(prop, name, Expr::Lit(Lit::Str(text)))
}

/// Whether a property puts nothing under any name.
pub open spec fn is_nameless(prop: PropOrSpread) -> bool {
    forall|name: Seq<char>| !(#[trigger] is_named(prop, name))
}

proof fn lemma_named(prop: PropOrSpread, name: Seq<char>)
    ensures
        is_named(prop, name) <==> prop_key(prop) == Some(name),
        is_named_string(prop, name) <==> prop_key(prop) == Some(name) && (
        prop_value(prop) matches Expr::Lit(Lit::Str(_))),
        is_named(prop, name) ==> assigns(prop, name, prop_value(prop)),
        forall|value: Expr| #[trigger] assigns(prop, name, value) ==> value == prop_value(prop),
{
    if prop_key(prop) == Some(name) {
        assert(assigns(prop, name, prop_value(prop)));
        if let Expr::Lit(Lit::Str(text)) = prop_value(prop) {
            assert(assigns(prop, name, Expr::Lit(Lit::Str(text))));
        }
    }
}

proof fn lemma_nameless(prop: PropOrSpread)
    ensures
        is_nameless(prop) <==> prop_key(prop) is None,
{
    assert forall|name: Seq<char>| #[trigger]
        is_named(prop, name) == (prop_key(prop) == Some(name)) by {
        lemma_named(prop, name);
    }
    if let Some(name) = prop_key(prop) {
        assert(is_named(prop, name));
    }
}

proof fn lemma_string_attributes(props: Seq<PropOrSpread>, name: Seq<char>)
    ensures
        string_attributes(props).contains_key(name) <==> exists|i: int|
            0 <= i < props.len() && is_named_string(#[trigger] props[i], name),
    decreases props.len(),
{
    if props.len() > 0 {
        let front = props.drop_last();
        lemma_string_attributes(front, name);
        lemma_named(props.last(), name);
        if string_attributes(front).contains_key(name) {
            let i = choose|i: int|
                0 <= i < front.len() && is_named_string(#[trigger] front[i], name);
            assert(is_named_string(props[i], name));
        }
        if is_named_string(props.last(), name) {
            assert(is_named_string(props[props.len() - 1], name));
        }
        if exists|i: int| 0 <= i < props.len() && is_named_string(#[trigger] props[i], name) {
            let i = choose|i: int|
                0 <= i < props.len() && is_named_string(#[trigger] props[i], name);
            if i < front.len() {
                assert(is_named_string(front[i], name));
            }
        }
    }
}

proof fn lemma_last_string(props: Seq<PropOrSpread>, name: Seq<char>, i: int, text: String)
    requires
        0 <= i < props.len(),
        assigns(props[i], name, Expr::Lit(Lit::Str(text))),
        forall|j: int| i < j < props.len() ==> !is_named_string(#[trigger] props[j], name),
    ensures
        string_attributes(props).contains_key(name),
        string_attributes(props)[name] == ImportAttributeView::Known(text@),
    decreases props.len(),
{
    lemma_named(props[i], name);
    if i < props.len() - 1 {
        let front = props.drop_last();
        assert forall|j: int| i < j < front.len() implies !is_named_string(
            #[trigger] front[j],
            name,
        ) by {
            assert(front[j] == props[j]);
        }
        assert(!is_named_string(props[props.len() - 1], name));
        lemma_named(props.last(), name);
        lemma_last_string(front, name, i, text);
    }
}

/// The attributes of a declaration are there exactly where it has a `with`. They have a name
/// exactly where some property puts a string under it, and the last such string is the value.
pub proof fn law_declared_attributes_are_the_named_strings(
    lit: ObjectLit,
    name: Seq<char>,
    i: int,
    text: String,
)
    ensures
        declared_attributes(None) is Absent,
        declared_attributes(Some(lit)) is Known,
        (declared_attributes(Some(lit))->Known_0).contains_key(name) <==> exists|j: int|
            0 <= j < lit.props@.len() && is_named_string(#[trigger] lit.props@[j], name),
        0 <= i < lit.props@.len() && assigns(lit.props@[i], name, Expr::Lit(Lit::Str(text))) && (
        forall|j: int|
            i < j < lit.props@.len() ==> !is_named_string(#[trigger] lit.props@[j], name)) ==> (
        declared_attributes(Some(lit))->Known_0)[name] == ImportAttributeView::Known(text@),
{
    lemma_string_attributes(lit.props@, name);
    if 0 <= i < lit.props@.len() && assigns(lit.props@[i], name, Expr::Lit(Lit::Str(text))) && (
    forall|j: int|
        i < j < lit.props@.len() ==> !is_named_string(#[trigger] lit.props@[j], name)) {
        lemma_last_string(lit.props@, name, i, text);
    }
}

proof fn lemma_all_attributes(props: Seq<PropOrSpread>, name: Seq<char>)
    requires
        all_keyed(props),
    ensures
        all_attributes(props).contains_key(name) <==> exists|i: int|
            0 <= i < props.len() && is_named(#[trigger] props[i], name),
    decreases props.len(),
{
    if props.len() > 0 {
        let front = props.drop_last();
        assert(all_keyed(front)) by {
            assert forall|i: int| 0 <= i < front.len() implies prop_key(
                #[trigger] front[i],
            ) is Some by {
                assert(front[i] == props[i]);
            }
        }
        lemma_all_attributes(front, name);
        lemma_named(props.last(), name);
        assert(prop_key(props[props.len() - 1]) is Some);
        if all_attributes(front).contains_key(name) {
            let i = choose|i: int| 0 <= i < front.len() && is_named(#[trigger] front[i], name);
            assert(is_named(props[i], name));
        }
        if is_named(props.last(), name) {
            assert(is_named(props[props.len() - 1], name));
        }
        if exists|i: int| 0 <= i < props.len() && is_named(#[trigger] props[i], name) {
            let i = choose|i: int| 0 <= i < props.len() && is_named(#[trigger] props[i], name);
            if i < front.len() {
                assert(is_named(front[i], name));
            }
        }
    }
}

proof fn lemma_last_value(props: Seq<PropOrSpread>, name: Seq<char>, i: int, value: Expr)
    requires
        all_keyed(props),
        0 <= i < props.len(),
        assigns(props[i], name, value),
        forall|j: int| i < j < props.len() ==> !is_named(#[trigger] props[j], name),
    ensures
        all_attributes(props).contains_key(name),
        all_attributes(props)[name] == (match value {
            Expr::Lit(Lit::Str(text)) => ImportAttributeView::Known(text@),
            _ => ImportAttributeView::Unknown,
        }),
    decreases props.len(),
{
    lemma_named(props[i], name);
    if i < props.len() - 1 {
        let front = props.drop_last();
        assert(all_keyed(front)) by {
            assert forall|j: int| 0 <= j < front.len() implies prop_key(
                #[trigger] front[j],
            ) is Some by {
                assert(front[j] == props[j]);
            }
        }
        assert forall|j: int| i < j < front.len() implies !is_named(#[trigger] front[j], name) by {
            assert(front[j] == props[j]);
        }
        assert(!is_named(props[props.len() - 1], name));
        assert(prop_key(props[props.len() - 1]) is Some);
        lemma_named(props.last(), name);
        lemma_last_value(front, name, i, value);
    }
}

/// The attributes of an object are unknown exactly where some property puts nothing under a name.
/// Otherwise they have each name that a property puts a value under, and the last value counts: a
/// string is known, all else is not.
pub proof fn law_object_attributes_are_the_named_values(
    lit: ObjectLit,
    name: Seq<char>,
    i: int,
    value: Expr,
)
    ensures
        literal_attributes(lit) is Unknown <==> exists|j: int|
            0 <= j < lit.props@.len() && is_nameless(#[trigger] lit.props@[j]),
        literal_attributes(lit) is Unknown || literal_attributes(lit) is Known,
        literal_attributes(lit) matches ImportAttributesView::Known(attributes) ==> {
            &&& attributes.contains_key(name) <==> exists|j: int|
                0 <= j < lit.props@.len() && is_named(#[trigger] lit.props@[j], name)
            &&& 0 <= i < lit.props@.len() && assigns(lit.props@[i], name, value) && (forall|j: int|
                i < j < lit.props@.len() ==> !is_named(#[trigger] lit.props@[j], name))
                ==> attributes[name] == (match value {
                Expr::Lit(Lit::Str(text)) => ImportAttributeView::Known(text@),
                _ => ImportAttributeView::Unknown,
            })
        },
{
    let props = lit.props@;
    assert forall|j: int| 0 <= j < props.len() implies is_nameless(#[trigger] props[j]) == (
    prop_key(props[j]) is None) by {
        lemma_nameless(props[j]);
    }
    if !all_keyed(props) {
        let j = choose|j: int| 0 <= j < props.len() && prop_key(#[trigger] props[j]) is None;
        assert(is_nameless(props[j]));
    } else {
        lemma_all_attributes(props, name);
        if 0 <= i < props.len() && assigns(props[i], name, value) && (forall|j: int|
            i < j < props.len() ==> !is_named(#[trigger] props[j], name)) {
            lemma_last_value(props, name, i, value);
        }
    }
}

/// Whether the value of a property is read for the attributes of a dynamic import: it is named
/// `with`, or it is named `assert` and none named `with` stands before it.
pub open spec fn is_read(props: Seq<PropOrSpread>, i: int) -> bool {
    is_named(props[i], "with"@) || (is_named(props[i], "assert"@) && forall|j: int|
        0 <= j < i ==> !is_named(#[trigger] props[j], "with"@))
}

/// Whether a property puts under a name an object whose attributes are known.
pub open spec fn holds_attributes(prop: PropOrSpread, name: Seq<char>) -> bool {
    exists|lit: ObjectLit| #[trigger]
        assigns(prop, name, Expr::Object(lit)) && literal_attributes(lit) is Known
}

/// Whether a property is one that the attributes of a dynamic import cannot be known with.
pub open spec fn is_unclear(props: Seq<PropOrSpread>, i: int) -> bool {
    is_nameless(props[i]) || (is_read(props, i) && !holds_attributes(props[i], "with"@)
        && !holds_attributes(props[i], "assert"@))
}

proof fn lemma_option_names(prop: PropOrSpread)
    ensures
        is_named(prop, "with"@) <==> is_with(prop),
        is_named(prop, "assert"@) <==> is_assert(prop),
        !(is_with(prop) && is_assert(prop)),
{
    reveal_strlit("with");
    reveal_strlit("assert");
    assert("with"@ =~= seq!['w', 'i', 't', 'h']);
    assert("assert"@ =~= seq!['a', 's', 's', 'e', 'r', 't']);
    assert("with"@.len() != "assert"@.len());
    lemma_named(prop, "with"@);
    lemma_named(prop, "assert"@);
}

proof fn lemma_holds_attributes(prop: PropOrSpread, name: Seq<char>)
    ensures
        holds_attributes(prop, name) <==> is_named(prop, name) && expr_attributes(
            prop_value(prop),
        ) is Some,
{
    lemma_named(prop, name);
    if is_named(prop, name) && expr_attributes(prop_value(prop)) is Some {
        let lit = prop_value(prop)->Object_0;
        assert(assigns(prop, name, Expr::Object(lit)) && literal_attributes(lit) is Known);
    }
}

proof fn lemma_option(props: Seq<PropOrSpread>, i: int)
    requires
        0 <= i < props.len(),
    ensures
        is_read(props, i) == counts(props, i),
        is_unclear(props, i) == obscures(props, i),
{
    lemma_option_names(props[i]);
    lemma_nameless(props[i]);
    lemma_holds_attributes(props[i], "with"@);
    lemma_holds_attributes(props[i], "assert"@);
    assert forall|j: int| 0 <= j < i implies is_named(#[trigger] props[j], "with"@) == is_with(
        props[j],
    ) by {
        lemma_option_names(props[j]);
    }
    if counts(props, i) && !is_with(props[i]) {
        assert forall|j: int| 0 <= j < i implies !is_named(#[trigger] props[j], "with"@) by {
            assert(!is_with(props[j]));
        }
    }
    if is_read(props, i) && !is_with(props[i]) {
        assert forall|j: int| 0 <= j < i implies !is_with(#[trigger] props[j]) by {
            assert(!is_named(props[j], "with"@));
        }
    }
}

proof fn lemma_last_that_counts(props: Seq<PropOrSpread>, n: int)
    requires
        0 <= n <= props.len(),
    ensures
        last_that_counts(props, n) matches Some(i) ==> 0 <= i < n && counts(props, i),
        last_that_counts(props, n) matches Some(i) ==> forall|j: int|
            i < j < n ==> !(#[trigger] counts(props, j)),
        last_that_counts(props, n) is None ==> forall|j: int|
            0 <= j < n ==> !(#[trigger] counts(props, j)),
    decreases n,
{
    if n > 0 {
        lemma_last_that_counts(props, n - 1);
    }
}

/// A dynamic import without options has no attributes, and one whose options are not an object has
/// unknown ones. Those of an object are unknown exactly where some property is unclear; they are
/// absent exactly where none is and no property is read; and otherwise they are those of the last
/// property that is read.
pub proof fn law_dynamic_attributes_are_those_of_the_last_option(
    arg: ExprOrSpread,
    lit: ObjectLit,
    i: int,
    value: ObjectLit,
)
    ensures
        dynamic_attributes(None) is Absent,
        arg.spread ==> dynamic_attributes(Some(arg)) is Unknown,
        arg.expr !is Object ==> dynamic_attributes(Some(arg)) is Unknown,
        !arg.spread && arg.expr == Expr::Object(lit) ==> {
            let props = lit.props@;
            let attributes = dynamic_attributes(Some(arg));
            let unclear = exists|j: int| 0 <= j < props.len() && #[trigger] is_unclear(props, j);
            &&& attributes is Unknown <==> unclear
            &&& attributes is Absent <==> !unclear && forall|j: int|
                0 <= j < props.len() ==> !(#[trigger] is_read(props, j))
            &&& !unclear && 0 <= i < props.len() && is_read(props, i) && (forall|j: int|
                i < j < props.len() ==> !(#[trigger] is_read(props, j))) && (assigns(
                props[i],
                "with"@,
                Expr::Object(value),
            ) || assigns(props[i], "assert"@, Expr::Object(value))) ==> attributes
                == literal_attributes(value)
        },
{
    if !arg.spread && arg.expr == Expr::Object(lit) {
        let props = lit.props@;
        let n = props.len() as int;
        assert forall|j: int| 0 <= j < n implies #[trigger] is_read(props, j) == counts(
            props,
            j,
        ) by {
            lemma_option(props, j);
        }
        assert forall|j: int| 0 <= j < n implies #[trigger] is_unclear(props, j) == obscures(
            props,
            j,
        ) by {
            lemma_option(props, j);
        }
        lemma_last_that_counts(props, n);
        if exists|j: int| 0 <= j < n && #[trigger] obscures(props, j) {
            let j = choose|j: int| 0 <= j < n && #[trigger] obscures(props, j);
            assert(is_unclear(props, j));
        } else {
            assert forall|j: int| 0 <= j < n implies !(#[trigger] is_unclear(props, j)) by {
                assert(!obscures(props, j));
            }
            match last_that_counts(props, n) {
                Some(last) => {
                    assert(is_read(props, last));
                    assert(!obscures(props, last));
                    if 0 <= i < n && is_read(props, i) && (forall|j: int|
                        i < j < n ==> !(#[trigger] is_read(props, j))) {
                        assert(counts(props, i));
                        assert(i == last);
                        lemma_named(props[i], "with"@);
                        lemma_named(props[i], "assert"@);
                    }
                },
                None => {
                    assert forall|j: int| 0 <= j < n implies !(#[trigger] is_read(props, j)) by {
                        assert(!counts(props, j));
                    }
                },
            }
        }
    }
}

} // verus!
