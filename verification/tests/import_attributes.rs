use deno_graph::analysis::ImportAttribute;
use deno_graph::analysis::ImportAttributes;
use deno_graph::import_attributes::parse_dynamic_import_attributes;
use deno_graph::import_attributes::parse_import_attributes;
use deno_graph::import_attributes::parse_import_attributes_from_object_lit;
use deno_graph::ordered_map::OrderedMap;
use deno_graph::syntax::Expr;
use deno_graph::syntax::ExprOrSpread;
use deno_graph::syntax::KeyValueProp;
use deno_graph::syntax::Lit;
use deno_graph::syntax::ObjectLit;
use deno_graph::syntax::Prop;
use deno_graph::syntax::PropName;
use deno_graph::syntax::PropOrSpread;
use deno_graph::syntax::SourceRange;

fn string(text: &str) -> Expr {
    Expr::Lit(Lit::Str(text.to_string()))
}

fn named(name: &str, value: Expr) -> PropOrSpread {
    PropOrSpread::Prop(Prop::KeyValue(KeyValueProp {
        key: PropName::Ident(name.to_string()),
        value,
    }))
}

fn quoted(name: &str, value: Expr) -> PropOrSpread {
    PropOrSpread::Prop(Prop::KeyValue(KeyValueProp {
        key: PropName::Str(name.to_string()),
        value,
    }))
}

fn computed(value: Expr) -> PropOrSpread {
    PropOrSpread::Prop(Prop::KeyValue(KeyValueProp { key: PropName::Other, value }))
}

fn object(props: Vec<PropOrSpread>) -> ObjectLit {
    ObjectLit { props }
}

fn known(entries: &[(&str, ImportAttribute)]) -> ImportAttributes {
    let mut map = OrderedMap::new();
    for (name, value) in entries {
        map.insert(name.to_string(), value.clone());
    }
    ImportAttributes::Known(map)
}

fn text(value: &str) -> ImportAttribute {
    ImportAttribute::Known(value.to_string())
}

fn dynamic(props: Vec<PropOrSpread>) -> ImportAttributes {
    parse_dynamic_import_attributes(Some(&ExprOrSpread {
        spread: false,
        expr: Expr::Object(object(props)),
        range: SourceRange { start: 1, end: 2 },
    }))
}

#[test]
fn declared_attributes_are_strings() {
    let attrs = object(vec![
        named("type", string("json")),
        quoted("other", Expr::Lit(Lit::Other)),
        PropOrSpread::Spread,
        PropOrSpread::Prop(Prop::Other),
        computed(string("skipped")),
        quoted("resolution-mode", string("import")),
        named("expr", Expr::Other),
    ]);
    assert_eq!(
        parse_import_attributes(Some(&attrs)),
        known(&[("resolution-mode", text("import")), ("type", text("json"))])
    );
    assert_eq!(parse_import_attributes(None), ImportAttributes::Absent);
    assert_eq!(parse_import_attributes(Some(&object(vec![]))), known(&[]));
}

#[test]
fn last_declared_string_counts() {
    let attrs = object(vec![
        named("type", string("first")),
        quoted("type", string("second")),
        named("type", Expr::Other),
    ]);
    assert_eq!(parse_import_attributes(Some(&attrs)), known(&[("type", text("second"))]));
}

#[test]
fn attributes_of_an_object() {
    assert_eq!(
        parse_import_attributes_from_object_lit(&object(vec![
            named("a", string("x")),
            quoted("b", Expr::Lit(Lit::Other)),
            named("c", Expr::Ident("d".to_string())),
        ])),
        known(&[
            ("a", text("x")),
            ("b", ImportAttribute::Unknown),
            ("c", ImportAttribute::Unknown),
        ])
    );
    assert_eq!(
        parse_import_attributes_from_object_lit(&object(vec![
            named("type", string("first")),
            named("type", Expr::Other),
        ])),
        known(&[("type", ImportAttribute::Unknown)])
    );
}

#[test]
fn attributes_of_an_object_that_is_not_understood() {
    for prop in [
        PropOrSpread::Spread,
        PropOrSpread::Prop(Prop::Other),
        computed(string("x")),
    ] {
        assert_eq!(
            parse_import_attributes_from_object_lit(&object(vec![
                named("type", string("json")),
                prop
            ])),
            ImportAttributes::Unknown
        );
    }
}

#[test]
fn no_second_argument() {
    assert_eq!(parse_dynamic_import_attributes(None), ImportAttributes::Absent);
}

#[test]
fn second_argument_that_is_not_understood() {
    let range = SourceRange { start: 1, end: 2 };
    assert_eq!(
        parse_dynamic_import_attributes(Some(&ExprOrSpread {
            spread: true,
            expr: Expr::Object(object(vec![])),
            range,
        })),
        ImportAttributes::Unknown
    );
    assert_eq!(
        parse_dynamic_import_attributes(Some(&ExprOrSpread {
            spread: false,
            expr: string("with"),
            range,
        })),
        ImportAttributes::Unknown
    );
}

fn typed(value: &str) -> Expr {
    Expr::Object(object(vec![named("type", string(value))]))
}

#[test]
fn with_goes_before_assert() {
    let json = known(&[("type", text("json"))]);
    assert_eq!(dynamic(vec![named("assert", typed("json"))]), json);
    assert_eq!(dynamic(vec![named("assert", typed("css")), named("with", typed("json"))]), json);
    assert_eq!(dynamic(vec![named("with", typed("json")), named("assert", typed("css"))]), json);
    assert_eq!(dynamic(vec![quoted("with", typed("css")), named("with", typed("json"))]), json);
    assert_eq!(
        dynamic(vec![named("assert", typed("css")), named("assert", typed("json"))]),
        json
    );
}

#[test]
fn assert_behind_with_is_not_looked_at() {
    assert_eq!(
        dynamic(vec![named("with", typed("json")), named("assert", Expr::Other)]),
        known(&[("type", text("json"))])
    );
    assert_eq!(
        dynamic(vec![named("assert", Expr::Other), named("with", typed("json"))]),
        ImportAttributes::Unknown
    );
}

#[test]
fn other_options_are_no_attributes() {
    assert_eq!(dynamic(vec![]), ImportAttributes::Absent);
    assert_eq!(dynamic(vec![named("type", typed("json"))]), ImportAttributes::Absent);
    assert_eq!(
        dynamic(vec![named("with", typed("json")), PropOrSpread::Prop(Prop::Other)]),
        ImportAttributes::Unknown
    );
}

#[test]
fn default_attributes() {
    assert_eq!(ImportAttributes::default(), ImportAttributes::Absent);
}
