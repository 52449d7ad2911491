use deno_ast::swc::ast;
use deno_ast::swc::ecma_visit::Visit;
use deno_ast::swc::ecma_visit::VisitWith;
use deno_ast::MediaType;
use deno_ast::ModuleSpecifier;
use deno_ast::ParseParams;
use deno_ast::ParsedSource;
use deno_ast::ProgramRef;
use deno_ast::SourceRangedForSpanned;
use deno_graph::analysis::DynamicDependencyKind;
use deno_graph::analysis::ImportAttribute;
use deno_graph::analysis::ImportAttributes;
use deno_graph::analysis::StaticDependencyKind;
use deno_graph::comments::CommentKind;
use deno_graph::comments::DependencyComment;
use deno_graph::dep::analyze_program_dependencies;
use deno_graph::dep::templates_have_values;
use deno_graph::dep::DependencyDescriptor;
use deno_graph::dep::DynamicArgument;
use deno_graph::dep::DynamicDependencyDescriptor;
use deno_graph::dep::DynamicTemplatePart;
use deno_graph::dep::StaticDependencyDescriptor;
use deno_graph::ordered_map::OrderedMap;
use deno_graph::syntax;
use deno_graph::syntax::SourceRange;

/// Takes over from a syntax tree the nodes that may state a dependency.
struct NodeCollector {
    nodes: Vec<syntax::Node>,
}

fn nodes_below<T: VisitWith<NodeCollector>>(node: &T) -> Vec<syntax::Node> {
    let mut collector = NodeCollector { nodes: Vec::new() };
    node.visit_children_with(&mut collector);
    collector.nodes
}

fn range_of<T: SourceRangedForSpanned>(node: &T) -> SourceRange {
    SourceRange {
        start: node.start().as_byte_pos().0,
        end: node.end().as_byte_pos().0,
    }
}

fn str_of(str: &ast::Str) -> syntax::Str {
    syntax::Str { value: str.value.to_string(), range: range_of(str) }
}

fn expr_of(expr: &ast::Expr) -> syntax::Expr {
    match expr {
        ast::Expr::Ident(ident) => syntax::Expr::Ident(ident.sym.to_string()),
        ast::Expr::Lit(ast::Lit::Str(str)) => {
            syntax::Expr::Lit(syntax::Lit::Str(str.value.to_string()))
        }
        ast::Expr::Lit(_) => syntax::Expr::Lit(syntax::Lit::Other),
        ast::Expr::Tpl(tpl) => syntax::Expr::Tpl(syntax::Tpl {
            quasis: tpl
                .quasis
                .iter()
                .map(|quasi| quasi.cooked.as_ref().map(|cooked| cooked.to_string()))
                .collect(),
            expr_count: tpl.exprs.len(),
        }),
        ast::Expr::Bin(bin) => syntax::Expr::Bin(Box::new(syntax::BinExpr {
            op: if bin.op == ast::BinaryOp::Add {
                syntax::BinaryOp::Add
            } else {
                syntax::BinaryOp::Other
            },
            left: expr_of(&bin.left),
            right: expr_of(&bin.right),
        })),
        ast::Expr::Object(object) => syntax::Expr::Object(object_of(object)),
        _ => syntax::Expr::Other,
    }
}

fn object_of(object: &ast::ObjectLit) -> syntax::ObjectLit {
    syntax::ObjectLit {
        props: object
            .props
            .iter()
            .map(|prop| match prop {
                ast::PropOrSpread::Spread(_) => syntax::PropOrSpread::Spread,
                ast::PropOrSpread::Prop(prop) => syntax::PropOrSpread::Prop(match &**prop {
                    ast::Prop::KeyValue(key_value) => {
                        syntax::Prop::KeyValue(syntax::KeyValueProp {
                            key: match &key_value.key {
                                ast::PropName::Ident(ident) => {
                                    syntax::PropName::Ident(ident.sym.to_string())
                                }
                                ast::PropName::Str(str) => {
                                    syntax::PropName::Str(str.value.to_string())
                                }
                                _ => syntax::PropName::Other,
                            },
                            value: expr_of(&key_value.value),
                        })
                    }
                    _ => syntax::Prop::Other,
                }),
            })
            .collect(),
    }
}

impl Visit for NodeCollector {
    fn visit_import_decl(&mut self, node: &ast::ImportDecl) {
        self.nodes.push(syntax::Node::ImportDecl(syntax::ImportDecl {
            range: range_of(node),
            src: str_of(&node.src),
            type_only: node.type_only,
            specifier_count: node.specifiers.len(),
            with: node.with.as_deref().map(object_of),
        }));
    }

    fn visit_named_export(&mut self, node: &ast::NamedExport) {
        self.nodes.push(syntax::Node::NamedExport(syntax::NamedExport {
            range: range_of(node),
            src: node.src.as_deref().map(str_of),
            type_only: node.type_only,
            with: node.with.as_deref().map(object_of),
        }));
    }

    fn visit_export_all(&mut self, node: &ast::ExportAll) {
        self.nodes.push(syntax::Node::ExportAll(syntax::ExportAll {
            range: range_of(node),
            src: str_of(&node.src),
            type_only: node.type_only,
            with: node.with.as_deref().map(object_of),
        }));
    }

    fn visit_ts_import_type(&mut self, node: &ast::TsImportType) {
        let children = nodes_below(node);
        self.nodes.push(syntax::Node::TsImportType(syntax::TsImportType {
            range: range_of(node),
            arg: str_of(&node.arg),
            attributes: node.attributes.as_ref().map(|options| object_of(&options.with)),
            children,
        }));
    }

    fn visit_call_expr(&mut self, node: &ast::CallExpr) {
        let children = nodes_below(node);
        self.nodes.push(syntax::Node::CallExpr(syntax::CallExpr {
            range: range_of(node),
            callee: match &node.callee {
                ast::Callee::Super(_) => syntax::Callee::Super,
                ast::Callee::Import(_) => syntax::Callee::Import,
                ast::Callee::Expr(expr) => syntax::Callee::Expr(expr_of(expr)),
            },
            args: node
                .args
                .iter()
                .map(|arg| syntax::ExprOrSpread {
                    spread: arg.spread.is_some(),
                    expr: expr_of(&arg.expr),
                    range: range_of(arg),
                })
                .collect(),
            children,
        }));
    }

    fn visit_ts_import_equals_decl(&mut self, node: &ast::TsImportEqualsDecl) {
        self.nodes.push(syntax::Node::TsImportEqualsDecl(syntax::TsImportEqualsDecl {
            range: range_of(node),
            is_type_only: node.is_type_only,
            is_export: node.is_export,
            module_ref: match &node.module_ref {
                ast::TsModuleRef::TsEntityName(_) => syntax::TsModuleRef::TsEntityName,
                ast::TsModuleRef::TsExternalModuleRef(module) => {
                    syntax::TsModuleRef::TsExternalModuleRef(str_of(&module.expr))
                }
            },
        }));
    }
}

fn program_of(program: ProgramRef) -> syntax::Program {
    syntax::Program {
        body: match program {
            ProgramRef::Module(module) => nodes_below(module),
            ProgramRef::Script(script) => nodes_below(script),
        },
    }
}

fn parse(specifier: &str, source: &str) -> ParsedSource {
    deno_ast::parse_module(ParseParams {
        specifier: ModuleSpecifier::parse(specifier).unwrap(),
        text: source.into(),
        media_type: MediaType::Tsx,
        capture_tokens: false,
        scope_analysis: false,
        maybe_syntax: None,
    })
    .unwrap()
}

fn helper(specifier: &str, source: &str) -> (u32, Vec<DependencyDescriptor>) {
    let source = parse(specifier, source);
    let program = program_of(source.program_ref());
    assert!(templates_have_values(&program.body));
    (
        source.program_ref().start().as_byte_pos().0,
        analyze_program_dependencies(&program, source.comments()),
    )
}

fn range(start_pos: u32, start: u32, end: u32) -> SourceRange {
    SourceRange { start: start_pos + start, end: start_pos + end }
}

#[test]
fn test_parsed_module_get_dependencies() {
    let source = r#"import * as bar from "./test.ts";
/** JSDoc */
import type { Foo } from "./foo.d.ts";
/// <reference foo="bar" />
export * as Buzz from "./buzz.ts";
// @some-pragma
/**
 * Foo
 */
export type { Fizz } from "./fizz.d.ts";
const { join } = require("path");
// dynamic
await import("./foo1.ts");
try {
    const foo = await import("./foo.ts");
} catch (e) {
    // pass
}
try {
    const foo = require("some_package");
} catch (e) {
    // pass
}
import foo2 = require("some_package_foo");
import type FooType = require('some_package_foo_type');
export import bar2 = require("some_package_bar");
const foo3 = require.resolve("some_package_resolve");
try {
    const foo4 = require.resolve("some_package_resolve_foo");
} catch (e) {
    // pass
}
      "#;
    let (start_pos, dependencies) = helper("file:///test.ts", source);
    assert_eq!(
        dependencies,
        vec![
            StaticDependencyDescriptor {
                kind: StaticDependencyKind::Import,
                leading_comments: Vec::new(),
                range: range(start_pos, 0, 33),
                specifier: "./test.ts".to_string(),
                specifier_range: range(start_pos, 21, 32),
                import_attributes: Default::default(),
                is_side_effect: false,
            }
            .into(),
            StaticDependencyDescriptor {
                kind: StaticDependencyKind::ImportType,
                leading_comments: vec![DependencyComment {
                    kind: CommentKind::Block,
                    text: r#"* JSDoc "#.into(),
                    range: range(start_pos, 34, 46),
                }],
                range: range(start_pos, 47, 85),
                specifier: "./foo.d.ts".to_string(),
                specifier_range: range(start_pos, 72, 84),
                import_attributes: Default::default(),
                is_side_effect: false,
            }
            .into(),
            StaticDependencyDescriptor {
                kind: StaticDependencyKind::Export,
                leading_comments: vec![DependencyComment {
                    kind: CommentKind::Line,
                    text: r#"/ <reference foo="bar" />"#.into(),
                    range: range(start_pos, 86, 113),
                }],
                range: range(start_pos, 114, 148),
                specifier: "./buzz.ts".to_string(),
                specifier_range: range(start_pos, 136, 147),
                import_attributes: Default::default(),
                is_side_effect: false,
            }
            .into(),
            StaticDependencyDescriptor {
                kind: StaticDependencyKind::ExportType,
                leading_comments: vec![
                    DependencyComment {
                        kind: CommentKind::Line,
                        text: r#" @some-pragma"#.into(),
                        range: range(start_pos, 149, 164),
                    },
                    DependencyComment {
                        kind: CommentKind::Block,
                        text: "*\n * Foo\n ".into(),
                        range: range(start_pos, 165, 179),
                    }
                ],
                range: range(start_pos, 180, 220),
                specifier: "./fizz.d.ts".to_string(),
                specifier_range: range(start_pos, 206, 219),
                import_attributes: Default::default(),
                is_side_effect: false,
            }
            .into(),
            DynamicDependencyDescriptor {
                leading_comments: Vec::new(),
                range: range(start_pos, 238, 253),
                argument: DynamicArgument::String("path".to_string()),
                argument_range: range(start_pos, 246, 252),
                import_attributes: Default::default(),
                kind: DynamicDependencyKind::Require,
            }
            .into(),
            DynamicDependencyDescriptor {
                kind: DynamicDependencyKind::Import,
                leading_comments: Vec::new(),
                range: range(start_pos, 272, 291),
                argument: DynamicArgument::String("./foo1.ts".to_string()),
                argument_range: range(start_pos, 279, 290),
                import_attributes: Default::default(),
            }
            .into(),
            DynamicDependencyDescriptor {
                kind: DynamicDependencyKind::Import,
                leading_comments: Vec::new(),
                range: range(start_pos, 321, 339),
                argument: DynamicArgument::String("./foo.ts".to_string()),
                argument_range: range(start_pos, 328, 338),
                import_attributes: Default::default(),
            }
            .into(),
            DynamicDependencyDescriptor {
                kind: DynamicDependencyKind::Require,
                leading_comments: Vec::new(),
                range: range(start_pos, 391, 414),
                argument: DynamicArgument::String("some_package".to_string()),
                argument_range: range(start_pos, 399, 413),
                import_attributes: Default::default(),
            }
            .into(),
            StaticDependencyDescriptor {
                kind: StaticDependencyKind::ImportEquals,
                leading_comments: Vec::new(),
                range: range(start_pos, 444, 486),
                specifier: "some_package_foo".to_string(),
                specifier_range: range(start_pos, 466, 484),
                import_attributes: Default::default(),
                is_side_effect: false,
            }
            .into(),
            StaticDependencyDescriptor {
                kind: StaticDependencyKind::ImportType,
                leading_comments: Vec::new(),
                range: range(start_pos, 487, 542),
                specifier: "some_package_foo_type".to_string(),
                specifier_range: range(start_pos, 517, 540),
                import_attributes: Default::default(),
                is_side_effect: false,
            }
            .into(),
            StaticDependencyDescriptor {
                kind: StaticDependencyKind::ExportEquals,
                leading_comments: Vec::new(),
                range: range(start_pos, 543, 592),
                specifier: "some_package_bar".to_string(),
                specifier_range: range(start_pos, 572, 590),
                import_attributes: Default::default(),
                is_side_effect: false,
            }
            .into(),
        ]
    );
}

#[test]
fn test_import_attributes() {
    let source = r#"import * as bar from "./test.ts" with { "type": "typescript" };
export * from "./test.ts" with { "type": "typescript" };
export { bar } from "./test.json" with { "type": "json" };
import foo from "./foo.json" with { type: "json" };
const fizz = await import("./fizz.json", { "with": { type: "json" } });
const buzz = await import("./buzz.json", { with: { "type": "json" } });
const d1 = await import("./d1.json");
const d2 = await import("./d2.json", {});
const d3 = await import("./d3.json", bar);
const d4 = await import("./d4.json", { with: {} });
const d5 = await import("./d5.json", { with: bar });
const d6 = await import("./d6.json", { with: {}, ...bar });
const d7 = await import("./d7.json", { with: {}, ["assert"]: "bad" });
const d8 = await import("./d8.json", { with: { type: bar } });
const d9 = await import("./d9.json", { with: { type: "json", ...bar } });
const d10 = await import("./d10.json", { with: { type: "json", ["type"]: "bad" } });
      "#;
    let (start_pos, dependencies) = helper("file:///test.ts", source);
    let expected_attributes1 = ImportAttributes::Known({
        let mut map = OrderedMap::new();
        map.insert(
            "type".to_string(),
            ImportAttribute::Known("typescript".to_string()),
        );
        map
    });
    let expected_attributes2 = ImportAttributes::Known({
        let mut map = OrderedMap::new();
        map.insert(
            "type".to_string(),
            ImportAttribute::Known("json".to_string()),
        );
        map
    });
    let dynamic_expected_attributes2 = ImportAttributes::Known({
        let mut map = OrderedMap::new();
        map.insert(
            "type".to_string(),
            ImportAttribute::Known("json".to_string()),
        );
        map
    });
    assert_eq!(
        dependencies,
        vec![
            StaticDependencyDescriptor {
                kind: StaticDependencyKind::Import,
                leading_comments: Vec::new(),
                range: range(start_pos, 0, 63),
                specifier: "./test.ts".to_string(),
                specifier_range: range(start_pos, 21, 32),
                import_attributes: expected_attributes1.clone(),
                is_side_effect: false,
            }
            .into(),
            StaticDependencyDescriptor {
                kind: StaticDependencyKind::Export,
                leading_comments: Vec::new(),
                range: range(start_pos, 64, 120),
                specifier: "./test.ts".to_string(),
                specifier_range: range(start_pos, 78, 89),
                import_attributes: expected_attributes1,
                is_side_effect: false,
            }
            .into(),
            StaticDependencyDescriptor {
                kind: StaticDependencyKind::Export,
                leading_comments: Vec::new(),
                range: range(start_pos, 121, 179),
                specifier: "./test.json".to_string(),
                specifier_range: range(start_pos, 141, 154),
                import_attributes: expected_attributes2.clone(),
                is_side_effect: false,
            }
            .into(),
            StaticDependencyDescriptor {
                kind: StaticDependencyKind::Import,
                leading_comments: Vec::new(),
                range: range(start_pos, 180, 231),
                specifier: "./foo.json".to_string(),
                specifier_range: range(start_pos, 196, 208),
                import_attributes: expected_attributes2,
                is_side_effect: false,
            }
            .into(),
            DynamicDependencyDescriptor {
                kind: DynamicDependencyKind::Import,
                leading_comments: Vec::new(),
                range: range(start_pos, 251, 302),
                argument: DynamicArgument::String("./fizz.json".to_string()),
                argument_range: range(start_pos, 258, 271),
                import_attributes: dynamic_expected_attributes2.clone(),
            }
            .into(),
            DynamicDependencyDescriptor {
                kind: DynamicDependencyKind::Import,
                leading_comments: Vec::new(),
                range: range(start_pos, 323, 374),
                argument: DynamicArgument::String("./buzz.json".to_string()),
                argument_range: range(start_pos, 330, 343),
                import_attributes: dynamic_expected_attributes2,
            }
            .into(),
            DynamicDependencyDescriptor {
                kind: DynamicDependencyKind::Import,
                leading_comments: Vec::new(),
                range: range(start_pos, 393, 412),
                argument: DynamicArgument::String("./d1.json".to_string()),
                argument_range: range(start_pos, 400, 411),
                import_attributes: Default::default(),
            }
            .into(),
            DynamicDependencyDescriptor {
                kind: DynamicDependencyKind::Import,
                leading_comments: Vec::new(),
                range: range(start_pos, 431, 454),
                argument: DynamicArgument::String("./d2.json".to_string()),
                argument_range: range(start_pos, 438, 449),
                import_attributes: Default::default(),
            }
            .into(),
            DynamicDependencyDescriptor {
                kind: DynamicDependencyKind::Import,
                leading_comments: Vec::new(),
                range: range(start_pos, 473, 497),
                argument: DynamicArgument::String("./d3.json".to_string()),
                argument_range: range(start_pos, 480, 491),
                import_attributes: ImportAttributes::Unknown,
            }
            .into(),
            DynamicDependencyDescriptor {
                kind: DynamicDependencyKind::Import,
                leading_comments: Vec::new(),
                range: range(start_pos, 516, 549),
                argument: DynamicArgument::String("./d4.json".to_string()),
                argument_range: range(start_pos, 523, 534),
                import_attributes: ImportAttributes::Known(OrderedMap::new()),
            }
            .into(),
            DynamicDependencyDescriptor {
                kind: DynamicDependencyKind::Import,
                leading_comments: Vec::new(),
                range: range(start_pos, 568, 602),
                argument: DynamicArgument::String("./d5.json".to_string()),
                argument_range: range(start_pos, 575, 586),
                import_attributes: ImportAttributes::Unknown,
            }
            .into(),
            DynamicDependencyDescriptor {
                kind: DynamicDependencyKind::Import,
                leading_comments: Vec::new(),
                range: range(start_pos, 621, 662),
                argument: DynamicArgument::String("./d6.json".to_string()),
                argument_range: range(start_pos, 628, 639),
                import_attributes: ImportAttributes::Unknown,
            }
            .into(),
            DynamicDependencyDescriptor {
                kind: DynamicDependencyKind::Import,
                leading_comments: Vec::new(),
                range: range(start_pos, 681, 733),
                argument: DynamicArgument::String("./d7.json".to_string()),
                argument_range: range(start_pos, 688, 699),
                import_attributes: ImportAttributes::Unknown,
            }
            .into(),
            DynamicDependencyDescriptor {
                kind: DynamicDependencyKind::Import,
                leading_comments: Vec::new(),
                range: range(start_pos, 752, 796),
                argument: DynamicArgument::String("./d8.json".to_string()),
                argument_range: range(start_pos, 759, 770),
                import_attributes: ImportAttributes::Known({
                    let mut map = OrderedMap::new();
                    map.insert("type".to_string(), ImportAttribute::Unknown);
                    map
                }),
            }
            .into(),
            DynamicDependencyDescriptor {
                kind: DynamicDependencyKind::Import,
                leading_comments: Vec::new(),
                range: range(start_pos, 815, 870),
                argument: DynamicArgument::String("./d9.json".to_string()),
                argument_range: range(start_pos, 822, 833),
                import_attributes: ImportAttributes::Unknown,
            }
            .into(),
            DynamicDependencyDescriptor {
                kind: DynamicDependencyKind::Import,
                leading_comments: Vec::new(),
                range: range(start_pos, 890, 955),
                argument: DynamicArgument::String("./d10.json".to_string()),
                argument_range: range(start_pos, 897, 909),
                import_attributes: ImportAttributes::Unknown,
            }
            .into(),
        ]
    );
}

#[test]
fn test_dynamic_imports() {
    let source = r#"const d1 = await import(`./d1.json`);
const d2 = await import(`${value}`);
const d3 = await import(`./test/${value}`);
const d4 = await import(`${value}/test`);
const d5 = await import(`${value}${value2}`);
const d6 = await import(`${value}/test/${value2}`);
const d7 = await import(`./${value}/test/${value2}/`);
const d8 = await import("./foo/" + value);
const d9 = await import("./foo/" + value + ".ts");
const d10 = await import(value + ".ts");
const d11 = await import("./foo/" - value);
const d12 = await import(expr);
"#;
    let (start_pos, dependencies) = helper("file:///test.ts", source);
    assert_eq!(
        dependencies,
        vec![
            DynamicDependencyDescriptor {
                kind: DynamicDependencyKind::Import,
                leading_comments: Vec::new(),
                range: range(start_pos, 17, 36),
                argument: DynamicArgument::String("./d1.json".to_string()),
                argument_range: range(start_pos, 24, 35),
                import_attributes: ImportAttributes::Absent,
            }
            .into(),
            DynamicDependencyDescriptor {
                kind: DynamicDependencyKind::Import,
                leading_comments: Vec::new(),
                range: range(start_pos, 55, 73),
                argument: DynamicArgument::Template(vec![DynamicTemplatePart::Expr]),
                argument_range: range(start_pos, 62, 72),
                import_attributes: ImportAttributes::Absent,
            }
            .into(),
            DynamicDependencyDescriptor {
                kind: DynamicDependencyKind::Import,
                leading_comments: Vec::new(),
                range: range(start_pos, 92, 117),
                argument: DynamicArgument::Template(vec![
                    DynamicTemplatePart::String("./test/".to_string()),
                    DynamicTemplatePart::Expr,
                ]),
                argument_range: range(start_pos, 99, 116),
                import_attributes: ImportAttributes::Absent,
            }
            .into(),
            DynamicDependencyDescriptor {
                kind: DynamicDependencyKind::Import,
                leading_comments: Vec::new(),
                range: range(start_pos, 136, 159),
                argument: DynamicArgument::Template(vec![
                    DynamicTemplatePart::Expr,
                    DynamicTemplatePart::String("/test".to_string()),
                ]),
                argument_range: range(start_pos, 143, 158),
                import_attributes: ImportAttributes::Absent,
            }
            .into(),
            DynamicDependencyDescriptor {
                kind: DynamicDependencyKind::Import,
                leading_comments: Vec::new(),
                range: range(start_pos, 178, 205),
                argument: DynamicArgument::Template(vec![
                    DynamicTemplatePart::Expr,
                    DynamicTemplatePart::Expr,
                ]),
                argument_range: range(start_pos, 185, 204),
                import_attributes: ImportAttributes::Absent,
            }
            .into(),
            DynamicDependencyDescriptor {
                kind: DynamicDependencyKind::Import,
                leading_comments: Vec::new(),
                range: range(start_pos, 224, 257),
                argument: DynamicArgument::Template(vec![
                    DynamicTemplatePart::Expr,
                    DynamicTemplatePart::String("/test/".to_string()),
                    DynamicTemplatePart::Expr,
                ]),
                argument_range: range(start_pos, 231, 256),
                import_attributes: ImportAttributes::Absent,
            }
            .into(),
            DynamicDependencyDescriptor {
                kind: DynamicDependencyKind::Import,
                leading_comments: Vec::new(),
                range: range(start_pos, 276, 312),
                argument: DynamicArgument::Template(vec![
                    DynamicTemplatePart::String("./".to_string()),
                    DynamicTemplatePart::Expr,
                    DynamicTemplatePart::String("/test/".to_string()),
                    DynamicTemplatePart::Expr,
                    DynamicTemplatePart::String("/".to_string()),
                ]),
                argument_range: range(start_pos, 283, 311),
                import_attributes: ImportAttributes::Absent,
            }
            .into(),
            DynamicDependencyDescriptor {
                kind: DynamicDependencyKind::Import,
                leading_comments: Vec::new(),
                range: range(start_pos, 331, 355),
                argument: DynamicArgument::Template(vec![
                    DynamicTemplatePart::String("./foo/".to_string()),
                    DynamicTemplatePart::Expr,
                ]),
                argument_range: range(start_pos, 338, 354),
                import_attributes: ImportAttributes::Absent,
            }
            .into(),
            DynamicDependencyDescriptor {
                kind: DynamicDependencyKind::Import,
                leading_comments: Vec::new(),
                range: range(start_pos, 374, 406),
                argument: DynamicArgument::Template(vec![
                    DynamicTemplatePart::String("./foo/".to_string()),
                    DynamicTemplatePart::Expr,
                    DynamicTemplatePart::String(".ts".to_string()),
                ]),
                argument_range: range(start_pos, 381, 405),
                import_attributes: ImportAttributes::Absent,
            }
            .into(),
            DynamicDependencyDescriptor {
                kind: DynamicDependencyKind::Import,
                leading_comments: Vec::new(),
                range: range(start_pos, 426, 447),
                argument: DynamicArgument::Expr,
                argument_range: range(start_pos, 433, 446),
                import_attributes: ImportAttributes::Absent,
            }
            .into(),
            DynamicDependencyDescriptor {
                kind: DynamicDependencyKind::Import,
                leading_comments: Vec::new(),
                range: range(start_pos, 467, 491),
                argument: DynamicArgument::Expr,
                argument_range: range(start_pos, 474, 490),
                import_attributes: ImportAttributes::Absent,
            }
            .into(),
            DynamicDependencyDescriptor {
                kind: DynamicDependencyKind::Import,
                leading_comments: Vec::new(),
                range: range(start_pos, 511, 523),
                argument: DynamicArgument::Expr,
                argument_range: range(start_pos, 518, 522),
                import_attributes: ImportAttributes::Absent,
            }
            .into(),
        ]
    );
}

#[test]
fn ts_import_object_lit_property() {
    let source = r#"
export declare const SomeValue: typeof Core & import("./a.d.ts").Constructor<{
    paginate: import("./b.d.ts").PaginateInterface;
} & import("./c.d.ts", { with: { "resolution-mode": "import" } }).RestEndpointMethods>;
"#;
    let (start_pos, dependencies) = helper("file:///test.ts", source);
    assert_eq!(
        dependencies,
        vec![
            StaticDependencyDescriptor {
                kind: StaticDependencyKind::ImportType,
                leading_comments: Vec::new(),
                range: range(start_pos, 46, 217),
                specifier: "./a.d.ts".to_string(),
                specifier_range: range(start_pos, 53, 63),
                import_attributes: ImportAttributes::Absent,
                is_side_effect: false,
            }
            .into(),
            StaticDependencyDescriptor {
                kind: StaticDependencyKind::ImportType,
                leading_comments: Vec::new(),
                range: range(start_pos, 93, 129),
                specifier: "./b.d.ts".to_string(),
                specifier_range: range(start_pos, 100, 110),
                import_attributes: ImportAttributes::Absent,
                is_side_effect: false,
            }
            .into(),
            StaticDependencyDescriptor {
                kind: StaticDependencyKind::ImportType,
                leading_comments: Vec::new(),
                range: range(start_pos, 135, 216),
                specifier: "./c.d.ts".to_string(),
                specifier_range: range(start_pos, 142, 152),
                import_attributes: ImportAttributes::Known({
                    let mut map = OrderedMap::new();
                    map.insert(
                        "resolution-mode".to_string(),
                        ImportAttribute::Known("import".to_string()),
                    );
                    map
                }),
                is_side_effect: false,
            }
            .into()
        ]
    );
}

fn specifiers(dependencies: &[DependencyDescriptor]) -> Vec<String> {
    dependencies
        .iter()
        .map(|dependency| match dependency {
            DependencyDescriptor::Static(descriptor) => descriptor.specifier.clone(),
            DependencyDescriptor::Dynamic(descriptor) => match &descriptor.argument {
                DynamicArgument::String(text) => text.clone(),
                _ => "?".to_string(),
            },
        })
        .collect()
}

#[test]
fn side_effect_import() {
    let (start_pos, dependencies) =
        helper("file:///test.ts", "import './load.js';\nimport {} from './a.js';");
    assert_eq!(
        dependencies,
        vec![
            StaticDependencyDescriptor {
                kind: StaticDependencyKind::Import,
                leading_comments: Vec::new(),
                range: range(start_pos, 0, 19),
                specifier: "./load.js".to_string(),
                specifier_range: range(start_pos, 7, 18),
                import_attributes: ImportAttributes::Absent,
                is_side_effect: true,
            }
            .into(),
            StaticDependencyDescriptor {
                kind: StaticDependencyKind::Import,
                leading_comments: Vec::new(),
                range: range(start_pos, 20, 44),
                specifier: "./a.js".to_string(),
                specifier_range: range(start_pos, 35, 43),
                import_attributes: ImportAttributes::Absent,
                is_side_effect: true,
            }
            .into(),
        ]
    );
}

#[test]
fn type_only_export_all() {
    let (_, dependencies) = helper("file:///test.ts", "export type * from './a.d.ts';");
    match &dependencies[0] {
        DependencyDescriptor::Static(descriptor) => {
            assert_eq!(descriptor.kind, StaticDependencyKind::ExportType);
            assert!(!descriptor.is_side_effect);
        }
        _ => panic!("expected a static dependency"),
    }
}

#[test]
fn statements_without_a_dependency() {
    let source = "const a = 1;\nexport { a };\nimport b = A.B;\nrequire();\nother('./x.ts');\n\
        require.resolve('./y.ts');\nrequire?.('./z.ts');\nnew require('./w.ts');";
    let (_, dependencies) = helper("file:///test.ts", source);
    assert_eq!(dependencies, vec![]);
}

#[test]
fn nodes_below_a_call_come_before_it() {
    let source = "import(require('./inner.ts'));\nother(() => import('./lazy.ts'));\n\
        require('./outer.ts', import('./second.ts'));";
    let (_, dependencies) = helper("file:///test.ts", source);
    assert_eq!(
        specifiers(&dependencies),
        vec!["./inner.ts", "?", "./lazy.ts", "./second.ts", "./outer.ts"]
    );
}

#[test]
fn nodes_below_an_import_type_come_behind_it() {
    let source = "type A = import('./a.ts').B<import('./c.ts').D>;";
    let (_, dependencies) = helper("file:///test.ts", source);
    assert_eq!(specifiers(&dependencies), vec!["./a.ts", "./c.ts"]);
}

#[test]
fn dependencies_of_pieces_add_up() {
    let first = "import './a.ts';\nexport * from './b.ts';\n";
    let second = "import('./c.ts');\nimport d = require('./d.ts');\n";
    let whole = helper("file:///test.ts", &format!("{}{}", first, second)).1;
    let mut pieces = specifiers(&helper("file:///test.ts", first).1);
    pieces.extend(specifiers(&helper("file:///test.ts", second).1));
    assert_eq!(specifiers(&whole), pieces);
    assert_eq!(pieces, vec!["./a.ts", "./b.ts", "./c.ts", "./d.ts"]);
}

#[test]
fn comments_before_a_call() {
    let source = "// @deno-types\n/* b */ import('./a.ts');";
    let (start_pos, dependencies) = helper("file:///test.ts", source);
    // the program starts behind its leading comments
    let start_pos = start_pos - 23;
    assert_eq!(
        dependencies,
        vec![DynamicDependencyDescriptor {
            kind: DynamicDependencyKind::Import,
            leading_comments: vec![
                DependencyComment {
                    kind: CommentKind::Line,
                    range: range(start_pos, 0, 14),
                    text: " @deno-types".to_string(),
                },
                DependencyComment {
                    kind: CommentKind::Block,
                    range: range(start_pos, 15, 22),
                    text: " b ".to_string(),
                },
            ],
            range: range(start_pos, 23, 39),
            argument: DynamicArgument::String("./a.ts".to_string()),
            argument_range: range(start_pos, 30, 38),
            import_attributes: ImportAttributes::Absent,
        }
        .into()]
    );
}

#[test]
fn a_script_has_dependencies() {
    let source = deno_ast::parse_script(ParseParams {
        specifier: ModuleSpecifier::parse("file:///test.cjs").unwrap(),
        text: "const a = require('./a.cjs');".into(),
        media_type: MediaType::Cjs,
        capture_tokens: false,
        scope_analysis: false,
        maybe_syntax: None,
    })
    .unwrap();
    let program = program_of(source.program_ref());
    let dependencies = analyze_program_dependencies(&program, source.comments());
    assert_eq!(specifiers(&dependencies), vec!["./a.cjs"]);
}
