use deno_graph::analysis::DynamicDependencyKind;
use deno_graph::analysis::ImportAttributes;
use deno_graph::comments::or_no_comments;
use deno_graph::comments::CommentKind;
use deno_graph::comments::DependencyComment;
use deno_graph::dep::analyze_argument;
use deno_graph::dep::concatenation_parts;
use deno_graph::dep::describe_call_expr;
use deno_graph::dep::is_require;
use deno_graph::dep::templates_have_values;
use deno_graph::dep::DynamicArgument;
use deno_graph::dep::DynamicDependencyDescriptor;
use deno_graph::dep::DynamicTemplatePart;
use deno_graph::syntax::BinExpr;
use deno_graph::syntax::BinaryOp;
use deno_graph::syntax::CallExpr;
use deno_graph::syntax::Callee;
use deno_graph::syntax::Expr;
use deno_graph::syntax::ExprOrSpread;
use deno_graph::syntax::Lit;
use deno_graph::syntax::Node;
use deno_graph::syntax::SourceRange;
use deno_graph::syntax::Tpl;

fn string(text: &str) -> Expr {
    Expr::Lit(Lit::Str(text.to_string()))
}

fn bin(op: BinaryOp, left: Expr, right: Expr) -> BinExpr {
    BinExpr { op, left, right }
}

fn template(texts: &[&str], expr_count: usize) -> Expr {
    Expr::Tpl(Tpl {
        quasis: texts.iter().map(|text| Some(text.to_string())).collect(),
        expr_count,
    })
}

fn part(text: &str) -> DynamicTemplatePart {
    DynamicTemplatePart::String(text.to_string())
}

fn call(callee: Callee, args: Vec<Expr>) -> CallExpr {
    CallExpr {
        range: SourceRange { start: 10, end: 30 },
        callee,
        args: args
            .into_iter()
            .map(|expr| ExprOrSpread {
                spread: false,
                expr,
                range: SourceRange { start: 17, end: 29 },
            })
            .collect(),
        children: Vec::new(),
    }
}

#[test]
fn concatenations() {
    // an empty string is kept
    assert_eq!(
        concatenation_parts(&bin(BinaryOp::Add, string(""), Expr::Other)),
        Some(vec![part(""), DynamicTemplatePart::Expr])
    );
    let nested = bin(
        BinaryOp::Add,
        Expr::Bin(Box::new(bin(BinaryOp::Add, string("a"), string("b")))),
        string("c"),
    );
    assert_eq!(concatenation_parts(&nested), Some(vec![part("a"), part("b"), part("c")]));
    // what stands on the right is not taken apart
    let right = bin(
        BinaryOp::Add,
        string("a"),
        Expr::Bin(Box::new(bin(BinaryOp::Add, string("b"), string("c")))),
    );
    assert_eq!(concatenation_parts(&right), Some(vec![part("a"), DynamicTemplatePart::Expr]));
}

#[test]
fn concatenations_that_are_not_understood() {
    assert_eq!(concatenation_parts(&bin(BinaryOp::Other, string("a"), string("b"))), None);
    assert_eq!(concatenation_parts(&bin(BinaryOp::Add, Expr::Other, string("b"))), None);
    let inner = bin(BinaryOp::Other, string("a"), string("b"));
    assert_eq!(
        concatenation_parts(&bin(BinaryOp::Add, Expr::Bin(Box::new(inner)), string("c"))),
        None
    );
    let outer = bin(
        BinaryOp::Other,
        Expr::Bin(Box::new(bin(BinaryOp::Add, string("a"), string("b")))),
        string("c"),
    );
    assert_eq!(concatenation_parts(&outer), None);
}

#[test]
fn templates() {
    assert_eq!(
        analyze_argument(&template(&[""], 0)),
        DynamicArgument::String("".to_string())
    );
    assert_eq!(analyze_argument(&template(&["./a"], 0)), analyze_argument(&string("./a")));
    assert_eq!(
        analyze_argument(&template(&["", "b", ""], 2)),
        DynamicArgument::Template(vec![
            DynamicTemplatePart::Expr,
            part("b"),
            DynamicTemplatePart::Expr
        ])
    );
}

#[test]
fn other_arguments() {
    assert_eq!(analyze_argument(&Expr::Ident("a".to_string())), DynamicArgument::Expr);
    assert_eq!(analyze_argument(&Expr::Lit(Lit::Other)), DynamicArgument::Expr);
    assert_eq!(analyze_argument(&Expr::Other), DynamicArgument::Expr);
    assert_eq!(
        analyze_argument(&Expr::Bin(Box::new(bin(BinaryOp::Other, string("a"), string("b"))))),
        DynamicArgument::Expr
    );
}

#[test]
fn names_of_callees() {
    assert!(is_require(&Callee::Expr(Expr::Ident("require".to_string()))));
    assert!(!is_require(&Callee::Expr(Expr::Ident("Require".to_string()))));
    assert!(!is_require(&Callee::Expr(string("require"))));
    assert!(!is_require(&Callee::Import));
    assert!(!is_require(&Callee::Super));
}

#[test]
fn calls() {
    let comment = DependencyComment {
        kind: CommentKind::Line,
        range: SourceRange { start: 2, end: 9 },
        text: " note".to_string(),
    };
    assert_eq!(
        describe_call_expr(
            &call(Callee::Expr(Expr::Ident("require".to_string())), vec![string("./a")]),
            vec![comment.clone()]
        ),
        Some(DynamicDependencyDescriptor {
            kind: DynamicDependencyKind::Require,
            leading_comments: vec![comment],
            range: SourceRange { start: 10, end: 30 },
            argument: DynamicArgument::String("./a".to_string()),
            argument_range: SourceRange { start: 17, end: 29 },
            import_attributes: ImportAttributes::Absent,
        })
    );
    assert_eq!(describe_call_expr(&call(Callee::Import, vec![]), vec![]), None);
    assert_eq!(describe_call_expr(&call(Callee::Super, vec![string("./a")]), vec![]), None);
    assert_eq!(
        describe_call_expr(&call(Callee::Import, vec![string("./a"), Expr::Other]), vec![])
            .unwrap()
            .import_attributes,
        ImportAttributes::Unknown
    );
}

#[test]
fn templates_without_values() {
    let broken = || Expr::Tpl(Tpl { quasis: vec![Some("a".to_string()), None], expr_count: 1 });
    assert!(!templates_have_values(&vec![Node::CallExpr(call(Callee::Import, vec![broken()]))]));
    // only the first argument of an import is read
    assert!(templates_have_values(&vec![Node::CallExpr(call(
        Callee::Import,
        vec![string("a"), broken()]
    ))]));
    assert!(templates_have_values(&vec![Node::CallExpr(call(Callee::Super, vec![broken()]))]));
    let mut outer = call(Callee::Super, vec![]);
    outer.children = vec![Node::CallExpr(call(Callee::Import, vec![broken()]))];
    assert!(!templates_have_values(&vec![Node::CallExpr(outer)]));
}

#[test]
fn missing_comments_are_none() {
    assert_eq!(or_no_comments(None), vec![]);
}
