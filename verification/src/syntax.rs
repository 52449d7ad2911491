//! The parts of a program's syntax tree that state its dependencies.
//!
//! A tree holds what the search for dependencies reads, as plain values. A node that states no
//! dependency is left out, and what is below it takes its place.

use vstd::prelude::*;

verus! {

/// A range of byte positions in the source.
#[derive(Clone, Copy, Debug, PartialEq, Eq, Structural)]
pub struct SourceRange {
    pub start: u32,
    pub end: u32,
}

/// A string literal.
pub struct Str {
    pub value: String,
    pub range: SourceRange,
}

/// A program: the nodes that state dependencies, in the order of the source.
pub struct Program {
    pub body: Vec<Node>,
}

/// A node that may state a dependency.
pub enum Node {
    ImportDecl(ImportDecl),
    NamedExport(NamedExport),
    ExportAll(ExportAll),
    TsImportType(TsImportType),
    TsImportEqualsDecl(TsImportEqualsDecl),
    CallExpr(CallExpr),
}

/// `import a from "b" with { c: "d" };`
pub struct ImportDecl {
    pub range: SourceRange,
    pub src: Str,
    pub type_only: bool,
    /// How many names are imported.
    pub specifier_count: usize,
    pub with: Option<ObjectLit>,
}

/// `export { a } from "b" with { c: "d" };`, or without a source.
pub struct NamedExport {
    pub range: SourceRange,
    pub src: Option<Str>,
    pub type_only: bool,
    pub with: Option<ObjectLit>,
}

/// `export * from "b" with { c: "d" };`
pub struct ExportAll {
    pub range: SourceRange,
    pub src: Str,
    pub type_only: bool,
    pub with: Option<ObjectLit>,
}

/// `import("b", { with: { c: "d" } }).A<...>` in the place of a type.
pub struct TsImportType {
    pub range: SourceRange,
    pub arg: Str,
    /// What stands behind `with`.
    pub attributes: Option<ObjectLit>,
    /// The nodes below this one.
    pub children: Vec<Node>,
}

/// `import a = require("b");`, or with a name in place of the call.
pub struct TsImportEqualsDecl {
    pub range: SourceRange,
    pub is_type_only: bool,
    pub is_export: bool,
    pub module_ref: TsModuleRef,
}

/// What an `import a = ...` refers to.
pub enum TsModuleRef {
    TsEntityName,
    TsExternalModuleRef(Str),
}

/// `callee(args)`
pub struct CallExpr {
    pub range: SourceRange,
    pub callee: Callee,
    pub args: Vec<ExprOrSpread>,
    /// The nodes below this one.
    pub children: Vec<Node>,
}

/// What is called.
pub enum Callee {
    Super,
    Import,
    Expr(Expr),
}

/// An argument, `a` or `...a`.
pub struct ExprOrSpread {
    pub spread: bool,
    pub expr: Expr,
    pub range: SourceRange,
}

/// An expression.
pub enum Expr {
    Ident(String),
    Lit(Lit),
    Tpl(Tpl),
    Bin(Box<BinExpr>),
    Object(ObjectLit),
    Other,
}

/// A literal.
pub enum Lit {
    Str(String),
    Other,
}

/// A template literal.
pub struct Tpl {
    /// The texts between the expressions. One with an invalid escape has no value.
    pub quasis: Vec<Option<String>>,
    /// How many expressions there are.
    pub expr_count: usize,
}

/// `left op right`
pub struct BinExpr {
    pub op: BinaryOp,
    pub left: Expr,
    pub right: Expr,
}

/// A binary operator.
#[derive(Clone, Copy, Debug, PartialEq, Eq, Structural)]
pub enum BinaryOp {
    Add,
    Other,
}

/// `{ a: b, ...c }`
pub struct ObjectLit {
    pub props: Vec<PropOrSpread>,
}

/// A part of an object literal.
pub enum PropOrSpread {
    Spread,
    Prop(Prop),
}

/// A property of an object literal.
pub enum Prop {
    KeyValue(KeyValueProp),
    Other,
}

/// `key: value`
pub struct KeyValueProp {
    pub key: PropName,
    pub value: Expr,
}

/// The key of a property.
pub enum PropName {
    Ident(String),
    Str(String),
    Other,
}

} // verus!
