//! Finding the dependencies that a program states.

use deno_ast::MultiThreadedComments;
use vstd::prelude::*;
use vstd::std_specs::convert::FromSpecImpl;

use crate::analysis::DynamicDependencyKind;
use crate::analysis::ImportAttributes;
use crate::analysis::ImportAttributesView;
use crate::analysis::StaticDependencyKind;
use crate::comments::comments_before;
use crate::comments::get_leading_comments;
use crate::comments::DependencyComment;
use crate::comments::DependencyCommentView;
use crate::import_attributes::declared_attributes;
use crate::import_attributes::dynamic_attributes;
use crate::import_attributes::literal_attributes;
use crate::import_attributes::parse_dynamic_import_attributes;
use crate::import_attributes::parse_import_attributes;
use crate::import_attributes::parse_import_attributes_from_object_lit;
use crate::order::same_text;
use crate::syntax::BinExpr;
use crate::syntax::BinaryOp;
use crate::syntax::CallExpr;
use crate::syntax::Callee;
use crate::syntax::ExportAll;
use crate::syntax::Expr;
use crate::syntax::ImportDecl;
use crate::syntax::Lit;
use crate::syntax::NamedExport;
use crate::syntax::Node;
use crate::syntax::Program;
use crate::syntax::SourceRange;
use crate::syntax::Tpl;
use crate::syntax::TsImportEqualsDecl;
use crate::syntax::TsImportType;
use crate::syntax::TsModuleRef;

verus! {

/// A dependency of a program.
#[derive(Clone, Debug, PartialEq, Eq)]
pub enum DependencyDescriptor {
    Static(StaticDependencyDescriptor),
    Dynamic(DynamicDependencyDescriptor),
}

/// A dependency that a declaration or a type states.
#[derive(Clone, Debug, PartialEq, Eq)]
pub struct StaticDependencyDescriptor {
    pub kind: StaticDependencyKind,
    /// Any leading comments associated with the dependency. This is used for
    /// further processing of supported pragma that impact the dependency.
    pub leading_comments: Vec<DependencyComment>,
    /// The range of the import/export statement.
    pub range: SourceRange,
    /// The text specifier associated with the import/export statement.
    pub specifier: String,
    /// The range of the specifier.
    pub specifier_range: SourceRange,
    /// Import attributes for this dependency.
    pub import_attributes: ImportAttributes,
    /// If this is an import for side effects only (ex. `import './load.js';`)
    pub is_side_effect: bool,
}

/// A dependency that a call states.
#[derive(Clone, Debug, PartialEq, Eq)]
pub struct DynamicDependencyDescriptor {
    /// Kind of dynamic dependency.
    pub kind: DynamicDependencyKind,
    /// Any leading comments associated with the dependency. This is used for
    /// further processing of supported pragma that impact the dependency.
    pub leading_comments: Vec<DependencyComment>,
    /// The range of the import/export statement.
    pub range: SourceRange,
    /// The argument associated with the dynamic import
    pub argument: DynamicArgument,
    /// The range of the specifier.
    pub argument_range: SourceRange,
    /// Import attributes for this dependency.
    pub import_attributes: ImportAttributes,
}

/// The argument of a dynamic import.
#[derive(Clone, Debug, PartialEq, Eq)]
pub enum DynamicArgument {
    String(String),
    Template(Vec<DynamicTemplatePart>),
    /// An expression that could not be analyzed.
    Expr,
}

/// A part of an argument that is put together.
#[derive(Clone, Debug, PartialEq, Eq)]
pub enum DynamicTemplatePart {
    String(String),
    /// An expression that could not be analyzed.
    Expr,
}

/// What a dependency of a program is.
pub enum DependencyView {
    Static(StaticDependencyView),
    Dynamic(DynamicDependencyView),
}

/// What a dependency that a declaration or a type states is.
pub struct StaticDependencyView {
    pub kind: StaticDependencyKind,
    pub leading_comments: Seq<DependencyCommentView>,
    pub range: SourceRange,
    pub specifier: Seq<char>,
    pub specifier_range: SourceRange,
    pub import_attributes: ImportAttributesView,
    pub is_side_effect: bool,
}

/// What a dependency that a call states is.
pub struct DynamicDependencyView {
    pub kind: DynamicDependencyKind,
    pub leading_comments: Seq<DependencyCommentView>,
    pub range: SourceRange,
    pub argument: DynamicArgumentView,
    pub argument_range: SourceRange,
    pub import_attributes: ImportAttributesView,
}

/// What the argument of a dynamic import is.
pub enum DynamicArgumentView {
    String(Seq<char>),
    Template(Seq<DynamicTemplatePartView>),
    Expr,
}

/// What a part of an argument that is put together is.
pub enum DynamicTemplatePartView {
    String(Seq<char>),
    Expr,
}

impl DeepView for DependencyDescriptor {
    type V = DependencyView;

    open spec fn deep_view(&self) -> DependencyView {
        match self {
            DependencyDescriptor::Static(descriptor) => DependencyView::Static(
                descriptor.deep_view(),
            ),
            DependencyDescriptor::Dynamic(descriptor) => DependencyView::Dynamic(
                descriptor.deep_view(),
            ),
        }
    }
}

impl DeepView for StaticDependencyDescriptor {
    type V = StaticDependencyView;

    open spec fn deep_view(&self) -> StaticDependencyView {
        StaticDependencyView {
            kind: self.kind,
            leading_comments: self.leading_comments.deep_view(),
            range: self.range,
            specifier: self.specifier@,
            specifier_range: self.specifier_range,
            import_attributes: self.import_attributes.deep_view(),
            is_side_effect: self.is_side_effect,
        }
    }
}

impl DeepView for DynamicDependencyDescriptor {
    type V = DynamicDependencyView;

    open spec fn deep_view(&self) -> DynamicDependencyView {
        DynamicDependencyView {
            kind: self.kind,
            leading_comments: self.leading_comments.deep_view(),
            range: self.range,
            argument: self.argument.deep_view(),
            argument_range: self.argument_range,
            import_attributes: self.import_attributes.deep_view(),
        }
    }
}

impl DeepView for DynamicArgument {
    type V = DynamicArgumentView;

    open spec fn deep_view(&self) -> DynamicArgumentView {
        match self {
            DynamicArgument::String(text) => DynamicArgumentView::String(text@),
            DynamicArgument::Template(parts) => DynamicArgumentView::Template(parts.deep_view()),
            DynamicArgument::Expr => DynamicArgumentView::Expr,
        }
    }
}

impl DeepView for DynamicTemplatePart {
    type V = DynamicTemplatePartView;

    open spec fn deep_view(&self) -> DynamicTemplatePartView {
        match self {
            DynamicTemplatePart::String(text) => DynamicTemplatePartView::String(text@),
            DynamicTemplatePart::Expr => DynamicTemplatePartView::Expr,
        }
    }
}

impl DependencyDescriptor {
    /// The import attributes are well-formed.
    pub open spec fn wf(&self) -> bool {
        match self {
            DependencyDescriptor::Static(descriptor) => descriptor.import_attributes.wf(),
            DependencyDescriptor::Dynamic(descriptor) => descriptor.import_attributes.wf(),
        }
    }
}

impl From<StaticDependencyDescriptor> for DependencyDescriptor {
    fn from(descriptor: StaticDependencyDescriptor) -> (r: Self) {
        DependencyDescriptor::Static(descriptor)
    }
}

impl FromSpecImpl<StaticDependencyDescriptor> for DependencyDescriptor {
    open spec fn obeys_from_spec() -> bool {
        true
    }

    open spec fn from_spec(descriptor: StaticDependencyDescriptor) -> Self {
        DependencyDescriptor::Static(descriptor)
    }
}

impl From<DynamicDependencyDescriptor> for DependencyDescriptor {
    fn from(descriptor: DynamicDependencyDescriptor) -> (r: Self) {
        DependencyDescriptor::Dynamic(descriptor)
    }
}

impl FromSpecImpl<DynamicDependencyDescriptor> for DependencyDescriptor {
    open spec fn obeys_from_spec() -> bool {
        true
    }

    open spec fn from_spec(descriptor: DynamicDependencyDescriptor) -> Self {
        DependencyDescriptor::Dynamic(descriptor)
    }
}

/// The part that an operand of a concatenation gives.
pub open spec fn operand_part(expr: Expr) -> DynamicTemplatePartView {
    match expr {
        Expr::Lit(Lit::Str(text)) => DynamicTemplatePartView::String(text@),
        _ => DynamicTemplatePartView::Expr,
    }
}

/// The parts of a concatenation, which are known only if it is made of additions alone and
/// starts with a string.
pub open spec fn concatenation(bin: BinExpr) -> Option<Seq<DynamicTemplatePartView>>
    decreases bin,
{
    if bin.op != BinaryOp::Add {
        None
    } else {
        match bin.left {
            Expr::Bin(left) => match concatenation(*left) {
                Some(parts) => Some(parts.push(operand_part(bin.right))),
                None => None,
            },
            Expr::Lit(Lit::Str(_)) => Some(seq![operand_part(bin.left), operand_part(bin.right)]),
            _ => None,
        }
    }
}

/// The parts of the first `n` texts of a template and of the expressions behind them. An empty
/// text gives none.
pub open spec fn template_parts(tpl: Tpl, n: int) -> Seq<DynamicTemplatePartView>
    decreases n,
{
    if n <= 0 {
        Seq::empty()
    } else {
        let text = tpl.quasis@[n - 1]->0@;
        template_parts(tpl, n - 1) + if text.len() > 0 {
            seq![DynamicTemplatePartView::String(text)]
        } else {
            Seq::empty()
        } + if n - 1 < tpl.expr_count {
            seq![DynamicTemplatePartView::Expr]
        } else {
            Seq::empty()
        }
    }
}

/// The argument that a template gives: a string where it holds no expression.
pub open spec fn template_argument(tpl: Tpl) -> DynamicArgumentView {
    if tpl.quasis@.len() == 1 && tpl.expr_count == 0 {
        DynamicArgumentView::String(tpl.quasis@[0]->0@)
    } else {
        DynamicArgumentView::Template(template_parts(tpl, tpl.quasis@.len() as int))
    }
}

/// The argument that an expression gives.
pub open spec fn argument_of(expr: Expr) -> DynamicArgumentView {
    match expr {
        Expr::Lit(Lit::Str(text)) => DynamicArgumentView::String(text@),
        Expr::Tpl(tpl) => template_argument(tpl),
        Expr::Bin(bin) => match concatenation(*bin) {
            Some(parts) => DynamicArgumentView::Template(parts),
            None => DynamicArgumentView::Expr,
        },
        _ => DynamicArgumentView::Expr,
    }
}

/// Whether every text of an expression that is a template has a value.
pub open spec fn has_values(expr: Expr) -> bool {
    expr matches Expr::Tpl(tpl) ==> forall|i: int|
        0 <= i < tpl.quasis@.len() ==> (#[trigger] tpl.quasis@[i]) is Some
}

/// Whether a callee is a name `require`.
pub open spec fn names_require(callee: Callee) -> bool {
    match callee {
        Callee::Expr(Expr::Ident(name)) => name@ == seq!['r', 'e', 'q', 'u', 'i', 'r', 'e'],
        _ => false,
    }
}

/// Whether a call states a dependency: it is an import or a call of `require`, and it has an
/// argument.
pub open spec fn states_dependency(node: CallExpr) -> bool {
    (node.callee is Import || names_require(node.callee)) && node.args@.len() > 0
}

/// The dependency that an import declaration states.
pub open spec fn import_dependency(
    node: ImportDecl,
    leading_comments: Seq<DependencyCommentView>,
) -> StaticDependencyView {
    StaticDependencyView {
        kind: if node.type_only {
            StaticDependencyKind::ImportType
        } else {
            StaticDependencyKind::Import
        },
        leading_comments,
        range: node.range,
        specifier: node.src.value@,
        specifier_range: node.src.range,
        import_attributes: declared_attributes(node.with),
        is_side_effect: node.specifier_count == 0,
    }
}

/// The dependency that an export of names states, if it has a source.
pub open spec fn named_export_dependency(
    node: NamedExport,
    leading_comments: Seq<DependencyCommentView>,
) -> Option<StaticDependencyView> {
    match node.src {
        Some(src) => Some(
            StaticDependencyView {
                kind: if node.type_only {
                    StaticDependencyKind::ExportType
                } else {
                    StaticDependencyKind::Export
                },
                leading_comments,
                range: node.range,
                specifier: src.value@,
                specifier_range: src.range,
                import_attributes: declared_attributes(node.with),
                is_side_effect: false,
            },
        ),
        None => None,
    }
}

/// The dependency that an export of everything states.
pub open spec fn export_all_dependency(
    node: ExportAll,
    leading_comments: Seq<DependencyCommentView>,
) -> StaticDependencyView {
    StaticDependencyView {
        kind: if node.type_only {
            StaticDependencyKind::ExportType
        } else {
            StaticDependencyKind::Export
        },
        leading_comments,
        range: node.range,
        specifier: node.src.value@,
        specifier_range: node.src.range,
        import_attributes: declared_attributes(node.with),
        is_side_effect: false,
    }
}

/// The dependency that an import type states.
pub open spec fn import_type_dependency(
    node: TsImportType,
    leading_comments: Seq<DependencyCommentView>,
) -> StaticDependencyView {
    StaticDependencyView {
        kind: StaticDependencyKind::ImportType,
        leading_comments,
        range: node.range,
        specifier: node.arg.value@,
        specifier_range: node.arg.range,
        import_attributes: match node.attributes {
            Some(lit) => literal_attributes(lit),
            None => ImportAttributesView::Absent,
        },
        is_side_effect: false,
    }
}

/// The dependency that an import assignment states, if it refers to a module.
pub open spec fn import_equals_dependency(
    node: TsImportEqualsDecl,
    leading_comments: Seq<DependencyCommentView>,
) -> Option<StaticDependencyView> {
    match node.module_ref {
        TsModuleRef::TsExternalModuleRef(src) => Some(
            StaticDependencyView {
                kind: if node.is_type_only {
                    StaticDependencyKind::ImportType
                } else if node.is_export {
                    StaticDependencyKind::ExportEquals
                } else {
                    StaticDependencyKind::ImportEquals
                },
                leading_comments,
                range: node.range,
                specifier: src.value@,
                specifier_range: src.range,
                import_attributes: ImportAttributesView::Absent,
                is_side_effect: false,
            },
        ),
        TsModuleRef::TsEntityName => None,
    }
}

/// The dependency that a call states, if it states one.
pub open spec fn call_dependency(
    node: CallExpr,
    leading_comments: Seq<DependencyCommentView>,
) -> Option<DynamicDependencyView> {
    if states_dependency(node) {
        Some(
            DynamicDependencyView {
                kind: if node.callee is Import {
                    DynamicDependencyKind::Import
                } else {
                    DynamicDependencyKind::Require
                },
                leading_comments,
                range: node.range,
                argument: argument_of(node.args@[0].expr),
                argument_range: node.args@[0].range,
                import_attributes: dynamic_attributes(
                    if node.args@.len() > 1 {
                        Some(node.args@[1])
                    } else {
                        None
                    },
                ),
            },
        )
    } else {
        None
    }
}

/// A static dependency as a list of one, or nothing as an empty list.
pub open spec fn static_list(dependency: Option<StaticDependencyView>) -> Seq<DependencyView> {
    match dependency {
        Some(dependency) => seq![DependencyView::Static(dependency)],
        None => Seq::empty(),
    }
}

/// A dynamic dependency as a list of one, or nothing as an empty list.
pub open spec fn dynamic_list(dependency: Option<DynamicDependencyView>) -> Seq<DependencyView> {
    match dependency {
        Some(dependency) => seq![DependencyView::Dynamic(dependency)],
        None => Seq::empty(),
    }
}

/// The dependencies that a node and the nodes below it state. An import type comes before what
/// is below it, a call after that.
pub open spec fn dependencies_of(node: Node, comments: MultiThreadedComments) -> Seq<DependencyView>
    decreases node,
{
    match node {
        Node::ImportDecl(node) => static_list(
            Some(import_dependency(node, comments_before(comments, node.range.start))),
        ),
        Node::NamedExport(node) => static_list(
            named_export_dependency(node, comments_before(comments, node.range.start)),
        ),
        Node::ExportAll(node) => static_list(
            Some(export_all_dependency(node, comments_before(comments, node.range.start))),
        ),
        Node::TsImportType(node) => static_list(
            Some(import_type_dependency(node, comments_before(comments, node.range.start))),
        ) + dependencies_in(node.children@, comments),
        Node::TsImportEqualsDecl(node) => static_list(
            import_equals_dependency(node, comments_before(comments, node.range.start)),
        ),
        Node::CallExpr(node) => dependencies_in(node.children@, comments) + dynamic_list(
            call_dependency(node, comments_before(comments, node.range.start)),
        ),
    }
}

/// The dependencies that nodes and the nodes below them state, in the order of the nodes.
pub open spec fn dependencies_in(nodes: Seq<Node>, comments: MultiThreadedComments) -> Seq<
    DependencyView,
>
    decreases nodes,
{
    if nodes.len() == 0 {
        Seq::empty()
    } else {
        dependencies_in(nodes.drop_last(), comments) + dependencies_of(nodes.last(), comments)
    }
}

/// Whether every template that states a dependency at a node or below it has values for its
/// texts.
pub open spec fn node_has_values(node: Node) -> bool
    decreases node,
{
    match node {
        Node::TsImportType(node) => nodes_have_values(node.children@),
        Node::CallExpr(node) => nodes_have_values(node.children@) && (states_dependency(node)
            ==> has_values(node.args@[0].expr)),
        _ => true,
    }
}

/// Whether every template that states a dependency at or below nodes has values for its texts.
pub open spec fn nodes_have_values(nodes: Seq<Node>) -> bool
    decreases nodes,
{
    forall|i: int| 0 <= i < nodes.len() ==> node_has_values(#[trigger] nodes[i])
}

fn part(expr: &Expr) -> (r: DynamicTemplatePart)
    ensures
        r.deep_view() == operand_part(*expr),
{
    match expr {
        Expr::Lit(Lit::Str(text)) => DynamicTemplatePart::String(text.clone()),
        _ => DynamicTemplatePart::Expr,
    }
}

fn push_part(parts: &mut Vec<DynamicTemplatePart>, part: DynamicTemplatePart)
    ensures
        final(parts).deep_view() == old(parts).deep_view().push(part.deep_view()),
{
    parts.push(part);
    assert(parts.deep_view() =~= old(parts).deep_view().push(part.deep_view()));
}

fn no_parts() -> (r: Vec<DynamicTemplatePart>)
    ensures
        r.deep_view() == Seq::<DynamicTemplatePartView>::empty(),
{
    let r = Vec::new();
    assert(r.deep_view() =~= Seq::empty());
    r
}

/// The parts of a concatenation, or nothing where it is not made of additions alone or does not
/// start with a string.
pub fn concatenation_parts(bin: &BinExpr) -> (r: Option<Vec<DynamicTemplatePart>>)
    ensures
        r.deep_view() == concatenation(*bin),
    decreases bin,
{
    if bin.op != BinaryOp::Add {
        return None;
    }
    let mut parts = match &bin.left {
        Expr::Bin(left) => match concatenation_parts(left) {
            Some(parts) => parts,
            None => return None,
        },
        Expr::Lit(Lit::Str(_)) => {
            let mut parts = no_parts();
            push_part(&mut parts, part(&bin.left));
            parts
        },
        _ => return None,
    };
    push_part(&mut parts, part(&bin.right));
    assert(Some(parts.deep_view()) == concatenation(*bin));
    Some(parts)
}

/// The argument that a template gives.
pub fn analyze_template(tpl: &Tpl) -> (r: DynamicArgument)
    requires
        has_values(Expr::Tpl(*tpl)),
    ensures
        r.deep_view() == template_argument(*tpl),
{
    if tpl.quasis.len() == 1 && tpl.expr_count == 0 {
        if let Some(text) = &tpl.quasis[0] {
            return DynamicArgument::String(text.clone());
        }
    }
    let mut parts = no_parts();
    let mut i: usize = 0;
    while i < tpl.quasis.len()
        invariant
            i <= tpl.quasis.len(),
            has_values(Expr::Tpl(*tpl)),
            parts.deep_view() == template_parts(*tpl, i as int),
        decreases tpl.quasis.len() - i,
    {
        if let Some(text) = &tpl.quasis[i] {
            if !text.as_str().is_empty() {
                push_part(&mut parts, DynamicTemplatePart::String(text.clone()));
            }
        }
        if i < tpl.expr_count {
            push_part(&mut parts, DynamicTemplatePart::Expr);
        }
        i = i + 1;
        assert(parts.deep_view() =~= template_parts(*tpl, i as int));
    }
    DynamicArgument::Template(parts)
}

/// The argument that the first argument of an import call gives.
pub fn analyze_argument(expr: &Expr) -> (r: DynamicArgument)
    requires
        has_values(*expr),
    ensures
        r.deep_view() == argument_of(*expr),
{
    match expr {
        Expr::Lit(Lit::Str(specifier)) => DynamicArgument::String(specifier.clone()),
        Expr::Tpl(tpl) => analyze_template(tpl),
        Expr::Bin(bin) => match concatenation_parts(bin) {
            Some(parts) => DynamicArgument::Template(parts),
            None => DynamicArgument::Expr,
        },
        _ => DynamicArgument::Expr,
    }
}

/// Whether a callee is a name `require`. Any such name is taken for a require call, even if it
/// is neither the global nor the result of calling `createRequire`.
pub fn is_require(callee: &Callee) -> (r: bool)
    ensures
        r == names_require(*callee),
{
    match callee {
        Callee::Expr(Expr::Ident(name)) => {
            proof {
                reveal_strlit("require");
                assert("require"@ =~= seq!['r', 'e', 'q', 'u', 'i', 'r', 'e']);
            }
            same_text(name.as_str(), "require")
        },
        _ => false,
    }
}

/// Describes the dependency that an import declaration states.
pub fn describe_import_decl(node: &ImportDecl, leading_comments: Vec<DependencyComment>) -> (r:
    StaticDependencyDescriptor)
    ensures
        r.deep_view() == import_dependency(*node, leading_comments.deep_view()),
        r.import_attributes.wf(),
{
    let kind = if node.type_only {
        StaticDependencyKind::ImportType
    } else {
        StaticDependencyKind::Import
    };
    StaticDependencyDescriptor {
        kind,
        leading_comments,
        range: node.range,
        specifier: node.src.value.clone(),
        specifier_range: node.src.range,
        import_attributes: parse_import_attributes(node.with.as_ref()),
        is_side_effect: node.specifier_count == 0,
    }
}

/// Describes the dependency that an export of names states, if it has a source.
pub fn describe_named_export(node: &NamedExport, leading_comments: Vec<DependencyComment>) -> (r:
    Option<StaticDependencyDescriptor>)
    ensures
        r.deep_view() == named_export_dependency(*node, leading_comments.deep_view()),
        r matches Some(descriptor) ==> descriptor.import_attributes.wf(),
{
    match &node.src {
        Some(src) => {
            let kind = if node.type_only {
                StaticDependencyKind::ExportType
            } else {
                StaticDependencyKind::Export
            };
            Some(
                StaticDependencyDescriptor {
                    kind,
                    leading_comments,
                    range: node.range,
                    specifier: src.value.clone(),
                    specifier_range: src.range,
                    import_attributes: parse_import_attributes(node.with.as_ref()),
                    is_side_effect: false,
                },
            )
        },
        None => None,
    }
}

/// Describes the dependency that an export of everything states.
pub fn describe_export_all(node: &ExportAll, leading_comments: Vec<DependencyComment>) -> (r:
    StaticDependencyDescriptor)
    ensures
        r.deep_view() == export_all_dependency(*node, leading_comments.deep_view()),
        r.import_attributes.wf(),
{
    let kind = if node.type_only {
        StaticDependencyKind::ExportType
    } else {
        StaticDependencyKind::Export
    };
    StaticDependencyDescriptor {
        kind,
        leading_comments,
        range: node.range,
        specifier: node.src.value.clone(),
        specifier_range: node.src.range,
        import_attributes: parse_import_attributes(node.with.as_ref()),
        is_side_effect: false,
    }
}

/// Describes the dependency that an import type states.
pub fn describe_ts_import_type(
    node: &TsImportType,
    leading_comments: Vec<DependencyComment>,
) -> (r: StaticDependencyDescriptor)
    ensures
        r.deep_view() == import_type_dependency(*node, leading_comments.deep_view()),
        r.import_attributes.wf(),
{
    StaticDependencyDescriptor {
        kind: StaticDependencyKind::ImportType,
        leading_comments,
        range: node.range,
        specifier: node.arg.value.clone(),
        specifier_range: node.arg.range,
        import_attributes: match &node.attributes {
            Some(lit) => parse_import_attributes_from_object_lit(lit),
            None => ImportAttributes::default(),
        },
        is_side_effect: false,
    }
}

/// Describes the dependency that an import assignment states, if it refers to a module.
pub fn describe_ts_import_equals_decl(
    node: &TsImportEqualsDecl,
    leading_comments: Vec<DependencyComment>,
) -> (r: Option<StaticDependencyDescriptor>)
    ensures
        r.deep_view() == import_equals_dependency(*node, leading_comments.deep_view()),
        r matches Some(descriptor) ==> descriptor.import_attributes.wf(),
{
    match &node.module_ref {
        TsModuleRef::TsExternalModuleRef(src) => {
            let kind = if node.is_type_only {
                StaticDependencyKind::ImportType
            } else if node.is_export {
                StaticDependencyKind::ExportEquals
            } else {
                StaticDependencyKind::ImportEquals
            };
            Some(
                StaticDependencyDescriptor {
                    kind,
                    leading_comments,
                    range: node.range,
                    specifier: src.value.clone(),
                    specifier_range: src.range,
                    import_attributes: ImportAttributes::default(),
                    is_side_effect: false,
                },
            )
        },
        TsModuleRef::TsEntityName => None,
    }
}

/// Describes the dependency that a call states, if it states one.
pub fn describe_call_expr(node: &CallExpr, leading_comments: Vec<DependencyComment>) -> (r: Option<
    DynamicDependencyDescriptor,
>)
    requires
        states_dependency(*node) ==> has_values(node.args@[0].expr),
    ensures
        r.deep_view() == call_dependency(*node, leading_comments.deep_view()),
        r matches Some(descriptor) ==> descriptor.import_attributes.wf(),
{
    let is_esm = matches!(&node.callee, Callee::Import);
    if !is_esm && !is_require(&node.callee) {
        return None;
    }
    if node.args.len() == 0 {
        return None;
    }
    let arg = &node.args[0];
    let argument = analyze_argument(&arg.expr);
    let import_attributes = if node.args.len() > 1 {
        parse_dynamic_import_attributes(Some(&node.args[1]))
    } else {
        parse_dynamic_import_attributes(None)
    };
    Some(
        DynamicDependencyDescriptor {
            kind: if is_esm {
                DynamicDependencyKind::Import
            } else {
                DynamicDependencyKind::Require
            },
            leading_comments,
            range: node.range,
            argument,
            argument_range: arg.range,
            import_attributes,
        },
    )
}

/// Collects the dependencies of the nodes that it visits.
pub struct DependencyCollector<'a> {
    pub comments: &'a MultiThreadedComments,
    pub items: Vec<DependencyDescriptor>,
}

impl<'a> DependencyCollector<'a> {
    /// Every item is well-formed.
    pub open spec fn wf(&self) -> bool {
        forall|i: int| 0 <= i < self.items@.len() ==> (#[trigger] self.items@[i]).wf()
    }

    /// Whether a collector differs from an earlier one in having collected dependencies since.
    pub open spec fn has_collected(
        &self,
        before: DependencyCollector<'a>,
        dependencies: Seq<DependencyView>,
    ) -> bool {
        &&& self.wf()
        &&& self.comments == before.comments
        &&& self.items.deep_view() == before.items.deep_view() + dependencies
    }

    /// What is collected in two steps adds up.
    proof fn lemma_collected_in_steps(
        &self,
        between: DependencyCollector<'a>,
        before: DependencyCollector<'a>,
        first: Seq<DependencyView>,
        second: Seq<DependencyView>,
    )
        requires
            between.has_collected(before, first),
            self.has_collected(between, second),
        ensures
            self.has_collected(before, first + second),
    {
        assert(self.items.deep_view() =~= before.items.deep_view() + (first + second));
    }

    fn push(&mut self, item: DependencyDescriptor)
        requires
            old(self).wf(),
            item.wf(),
        ensures
            final(self).has_collected(*old(self), seq![item.deep_view()]),
    {
        self.items.push(item);
        assert(self.items.deep_view() =~= old(self).items.deep_view() + seq![item.deep_view()]);
    }

    /// Visits an import declaration.
    pub fn visit_import_decl(&mut self, node: &ImportDecl)
        requires
            old(self).wf(),
        ensures
            final(self).has_collected(
                *old(self),
                dependencies_of(Node::ImportDecl(*node), *old(self).comments),
            ),
    {
        let leading_comments = get_leading_comments(self.comments, node.range.start);
        self.push(DependencyDescriptor::from(describe_import_decl(node, leading_comments)));
    }

    /// Visits an export of names.
    pub fn visit_named_export(&mut self, node: &NamedExport)
        requires
            old(self).wf(),
        ensures
            final(self).has_collected(
                *old(self),
                dependencies_of(Node::NamedExport(*node), *old(self).comments),
            ),
    {
        let leading_comments = get_leading_comments(self.comments, node.range.start);
        match describe_named_export(node, leading_comments) {
            Some(descriptor) => self.push(DependencyDescriptor::from(descriptor)),
            None => {},
        }
    }

    /// Visits an export of everything.
    pub fn visit_export_all(&mut self, node: &ExportAll)
        requires
            old(self).wf(),
        ensures
            final(self).has_collected(
                *old(self),
                dependencies_of(Node::ExportAll(*node), *old(self).comments),
            ),
    {
        let leading_comments = get_leading_comments(self.comments, node.range.start);
        self.push(DependencyDescriptor::from(describe_export_all(node, leading_comments)));
    }

    /// Visits an import type, then the nodes below it.
    pub fn visit_ts_import_type(&mut self, node: &TsImportType)
        requires
            old(self).wf(),
            nodes_have_values(node.children@),
        ensures
            final(self).has_collected(
                *old(self),
                dependencies_of(Node::TsImportType(*node), *old(self).comments),
            ),
        decreases node,
    {
        let leading_comments = get_leading_comments(self.comments, node.range.start);
        self.push(DependencyDescriptor::from(describe_ts_import_type(node, leading_comments)));
        let ghost between = *self;
        self.visit_nodes(&node.children);
        proof {
            self.lemma_collected_in_steps(
                between,
                *old(self),
                static_list(
                    Some(
                        import_type_dependency(
                            *node,
                            comments_before(*old(self).comments, node.range.start),
                        ),
                    ),
                ),
                dependencies_in(node.children@, *old(self).comments),
            );
        }
    }

    /// Visits the nodes below a call, then the call.
    pub fn visit_call_expr(&mut self, node: &CallExpr)
        requires
            old(self).wf(),
            node_has_values(Node::CallExpr(*node)),
        ensures
            final(self).has_collected(
                *old(self),
                dependencies_of(Node::CallExpr(*node), *old(self).comments),
            ),
        decreases node,
    {
        self.visit_nodes(&node.children);
        let ghost between = *self;
        let leading_comments = get_leading_comments(self.comments, node.range.start);
        match describe_call_expr(node, leading_comments) {
            Some(descriptor) => self.push(DependencyDescriptor::from(descriptor)),
            None => {},
        }
        proof {
            self.lemma_collected_in_steps(
                between,
                *old(self),
                dependencies_in(node.children@, *old(self).comments),
                dynamic_list(
                    call_dependency(
                        *node,
                        comments_before(*old(self).comments, node.range.start),
                    ),
                ),
            );
        }
    }

    /// Visits an import assignment.
    pub fn visit_ts_import_equals_decl(&mut self, node: &TsImportEqualsDecl)
        requires
            old(self).wf(),
        ensures
            final(self).has_collected(
                *old(self),
                dependencies_of(Node::TsImportEqualsDecl(*node), *old(self).comments),
            ),
    {
        let leading_comments = get_leading_comments(self.comments, node.range.start);
        match describe_ts_import_equals_decl(node, leading_comments) {
            Some(descriptor) => self.push(DependencyDescriptor::from(descriptor)),
            None => {},
        }
    }

    /// Visits a node.
    pub fn visit_node(&mut self, node: &Node)
        requires
            old(self).wf(),
            node_has_values(*node),
        ensures
            final(self).has_collected(*old(self), dependencies_of(*node, *old(self).comments)),
        decreases node,
    {
        match node {
            Node::ImportDecl(node) => self.visit_import_decl(node),
            Node::NamedExport(node) => self.visit_named_export(node),
            Node::ExportAll(node) => self.visit_export_all(node),
            Node::TsImportType(node) => self.visit_ts_import_type(node),
            Node::TsImportEqualsDecl(node) => self.visit_ts_import_equals_decl(node),
            Node::CallExpr(node) => self.visit_call_expr(node),
        }
    }

    /// Visits nodes in their order.
    pub fn visit_nodes(&mut self, nodes: &Vec<Node>)
        requires
            old(self).wf(),
            nodes_have_values(nodes@),
        ensures
            final(self).has_collected(*old(self), dependencies_in(nodes@, *old(self).comments)),
        decreases nodes,
    {
        let ghost before = *self;
        let ghost all = nodes@;
        let mut i: usize = 0;
        assert(all.take(0) =~= Seq::empty());
        while i < nodes.len()
            invariant
                i <= nodes.len(),
                all == nodes@,
                nodes_have_values(nodes@),
                self.has_collected(
                    before,
                    dependencies_in(all.take(i as int), *before.comments),
                ),
            decreases nodes.len() - i,
        {
            let ghost between = *self;
            self.visit_node(&nodes[i]);
            proof {
                self.lemma_collected_in_steps(
                    between,
                    before,
                    dependencies_in(all.take(i as int), *before.comments),
                    dependencies_of(all[i as int], *before.comments),
                );
                assert(all.take(i + 1).drop_last() =~= all.take(i as int));
                assert(all.take(i + 1).last() == all[i as int]);
            }
            i = i + 1;
        }
        assert(all.take(i as int) =~= all);
    }
}

fn template_has_values(expr: &Expr) -> (r: bool)
    ensures
        r == has_values(*expr),
{
    let tpl = match expr {
        Expr::Tpl(tpl) => tpl,
        _ => return true,
    };
    let mut i: usize = 0;
    while i < tpl.quasis.len()
        invariant
            i <= tpl.quasis.len(),
            *expr == Expr::Tpl(*tpl),
            forall|j: int| 0 <= j < i ==> (#[trigger] tpl.quasis@[j]) is Some,
        decreases tpl.quasis.len() - i,
    {
        if tpl.quasis[i].is_none() {
            assert(tpl.quasis@[i as int] is None);
            return false;
        }
        i = i + 1;
    }
    true
}

fn templates_below_have_values(node: &Node) -> (r: bool)
    ensures
        r == node_has_values(*node),
    decreases node,
{
    match node {
        Node::TsImportType(node) => templates_have_values(&node.children),
        Node::CallExpr(node) => {
            if !templates_have_values(&node.children) {
                return false;
            }
            let may_state = matches!(&node.callee, Callee::Import) || is_require(&node.callee);
            !may_state || node.args.len() == 0 || template_has_values(&node.args[0].expr)
        },
        _ => true,
    }
}

/// Whether every template that states a dependency at or below nodes has values for its texts,
/// which the analysis of a program asks for.
pub fn templates_have_values(nodes: &Vec<Node>) -> (r: bool)
    ensures
        r == nodes_have_values(nodes@),
    decreases nodes,
{
    let mut i: usize = 0;
    while i < nodes.len()
        invariant
            i <= nodes.len(),
            forall|j: int| 0 <= j < i ==> node_has_values(#[trigger] nodes@[j]),
        decreases nodes.len() - i,
    {
        if !templates_below_have_values(&nodes[i]) {
            assert(!node_has_values(nodes@[i as int]));
            return false;
        }
        i = i + 1;
    }
    true
}

/// Finds the dependencies that a program states, in the order of the source.
pub fn analyze_program_dependencies(program: &Program, comments: &MultiThreadedComments) -> (r: Vec<
    DependencyDescriptor,
>)
    requires
        nodes_have_values(program.body@),
    ensures
        r.deep_view() == dependencies_in(program.body@, *comments),
        forall|i: int| 0 <= i < r@.len() ==> (#[trigger] r@[i]).wf(),
{
    let mut v = DependencyCollector { comments, items: Vec::new() };
    v.visit_nodes(&program.body);
    v.items
}

/// The dependencies of two pieces of a program, one behind the other, are those of the first
/// followed by those of the second.
pub proof fn law_dependencies_of_pieces_add_up(
    first: Seq<Node>,
    second: Seq<Node>,
    comments: MultiThreadedComments,
)
    ensures
        dependencies_in(first + second, comments) == dependencies_in(first, comments)
            + dependencies_in(second, comments),
    decreases second.len(),
{
    if second.len() == 0 {
        assert(first + second =~= first);
        assert(dependencies_in(second, comments) =~= Seq::empty());
    } else {
        law_dependencies_of_pieces_add_up(first, second.drop_last(), comments);
        assert((first + second).drop_last() =~= first + second.drop_last());
        assert((first + second).last() == second.last());
    }
}

/// A call that is neither an import nor a call of `require`, or that has no argument, states
/// only what is below it.
pub proof fn law_other_calls_state_nothing(node: CallExpr, comments: MultiThreadedComments)
    requires
        !states_dependency(node),
    ensures
        dependencies_of(Node::CallExpr(node), comments) == dependencies_in(
            node.children@,
            comments,
        ),
{
    assert(dependencies_of(Node::CallExpr(node), comments) =~= dependencies_in(
        node.children@,
        comments,
    ));
}

/// What is below a call or an import type is found whatever the call or the type is.
pub proof fn law_nodes_below_are_found(
    node: Node,
    children: Seq<Node>,
    i: int,
    comments: MultiThreadedComments,
)
    requires
        (node matches Node::CallExpr(call) && call.children@ == children) || (
        node matches Node::TsImportType(import_type) && import_type.children@ == children),
        0 <= i < dependencies_in(children, comments).len(),
    ensures
        dependencies_of(node, comments).contains(dependencies_in(children, comments)[i]),
{
    let below = dependencies_in(children, comments);
    let all = dependencies_of(node, comments);
    if node is CallExpr {
        assert(all[i] == below[i]);
    } else {
        assert(all[i + 1] == below[i]);
    }
}

/// What holds of each dependency: only an import is one for its side effects alone, an import
/// assignment has no attributes, and the attributes of a declaration are never unknown.
pub open spec fn is_consistent(dependency: DependencyView) -> bool {
    dependency matches DependencyView::Static(dependency) ==> {
        &&& dependency.is_side_effect ==> dependency.kind is Import
            || dependency.kind is ImportType
        &&& dependency.kind is ImportEquals || dependency.kind is ExportEquals
            ==> dependency.import_attributes is Absent
        &&& dependency.import_attributes is Unknown ==> dependency.kind is ImportType
            && !dependency.is_side_effect
    }
}

/// Each dependency that a node or a node below it states is consistent.
pub proof fn law_dependencies_of_a_node_are_consistent(
    node: Node,
    comments: MultiThreadedComments,
    i: int,
)
    requires
        0 <= i < dependencies_of(node, comments).len(),
    ensures
        is_consistent(dependencies_of(node, comments)[i]),
    decreases node,
{
    match node {
        Node::TsImportType(node) => {
            if i > 0 {
                law_dependencies_are_consistent(node.children@, comments, i - 1);
            }
        },
        Node::CallExpr(node) => {
            if i < dependencies_in(node.children@, comments).len() {
                law_dependencies_are_consistent(node.children@, comments, i);
            }
        },
        _ => {},
    }
}

/// Each dependency that a program states is consistent.
pub proof fn law_dependencies_are_consistent(
    nodes: Seq<Node>,
    comments: MultiThreadedComments,
    i: int,
)
    requires
        0 <= i < dependencies_in(nodes, comments).len(),
    ensures
        is_consistent(dependencies_in(nodes, comments)[i]),
    decreases nodes,
{
    let before = dependencies_in(nodes.drop_last(), comments);
    if i < before.len() {
        law_dependencies_are_consistent(nodes.drop_last(), comments, i);
    } else {
        law_dependencies_of_a_node_are_consistent(nodes.last(), comments, i - before.len());
    }
}

/// A concatenation that is understood starts with a string and has two parts or more.
pub proof fn law_concatenation_starts_with_a_string(bin: BinExpr)
    requires
        concatenation(bin) is Some,
    ensures
        concatenation(bin)->0.len() >= 2,
        concatenation(bin)->0[0] is String,
    decreases bin,
{
    match bin.left {
        Expr::Bin(left) => law_concatenation_starts_with_a_string(*left),
        _ => {},
    }
}

/// A template without expressions is read as the string that it holds.
pub proof fn law_plain_template_is_a_string(tpl: Tpl, text: String)
    requires
        tpl.quasis@ == seq![Some(text)],
        tpl.expr_count == 0,
    ensures
        argument_of(Expr::Tpl(tpl)) == argument_of(Expr::Lit(Lit::Str(text))),
{
}

/// The parts of a template hold no empty string.
pub proof fn law_template_parts_are_not_empty(tpl: Tpl, n: int, i: int)
    requires
        0 <= i < template_parts(tpl, n).len(),
    ensures
        template_parts(tpl, n)[i] matches DynamicTemplatePartView::String(text) ==> text.len() > 0,
    decreases n,
{
    if i < template_parts(tpl, n - 1).len() {
        law_template_parts_are_not_empty(tpl, n - 1, i);
    }
}

/// How many of some parts are expressions.
pub open spec fn expr_parts(parts: Seq<DynamicTemplatePartView>) -> nat
    decreases parts.len(),
{
    if parts.len() == 0 {
        0
    } else {
        expr_parts(parts.drop_last()) + if parts.last() is Expr {
            1nat
        } else {
            0
        }
    }
}

/// The strings of some parts, one behind the other.
pub open spec fn joined_strings(parts: Seq<DynamicTemplatePartView>) -> Seq<char>
    decreases parts.len(),
{
    if parts.len() == 0 {
        Seq::empty()
    } else {
        match parts.last() {
            DynamicTemplatePartView::String(text) => joined_strings(parts.drop_last()) + text,
            DynamicTemplatePartView::Expr => joined_strings(parts.drop_last()),
        }
    }
}

/// The first `n` texts of a template, one behind the other.
pub open spec fn joined_texts(tpl: Tpl, n: int) -> Seq<char>
    decreases n,
{
    if n <= 0 {
        Seq::empty()
    } else {
        joined_texts(tpl, n - 1) + tpl.quasis@[n - 1]->0@
    }
}

/// The parts of a template hold its texts, none lost and in their order, and as many
/// expressions as stand behind the texts.
pub proof fn law_template_parts_are_complete(tpl: Tpl, n: int)
    requires
        0 <= n,
    ensures
        joined_strings(template_parts(tpl, n)) == joined_texts(tpl, n),
        expr_parts(template_parts(tpl, n)) == if n < tpl.expr_count {
            n
        } else {
            tpl.expr_count as int
        },
    decreases n,
{
    if n > 0 {
        law_template_parts_are_complete(tpl, n - 1);
        let before = template_parts(tpl, n - 1);
        let text = tpl.quasis@[n - 1]->0@;
        let with_text = if text.len() > 0 {
            before.push(DynamicTemplatePartView::String(text))
        } else {
            before
        };
        let with_expr = if n - 1 < tpl.expr_count {
            with_text.push(DynamicTemplatePartView::Expr)
        } else {
            with_text
        };
        assert(with_expr =~= template_parts(tpl, n));
        assert(before.push(DynamicTemplatePartView::String(text)).drop_last() =~= before);
        assert(with_text.push(DynamicTemplatePartView::Expr).drop_last() =~= with_text);
        assert(joined_strings(with_text) =~= joined_texts(tpl, n));
        assert(expr_parts(with_text) == expr_parts(before));
    }
}

} // verus!
