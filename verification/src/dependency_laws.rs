//! What holds of the dependencies of every program, in terms of the program itself.

use deno_ast::MultiThreadedComments;
use vstd::prelude::*;

use crate::analysis::ImportAttribute;
use crate::analysis::ImportAttributeView;
use crate::analysis::ImportAttributes;
use crate::comments::comments_before;
use crate::comments::leading_comments;
use crate::comments::DependencyComment;
use crate::comments::DependencyCommentView;
use crate::dep::call_dependency;
use crate::dep::concatenation;
use crate::dep::dependencies_in;
use crate::dep::dependencies_of;
use crate::dep::export_all_dependency;
use crate::dep::expr_parts;
use crate::dep::import_dependency;
use crate::dep::import_equals_dependency;
use crate::dep::import_type_dependency;
use crate::dep::law_template_parts_are_complete;
use crate::dep::law_template_parts_are_not_empty;
use crate::dep::named_export_dependency;
use crate::dep::node_has_values;
use crate::dep::nodes_have_values;
use crate::dep::template_parts;
use crate::dep::DependencyDescriptor;
use crate::dep::DependencyView;
use crate::dep::DynamicArgument;
use crate::dep::DynamicArgumentView;
use crate::dep::DynamicDependencyDescriptor;
use crate::dep::DynamicTemplatePart;
use crate::dep::DynamicTemplatePartView;
use crate::dep::StaticDependencyDescriptor;
use crate::import_attributes::declared_attributes;
use crate::import_attributes::dynamic_attributes;
use crate::import_attributes::literal_attributes;
use crate::ordered_map::law_text_map_holds_each_entry;
use crate::ordered_map::text_map;
use crate::ordered_map::OrderedMap;
use crate::syntax::BinExpr;
use crate::syntax::BinaryOp;
use crate::syntax::CallExpr;
use crate::syntax::Callee;
use crate::syntax::ExportAll;
use crate::syntax::Expr;
use crate::syntax::ImportDecl;
use crate::syntax::Lit;
use crate::syntax::NamedExport;
use crate::syntax::Node;
use crate::syntax::Tpl;
use crate::syntax::TsImportEqualsDecl;
use crate::syntax::TsImportType;
use crate::syntax::TsModuleRef;

verus! {

/// The comments before a position are those that are recorded there, and none where none are.
pub proof fn law_comments_are_those_recorded(comments: MultiThreadedComments, start: u32)
    ensures
        leading_comments(comments).contains_key(start) ==> comments_before(comments, start)
            == leading_comments(comments)[start],
        !leading_comments(comments).contains_key(start) ==> comments_before(comments, start).len()
            == 0,
{
}

/// An import declaration states one dependency. It is one for side effects alone exactly where no
/// name is imported, and one on types alone exactly where the declaration says so. Its comments are
/// those before the start of the declaration.
pub proof fn law_import_declaration_states_one_dependency(
    node: ImportDecl,
    comments: MultiThreadedComments,
    given: Seq<DependencyCommentView>,
)
    ensures
        dependencies_of(Node::ImportDecl(node), comments).len() == 1,
        dependencies_of(Node::ImportDecl(node), comments)[0] == DependencyView::Static(
            import_dependency(node, comments_before(comments, node.range.start)),
        ),
        ({
            let dependency = import_dependency(node, given);
            &&& dependency.is_side_effect <==> node.specifier_count == 0
            &&& dependency.kind is ImportType <==> node.type_only
            &&& dependency.kind is Import <==> !node.type_only
            &&& dependency.leading_comments == given
            &&& dependency.range == node.range
            &&& dependency.specifier == node.src.value@
            &&& dependency.specifier_range == node.src.range
            &&& dependency.import_attributes == declared_attributes(node.with)
        }),
{
}

/// An import declaration that imports a name is never one for side effects alone, however many
/// names it imports.
pub proof fn law_number_of_imported_names_does_not_count(
    first: ImportDecl,
    second: ImportDecl,
    given: Seq<DependencyCommentView>,
)
    requires
        first.specifier_count > 0,
        second == (ImportDecl { specifier_count: second.specifier_count, ..first }),
        second.specifier_count > 0,
    ensures
        import_dependency(first, given) == import_dependency(second, given),
        !import_dependency(first, given).is_side_effect,
{
}

/// An export of names states a dependency exactly where it has a source, and then one that is not
/// for side effects.
pub proof fn law_export_of_names_states_its_source(
    node: NamedExport,
    comments: MultiThreadedComments,
    given: Seq<DependencyCommentView>,
)
    ensures
        node.src is None <==> named_export_dependency(node, given) is None,
        node.src is None ==> dependencies_of(Node::NamedExport(node), comments).len() == 0,
        node.src is Some ==> dependencies_of(Node::NamedExport(node), comments).len() == 1
            && dependencies_of(Node::NamedExport(node), comments)[0] == DependencyView::Static(
            named_export_dependency(node, comments_before(comments, node.range.start))->0,
        ),
        node.src matches Some(src) ==> {
            let dependency = named_export_dependency(node, given)->0;
            &&& !dependency.is_side_effect
            &&& dependency.kind is ExportType <==> node.type_only
            &&& dependency.kind is Export <==> !node.type_only
            &&& dependency.leading_comments == given
            &&& dependency.range == node.range
            &&& dependency.specifier == src.value@
            &&& dependency.specifier_range == src.range
            &&& dependency.import_attributes == declared_attributes(node.with)
        },
{
}

/// An export of everything states one dependency, which is not for side effects.
pub proof fn law_export_of_everything_states_one_dependency(
    node: ExportAll,
    comments: MultiThreadedComments,
    given: Seq<DependencyCommentView>,
)
    ensures
        dependencies_of(Node::ExportAll(node), comments).len() == 1,
        dependencies_of(Node::ExportAll(node), comments)[0] == DependencyView::Static(
            export_all_dependency(node, comments_before(comments, node.range.start)),
        ),
        ({
            let dependency = export_all_dependency(node, given);
            &&& !dependency.is_side_effect
            &&& dependency.kind is ExportType <==> node.type_only
            &&& dependency.kind is Export <==> !node.type_only
            &&& dependency.leading_comments == given
            &&& dependency.range == node.range
            &&& dependency.specifier == node.src.value@
            &&& dependency.specifier_range == node.src.range
            &&& dependency.import_attributes == declared_attributes(node.with)
        }),
{
}

/// An import type states a dependency on types, and then come those below it.
pub proof fn law_import_type_states_itself_first(
    node: TsImportType,
    comments: MultiThreadedComments,
    given: Seq<DependencyCommentView>,
)
    ensures
        dependencies_of(Node::TsImportType(node), comments).len() == 1 + dependencies_in(
            node.children@,
            comments,
        ).len(),
        dependencies_of(Node::TsImportType(node), comments)[0] == DependencyView::Static(
            import_type_dependency(node, comments_before(comments, node.range.start)),
        ),
        dependencies_of(Node::TsImportType(node), comments).skip(1) == dependencies_in(
            node.children@,
            comments,
        ),
        ({
            let dependency = import_type_dependency(node, given);
            &&& dependency.kind is ImportType
            &&& !dependency.is_side_effect
            &&& dependency.leading_comments == given
            &&& dependency.range == node.range
            &&& dependency.specifier == node.arg.value@
            &&& dependency.specifier_range == node.arg.range
            &&& node.attributes is None ==> dependency.import_attributes is Absent
            &&& node.attributes matches Some(lit) ==> dependency.import_attributes
                == literal_attributes(lit)
        }),
{
    assert(dependencies_of(Node::TsImportType(node), comments).skip(1) =~= dependencies_in(
        node.children@,
        comments,
    ));
}

/// An import assignment states a dependency exactly where it refers to a module. It is one on types
/// where the assignment says so, whether or not it is exported.
pub proof fn law_import_assignment_states_its_module(
    node: TsImportEqualsDecl,
    comments: MultiThreadedComments,
    given: Seq<DependencyCommentView>,
)
    ensures
        node.module_ref is TsEntityName <==> import_equals_dependency(node, given) is None,
        node.module_ref is TsEntityName ==> dependencies_of(
            Node::TsImportEqualsDecl(node),
            comments,
        ).len() == 0,
        node.module_ref !is TsEntityName ==> dependencies_of(
            Node::TsImportEqualsDecl(node),
            comments,
        ).len() == 1 && dependencies_of(Node::TsImportEqualsDecl(node), comments)[0]
            == DependencyView::Static(
            import_equals_dependency(node, comments_before(comments, node.range.start))->0,
        ),
        node.module_ref matches TsModuleRef::TsExternalModuleRef(src) ==> {
            let dependency = import_equals_dependency(node, given)->0;
            &&& dependency.kind is ImportType <==> node.is_type_only
            &&& dependency.kind is ExportEquals <==> !node.is_type_only && node.is_export
            &&& dependency.kind is ImportEquals <==> !node.is_type_only && !node.is_export
            &&& !dependency.is_side_effect
            &&& dependency.leading_comments == given
            &&& dependency.range == node.range
            &&& dependency.specifier == src.value@
            &&& dependency.specifier_range == src.range
            &&& dependency.import_attributes is Absent
        },
{
}

/// Whether a call is an import, or a call of something that is named `require`.
pub open spec fn is_import_call(node: CallExpr) -> bool {
    match node.callee {
        Callee::Import => true,
        Callee::Expr(Expr::Ident(name)) => name@ == "require"@,
        _ => false,
    }
}

/// A call states a dependency exactly where it is an import or a call of `require` and has an
/// argument. The dependency comes behind those below the call.
pub proof fn law_call_states_itself_last(
    node: CallExpr,
    comments: MultiThreadedComments,
    given: Seq<DependencyCommentView>,
)
    ensures
        call_dependency(node, given) is Some <==> is_import_call(node) && node.args@.len() > 0,
        ({
            let all = dependencies_of(Node::CallExpr(node), comments);
            let below = dependencies_in(node.children@, comments);
            let own = call_dependency(node, comments_before(comments, node.range.start));
            &&& own is None ==> all == below
            &&& own is Some ==> all == below.push(DependencyView::Dynamic(own->0))
        }),
{
    reveal_strlit("require");
    assert("require"@ =~= seq!['r', 'e', 'q', 'u', 'i', 'r', 'e']);
    let all = dependencies_of(Node::CallExpr(node), comments);
    let below = dependencies_in(node.children@, comments);
    match call_dependency(node, comments_before(comments, node.range.start)) {
        Some(own) => {
            assert(all =~= below.push(DependencyView::Dynamic(own)));
        },
        None => {
            assert(all =~= below);
        },
    }
}

/// What a call's dependency says of the call. The attributes come from the second argument alone.
pub proof fn law_call_dependency_describes_the_call(
    node: CallExpr,
    given: Seq<DependencyCommentView>,
)
    requires
        call_dependency(node, given) is Some,
    ensures
        ({
            let dependency = call_dependency(node, given)->0;
            &&& dependency.kind is Import <==> node.callee is Import
            &&& dependency.kind is Require <==> node.callee !is Import
            &&& dependency.leading_comments == given
            &&& dependency.range == node.range
            &&& dependency.argument_range == node.args@[0].range
            &&& node.args@.len() == 1 ==> dependency.import_attributes is Absent
            &&& node.args@.len() > 1 ==> dependency.import_attributes == dynamic_attributes(
                Some(node.args@[1]),
            )
        }),
{
}

/// Two calls that state dependencies and have the same first argument have the same argument in
/// their dependencies, whatever is called and whatever else they are given.
pub proof fn law_argument_depends_on_the_first_argument_alone(
    first: CallExpr,
    second: CallExpr,
    before_first: Seq<DependencyCommentView>,
    before_second: Seq<DependencyCommentView>,
)
    requires
        call_dependency(first, before_first) is Some,
        call_dependency(second, before_second) is Some,
        first.args@[0].expr == second.args@[0].expr,
    ensures
        (call_dependency(first, before_first)->0).argument == (call_dependency(
            second,
            before_second,
        )->0).argument,
{
}

/// A call of a string has that string as its argument; an expression that is neither a string, a
/// template nor an operation is not analyzed.
pub proof fn law_strings_are_taken_as_they_are(node: CallExpr, given: Seq<DependencyCommentView>)
    requires
        call_dependency(node, given) is Some,
    ensures
        ({
            let argument = (call_dependency(node, given)->0).argument;
            let expr = node.args@[0].expr;
            &&& expr matches Expr::Lit(Lit::Str(text)) ==> argument == DynamicArgumentView::String(
                text@,
            )
            &&& expr matches Expr::Lit(Lit::Other) ==> argument is Expr
            &&& expr is Ident || expr is Object || expr is Other ==> argument is Expr
        }),
{
}

/// The operands of a chain of operations, as far as it goes down on the left, in their order.
pub open spec fn operands(bin: BinExpr) -> Seq<Expr>
    decreases bin,
{
    match bin.left {
        Expr::Bin(left) => operands(*left).push(bin.right),
        _ => seq![bin.left, bin.right],
    }
}

/// Whether every operation of a chain is an addition.
pub open spec fn only_adds(bin: BinExpr) -> bool
    decreases bin,
{
    bin.op is Add && (bin.left matches Expr::Bin(left) ==> only_adds(*left))
}

/// Whether an expression is a string with a text.
pub open spec fn is_string(expr: Expr, text: Seq<char>) -> bool {
    expr matches Expr::Lit(Lit::Str(literal)) && literal@ == text
}

/// Whether an expression is a string.
pub open spec fn is_some_string(expr: Expr) -> bool {
    expr matches Expr::Lit(Lit::Str(_))
}

/// Whether a part stands for an operand: a string for that string, the unknown for all else.
pub open spec fn stands_for(part: DynamicTemplatePartView, operand: Expr) -> bool {
    match part {
        DynamicTemplatePartView::String(text) => is_string(operand, text),
        DynamicTemplatePartView::Expr => !is_some_string(operand),
    }
}

proof fn lemma_concatenation(bin: BinExpr)
    ensures
        operands(bin).len() >= 2,
        concatenation(bin) is Some <==> only_adds(bin) && is_some_string(operands(bin)[0]),
        concatenation(bin) matches Some(parts) ==> parts.len() == operands(bin).len(),
        concatenation(bin) matches Some(parts) ==> forall|i: int|
            0 <= i < parts.len() ==> stands_for(#[trigger] parts[i], operands(bin)[i]),
    decreases bin,
{
    match bin.left {
        Expr::Bin(left) => {
            lemma_concatenation(*left);
            if let Some(parts) = concatenation(bin) {
                let before = concatenation(*left)->0;
                assert forall|i: int| 0 <= i < parts.len() implies stands_for(
                    #[trigger] parts[i],
                    operands(bin)[i],
                ) by {
                    if i < before.len() {
                        assert(stands_for(before[i], operands(*left)[i]));
                    } else {
                        lemma_operand(bin.right, parts[i]);
                    }
                }
            }
        },
        Expr::Lit(Lit::Str(_)) => {
            if let Some(parts) = concatenation(bin) {
                lemma_operand(bin.left, parts[0]);
                lemma_operand(bin.right, parts[1]);
            }
        },
        _ => {},
    }
}

proof fn lemma_operand(operand: Expr, part: DynamicTemplatePartView)
    requires
        part == crate::dep::operand_part(operand),
    ensures
        stands_for(part, operand),
{
}

/// A call of a chain of operations, import or require: it is understood exactly where every
/// operation is an addition and the first operand is a string. It has then one part for each
/// operand, in their order.
pub proof fn law_concatenations_are_taken_apart(
    node: CallExpr,
    bin: BinExpr,
    given: Seq<DependencyCommentView>,
)
    requires
        call_dependency(node, given) is Some,
        node.args@[0].expr == Expr::Bin(Box::new(bin)),
    ensures
        ({
            let argument = (call_dependency(node, given)->0).argument;
            let understood = only_adds(bin) && is_some_string(operands(bin)[0]);
            &&& understood ==> (argument matches DynamicArgumentView::Template(parts)
                && parts.len() == operands(bin).len() && forall|i: int|
                0 <= i < parts.len() ==> stands_for(#[trigger] parts[i], operands(bin)[i]))
            &&& !understood ==> argument is Expr
        }),
{
    lemma_concatenation(bin);
}

/// A call of the sum of a string and something else, import or require, has two parts: the string,
/// and behind it the other string or the unknown.
pub proof fn law_sum_of_a_string_has_two_parts(
    node: CallExpr,
    left: String,
    right: Expr,
    given: Seq<DependencyCommentView>,
)
    requires
        call_dependency(node, given) is Some,
        node.args@[0].expr == Expr::Bin(
            Box::new(
                BinExpr { op: BinaryOp::Add, left: Expr::Lit(Lit::Str(left)), right },
            ),
        ),
    ensures
        (call_dependency(node, given)->0).argument matches DynamicArgumentView::Template(parts)
            && parts.len() == 2 && parts[0] == DynamicTemplatePartView::String(left@) && (
        match right {
            Expr::Lit(Lit::Str(text)) => parts[1] == DynamicTemplatePartView::String(text@),
            _ => parts[1] is Expr,
        }),
{
}

/// The parts with values put in the places of the expressions, one behind the other.
pub open spec fn filled(parts: Seq<DynamicTemplatePartView>, values: Seq<Seq<char>>) -> Seq<char>
    decreases parts.len(),
{
    if parts.len() == 0 {
        Seq::empty()
    } else {
        filled(parts.drop_last(), values) + match parts.last() {
            DynamicTemplatePartView::String(text) => text,
            DynamicTemplatePartView::Expr => values[expr_parts(parts.drop_last()) as int],
        }
    }
}

/// What the first `n` texts of a template come to when its expressions have values: each text, and
/// behind it the value of the expression that follows.
pub open spec fn evaluated(tpl: Tpl, values: Seq<Seq<char>>, n: int) -> Seq<char>
    decreases n,
{
    if n <= 0 {
        Seq::empty()
    } else {
        evaluated(tpl, values, n - 1) + tpl.quasis@[n - 1]->0@ + if n - 1 < tpl.expr_count {
            values[n - 1]
        } else {
            Seq::empty()
        }
    }
}

/// How many of some parts are strings.
pub open spec fn string_parts(parts: Seq<DynamicTemplatePartView>) -> nat
    decreases parts.len(),
{
    if parts.len() == 0 {
        0
    } else {
        string_parts(parts.drop_last()) + if parts.last() is String {
            1nat
        } else {
            0
        }
    }
}

/// How many of the first `n` texts of a template are not empty.
pub open spec fn nonempty_texts(tpl: Tpl, n: int) -> nat
    decreases n,
{
    if n <= 0 {
        0
    } else {
        nonempty_texts(tpl, n - 1) + if (tpl.quasis@[n - 1]->0@).len() > 0 {
            1nat
        } else {
            0
        }
    }
}

proof fn lemma_template_is_filled(tpl: Tpl, values: Seq<Seq<char>>, n: int)
    requires
        0 <= n,
    ensures
        filled(template_parts(tpl, n), values) == evaluated(tpl, values, n),
        string_parts(template_parts(tpl, n)) == nonempty_texts(tpl, n),
    decreases n,
{
    if n > 0 {
        lemma_template_is_filled(tpl, values, n - 1);
        law_template_parts_are_complete(tpl, n - 1);
        let before = template_parts(tpl, n - 1);
        let text = tpl.quasis@[n - 1]->0@;
        let with_text = if text.len() > 0 {
            before.push(DynamicTemplatePartView::String(text))
        } else {
            before
        };
        let with_expr = if n - 1 < tpl.expr_count {
            with_text.push(DynamicTemplatePartView::Expr)
        } else {
            with_text
        };
        assert(with_expr =~= template_parts(tpl, n));
        assert(before.push(DynamicTemplatePartView::String(text)).drop_last() =~= before);
        assert(with_text.push(DynamicTemplatePartView::Expr).drop_last() =~= with_text);
        assert(filled(with_text, values) =~= evaluated(tpl, values, n - 1) + text);
        assert(expr_parts(with_text) == expr_parts(before));
        assert(filled(with_expr, values) =~= evaluated(tpl, values, n));
        assert(string_parts(with_text) == nonempty_texts(tpl, n));
        assert(string_parts(with_expr) == string_parts(with_text));
    }
}

/// A call of a template, import or require. One text and no expression is that text. Any other
/// template has parts that come to what the template comes to, whatever values its expressions
/// have: one string for each text that is not empty, and one unknown for each expression that
/// follows a text.
pub proof fn law_template_parts_come_to_the_template(
    node: CallExpr,
    tpl: Tpl,
    given: Seq<DependencyCommentView>,
    values: Seq<Seq<char>>,
)
    requires
        call_dependency(node, given) is Some,
        node.args@[0].expr == Expr::Tpl(tpl),
    ensures
        ({
            let argument = (call_dependency(node, given)->0).argument;
            let n = tpl.quasis@.len() as int;
            let plain = n == 1 && tpl.expr_count == 0;
            &&& plain ==> argument == DynamicArgumentView::String(tpl.quasis@[0]->0@)
            &&& !plain ==> argument is Template
            &&& argument matches DynamicArgumentView::Template(parts) ==> {
                &&& filled(parts, values) == evaluated(tpl, values, n)
                &&& string_parts(parts) == nonempty_texts(tpl, n)
                &&& expr_parts(parts) == if n < tpl.expr_count {
                    n
                } else {
                    tpl.expr_count as int
                }
                &&& forall|i: int|
                    0 <= i < parts.len() ==> ((#[trigger] parts[i]) matches
                        DynamicTemplatePartView::String(text) ==> text.len() > 0)
            }
        }),
{
    let n = tpl.quasis@.len() as int;
    lemma_template_is_filled(tpl, values, n);
    law_template_parts_are_complete(tpl, n);
    let parts = template_parts(tpl, n);
    assert forall|i: int| 0 <= i < parts.len() implies ((#[trigger] parts[i]) matches
        DynamicTemplatePartView::String(text) ==> text.len() > 0) by {
        law_template_parts_are_not_empty(tpl, n, i);
    }
}

/// A program without nodes states nothing, and one of a single node what that node states.
pub proof fn law_programs_are_made_of_nodes(node: Node, comments: MultiThreadedComments)
    ensures
        dependencies_in(Seq::empty(), comments).len() == 0,
        dependencies_in(seq![node], comments) == dependencies_of(node, comments),
{
    let one = seq![node];
    assert(one.drop_last() =~= Seq::empty());
    assert(dependencies_in(one.drop_last(), comments) =~= Seq::empty());
    assert(dependencies_in(one, comments) =~= dependencies_of(node, comments));
}

/// Values are asked for of the texts of a template that is the first argument of an import or of a
/// call of `require`, and of nothing else.
pub proof fn law_values_are_asked_of_import_templates_alone(node: Node)
    ensures
        node is ImportDecl || node is NamedExport || node is ExportAll || node is TsImportEqualsDecl
            ==> node_has_values(node),
        node matches Node::TsImportType(node) ==> (node_has_values(Node::TsImportType(node)) <==> (
        forall|i: int|
            0 <= i < node.children@.len() ==> node_has_values(#[trigger] node.children@[i]))),
        node matches Node::CallExpr(call) ==> (node_has_values(Node::CallExpr(call)) <==> ((
        forall|i: int|
            0 <= i < call.children@.len() ==> node_has_values(#[trigger] call.children@[i])) && (
        is_import_call(call) && call.args@.len() > 0 && call.args@[0].expr is Tpl
            ==> forall|i: int|
            0 <= i < (call.args@[0].expr->Tpl_0).quasis@.len() ==> (
            #[trigger] (call.args@[0].expr->Tpl_0).quasis@[i]) is Some))),
{
    if let Node::CallExpr(call) = node {
        law_call_states_itself_last(call, arbitrary(), Seq::empty());
        assert(nodes_have_values(call.children@) <==> forall|i: int|
            0 <= i < call.children@.len() ==> node_has_values(#[trigger] call.children@[i]));
    }
    if let Node::TsImportType(node) = node {
        assert(nodes_have_values(node.children@) <==> forall|i: int|
            0 <= i < node.children@.len() ==> node_has_values(#[trigger] node.children@[i]));
    }
}

/// The view of a static dependency shows every field as it is.
pub proof fn law_static_dependency_is_shown_as_it_is(descriptor: StaticDependencyDescriptor)
    ensures
        DependencyDescriptor::Static(descriptor).deep_view() == DependencyView::Static(
            descriptor.deep_view(),
        ),
        descriptor.deep_view().kind == descriptor.kind,
        descriptor.deep_view().range == descriptor.range,
        descriptor.deep_view().specifier == descriptor.specifier@,
        descriptor.deep_view().specifier_range == descriptor.specifier_range,
        descriptor.deep_view().is_side_effect == descriptor.is_side_effect,
        descriptor.deep_view().import_attributes == descriptor.import_attributes.deep_view(),
        descriptor.deep_view().leading_comments.len() == descriptor.leading_comments@.len(),
        forall|i: int|
            0 <= i < descriptor.leading_comments@.len() ==> #[trigger]
            descriptor.deep_view().leading_comments[i]
                == descriptor.leading_comments@[i].deep_view(),
{
}

/// The view of a dynamic dependency shows every field as it is.
pub proof fn law_dynamic_dependency_is_shown_as_it_is(descriptor: DynamicDependencyDescriptor)
    ensures
        DependencyDescriptor::Dynamic(descriptor).deep_view() == DependencyView::Dynamic(
            descriptor.deep_view(),
        ),
        descriptor.deep_view().kind == descriptor.kind,
        descriptor.deep_view().range == descriptor.range,
        descriptor.deep_view().argument == descriptor.argument.deep_view(),
        descriptor.deep_view().argument_range == descriptor.argument_range,
        descriptor.deep_view().import_attributes == descriptor.import_attributes.deep_view(),
        descriptor.deep_view().leading_comments.len() == descriptor.leading_comments@.len(),
        forall|i: int|
            0 <= i < descriptor.leading_comments@.len() ==> #[trigger]
            descriptor.deep_view().leading_comments[i]
                == descriptor.leading_comments@[i].deep_view(),
{
}

/// The views of a comment, an argument and a part show what they hold.
pub proof fn law_parts_of_dependencies_are_shown_as_they_are(
    comment: DependencyComment,
    text: String,
    parts: Vec<DynamicTemplatePart>,
)
    ensures
        comment.deep_view().kind == comment.kind,
        comment.deep_view().range == comment.range,
        comment.deep_view().text == comment.text@,
        DynamicTemplatePart::String(text).deep_view() == DynamicTemplatePartView::String(text@),
        DynamicTemplatePart::Expr.deep_view() is Expr,
        DynamicArgument::String(text).deep_view() == DynamicArgumentView::String(text@),
        DynamicArgument::Expr.deep_view() is Expr,
        DynamicArgument::Template(parts).deep_view() matches DynamicArgumentView::Template(shown)
            && shown.len() == parts@.len() && forall|i: int|
            0 <= i < parts@.len() ==> #[trigger] shown[i] == parts@[i].deep_view(),
{
}

/// The view of import attributes shows whether they are known, and leads from each name to the
/// value that stands beside it.
pub proof fn law_attributes_are_shown_as_they_are(
    text: String,
    attributes: OrderedMap<String, ImportAttribute>,
    i: int,
)
    requires
        attributes.wf(),
    ensures
        ImportAttribute::Unknown.deep_view() is Unknown,
        ImportAttribute::Known(text).deep_view() == ImportAttributeView::Known(text@),
        ImportAttributes::Absent.deep_view() is Absent,
        ImportAttributes::Unknown.deep_view() is Unknown,
        ImportAttributes::Known(attributes).deep_view() is Known,
        0 <= i < attributes.deep_view().keys.len() ==> {
            let shown = ImportAttributes::Known(attributes).deep_view()->Known_0;
            &&& shown.contains_key(attributes.deep_view().keys[i])
            &&& shown[attributes.deep_view().keys[i]] == attributes.deep_view().values[i]
        },
        forall|name: Seq<char>| #[trigger]
            (ImportAttributes::Known(attributes).deep_view()->Known_0).contains_key(name)
                ==> attributes.deep_view().keys.contains(name),
{
    assert forall|name: Seq<char>| #[trigger]
        text_map(attributes.deep_view()).contains_key(
            name,
        ) implies attributes.deep_view().keys.contains(name) by {
        law_text_map_holds_each_entry(attributes.deep_view(), 0, name);
    }
    if 0 <= i < attributes.deep_view().keys.len() {
        law_text_map_holds_each_entry(attributes.deep_view(), i, Seq::empty());
    }
}

} // verus!
