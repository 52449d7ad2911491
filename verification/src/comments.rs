//! The comments of a source.

use deno_ast::swc::common::comments::CommentKind as SwcCommentKind;
use deno_ast::swc::common::BytePos;
use deno_ast::MultiThreadedComments;
use vstd::prelude::*;

use crate::syntax::SourceRange;

verus! {

/// How a comment is written.
#[derive(Clone, Copy, Debug, PartialEq, Eq, Structural)]
pub enum CommentKind {
    /// `// text`
    Line,
    /// `/* text */`
    Block,
}

/// A comment before a dependency.
#[derive(Clone, Debug, PartialEq, Eq)]
pub struct DependencyComment {
    pub kind: CommentKind,
    pub range: SourceRange,
    pub text: String,
}

/// What a comment before a dependency is.
pub struct DependencyCommentView {
    pub kind: CommentKind,
    pub range: SourceRange,
    pub text: Seq<char>,
}

impl DeepView for DependencyComment {
    type V = DependencyCommentView;

    open spec fn deep_view(&self) -> DependencyCommentView {
        DependencyCommentView { kind: self.kind, range: self.range, text: self.text@ }
    }
}

/// `deno_ast::MultiThreadedComments`, the comments of a source by the positions that they lead
/// and trail. It cannot be changed.
#[verifier::external_type_specification]
#[verifier::external_body]
pub struct ExMultiThreadedComments(MultiThreadedComments);

/// The comments that lead a byte position, for each position that some lead.
pub uninterp spec fn leading_comments(comments: MultiThreadedComments) -> Map<
    u32,
    Seq<DependencyCommentView>,
>;

/// `MultiThreadedComments::leading_map` and a lookup in the map: the comments that lead a
/// position, in their order, or nothing where none are recorded. Each comment is handed out with
/// its kind, the bounds of its span and its text. `MultiThreadedComments::get_leading` makes the
/// same lookup, but a position that it can be asked for may not lie before the start of a source.
#[verifier::external_body]
fn leading_at(comments: &MultiThreadedComments, start: u32) -> (r: Option<Vec<DependencyComment>>)
    ensures
        r is Some <==> leading_comments(*comments).contains_key(start),
        r matches Some(list) ==> list.deep_view() == leading_comments(*comments)[start],
{
    comments.leading_map().get(&BytePos(start)).map(
        |list|
            list.iter().map(
                |c|
                    DependencyComment {
                        kind: match c.kind {
                            SwcCommentKind::Line => CommentKind::Line,
                            SwcCommentKind::Block => CommentKind::Block,
                        },
                        range: SourceRange { start: c.span.lo.0, end: c.span.hi.0 },
                        text: c.text.to_string(),
                    },
            ).collect(),
    )
}

/// The comments before a position, which are none where none are recorded.
pub open spec fn comments_before(comments: MultiThreadedComments, start: u32) -> Seq<
    DependencyCommentView,
> {
    if leading_comments(comments).contains_key(start) {
        leading_comments(comments)[start]
    } else {
        Seq::empty()
    }
}

/// What a lookup of leading comments gives as a list.
pub fn or_no_comments(found: Option<Vec<DependencyComment>>) -> (r: Vec<DependencyComment>)
    ensures
        r.deep_view() == match found {
            Some(list) => list.deep_view(),
            None => Seq::empty(),
        },
{
    match found {
        Some(list) => list,
        None => {
            let none = Vec::new();
            assert(none.deep_view() =~= Seq::empty());
            none
        },
    }
}

/// Gets the comments before a position.
pub fn get_leading_comments(comments: &MultiThreadedComments, start: u32) -> (r: Vec<
    DependencyComment,
>)
    ensures
        r.deep_view() == comments_before(*comments, start),
{
    or_no_comments(leading_at(comments, start))
}

} // verus!
