//! What a dependency can be and what is said with it.

use vstd::prelude::*;

use crate::ordered_map::text_map;
use crate::ordered_map::OrderedMap;

verus! {

/// The kind of a dependency that a declaration states.
#[derive(Clone, Copy, Debug, PartialEq, Eq, Structural)]
pub enum StaticDependencyKind {
    Import,
    ImportType,
    ImportEquals,
    Export,
    ExportType,
    ExportEquals,
}

/// The kind of a dependency that a call states.
#[derive(Clone, Copy, Debug, PartialEq, Eq, Structural)]
pub enum DynamicDependencyKind {
    Import,
    Require,
}

/// The value of an import attribute.
#[derive(Clone, Debug, PartialEq, Eq)]
pub enum ImportAttribute {
    /// The value could not be analyzed.
    Unknown,
    Known(String),
}

/// What the value of an import attribute is.
pub enum ImportAttributeView {
    Unknown,
    Known(Seq<char>),
}

impl DeepView for ImportAttribute {
    type V = ImportAttributeView;

    open spec fn deep_view(&self) -> ImportAttributeView {
        match self {
            ImportAttribute::Unknown => ImportAttributeView::Unknown,
            ImportAttribute::Known(value) => ImportAttributeView::Known(value@),
        }
    }
}

/// The import attributes of a dependency.
#[derive(Clone, Debug, PartialEq, Eq)]
pub enum ImportAttributes {
    /// There are none.
    Absent,
    /// There may be some, but they could not be analyzed.
    Unknown,
    /// Each by its name.
    Known(OrderedMap<String, ImportAttribute>),
}

/// What the import attributes of a dependency are.
pub enum ImportAttributesView {
    Absent,
    Unknown,
    Known(Map<Seq<char>, ImportAttributeView>),
}

impl DeepView for ImportAttributes {
    type V = ImportAttributesView;

    open spec fn deep_view(&self) -> ImportAttributesView {
        match self {
            ImportAttributes::Absent => ImportAttributesView::Absent,
            ImportAttributes::Unknown => ImportAttributesView::Unknown,
            ImportAttributes::Known(attributes) => ImportAttributesView::Known(
                text_map(attributes.deep_view()),
            ),
        }
    }
}

impl ImportAttributes {
    /// The names of the attributes are sorted.
    pub open spec fn wf(&self) -> bool {
        self matches ImportAttributes::Known(attributes) ==> attributes.wf()
    }
}

impl Default for ImportAttributes {
    fn default() -> (r: Self)
        ensures
            r.deep_view() == ImportAttributesView::Absent,
            r.wf(),
    {
        ImportAttributes::Absent
    }
}

} // verus!
