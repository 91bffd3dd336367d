use crate::document::Span;
use vstd::prelude::*;

verus! {

/// What an edit does to its span.
#[derive(Clone, Copy, Debug, PartialEq, Eq, Structural)]
pub enum EditKind {
    /// Replace an attribute's value with `text`.
    ReplaceAttr,
    /// Remove an attribute, key through value.
    RemoveAttr,
    /// Replace a text span with `text`.
    Replace,
    /// Remove a whole node.
    RemoveNode,
    /// Insert `text` at the span.
    InsertText,
    /// Add a marker attribute named `name` with value `text`.
    AddMarkerAttr,
}

/// One edit of the source buffer.
#[derive(Clone, Debug, PartialEq, Eq)]
pub struct Edit {
    pub kind: EditKind,
    pub span: Span,
    pub name: String,
    pub text: String,
}

/// An edit, with its strings as character sequences.
pub struct EditView {
    pub kind: EditKind,
    pub span: Span,
    pub name: Seq<char>,
    pub text: Seq<char>,
}

impl View for Edit {
    type V = EditView;

    open spec fn view(&self) -> EditView {
        EditView { kind: self.kind, span: self.span, name: self.name@, text: self.text@ }
    }
}

pub open spec fn edit_view(kind: EditKind, span: Span, name: Seq<char>, text: Seq<char>) -> EditView {
    EditView { kind, span, name, text }
}

/// The views of a list of edits.
pub open spec fn edits_view(v: Seq<Edit>) -> Seq<EditView> {
    v.map_values(|e: Edit| e@)
}

impl Edit {
    pub fn new(kind: EditKind, span: Span, name: String, text: String) -> (r: Edit)
        ensures
            r@ == edit_view(kind, span, name@, text@),
    {
        Edit { kind, span, name, text }
    }

    /// An edit that carries no text.
    pub fn bare(kind: EditKind, span: Span) -> (r: Edit)
        ensures
            r@ == edit_view(kind, span, Seq::empty(), Seq::empty()),
    {
        Edit { kind, span, name: String::new(), text: String::new() }
    }
}

} // verus!
