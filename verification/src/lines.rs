//! Whole lines of the two texts, and rows that pair a line of the old text
//! with a line of the new one.

use vstd::prelude::*;

verus! {

/// A line of one of the two texts: its number, counted from one, and its
/// text without the line break.
#[derive(Clone, Debug, PartialEq, Eq)]
pub struct Line {
    pub lineno: usize,
    pub value: String,
}

/// A row of whole lines: a line of the old text, a line of the new text, or
/// both side by side.
#[derive(Clone, Debug, PartialEq, Eq)]
pub struct LineDiff {
    pub left: Option<Line>,
    pub right: Option<Line>,
}

/// The side or sides of the comparison that an operation of an edit script
/// touches, with the line it carries there.
#[derive(Clone, Debug, PartialEq, Eq)]
pub enum Side {
    Both(Line, Line),
    Left(Line),
    Right(Line),
}

/// What a line is.
pub struct LineView {
    pub lineno: nat,
    pub value: Seq<char>,
}

/// What a row of whole lines is.
pub struct LineDiffView {
    pub left: Option<LineView>,
    pub right: Option<LineView>,
}

/// What a `Side` is.
pub enum SideView {
    Both(LineView, LineView),
    Left(LineView),
    Right(LineView),
}

impl View for Line {
    type V = LineView;

    open spec fn view(&self) -> LineView {
        LineView { lineno: self.lineno as nat, value: self.value@ }
    }
}

impl DeepView for Line {
    type V = LineView;

    open spec fn deep_view(&self) -> LineView {
        self@
    }
}

impl View for LineDiff {
    type V = LineDiffView;

    open spec fn view(&self) -> LineDiffView {
        LineDiffView { left: self.left.deep_view(), right: self.right.deep_view() }
    }
}

impl DeepView for LineDiff {
    type V = LineDiffView;

    open spec fn deep_view(&self) -> LineDiffView {
        self@
    }
}

impl View for Side {
    type V = SideView;

    open spec fn view(&self) -> SideView {
        match self {
            Side::Both(l, r) => SideView::Both(l@, r@),
            Side::Left(l) => SideView::Left(l@),
            Side::Right(r) => SideView::Right(r@),
        }
    }
}

impl LineDiffView {
    /// At least one side of the row is present.
    pub open spec fn inhabited(self) -> bool {
        self.left is Some || self.right is Some
    }
}

/// Every row has at least one side.
pub open spec fn all_inhabited(rows: Seq<LineDiffView>) -> bool {
    forall|i: int| 0 <= i < rows.len() ==> (#[trigger] rows[i]).inhabited()
}

} // verus!
