//! Segments of one display line: a span of text with a change kind, rows of
//! segments, and pairs of rows that stand side by side.

use crate::text::{lemma_text_width_concat, text_width, width_within};
use vstd::pervasive::unreached;
use vstd::prelude::*;
use vstd::string::StringExecFns;

verus! {

/// How a span of text relates the old text to the new one.
#[derive(Clone, Copy, Debug, PartialEq, Eq, Structural)]
pub enum Kind {
    Equal,
    Delete,
    Insert,
}

/// A span of text with its change kind.
#[derive(Clone, Debug, PartialEq, Eq)]
pub enum Part {
    Equal(String),
    Delete(String),
    Insert(String),
}

/// One side of one display line: the segments in reading order.
#[derive(Clone, Debug, PartialEq, Eq)]
pub struct Parts {
    pub lineno: usize,
    pub parts: Vec<Part>,
}

/// One display line: the old text's row to the left, the new text's row to
/// the right. A side is absent where the line exists in one text only.
#[derive(Clone, Debug, PartialEq, Eq)]
pub struct PartsDiff {
    pub left: Option<Parts>,
    pub right: Option<Parts>,
}

/// What a segment is: its kind and its characters.
pub struct PartView {
    pub kind: Kind,
    pub text: Seq<char>,
}

/// What a row is: its line number and its segments.
pub struct PartsView {
    pub lineno: nat,
    pub parts: Seq<PartView>,
}

/// What a row pair is.
pub struct PartsDiffView {
    pub left: Option<PartsView>,
    pub right: Option<PartsView>,
}

impl View for Part {
    type V = PartView;

    open spec fn view(&self) -> PartView {
        match self {
            Part::Equal(s) => PartView { kind: Kind::Equal, text: s@ },
            Part::Delete(s) => PartView { kind: Kind::Delete, text: s@ },
            Part::Insert(s) => PartView { kind: Kind::Insert, text: s@ },
        }
    }
}

impl DeepView for Part {
    type V = PartView;

    open spec fn deep_view(&self) -> PartView {
        self@
    }
}

impl View for Parts {
    type V = PartsView;

    open spec fn view(&self) -> PartsView {
        PartsView { lineno: self.lineno as nat, parts: self.parts.deep_view() }
    }
}

impl DeepView for Parts {
    type V = PartsView;

    open spec fn deep_view(&self) -> PartsView {
        self@
    }
}

impl View for PartsDiff {
    type V = PartsDiffView;

    open spec fn view(&self) -> PartsDiffView {
        PartsDiffView { left: self.left.deep_view(), right: self.right.deep_view() }
    }
}

impl DeepView for PartsDiff {
    type V = PartsDiffView;

    open spec fn deep_view(&self) -> PartsDiffView {
        self@
    }
}

/// Appending a span to a row: it joins the last segment where that has the
/// same kind, and starts a new segment otherwise.
pub open spec fn push_part(parts: Seq<PartView>, kind: Kind, text: Seq<char>) -> Seq<PartView> {
    if parts.len() > 0 && parts.last().kind == kind {
        parts.drop_last().push(PartView { kind, text: parts.last().text + text })
    } else {
        parts.push(PartView { kind, text })
    }
}

/// No two neighbouring segments have the same kind.
pub open spec fn coalesced(parts: Seq<PartView>) -> bool {
    forall|i: int, j: int|
        #![trigger parts[i], parts[j]]
        0 <= i && j == i + 1 && j < parts.len() ==> parts[i].kind != parts[j].kind
}

/// All the characters of a row, segment after segment.
pub open spec fn row_text(parts: Seq<PartView>) -> Seq<char>
    decreases parts.len(),
{
    if parts.len() == 0 {
        Seq::empty()
    } else {
        row_text(parts.drop_last()) + parts.last().text
    }
}

/// The columns that a row occupies: the width of its text, which is the sum
/// of the widths of its segments.
pub open spec fn row_width(parts: Seq<PartView>) -> nat {
    text_width(row_text(parts))
}

/// Every segment of the row has the given kind.
pub open spec fn all_of_kind(parts: Seq<PartView>, kind: Kind) -> bool {
    forall|i: int| 0 <= i < parts.len() ==> (#[trigger] parts[i]).kind == kind
}

impl PartsDiffView {
    /// At least one side of the row pair is present.
    pub open spec fn inhabited(self) -> bool {
        self.left is Some || self.right is Some
    }

    /// No side of the row pair has two neighbouring segments of one kind.
    pub open spec fn coalesced(self) -> bool {
        &&& self.left matches Some(row) ==> coalesced(row.parts)
        &&& self.right matches Some(row) ==> coalesced(row.parts)
    }
}

/// Every row pair has at least one side, and no row has two neighbouring
/// segments of one kind.
pub open spec fn all_rows_sound(diff: Seq<PartsDiffView>) -> bool {
    forall|i: int| 0 <= i < diff.len() ==> (#[trigger] diff[i]).inhabited() && diff[i].coalesced()
}

/// Every row pair has at least one side.
pub open spec fn all_pairs_inhabited(diff: Seq<PartsDiffView>) -> bool {
    forall|i: int| 0 <= i < diff.len() ==> (#[trigger] diff[i]).inhabited()
}

/// The width of a row is the sum of the widths of its segments.
pub proof fn lemma_row_width_sum(parts: Seq<PartView>)
    requires
        parts.len() > 0,
    ensures
        row_width(parts) == row_width(parts.drop_last()) + text_width(parts.last().text),
{
    lemma_text_width_concat(row_text(parts.drop_last()), parts.last().text);
}

/// The first segments of a row are no wider than the row.
pub proof fn lemma_row_width_prefix(parts: Seq<PartView>, upto: int)
    requires
        0 <= upto <= parts.len(),
    ensures
        row_width(parts.take(upto)) <= row_width(parts),
    decreases parts.len() - upto,
{
    if upto < parts.len() {
        lemma_row_width_prefix(parts, upto + 1);
        assert(parts.take(upto + 1).drop_last() == parts.take(upto));
        lemma_row_width_sum(parts.take(upto + 1));
    } else {
        assert(parts.take(upto) == parts);
    }
}

/// Appending keeps a row free of neighbours of one kind.
pub proof fn lemma_push_part_coalesced(parts: Seq<PartView>, kind: Kind, text: Seq<char>)
    requires
        coalesced(parts),
    ensures
        coalesced(push_part(parts, kind, text)),
{
}

/// Appending adds the span's characters at the end of the row's text.
pub proof fn lemma_push_part_text(parts: Seq<PartView>, kind: Kind, text: Seq<char>)
    ensures
        row_text(push_part(parts, kind, text)) == row_text(parts) + text,
{
    let out = push_part(parts, kind, text);
    if parts.len() > 0 && parts.last().kind == kind {
        assert(out.drop_last() == parts.drop_last());
    } else {
        assert(out.drop_last() == parts);
    }
}

impl Part {
    /// The change kind of the segment.
    pub fn kind(&self) -> (kind: Kind)
        ensures
            kind == self@.kind,
    {
        match self {
            Part::Equal(_) => Kind::Equal,
            Part::Delete(_) => Kind::Delete,
            Part::Insert(_) => Kind::Insert,
        }
    }

    /// The text of the segment.
    pub fn str(&self) -> (text: &String)
        ensures
            text@ == self@.text,
    {
        match self {
            Part::Equal(s) => s,
            Part::Delete(s) => s,
            Part::Insert(s) => s,
        }
    }

    /// A segment of the given kind that holds the given text.
    pub fn of_kind(kind: Kind, text: String) -> (part: Part)
        ensures
            part@ == (PartView { kind, text: text@ }),
    {
        match kind {
            Kind::Equal => Part::Equal(text),
            Kind::Delete => Part::Delete(text),
            Kind::Insert => Part::Insert(text),
        }
    }

    /// The text of the segment, taken out of it.
    pub fn into_string(self) -> (text: String)
        ensures
            text@ == self@.text,
    {
        match self {
            Part::Equal(s) => s,
            Part::Delete(s) => s,
            Part::Insert(s) => s,
        }
    }

    /// A copy of the segment.
    pub fn duplicate(&self) -> (part: Part)
        ensures
            part@ == self@,
    {
        Part::of_kind(self.kind(), self.str().clone())
    }
}

/// Appends a span of the given kind to the segments, joining it to the last
/// one where the kinds agree.
pub fn push_merged(parts: &mut Vec<Part>, kind: Kind, value: &str)
    ensures
        final(parts).deep_view() == push_part(old(parts).deep_view(), kind, value@),
        coalesced(old(parts).deep_view()) ==> coalesced(final(parts).deep_view()),
{
    let ghost before = parts.deep_view();
    let n: usize = parts.len();
    if n > 0 && parts[n - 1].kind() == kind {
        let last = parts.pop().unwrap();
        let mut text = last.into_string();
        text.append(value);
        parts.push(Part::of_kind(kind, text));
        assert(parts.deep_view() =~= push_part(before, kind, value@));
    } else {
        parts.push(Part::of_kind(kind, String::from_str(value)));
        assert(parts.deep_view() =~= push_part(before, kind, value@));
    }
}

/// A copy of the segments.
pub fn duplicate_parts(parts: &Vec<Part>) -> (copy: Vec<Part>)
    ensures
        copy.deep_view() == parts.deep_view(),
{
    let mut copy: Vec<Part> = Vec::new();
    let mut i: usize = 0;
    while i < parts.len()
        invariant
            0 <= i <= parts.len(),
            copy.deep_view() == parts.deep_view().take(i as int),
        decreases parts.len() - i,
    {
        let ghost before = copy.deep_view();
        copy.push(parts[i].duplicate());
        assert(copy.deep_view() =~= before.push(parts.deep_view()[i as int]));
        i = i + 1;
    }
    copy
}

impl Parts {
    /// A row without segments.
    pub fn new(lineno: usize) -> (row: Parts)
        ensures
            row@ == (PartsView { lineno: lineno as nat, parts: Seq::empty() }),
            coalesced(row@.parts),
    {
        let row = Parts { lineno, parts: Vec::new() };
        assert(row.parts.deep_view() =~= Seq::empty());
        row
    }

    /// Appends a span of the given kind, joining it to the last segment where
    /// the kinds agree.
    pub fn push(&mut self, kind: Kind, value: &str)
        ensures
            final(self)@.lineno == old(self)@.lineno,
            final(self)@.parts == push_part(old(self)@.parts, kind, value@),
            coalesced(old(self)@.parts) ==> coalesced(final(self)@.parts),
    {
        push_merged(&mut self.parts, kind, value)
    }

    /// The columns that the row occupies where they are at most `limit`,
    /// and `None` where the row is wider.
    pub fn width_within(&self, limit: usize) -> (width: Option<usize>)
        ensures
            width == (if row_width(self@.parts) <= limit {
                Some(row_width(self@.parts) as usize)
            } else {
                None
            }),
    {
        let ghost all = self@.parts;
        let mut width: usize = 0;
        let mut i: usize = 0;
        while i < self.parts.len()
            invariant
                all == self@.parts,
                0 <= i <= self.parts.len(),
                width == row_width(all.take(i as int)),
                width <= limit,
            decreases self.parts.len() - i,
        {
            proof {
                assert(all.take(i + 1).drop_last() == all.take(i as int));
                lemma_row_width_sum(all.take(i + 1));
                lemma_row_width_prefix(all, i + 1);
            }
            match width_within(self.parts[i].str().as_str(), limit - width) {
                Some(w) => {
                    width = width + w;
                },
                None => {
                    return None;
                },
            }
            i = i + 1;
        }
        assert(all.take(i as int) == all);
        Some(width)
    }

    /// The columns that the row occupies.
    pub fn width(&self) -> (width: usize)
        requires
            row_width(self@.parts) <= usize::MAX,
        ensures
            width == row_width(self@.parts),
    {
        match self.width_within(usize::MAX) {
            Some(width) => width,
            None => unreached(),
        }
    }

    /// Appends unchanged text.
    pub fn push_equal(&mut self, value: &str)
        ensures
            final(self)@.lineno == old(self)@.lineno,
            final(self)@.parts == push_part(old(self)@.parts, Kind::Equal, value@),
            coalesced(old(self)@.parts) ==> coalesced(final(self)@.parts),
    {
        self.push(Kind::Equal, value)
    }

    /// Appends text that the new version no longer has.
    pub fn push_delete(&mut self, value: &str)
        ensures
            final(self)@.lineno == old(self)@.lineno,
            final(self)@.parts == push_part(old(self)@.parts, Kind::Delete, value@),
            coalesced(old(self)@.parts) ==> coalesced(final(self)@.parts),
    {
        self.push(Kind::Delete, value)
    }

    /// Appends text that the old version did not have.
    pub fn push_insert(&mut self, value: &str)
        ensures
            final(self)@.lineno == old(self)@.lineno,
            final(self)@.parts == push_part(old(self)@.parts, Kind::Insert, value@),
            coalesced(old(self)@.parts) ==> coalesced(final(self)@.parts),
    {
        self.push(Kind::Insert, value)
    }
}

} // verus!
