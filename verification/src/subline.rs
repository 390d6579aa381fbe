//! The sub-line diff: a row of two whole lines becomes two rows of segments
//! that show, character by character, what the lines share and where they
//! differ.

use crate::lines::{all_inhabited, Line, LineDiff, LineDiffView};
use crate::parts::{
    all_of_kind, all_rows_sound, coalesced, push_part, Kind, PartView, Parts, PartsDiff,
    PartsDiffView, PartsView,
};
use crate::script::{char_changes, char_edit_script, Change, ChangeView};
use vstd::pervasive::unreached;
use vstd::prelude::*;

verus! {

impl ChangeView {
    /// The operation can be applied to a pair of rows: it touches a side,
    /// and it touches both sides exactly where it is an `Equal`.
    pub open spec fn applicable(self) -> bool {
        &&& self.old_index is Some || self.new_index is Some
        &&& self.tag == Kind::Equal <==> self.old_index is Some && self.new_index is Some
    }
}

/// A row with a span appended.
pub open spec fn pushed(row: PartsView, kind: Kind, text: Seq<char>) -> PartsView {
    PartsView { lineno: row.lineno, parts: push_part(row.parts, kind, text) }
}

/// The two rows after one operation: unchanged text is appended to both,
/// deleted or inserted text to the side that the operation touches.
pub open spec fn apply_change(rows: (PartsView, PartsView), change: ChangeView) -> (
    PartsView,
    PartsView,
) {
    if change.old_index is Some && change.new_index is Some {
        (pushed(rows.0, Kind::Equal, change.value), pushed(rows.1, Kind::Equal, change.value))
    } else if change.old_index is Some {
        (pushed(rows.0, change.tag, change.value), rows.1)
    } else {
        (rows.0, pushed(rows.1, change.tag, change.value))
    }
}

/// The two rows of a character-level edit script: its operations applied in
/// order to two rows without segments.
pub open spec fn segments(script: Seq<ChangeView>, lineno_a: nat, lineno_b: nat) -> (
    PartsView,
    PartsView,
)
    decreases script.len(),
{
    if script.len() == 0 {
        (
            PartsView { lineno: lineno_a, parts: Seq::empty() },
            PartsView { lineno: lineno_b, parts: Seq::empty() },
        )
    } else {
        apply_change(segments(script.drop_last(), lineno_a, lineno_b), script.last())
    }
}

/// A row of whole lines as a row pair of segments: a line that stands alone
/// is one `Delete` or one `Insert` segment, two lines side by side are diffed
/// character by character.
pub open spec fn convert(row: LineDiffView) -> PartsDiffView {
    match (row.left, row.right) {
        (None, Some(right)) => PartsDiffView {
            left: None,
            right: Some(
                PartsView {
                    lineno: right.lineno,
                    parts: seq![PartView { kind: Kind::Insert, text: right.value }],
                },
            ),
        },
        (Some(left), None) => PartsDiffView {
            left: Some(
                PartsView {
                    lineno: left.lineno,
                    parts: seq![PartView { kind: Kind::Delete, text: left.value }],
                },
            ),
            right: None,
        },
        (Some(left), Some(right)) => {
            let rows = segments(
                char_edit_script(left.value, right.value),
                left.lineno,
                right.lineno,
            );
            PartsDiffView { left: Some(rows.0), right: Some(rows.1) }
        },
        (None, None) => arbitrary(),
    }
}

/// All rows of whole lines as row pairs of segments.
pub open spec fn convert_all(rows: Seq<LineDiffView>) -> Seq<PartsDiffView> {
    Seq::new(rows.len(), |i: int| convert(rows[i]))
}

/// The rows of an edit script keep their line numbers, and neither has two
/// neighbouring segments of one kind.
pub proof fn lemma_segments_coalesced(script: Seq<ChangeView>, lineno_a: nat, lineno_b: nat)
    ensures
        segments(script, lineno_a, lineno_b).0.lineno == lineno_a,
        segments(script, lineno_a, lineno_b).1.lineno == lineno_b,
        coalesced(segments(script, lineno_a, lineno_b).0.parts),
        coalesced(segments(script, lineno_a, lineno_b).1.parts),
    decreases script.len(),
{
    if script.len() > 0 {
        lemma_segments_coalesced(script.drop_last(), lineno_a, lineno_b);
    }
}

/// A row pair made from a row of whole lines has the sides that the row
/// has, and no side has two neighbouring segments of one kind.
pub proof fn lemma_convert_sound(row: LineDiffView)
    requires
        row.inhabited(),
    ensures
        convert(row).left is Some <==> row.left is Some,
        convert(row).right is Some <==> row.right is Some,
        convert(row).inhabited(),
        convert(row).coalesced(),
{
    match (row.left, row.right) {
        (Some(left), Some(right)) => {
            lemma_segments_coalesced(
                char_edit_script(left.value, right.value),
                left.lineno,
                right.lineno,
            );
        },
        _ => {},
    }
}

/// Every operation of the script is an `Equal` that touches both sides.
pub open spec fn only_equal(script: Seq<ChangeView>) -> bool {
    forall|i: int|
        0 <= i < script.len() ==> {
            &&& (#[trigger] script[i]).tag == Kind::Equal
            &&& script[i].old_index is Some
            &&& script[i].new_index is Some
        }
}

/// Where every operation of a script is an `Equal`, both rows hold the
/// same segments, and `Equal` segments only.
pub proof fn lemma_segments_of_equal_script(script: Seq<ChangeView>, lineno_a: nat, lineno_b: nat)
    requires
        only_equal(script),
    ensures
        segments(script, lineno_a, lineno_b).0.parts == segments(script, lineno_a, lineno_b).1.parts,
        all_of_kind(segments(script, lineno_a, lineno_b).0.parts, Kind::Equal),
    decreases script.len(),
{
    if script.len() > 0 {
        let front = script.drop_last();
        assert(only_equal(front)) by {
            assert forall|i: int| 0 <= i < front.len() implies (#[trigger] front[i]) == script[i] by {}
        }
        lemma_segments_of_equal_script(front, lineno_a, lineno_b);
    }
}

/// The two rows of segments that a character-level edit script describes.
pub fn parts_from_changes(lineno_a: usize, lineno_b: usize, changes: &Vec<Change>) -> (rows: (
    Parts,
    Parts,
))
    requires
        forall|i: int| 0 <= i < changes.len() ==> (#[trigger] changes.deep_view()[i]).applicable(),
    ensures
        (rows.0@, rows.1@) == segments(changes.deep_view(), lineno_a as nat, lineno_b as nat),
        coalesced(rows.0@.parts),
        coalesced(rows.1@.parts),
{
    let ghost script = changes.deep_view();
    let mut x = Parts::new(lineno_a);
    let mut y = Parts::new(lineno_b);
    let mut i: usize = 0;
    while i < changes.len()
        invariant
            script == changes.deep_view(),
            forall|j: int| 0 <= j < script.len() ==> (#[trigger] script[j]).applicable(),
            0 <= i <= changes.len(),
            (x@, y@) == segments(script.take(i as int), lineno_a as nat, lineno_b as nat),
        decreases changes.len() - i,
    {
        let change = &changes[i];
        proof {
            assert(script.take(i + 1).drop_last() == script.take(i as int));
            assert(script.take(i + 1).last() == script[i as int]);
        }
        let value = change.value.as_str();
        match (change.tag, change.old_index.is_some(), change.new_index.is_some()) {
            (Kind::Equal, true, true) => {
                x.push_equal(value);
                y.push_equal(value);
            },
            (Kind::Delete, true, false) => x.push_delete(value),
            (Kind::Delete, false, true) => y.push_delete(value),
            (Kind::Insert, true, false) => x.push_insert(value),
            (Kind::Insert, false, true) => y.push_insert(value),
            _ => unreached(),
        }
        i = i + 1;
    }
    proof {
        assert(script.take(i as int) == script);
        lemma_segments_coalesced(script, lineno_a as nat, lineno_b as nat);
    }
    (x, y)
}

/// The two lines of a row, diffed character by character: one row of
/// segments for each.
pub fn diff_lines(a: &Line, b: &Line) -> (rows: (Option<Parts>, Option<Parts>))
    ensures
        rows.0 is Some,
        rows.1 is Some,
        (rows.0->0@, rows.1->0@) == segments(
            char_edit_script(a@.value, b@.value),
            a@.lineno,
            b@.lineno,
        ),
        coalesced(rows.0->0@.parts),
        coalesced(rows.1->0@.parts),
{
    let changes = char_changes(a.value.as_str(), b.value.as_str());
    let (x, y) = parts_from_changes(a.lineno, b.lineno, &changes);
    (Some(x), Some(y))
}

/// A row of whole lines as a row pair of segments.
pub fn convert_diff(diff: &LineDiff) -> (pair: PartsDiff)
    requires
        diff@.inhabited(),
    ensures
        pair@ == convert(diff@),
        pair@.inhabited(),
        pair@.coalesced(),
{
    match (&diff.left, &diff.right) {
        (None, Some(right)) => {
            let mut row = Parts::new(right.lineno);
            row.push_insert(right.value.as_str());
            PartsDiff { left: None, right: Some(row) }
        },
        (Some(left), None) => {
            let mut row = Parts::new(left.lineno);
            row.push_delete(left.value.as_str());
            PartsDiff { left: Some(row), right: None }
        },
        (Some(left), Some(right)) => {
            let (x, y) = diff_lines(left, right);
            PartsDiff { left: x, right: y }
        },
        (None, None) => unreached(),
    }
}

/// All rows of whole lines as row pairs of segments.
pub fn convert_diffs(diffs: &Vec<LineDiff>) -> (pairs: Vec<PartsDiff>)
    requires
        all_inhabited(diffs.deep_view()),
    ensures
        pairs.deep_view() == convert_all(diffs.deep_view()),
        all_rows_sound(pairs.deep_view()),
{
    let mut pairs: Vec<PartsDiff> = Vec::new();
    let mut i: usize = 0;
    while i < diffs.len()
        invariant
            all_inhabited(diffs.deep_view()),
            0 <= i <= diffs.len(),
            pairs.len() == i,
            forall|j: int|
                0 <= j < i ==> (#[trigger] pairs.deep_view()[j]) == convert(diffs.deep_view()[j]),
            all_rows_sound(pairs.deep_view()),
        decreases diffs.len() - i,
    {
        let ghost before = pairs.deep_view();
        let pair = convert_diff(&diffs[i]);
        pairs.push(pair);
        assert(pairs.deep_view() =~= before.push(convert(diffs.deep_view()[i as int])));
        i = i + 1;
    }
    pairs
}

} // verus!
