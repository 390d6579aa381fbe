//! Row alignment: the line-level edit script becomes rows of whole lines. A
//! deleted or inserted line fills a hole, a recent row whose matching side is
//! still absent, where the line on the row's other side is similar to it.

use crate::lines::{all_inhabited, Line, LineDiff, LineDiffView, LineView, Side, SideView};
use crate::script::{
    line_changes, line_edit_script, side, side_of_change, trim_line_end, Change, ChangeView,
    MAX_CONTEXT_RADIUS, MAX_INPUT_CHARS,
};
use vstd::pervasive::unreached;
use vstd::prelude::*;
use vstd::utf8::encode_utf8;

verus! {

/// Two texts whose edit distance is below this are similar.
pub const NEAR_DISTANCE: usize = 5;

/// Two texts are similar where ten times their edit distance is below this
/// many times the sum of their lengths: a ratio below three tenths.
pub const NEAR_RATIO_TENTHS: usize = 3;

/// The smallest of three numbers.
pub open spec fn min3(a: nat, b: nat, c: nat) -> nat {
    if a <= b && a <= c {
        a
    } else if b <= c {
        b
    } else {
        c
    }
}

/// The Levenshtein distance of two texts: the least number of characters to
/// insert, delete or replace that turns one into the other.
pub open spec fn edit_distance(a: Seq<char>, b: Seq<char>) -> nat
    decreases a.len() + b.len(),
{
    if a.len() == 0 {
        b.len()
    } else if b.len() == 0 {
        a.len()
    } else {
        let replace: nat = if a.last() == b.last() {
            0
        } else {
            1
        };
        min3(
            edit_distance(a.drop_last(), b.drop_last()) + replace,
            edit_distance(a.drop_last(), b) + 1,
            edit_distance(a, b.drop_last()) + 1,
        )
    }
}

/// `levenshtein::levenshtein` returns the Levenshtein distance of the two
/// texts, counted in characters.
#[verifier::external_body]
fn levenshtein_distance(a: &str, b: &str) -> (distance: usize)
    ensures
        distance == edit_distance(a@, b@),
{
    levenshtein::levenshtein(a, b)
}

/// The similarity rule, on an edit distance and the lengths of the two
/// texts: the distance is small, or small beside the lengths.
pub open spec fn similar_at(distance: nat, len_a: nat, len_b: nat) -> bool {
    distance < NEAR_DISTANCE || 10 * distance < NEAR_RATIO_TENTHS * (len_a + len_b)
}

/// The length of a text in bytes.
pub open spec fn byte_len(s: Seq<char>) -> nat {
    encode_utf8(s).len()
}

/// Two texts are similar: the rule, on their Levenshtein distance and their
/// lengths in bytes.
pub open spec fn similar_texts(a: Seq<char>, b: Seq<char>) -> bool {
    similar_at(edit_distance(a, b), byte_len(a), byte_len(b))
}

/// The similarity rule, on an edit distance and the lengths of the two texts.
pub fn similar_by_distance(distance: usize, len_a: usize, len_b: usize) -> (near: bool)
    ensures
        near == similar_at(distance as nat, len_a as nat, len_b as nat),
{
    distance < NEAR_DISTANCE || 10 * (distance as u128) < (NEAR_RATIO_TENTHS as u128) * (len_a
        as u128 + len_b as u128)
}

/// Whether two lines are similar enough to stand in one row.
pub fn similar(a: &String, b: &String) -> (near: bool)
    ensures
        near == similar_texts(a@, b@),
{
    let distance: usize = levenshtein_distance(a.as_str(), b.as_str());
    similar_by_distance(distance, a.as_str().as_bytes().len(), b.as_str().as_bytes().len())
}

/// The side of a row that a line of the old text (`left`) or of the new text
/// would stand on is absent.
pub open spec fn absent_side(row: LineDiffView, left: bool) -> bool {
    if left {
        row.left is None
    } else {
        row.right is None
    }
}

/// The line on the other side of a row.
pub open spec fn other_line(row: LineDiffView, left: bool) -> Option<LineView> {
    if left {
        row.right
    } else {
        row.left
    }
}

/// Where the run of holes at the end of the rows begins: the index after the
/// last row whose side is present, the number of rows where the last row's
/// side is present.
pub open spec fn run_start(rows: Seq<LineDiffView>, left: bool) -> nat
    decreases rows.len(),
{
    if rows.len() > 0 && absent_side(rows.last(), left) {
        run_start(rows.drop_last(), left)
    } else {
        rows.len()
    }
}

/// A row is a hole that a line with the given text fills: its side is absent
/// and the line on its other side is similar to the text.
pub open spec fn fills(row: LineDiffView, left: bool, value: Seq<char>) -> bool {
    &&& absent_side(row, left)
    &&& other_line(row, left) matches Some(line)
    &&& similar_texts(line.value, value)
}

/// The first row from `from` on that the text fills.
pub open spec fn first_hole(rows: Seq<LineDiffView>, left: bool, value: Seq<char>, from: int)
    -> Option<int>
    decreases rows.len() - from,
{
    if from >= rows.len() {
        None
    } else if fills(rows[from], left, value) {
        Some(from)
    } else {
        first_hole(rows, left, value, from + 1)
    }
}

/// The hole for a line: the first row of the run of holes at the end of the
/// rows that the line's text fills.
pub open spec fn hole_for(rows: Seq<LineDiffView>, left: bool, value: Seq<char>) -> Option<int> {
    first_hole(rows, left, value, run_start(rows, left) as int)
}

/// A row with the line put on its absent side.
pub open spec fn filled(row: LineDiffView, left: bool, line: LineView) -> LineDiffView {
    if left {
        LineDiffView { left: Some(line), right: row.right }
    } else {
        LineDiffView { left: row.left, right: Some(line) }
    }
}

/// A row that holds the line alone.
pub open spec fn one_sided(left: bool, line: LineView) -> LineDiffView {
    if left {
        LineDiffView { left: Some(line), right: None }
    } else {
        LineDiffView { left: None, right: Some(line) }
    }
}

/// The rows after a deleted (`left`) or inserted line: the line fills its
/// hole, in place, or stands in a new row at the end where it has none.
pub open spec fn place_line(rows: Seq<LineDiffView>, left: bool, line: LineView) -> Seq<
    LineDiffView,
> {
    match hole_for(rows, left, line.value) {
        Some(i) => rows.update(i, filled(rows[i], left, line)),
        None => rows.push(one_sided(left, line)),
    }
}

/// The rows after one operation: an unchanged line is a new row with both
/// sides, a changed line is placed.
pub open spec fn place(rows: Seq<LineDiffView>, side: SideView) -> Seq<LineDiffView> {
    match side {
        SideView::Both(l, r) => rows.push(LineDiffView { left: Some(l), right: Some(r) }),
        SideView::Left(l) => place_line(rows, true, l),
        SideView::Right(r) => place_line(rows, false, r),
    }
}

/// The rows of a whole edit script: its operations placed in order.
pub open spec fn align(script: Seq<ChangeView>) -> Seq<LineDiffView>
    decreases script.len(),
{
    if script.len() == 0 {
        Seq::empty()
    } else {
        place(align(script.drop_last()), side_of_change(script.last()))
    }
}

/// The context radius that is asked of the edit script: the given one, at
/// most the widest that can be asked; the widest where none is given, so that
/// every unchanged line between changes is kept.
pub open spec fn context_radius(context_lines: Option<usize>) -> usize {
    match context_lines {
        Some(c) => if c <= MAX_CONTEXT_RADIUS {
            c
        } else {
            MAX_CONTEXT_RADIUS
        },
        None => MAX_CONTEXT_RADIUS,
    }
}

/// The hole for a line lies in the run of holes at the end of the rows, and
/// no row of the run before it is filled by the line.
pub proof fn lemma_first_hole(rows: Seq<LineDiffView>, left: bool, value: Seq<char>, from: int)
    requires
        0 <= from <= rows.len(),
    ensures
        match first_hole(rows, left, value, from) {
            Some(i) => from <= i < rows.len() && fills(rows[i], left, value) && forall|j: int|
                from <= j < i ==> !fills(#[trigger] rows[j], left, value),
            None => forall|j: int|
                from <= j < rows.len() ==> !fills(#[trigger] rows[j], left, value),
        },
    decreases rows.len() - from,
{
    if from < rows.len() && !fills(rows[from], left, value) {
        lemma_first_hole(rows, left, value, from + 1);
    }
}

/// From the start of the run on every row's side is absent, and the row
/// before the run, if there is one, has its side present.
pub proof fn lemma_run_start(rows: Seq<LineDiffView>, left: bool)
    ensures
        run_start(rows, left) <= rows.len(),
        forall|j: int|
            run_start(rows, left) <= j < rows.len() ==> absent_side(#[trigger] rows[j], left),
        run_start(rows, left) > 0 ==> !absent_side(rows[run_start(rows, left) - 1], left),
    decreases rows.len(),
{
    if rows.len() > 0 && absent_side(rows.last(), left) {
        let before = rows.drop_last();
        lemma_run_start(before, left);
        assert forall|j: int| run_start(rows, left) <= j < rows.len() implies absent_side(
            #[trigger] rows[j],
            left,
        ) by {
            if j < before.len() {
                assert(rows[j] == before[j]);
            }
        }
    }
}

/// Placing a line leaves no row without a side.
pub proof fn lemma_place_inhabited(rows: Seq<LineDiffView>, side: SideView)
    requires
        all_inhabited(rows),
    ensures
        all_inhabited(place(rows, side)),
{
    match side {
        SideView::Both(l, r) => {},
        SideView::Left(l) => {
            lemma_run_start(rows, true);
            lemma_first_hole(rows, true, l.value, run_start(rows, true) as int);
        },
        SideView::Right(r) => {
            lemma_run_start(rows, false);
            lemma_first_hole(rows, false, r.value, run_start(rows, false) as int);
        },
    }
}

/// Placing a line moves no row and overwrites no side that is present.
pub proof fn lemma_place_keeps_rows(rows: Seq<LineDiffView>, side: SideView)
    ensures
        place(rows, side).len() >= rows.len(),
        forall|j: int|
            0 <= j < rows.len() ==> {
                &&& (#[trigger] rows[j]).left is Some ==> place(rows, side)[j].left == rows[j].left
                &&& rows[j].right is Some ==> place(rows, side)[j].right == rows[j].right
            },
{
    match side {
        SideView::Both(l, r) => {},
        SideView::Left(l) => {
            lemma_run_start(rows, true);
            lemma_first_hole(rows, true, l.value, run_start(rows, true) as int);
        },
        SideView::Right(r) => {
            lemma_run_start(rows, false);
            lemma_first_hole(rows, false, r.value, run_start(rows, false) as int);
        },
    }
}

/// Every row of an aligned script has at least one side.
pub proof fn lemma_align_inhabited(script: Seq<ChangeView>)
    ensures
        all_inhabited(align(script)),
    decreases script.len(),
{
    if script.len() > 0 {
        lemma_align_inhabited(script.drop_last());
        lemma_place_inhabited(align(script.drop_last()), side_of_change(script.last()));
    }
}

/// The row of an operation that touches both sides: the line on each side
/// under its own number.
pub open spec fn unchanged_row(change: ChangeView) -> LineDiffView {
    LineDiffView {
        left: Some(
            LineView {
                lineno: (change.old_index->0 + 1) as nat,
                value: trim_line_end(change.value),
            },
        ),
        right: Some(
            LineView {
                lineno: (change.new_index->0 + 1) as nat,
                value: trim_line_end(change.value),
            },
        ),
    }
}

/// Where every operation of a script touches both sides, each becomes a row
/// of its own that shows the same text on both sides.
pub proof fn lemma_align_two_sided(script: Seq<ChangeView>)
    requires
        forall|i: int|
            0 <= i < script.len() ==> (#[trigger] script[i]).old_index is Some
                && script[i].new_index is Some,
    ensures
        align(script).len() == script.len(),
        forall|i: int|
            0 <= i < script.len() ==> (#[trigger] align(script)[i]) == unchanged_row(script[i]),
    decreases script.len(),
{
    if script.len() > 0 {
        lemma_align_two_sided(script.drop_last());
    }
}

/// A line that was deleted and a line that was inserted right after it
/// stand in one row where they are similar, and in two rows, each alone,
/// where they are not.
pub proof fn lemma_changed_line_pairs(old_line: LineView, new_line: LineView)
    ensures
        place_line(place_line(Seq::empty(), true, old_line), false, new_line) == (if similar_texts(
            old_line.value,
            new_line.value,
        ) {
            seq![LineDiffView { left: Some(old_line), right: Some(new_line) }]
        } else {
            seq![
                LineDiffView { left: Some(old_line), right: None },
                LineDiffView { left: None, right: Some(new_line) },
            ]
        }),
{
    let none = Seq::<LineDiffView>::empty();
    let one = place_line(none, true, old_line);
    assert(one.drop_last() == none);
    assert(run_start(none, false) == 0);
    assert(first_hole(one, false, new_line.value, 1) == None::<int>);
}

/// Whether the side of a row that a line of the old text (`left`) or of the
/// new text would stand on is absent.
pub fn is_open(diff: &LineDiff, left: bool) -> (open: bool)
    ensures
        open == absent_side(diff@, left),
{
    if left {
        diff.left.is_none()
    } else {
        diff.right.is_none()
    }
}

/// The hole that a deleted (`left`) or inserted line with the given text
/// fills: the index of the first row, in the run of rows at the end whose
/// side is absent, whose other side holds a similar line.
pub fn find_hole(diffs: &Vec<LineDiff>, left: bool, value: &String) -> (hole: Option<usize>)
    requires
        all_inhabited(diffs.deep_view()),
    ensures
        match hole {
            Some(i) => hole_for(diffs.deep_view(), left, value@) == Some(i as int),
            None => hole_for(diffs.deep_view(), left, value@) is None,
        },
{
    let ghost rows = diffs.deep_view();
    let mut most_recent_hole: usize = diffs.len();
    assert(rows.take(diffs.len() as int) == rows);
    while most_recent_hole > 0 && is_open(&diffs[most_recent_hole - 1], left)
        invariant
            rows == diffs.deep_view(),
            0 <= most_recent_hole <= diffs.len(),
            run_start(rows, left) == run_start(rows.take(most_recent_hole as int), left),
            forall|j: int|
                most_recent_hole <= j < rows.len() ==> absent_side(#[trigger] rows[j], left),
        decreases most_recent_hole,
    {
        proof {
            let upto = rows.take(most_recent_hole as int);
            assert(upto.drop_last() == rows.take(most_recent_hole - 1));
        }
        most_recent_hole = most_recent_hole - 1;
    }
    let mut i: usize = most_recent_hole;
    while i < diffs.len()
        invariant
            rows == diffs.deep_view(),
            all_inhabited(rows),
            run_start(rows, left) == most_recent_hole,
            most_recent_hole <= i <= diffs.len(),
            forall|j: int|
                most_recent_hole <= j < rows.len() ==> absent_side(#[trigger] rows[j], left),
            first_hole(rows, left, value@, most_recent_hole as int) == first_hole(
                rows,
                left,
                value@,
                i as int,
            ),
        decreases diffs.len() - i,
    {
        let diff = &diffs[i];
        let existing: &Line = if left {
            match &diff.right {
                Some(line) => line,
                None => unreached(),
            }
        } else {
            match &diff.left {
                Some(line) => line,
                None => unreached(),
            }
        };
        if similar(&existing.value, value) {
            return Some(i);
        }
        i = i + 1;
    }
    None
}

/// The rows after a deleted (`left`) or inserted line: the line fills its
/// hole, in place, or is appended alone.
pub fn place_line_in(diffs: &mut Vec<LineDiff>, left: bool, line: Line)
    requires
        all_inhabited(old(diffs).deep_view()),
    ensures
        final(diffs).deep_view() == place_line(old(diffs).deep_view(), left, line@),
        all_inhabited(final(diffs).deep_view()),
{
    let ghost rows = diffs.deep_view();
    match find_hole(diffs, left, &line.value) {
        Some(hole) => {
            proof {
                lemma_run_start(rows, left);
                lemma_first_hole(rows, left, line@.value, run_start(rows, left) as int);
            }
            if left {
                diffs[hole].left = Some(line);
            } else {
                diffs[hole].right = Some(line);
            }
        },
        None => {
            let row = if left {
                LineDiff { left: Some(line), right: None }
            } else {
                LineDiff { left: None, right: Some(line) }
            };
            diffs.push(row);
        },
    }
}

/// The rows of a line-level edit script: an unchanged line becomes a row
/// with both sides; a deleted or an inserted line fills its hole or becomes
/// a row of its own.
pub fn align_changes(changes: &Vec<Change>) -> (diffs: Vec<LineDiff>)
    requires
        forall|i: int| 0 <= i < changes.len() ==> (#[trigger] changes.deep_view()[i]).sided(),
    ensures
        diffs.deep_view() == align(changes.deep_view()),
        all_inhabited(diffs.deep_view()),
{
    let ghost script = changes.deep_view();
    let mut diffs: Vec<LineDiff> = Vec::new();
    let mut i: usize = 0;
    while i < changes.len()
        invariant
            script == changes.deep_view(),
            forall|j: int| 0 <= j < script.len() ==> (#[trigger] script[j]).sided(),
            0 <= i <= changes.len(),
            diffs.deep_view() == align(script.take(i as int)),
            all_inhabited(diffs.deep_view()),
        decreases changes.len() - i,
    {
        let ghost before = diffs.deep_view();
        proof {
            assert(script.take(i + 1).drop_last() == script.take(i as int));
        }
        match side(&changes[i]) {
            Side::Both(line_l, line_r) => {
                diffs.push(LineDiff { left: Some(line_l), right: Some(line_r) });
                assert(diffs.deep_view() =~= place(before, side_of_change(script[i as int])));
            },
            Side::Left(line) => {
                place_line_in(&mut diffs, true, line);
            },
            Side::Right(line) => {
                place_line_in(&mut diffs, false, line);
            },
        }
        i = i + 1;
    }
    assert(script.take(i as int) == script);
    diffs
}

/// The rows of whole lines for two texts: the line-level edit script with
/// the given context, aligned. Without `context_lines` every unchanged line
/// between changes is kept.
pub fn diff_a_and_b(a: &str, b: &str, context_lines: Option<usize>) -> (diffs: Vec<LineDiff>)
    requires
        a@.len() + b@.len() <= MAX_INPUT_CHARS,
    ensures
        diffs.deep_view() == align(line_edit_script(a@, b@, context_radius(context_lines))),
        all_inhabited(diffs.deep_view()),
{
    let radius: usize = match context_lines {
        Some(c) => if c <= MAX_CONTEXT_RADIUS {
            c
        } else {
            MAX_CONTEXT_RADIUS
        },
        None => MAX_CONTEXT_RADIUS,
    };
    let changes = line_changes(a, b, radius);
    align_changes(&changes)
}

} // verus!
