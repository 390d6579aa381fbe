//! Width reflow: a row that is wider than the column budget of its side is
//! split into display rows that fit, and both sides of a row pair are made
//! equally long.

use crate::error::DiffError;
use crate::gutter::{find_max_lineno_width, max_lineno_width, LINENO_PADDING};
use crate::parts::{
    all_pairs_inhabited, coalesced, duplicate_parts, lemma_push_part_text, push_merged, push_part,
    row_text, Part, PartView, Parts, PartsDiff, PartsDiffView, PartsView,
};
use crate::reflow_laws::{lemma_reflow_all, lemma_reflow_row_fits};
use crate::text::{
    char_width, collect_chars, fit_len, head_at_width, lemma_fit_len, lemma_text_width_concat,
    lemma_text_width_take, lemma_trim_start_len, lemma_trim_start_suffix, split_string_at_width,
    tail_at_width, text_width, white_space, width_of_char, width_within,
};
use vstd::pervasive::unreached;
use vstd::prelude::*;

verus! {

/// How far one display row got through the segments of a row: the display
/// row, the columns it uses, and what is left for later display rows once a
/// segment did not fit whole.
pub struct RowScan {
    pub row: Seq<PartView>,
    pub used: nat,
    pub rest: Option<Seq<PartView>>,
}

/// One display row of `n` columns, taken from the front of the segments.
/// From each segment the row takes what fits into the columns that are left;
/// it ends with the first segment of which something is left over, and what is
/// left over, without the whitespace it starts with, goes before the
/// segments that follow. A segment of which nothing fits adds nothing.
pub open spec fn scan_row(parts: Seq<PartView>, n: nat) -> RowScan
    decreases parts.len(),
{
    if parts.len() == 0 {
        RowScan { row: Seq::empty(), used: 0, rest: None }
    } else {
        let before = scan_row(parts.drop_last(), n);
        let part = parts.last();
        match before.rest {
            Some(rest) => RowScan {
                row: before.row,
                used: before.used,
                rest: Some(rest.push(part)),
            },
            None => {
                let budget = (n - before.used) as nat;
                let head = head_at_width(part.text, budget);
                let tail = tail_at_width(part.text, budget);
                RowScan {
                    row: if head.len() > 0 {
                        push_part(before.row, part.kind, head)
                    } else {
                        before.row
                    },
                    used: before.used + text_width(head),
                    rest: if tail.len() > 0 {
                        Some(seq![PartView { kind: part.kind, text: tail }])
                    } else {
                        None
                    },
                }
            },
        }
    }
}

/// Every character of the text is whitespace or fits into `n` columns.
pub open spec fn placeable_text(text: Seq<char>, n: nat) -> bool {
    forall|i: int|
        0 <= i < text.len() ==> white_space(#[trigger] text[i]) || char_width(text[i]) <= n
}

/// Every character of the segments is whitespace or fits into `n` columns:
/// the segments can be laid out in rows of `n` columns.
pub open spec fn placeable(parts: Seq<PartView>, n: nat) -> bool {
    forall|i: int| 0 <= i < parts.len() ==> placeable_text((#[trigger] parts[i]).text, n)
}

/// The display rows of `n` columns for the segments of one row: the first
/// display row, then the display rows of what is left over.
pub open spec fn reflow_row(parts: Seq<PartView>, n: nat) -> Seq<Seq<PartView>>
    decreases row_text(parts).len(),
    when placeable(parts, n)
{
    let scan = scan_row(parts, n);
    match scan.rest {
        Some(rest) => {
            proof {
                lemma_scan_progress(parts, n);
            }
            seq![scan.row] + reflow_row(rest, n)
        },
        None => seq![scan.row],
    }
}

/// What is left over of a text holds characters of that text only; what
/// fits and what is left over are together no longer than the text; and
/// with a whole row free, what is left over of a text that is not empty is
/// shorter than the text.
pub proof fn lemma_tail_at_width(text: Seq<char>, budget: nat, n: nat)
    requires
        placeable_text(text, n),
    ensures
        placeable_text(tail_at_width(text, budget), n),
        head_at_width(text, budget).len() + tail_at_width(text, budget).len() <= text.len(),
        text_width(head_at_width(text, budget)) <= budget,
        budget == n && text.len() > 0 ==> tail_at_width(text, budget).len() < text.len(),
{
    lemma_fit_len(text, budget);
    let k = fit_len(text, budget) as int;
    let rest = text.skip(k);
    lemma_trim_start_suffix(rest);
    if budget == n && text.len() > 0 && k == 0 {
        lemma_text_width_take(text, 0);
        assert(rest == text);
        lemma_trim_start_len(text);
    }
}

/// A display row is at most `n` columns wide, holds no empty segment and no
/// two neighbouring segments of one kind, and holds no more characters than
/// the segments it was taken from.
pub proof fn lemma_scan_row(parts: Seq<PartView>, n: nat)
    ensures
        scan_row(parts, n).used <= n,
        text_width(row_text(scan_row(parts, n).row)) == scan_row(parts, n).used,
        coalesced(scan_row(parts, n).row),
        forall|i: int|
            0 <= i < scan_row(parts, n).row.len() ==> (#[trigger] scan_row(parts, n).row[i]).text.len()
                > 0,
        row_text(scan_row(parts, n).row).len() <= row_text(parts).len(),
    decreases parts.len(),
{
    if parts.len() > 0 {
        lemma_scan_row(parts.drop_last(), n);
        let before = scan_row(parts.drop_last(), n);
        let part = parts.last();
        if before.rest is None {
            let budget = (n - before.used) as nat;
            let head = head_at_width(part.text, budget);
            lemma_fit_len(part.text, budget);
            if head.len() > 0 {
                lemma_push_part_text(before.row, part.kind, head);
                lemma_text_width_concat(row_text(before.row), head);
            }
        }
    }
}

/// Where a display row leaves something over, that is less than it started
/// from, and can be laid out as well.
pub proof fn lemma_scan_progress(parts: Seq<PartView>, n: nat)
    requires
        placeable(parts, n),
    ensures
        scan_row(parts, n).rest matches Some(rest) ==> row_text(rest).len() < row_text(parts).len()
            && placeable(rest, n),
    decreases parts.len(),
{
    if parts.len() > 0 {
        let front = parts.drop_last();
        let part = parts.last();
        lemma_scan_progress(front, n);
        lemma_scan_row(front, n);
        let before = scan_row(front, n);
        match before.rest {
            Some(rest) => {
                let after = rest.push(part);
                assert(after.drop_last() == rest);
            },
            None => {
                let budget = (n - before.used) as nat;
                lemma_tail_at_width(part.text, budget, n);
                let tail = tail_at_width(part.text, budget);
                if tail.len() > 0 {
                    let after = seq![PartView { kind: part.kind, text: tail }];
                    assert(row_text(after.drop_last()).len() == 0);
                }
            },
        }
    }
}

/// Once a display row has ended, the segments that follow are left over
/// as they are.
pub proof fn lemma_scan_extend(parts: Seq<PartView>, n: nat, upto: int)
    requires
        0 < upto <= parts.len(),
        scan_row(parts.take(upto), n).rest is Some,
    ensures
        scan_row(parts, n) == (RowScan {
            row: scan_row(parts.take(upto), n).row,
            used: scan_row(parts.take(upto), n).used,
            rest: Some(scan_row(parts.take(upto), n).rest->0 + parts.skip(upto)),
        }),
    decreases parts.len(),
{
    let rest = scan_row(parts.take(upto), n).rest->0;
    if upto == parts.len() {
        assert(parts.take(upto) == parts);
    } else {
        let front = parts.drop_last();
        assert(front.take(upto) == parts.take(upto));
        lemma_scan_extend(front, n, upto);
        assert((rest + front.skip(upto)).push(parts.last()) =~= rest + parts.skip(upto));
    }
}

/// The display rows of one side of a row pair: each keeps the side's line
/// number. An absent side is one absent display row.
pub open spec fn reflow_side(side: Option<PartsView>, n: nat) -> Seq<Option<PartsView>> {
    match side {
        None => seq![None],
        Some(row) => Seq::new(
            reflow_row(row.parts, n).len(),
            |i: int| Some(PartsView { lineno: row.lineno, parts: reflow_row(row.parts, n)[i] }),
        ),
    }
}

/// The display row at a position, absent beyond the last one.
pub open spec fn padded(rows: Seq<Option<PartsView>>, i: int) -> Option<PartsView> {
    if 0 <= i < rows.len() {
        rows[i]
    } else {
        None
    }
}

/// Display rows of two sides, side by side: the shorter side is continued
/// with absent rows.
pub open spec fn paired(left: Seq<Option<PartsView>>, right: Seq<Option<PartsView>>) -> Seq<
    PartsDiffView,
> {
    Seq::new(
        if left.len() >= right.len() {
            left.len()
        } else {
            right.len()
        },
        |i: int| PartsDiffView { left: padded(left, i), right: padded(right, i) },
    )
}

/// The display rows of a row pair: those of its two sides, side by side.
pub open spec fn reflow_pair(pair: PartsDiffView, n: nat) -> Seq<PartsDiffView> {
    paired(reflow_side(pair.left, n), reflow_side(pair.right, n))
}

/// The display rows of all row pairs, in order.
pub open spec fn reflow_all(diff: Seq<PartsDiffView>, n: nat) -> Seq<PartsDiffView>
    decreases diff.len(),
{
    if diff.len() == 0 {
        Seq::empty()
    } else {
        reflow_all(diff.drop_last(), n) + reflow_pair(diff.last(), n)
    }
}

/// The segments make a display row of `n` columns: they are at most that
/// wide together, none is empty, and no two neighbours have one kind.
pub open spec fn fits(parts: Seq<PartView>, n: nat) -> bool {
    &&& text_width(row_text(parts)) <= n
    &&& coalesced(parts)
    &&& forall|i: int| 0 <= i < parts.len() ==> (#[trigger] parts[i]).text.len() > 0
}

/// Each side of the row pair that is present makes a display row of `n`
/// columns.
pub open spec fn pair_fits(pair: PartsDiffView, n: nat) -> bool {
    &&& pair.left matches Some(row) ==> fits(row.parts, n)
    &&& pair.right matches Some(row) ==> fits(row.parts, n)
}

/// Every row pair holds display rows of `n` columns.
pub open spec fn all_fit(diff: Seq<PartsDiffView>, n: nat) -> bool {
    forall|i: int| 0 <= i < diff.len() ==> pair_fits(#[trigger] diff[i], n)
}

/// Both sides of the row pair can be laid out in rows of `n` columns.
pub open spec fn pair_placeable(pair: PartsDiffView, n: nat) -> bool {
    &&& pair.left matches Some(row) ==> placeable(row.parts, n)
    &&& pair.right matches Some(row) ==> placeable(row.parts, n)
}

/// All row pairs can be laid out in rows of `n` columns.
pub open spec fn all_placeable(diff: Seq<PartsDiffView>, n: nat) -> bool {
    forall|i: int| 0 <= i < diff.len() ==> pair_placeable(#[trigger] diff[i], n)
}

/// The columns that the content of one side gets: half the total width,
/// less the gutter, which is the line numbers' width and the padding on both
/// sides of them. `None` where no column is left.
pub open spec fn side_budget(max_total_width: nat, lineno_width: nat) -> Option<nat> {
    if max_total_width / 2 > lineno_width + 2 * LINENO_PADDING {
        Some((max_total_width / 2 - lineno_width - 2 * LINENO_PADDING) as nat)
    } else {
        None
    }
}

/// The row pairs reflowed to a total width: the display rows of all pairs
/// for the budget of a side, where there is one and the content fits it.
pub open spec fn reflowed(diff: Seq<PartsDiffView>, max_total_width: nat) -> Result<
    Seq<PartsDiffView>,
    DiffError,
> {
    match side_budget(max_total_width, max_lineno_width(diff)) {
        None => Err(DiffError::BudgetTooSmall),
        Some(n) => if all_placeable(diff, n) {
            Ok(reflow_all(diff, n))
        } else {
            Err(DiffError::CharacterTooWide)
        },
    }
}

impl Part {
    /// The segment split at `n` columns: what fits, and what is left over
    /// without the whitespace it starts with, both of the segment's kind.
    pub fn split(&self, n: usize) -> (halves: (Part, Part))
        ensures
            halves.0@ == (PartView { kind: self@.kind, text: head_at_width(self@.text, n as nat) }),
            halves.1@ == (PartView { kind: self@.kind, text: tail_at_width(self@.text, n as nat) }),
    {
        let (x, y) = split_string_at_width(self.str().as_str(), n);
        (
            Part::of_kind(self.kind(), String::from_str(x)),
            Part::of_kind(self.kind(), String::from_str(y)),
        )
    }
}

/// The segments of a row, split into display rows of at most `n` columns.
/// There is always a first display row, which is empty where the row is.
pub fn split_parts(parts: &Vec<Part>, n: usize) -> (rows: Vec<Vec<Part>>)
    requires
        placeable(parts.deep_view(), n as nat),
    ensures
        rows.deep_view() == reflow_row(parts.deep_view(), n as nat),
        rows.len() >= 1,
        forall|i: int| 0 <= i < rows.len() ==> fits(#[trigger] rows.deep_view()[i], n as nat),
    decreases row_text(parts.deep_view()).len(),
{
    let ghost all = parts.deep_view();
    proof {
        lemma_reflow_row_fits(all, n as nat);
    }
    let mut row: Vec<Part> = Vec::new();
    let mut current_width: usize = 0;
    let mut i: usize = 0;
    assert(row.deep_view() =~= Seq::empty());
    while i < parts.len()
        invariant
            all == parts.deep_view(),
            placeable(all, n as nat),
            0 <= i <= parts.len(),
            current_width <= n,
            scan_row(all.take(i as int), n as nat) == (RowScan {
                row: row.deep_view(),
                used: current_width as nat,
                rest: None,
            }),
        decreases parts.len() - i,
    {
        let budget: usize = n - current_width;
        let (head, tail) = parts[i].split(budget);
        proof {
            assert(all.take(i + 1).drop_last() == all.take(i as int));
            lemma_fit_len(parts[i as int]@.text, budget as nat);
        }
        if !head.str().as_str().is_empty() {
            match width_within(head.str().as_str(), budget) {
                Some(width) => {
                    current_width = current_width + width;
                },
                None => unreached(),
            }
            push_merged(&mut row, head.kind(), head.str().as_str());
        }
        if !tail.str().as_str().is_empty() {
            let mut remaining: Vec<Part> = Vec::new();
            remaining.push(tail);
            let mut j: usize = i + 1;
            while j < parts.len()
                invariant
                    all == parts.deep_view(),
                    i + 1 <= j <= parts.len(),
                    remaining.deep_view() == scan_row(all.take(i + 1), n as nat).rest->0 + all.subrange(
                        i + 1,
                        j as int,
                    ),
                decreases parts.len() - j,
            {
                let ghost before = remaining.deep_view();
                remaining.push(parts[j].duplicate());
                assert(remaining.deep_view() =~= before.push(all[j as int]));
                j = j + 1;
            }
            proof {
                lemma_scan_extend(all, n as nat, i + 1);
                lemma_scan_progress(all, n as nat);
            }
            let mut rows: Vec<Vec<Part>> = Vec::new();
            rows.push(row);
            let mut more = split_parts(&remaining, n);
            let ghost first = rows.deep_view();
            let ghost others = more.deep_view();
            rows.append(&mut more);
            assert(rows.deep_view() =~= first + others);
            assert(first =~= seq![scan_row(all, n as nat).row]);
            proof {
                lemma_reflow_row_fits(all, n as nat);
            }
            return rows;
        }
        i = i + 1;
    }
    assert(all.take(i as int) == all);
    let mut rows: Vec<Vec<Part>> = Vec::new();
    rows.push(row);
    rows
}

/// One side of a row pair, split into display rows of at most `n` columns
/// that keep its line number. An absent side gives one absent display row.
pub fn split_overflow(overflow: &Option<Parts>, n: usize) -> (rows: Vec<Option<Parts>>)
    requires
        overflow matches Some(row) ==> placeable(row@.parts, n as nat),
    ensures
        rows.deep_view() == reflow_side(overflow.deep_view(), n as nat),
{
    let mut rows: Vec<Option<Parts>> = Vec::new();
    match overflow {
        None => {
            rows.push(None);
        },
        Some(whole) => {
            let split = split_parts(&whole.parts, n);
            let ghost wanted = reflow_side(overflow.deep_view(), n as nat);
            let mut k: usize = 0;
            while k < split.len()
                invariant
                    0 <= k <= split.len(),
                    wanted.len() == split.len(),
                    forall|j: int|
                        0 <= j < split.len() ==> wanted[j] == Some(
                            PartsView {
                                lineno: whole.lineno as nat,
                                parts: (#[trigger] split.deep_view()[j]),
                            },
                        ),
                    rows.deep_view() == wanted.take(k as int),
                decreases split.len() - k,
            {
                let ghost before = rows.deep_view();
                rows.push(Some(Parts { lineno: whole.lineno, parts: duplicate_parts(&split[k]) }));
                assert(split.deep_view()[k as int] == split[k as int].deep_view());
                assert(rows.deep_view() =~= before.push(wanted[k as int]));
                k = k + 1;
            }
        },
    }
    rows
}

/// The display rows of two sides, side by side: the shorter side is
/// continued with absent rows.
pub fn pair_up(left: Vec<Option<Parts>>, right: Vec<Option<Parts>>) -> (pairs: Vec<PartsDiff>)
    ensures
        pairs.deep_view() == paired(left.deep_view(), right.deep_view()),
{
    let ghost wanted = paired(left.deep_view(), right.deep_view());
    let ghost wanted_left = left.deep_view();
    let ghost wanted_right = right.deep_view();
    let mut left = left;
    let mut right = right;
    let n_lines: usize = if left.len() >= right.len() {
        left.len()
    } else {
        right.len()
    };
    let mut pairs: Vec<PartsDiff> = Vec::new();
    let mut k: usize = 0;
    while k < n_lines
        invariant
            0 <= k <= n_lines,
            wanted == paired(wanted_left, wanted_right),
            wanted.len() == n_lines,
            left.len() == wanted_left.len(),
            right.len() == wanted_right.len(),
            forall|j: int|
                k <= j < left.len() ==> (#[trigger] left.deep_view()[j]) == wanted_left[j],
            forall|j: int|
                k <= j < right.len() ==> (#[trigger] right.deep_view()[j]) == wanted_right[j],
            pairs.deep_view() == wanted.take(k as int),
        decreases n_lines - k,
    {
        let ghost before = pairs.deep_view();
        let ghost lefts = left.deep_view();
        let ghost rights = right.deep_view();
        let l = if k < left.len() {
            left[k].take()
        } else {
            None
        };
        let r = if k < right.len() {
            right[k].take()
        } else {
            None
        };
        proof {
            assert(l.deep_view() == padded(wanted_left, k as int)) by {
                if k < lefts.len() {
                    assert(lefts[k as int] == wanted_left[k as int]);
                }
            }
            assert(r.deep_view() == padded(wanted_right, k as int)) by {
                if k < rights.len() {
                    assert(rights[k as int] == wanted_right[k as int]);
                }
            }
            assert forall|j: int| k + 1 <= j < left.len() implies (#[trigger] left.deep_view()[j])
                == wanted_left[j] by {
                assert(left.deep_view()[j] == lefts[j]);
            }
            assert forall|j: int| k + 1 <= j < right.len() implies (#[trigger] right.deep_view()[j])
                == wanted_right[j] by {
                assert(right.deep_view()[j] == rights[j]);
            }
        }
        pairs.push(PartsDiff { left: l, right: r });
        assert(pairs.deep_view() =~= before.push(wanted[k as int]));
        k = k + 1;
    }
    pairs
}

/// Whether every character of the text is whitespace or fits into `n`
/// columns.
pub fn text_fits(text: &str, n: usize) -> (ok: bool)
    ensures
        ok == placeable_text(text@, n as nat),
{
    let chars = collect_chars(text);
    let mut i: usize = 0;
    while i < chars.len()
        invariant
            chars@ == text@,
            0 <= i <= chars.len(),
            placeable_text(text@.take(i as int), n as nat),
        decreases chars.len() - i,
    {
        if !chars[i].is_whitespace() && width_of_char(chars[i]) > n {
            return false;
        }
        i = i + 1;
    }
    assert(text@.take(i as int) == text@);
    true
}

/// Whether the segments of a side, if it is present, can be laid out in rows
/// of `n` columns.
pub fn side_fits(side: &Option<Parts>, n: usize) -> (ok: bool)
    ensures
        ok == (side matches Some(row) ==> placeable(row@.parts, n as nat)),
{
    match side {
        None => true,
        Some(row) => {
            let mut i: usize = 0;
            while i < row.parts.len()
                invariant
                    *side == Some(*row),
                    0 <= i <= row.parts.len(),
                    placeable(row@.parts.take(i as int), n as nat),
                decreases row.parts.len() - i,
            {
                assert(row@.parts[i as int] == row.parts[i as int]@);
                if !text_fits(row.parts[i].str().as_str(), n) {
                    return false;
                }
                i = i + 1;
            }
            assert(row@.parts.take(i as int) == row@.parts);
            true
        },
    }
}

/// Whether all row pairs can be laid out in rows of `n` columns.
pub fn diff_fits(diff: &Vec<PartsDiff>, n: usize) -> (ok: bool)
    ensures
        ok == all_placeable(diff.deep_view(), n as nat),
{
    let mut i: usize = 0;
    while i < diff.len()
        invariant
            0 <= i <= diff.len(),
            all_placeable(diff.deep_view().take(i as int), n as nat),
        decreases diff.len() - i,
    {
        assert(diff.deep_view()[i as int] == diff[i as int]@);
        if !side_fits(&diff[i].left, n) || !side_fits(&diff[i].right, n) {
            return false;
        }
        i = i + 1;
    }
    assert(diff.deep_view().take(i as int) == diff.deep_view());
    true
}

/// The row pairs reflowed to a total width of `max_total_width` columns for
/// both sides and their gutters: every row is split into display rows that
/// fit the budget of a side, and the two sides of a pair are made equally
/// long with absent rows. Fails where the width leaves no column for
/// content, or where a character that is no whitespace is wider than the
/// budget.
pub fn split_parts_diff(diff: &Vec<PartsDiff>, max_total_width: usize) -> (result: Result<
    Vec<PartsDiff>,
    DiffError,
>)
    ensures
        result matches Ok(out) ==> reflowed(diff.deep_view(), max_total_width as nat) == Ok::<
            Seq<PartsDiffView>,
            DiffError,
        >(out.deep_view()),
        result matches Err(e) ==> reflowed(diff.deep_view(), max_total_width as nat) == Err::<
            Seq<PartsDiffView>,
            DiffError,
        >(e),
        result matches Ok(out) ==> all_fit(
            out.deep_view(),
            side_budget(max_total_width as nat, max_lineno_width(diff.deep_view()))->0,
        ),
        result matches Ok(out) ==> (all_pairs_inhabited(diff.deep_view()) ==> all_pairs_inhabited(
            out.deep_view(),
        )),
{
    let ghost all = diff.deep_view();
    let max_lineno_width: usize = find_max_lineno_width(diff);
    if max_total_width / 2 <= max_lineno_width + 2 * LINENO_PADDING {
        return Err(DiffError::BudgetTooSmall);
    }
    let n: usize = max_total_width / 2 - max_lineno_width - 2 * LINENO_PADDING;
    if !diff_fits(diff, n) {
        return Err(DiffError::CharacterTooWide);
    }
    proof {
        lemma_reflow_all(all, n as nat);
    }
    let mut out: Vec<PartsDiff> = Vec::new();
    let mut i: usize = 0;
    while i < diff.len()
        invariant
            all == diff.deep_view(),
            all_placeable(all, n as nat),
            0 <= i <= diff.len(),
            out.deep_view() == reflow_all(all.take(i as int), n as nat),
        decreases diff.len() - i,
    {
        proof {
            assert(all.take(i + 1).drop_last() == all.take(i as int));
            assert(all.take(i + 1).last() == diff[i as int]@);
        }
        let split_left = split_overflow(&diff[i].left, n);
        let split_right = split_overflow(&diff[i].right, n);
        let mut pairs = pair_up(split_left, split_right);
        out.append(&mut pairs);
        i = i + 1;
    }
    assert(all.take(i as int) == all);
    Ok(out)
}

} // verus!
