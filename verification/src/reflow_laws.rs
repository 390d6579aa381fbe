//! What holds of reflowed rows: they fit the budget, keep the segments
//! coalesced and the pairs inhabited, and reflowing them again changes
//! nothing.

use crate::gutter::{lineno_or_zero, max_lineno, max_lineno_width};
use crate::parts::{
    all_of_kind, all_pairs_inhabited, push_part, row_text, Kind, PartView, PartsDiffView,
};
use crate::reflow::{
    all_fit, all_placeable, fits, lemma_scan_progress, lemma_scan_row, pair_fits, pair_placeable,
    placeable, placeable_text, reflow_all, reflow_pair, reflow_row, reflowed, scan_row, side_budget,
    RowScan,
};
use crate::text::{
    char_width, fit_len, head_at_width, lemma_fit_len, lemma_text_width_concat,
    lemma_text_width_prefix, tail_at_width, text_width, trim_start, white_space,
};
use vstd::prelude::*;

verus! {

/// A character is no wider than a text that holds it.
pub proof fn lemma_char_within_text(s: Seq<char>, i: int)
    requires
        0 <= i < s.len(),
    ensures
        char_width(s[i]) <= text_width(s),
{
    lemma_text_width_prefix(s, i + 1);
}

/// A segment is no wider than the row that holds it.
pub proof fn lemma_part_within_row(parts: Seq<PartView>, i: int)
    requires
        0 <= i < parts.len(),
    ensures
        text_width(parts[i].text) <= text_width(row_text(parts)),
    decreases parts.len(),
{
    lemma_text_width_concat(row_text(parts.drop_last()), parts.last().text);
    if i < parts.len() - 1 {
        lemma_part_within_row(parts.drop_last(), i);
    }
}

/// Segments that make a display row can be laid out, and laying them out
/// gives that one row again.
pub proof fn lemma_reflow_row_fixed(parts: Seq<PartView>, n: nat)
    requires
        fits(parts, n),
    ensures
        placeable(parts, n),
        scan_row(parts, n) == (RowScan {
            row: parts,
            used: text_width(row_text(parts)),
            rest: None,
        }),
        reflow_row(parts, n) == seq![parts],
    decreases parts.len(),
{
    assert forall|i: int| 0 <= i < parts.len() implies placeable_text(
        (#[trigger] parts[i]).text,
        n,
    ) by {
        lemma_part_within_row(parts, i);
        assert forall|j: int| 0 <= j < parts[i].text.len() implies char_width(
            #[trigger] parts[i].text[j],
        ) <= n by {
            lemma_char_within_text(parts[i].text, j);
        }
    }
    if parts.len() > 0 {
        let front = parts.drop_last();
        let part = parts.last();
        lemma_text_width_concat(row_text(front), part.text);
        lemma_reflow_row_fixed(front, n);
        let before = scan_row(front, n);
        let budget = (n - before.used) as nat;
        let head = head_at_width(part.text, budget);
        assert(head == part.text);
        assert(push_part(front, part.kind, head) == parts);
    } else {
        assert(parts =~= Seq::empty());
    }
}

/// Every display row of a row makes a display row of `n` columns, and
/// there is at least one.
pub proof fn lemma_reflow_row_fits(parts: Seq<PartView>, n: nat)
    requires
        placeable(parts, n),
    ensures
        reflow_row(parts, n).len() >= 1,
        forall|i: int|
            0 <= i < reflow_row(parts, n).len() ==> fits(#[trigger] reflow_row(parts, n)[i], n),
    decreases row_text(parts).len(),
{
    lemma_scan_row(parts, n);
    lemma_scan_progress(parts, n);
    let scan = scan_row(parts, n);
    match scan.rest {
        Some(rest) => {
            lemma_reflow_row_fits(rest, n);
        },
        None => {},
    }
}

/// The display rows of a row pair make display rows of `n` columns; each
/// has a side where the pair has one; a side that is present has the line
/// number of the pair's side, and the first display row has the sides that
/// the pair has.
pub proof fn lemma_reflow_pair(pair: PartsDiffView, n: nat)
    requires
        pair_placeable(pair, n),
    ensures
        reflow_pair(pair, n).len() >= 1,
        all_fit(reflow_pair(pair, n), n),
        pair.inhabited() ==> all_pairs_inhabited(reflow_pair(pair, n)),
        forall|i: int|
            0 <= i < reflow_pair(pair, n).len() ==> {
                &&& lineno_or_zero((#[trigger] reflow_pair(pair, n)[i]).left) <= lineno_or_zero(pair.left)
                &&& lineno_or_zero(reflow_pair(pair, n)[i].right) <= lineno_or_zero(pair.right)
            },
        lineno_or_zero(reflow_pair(pair, n)[0].left) == lineno_or_zero(pair.left),
        lineno_or_zero(reflow_pair(pair, n)[0].right) == lineno_or_zero(pair.right),
{
    if pair.left is Some {
        lemma_reflow_row_fits(pair.left->0.parts, n);
    }
    if pair.right is Some {
        lemma_reflow_row_fits(pair.right->0.parts, n);
    }
}

/// Row pairs of display rows stay as they are when they are reflowed.
pub proof fn lemma_reflow_pair_fixed(pair: PartsDiffView, n: nat)
    requires
        pair_fits(pair, n),
    ensures
        pair_placeable(pair, n),
        reflow_pair(pair, n) == seq![pair],
{
    if pair.left is Some {
        lemma_reflow_row_fixed(pair.left->0.parts, n);
    }
    if pair.right is Some {
        lemma_reflow_row_fixed(pair.right->0.parts, n);
    }
}

/// The largest line number is at least each line number.
pub proof fn lemma_max_lineno_covers(diff: Seq<PartsDiffView>, i: int)
    requires
        0 <= i < diff.len(),
    ensures
        lineno_or_zero(diff[i].left) <= max_lineno(diff),
        lineno_or_zero(diff[i].right) <= max_lineno(diff),
    decreases diff.len(),
{
    if i < diff.len() - 1 {
        lemma_max_lineno_covers(diff.drop_last(), i);
    }
}

/// The largest line number of two sequences of row pairs joined is the
/// larger of their largest line numbers.
pub proof fn lemma_max_lineno_concat(a: Seq<PartsDiffView>, b: Seq<PartsDiffView>)
    ensures
        max_lineno(a + b) == (if max_lineno(a) >= max_lineno(b) {
            max_lineno(a)
        } else {
            max_lineno(b)
        }),
    decreases b.len(),
{
    if b.len() > 0 {
        lemma_max_lineno_concat(a, b.drop_last());
        assert((a + b).drop_last() == a + b.drop_last());
    }
}

/// The largest line number is no larger than a bound on every line number.
pub proof fn lemma_max_lineno_bounded(diff: Seq<PartsDiffView>, bound: nat)
    requires
        forall|i: int|
            0 <= i < diff.len() ==> lineno_or_zero((#[trigger] diff[i]).left) <= bound
                && lineno_or_zero(diff[i].right) <= bound,
    ensures
        max_lineno(diff) <= bound,
    decreases diff.len(),
{
    if diff.len() > 0 {
        lemma_max_lineno_bounded(diff.drop_last(), bound);
    }
}

/// Reflowed row pairs hold display rows of `n` columns, each pair with a
/// side where the pairs they came from had one, and the largest line number
/// among them is that of the pairs they came from.
pub proof fn lemma_reflow_all(diff: Seq<PartsDiffView>, n: nat)
    requires
        all_placeable(diff, n),
    ensures
        all_fit(reflow_all(diff, n), n),
        all_pairs_inhabited(diff) ==> all_pairs_inhabited(reflow_all(diff, n)),
        max_lineno(reflow_all(diff, n)) == max_lineno(diff),
    decreases diff.len(),
{
    if diff.len() > 0 {
        let front = diff.drop_last();
        let pair = diff.last();
        lemma_reflow_all(front, n);
        lemma_reflow_pair(pair, n);
        let before = reflow_all(front, n);
        let here = reflow_pair(pair, n);
        lemma_max_lineno_concat(before, here);
        let larger = if lineno_or_zero(pair.left) >= lineno_or_zero(pair.right) {
            lineno_or_zero(pair.left)
        } else {
            lineno_or_zero(pair.right)
        };
        lemma_max_lineno_bounded(here, larger);
        lemma_max_lineno_covers(here, 0);
    }
}

/// Row pairs of display rows stay as they are when they are reflowed.
pub proof fn lemma_reflow_all_fixed(diff: Seq<PartsDiffView>, n: nat)
    requires
        all_fit(diff, n),
    ensures
        all_placeable(diff, n),
        reflow_all(diff, n) == diff,
    decreases diff.len(),
{
    assert forall|i: int| 0 <= i < diff.len() implies pair_placeable(#[trigger] diff[i], n) by {
        lemma_reflow_pair_fixed(diff[i], n);
    }
    if diff.len() > 0 {
        lemma_reflow_all_fixed(diff.drop_last(), n);
        lemma_reflow_pair_fixed(diff.last(), n);
    }
}

/// Width correctness: in row pairs reflowed to a total width every row is at
/// most as wide as the budget of a side, holds no empty segment and no two
/// neighbouring segments of one kind; and every pair has a side where every
/// pair had one before.
pub proof fn lemma_reflowed_fits(diff: Seq<PartsDiffView>, max_total_width: nat)
    requires
        reflowed(diff, max_total_width) is Ok,
    ensures
        side_budget(max_total_width, max_lineno_width(diff)) is Some,
        all_fit(
            reflowed(diff, max_total_width)->Ok_0,
            side_budget(max_total_width, max_lineno_width(diff))->0,
        ),
        all_pairs_inhabited(diff) ==> all_pairs_inhabited(reflowed(diff, max_total_width)->Ok_0),
{
    lemma_reflow_all(diff, side_budget(max_total_width, max_lineno_width(diff))->0);
}

/// Reflow idempotence: reflowing row pairs that were reflowed to a total
/// width to that width again gives the same row pairs.
pub proof fn lemma_reflow_idempotent(diff: Seq<PartsDiffView>, max_total_width: nat)
    requires
        reflowed(diff, max_total_width) is Ok,
    ensures
        reflowed(reflowed(diff, max_total_width)->Ok_0, max_total_width) == reflowed(
            diff,
            max_total_width,
        ),
{
    let n = side_budget(max_total_width, max_lineno_width(diff))->0;
    lemma_reflow_all(diff, n);
    lemma_reflow_all_fixed(reflow_all(diff, n), n);
}

/// The row pair shows no change: both sides are present and hold the same
/// segments, all of them `Equal`.
pub open spec fn unchanged(pair: PartsDiffView) -> bool {
    &&& pair.left is Some
    &&& pair.right is Some
    &&& pair.left->0.parts == pair.right->0.parts
    &&& all_of_kind(pair.left->0.parts, Kind::Equal)
}

/// Every row pair shows no change.
pub open spec fn all_unchanged(diff: Seq<PartsDiffView>) -> bool {
    forall|i: int| 0 <= i < diff.len() ==> unchanged(#[trigger] diff[i])
}

/// A display row and what it leaves over hold segments of the kinds that
/// the row it is taken from holds.
pub proof fn lemma_scan_row_kind(parts: Seq<PartView>, n: nat, kind: Kind)
    requires
        all_of_kind(parts, kind),
    ensures
        all_of_kind(scan_row(parts, n).row, kind),
        scan_row(parts, n).rest matches Some(rest) ==> all_of_kind(rest, kind),
    decreases parts.len(),
{
    if parts.len() > 0 {
        lemma_scan_row_kind(parts.drop_last(), n, kind);
    }
}

/// The display rows of a row hold segments of the kinds that the row holds.
pub proof fn lemma_reflow_row_kind(parts: Seq<PartView>, n: nat, kind: Kind)
    requires
        placeable(parts, n),
        all_of_kind(parts, kind),
    ensures
        forall|i: int|
            0 <= i < reflow_row(parts, n).len() ==> all_of_kind(#[trigger] reflow_row(parts, n)[i], kind),
    decreases row_text(parts).len(),
{
    lemma_scan_row_kind(parts, n, kind);
    lemma_scan_progress(parts, n);
    let scan = scan_row(parts, n);
    match scan.rest {
        Some(rest) => {
            lemma_reflow_row_kind(rest, n, kind);
            let rows = reflow_row(parts, n);
            assert forall|i: int|
                0 <= i < rows.len() implies all_of_kind(#[trigger] rows[i], kind) by {
                if i > 0 {
                    assert(rows[i] == reflow_row(rest, n)[i - 1]);
                }
            }
        },
        None => {},
    }
}

/// Reflowed row pairs show no change where the row pairs they came from
/// showed none.
pub proof fn lemma_reflow_all_unchanged(diff: Seq<PartsDiffView>, n: nat)
    requires
        all_placeable(diff, n),
        all_unchanged(diff),
    ensures
        all_unchanged(reflow_all(diff, n)),
    decreases diff.len(),
{
    if diff.len() > 0 {
        lemma_reflow_all_unchanged(diff.drop_last(), n);
        lemma_reflow_row_kind(diff.last().left->0.parts, n, Kind::Equal);
    }
}

/// The characters of a text, each with the kind of the segment it is in.
pub open spec fn styled_text(kind: Kind, text: Seq<char>) -> Seq<(Kind, char)> {
    Seq::new(text.len(), |i: int| (kind, text[i]))
}

/// The characters of a row, each with the kind of its segment.
pub open spec fn styled(parts: Seq<PartView>) -> Seq<(Kind, char)>
    decreases parts.len(),
{
    if parts.len() == 0 {
        Seq::empty()
    } else {
        styled(parts.drop_last()) + styled_text(parts.last().kind, parts.last().text)
    }
}

/// The characters of several display rows, each with its kind, row after
/// row.
pub open spec fn styled_rows(rows: Seq<Seq<PartView>>) -> Seq<(Kind, char)>
    decreases rows.len(),
{
    if rows.len() == 0 {
        Seq::empty()
    } else {
        styled_rows(rows.drop_last()) + styled(rows.last())
    }
}

/// The characters that are no whitespace, in order.
pub open spec fn visible(s: Seq<(Kind, char)>) -> Seq<(Kind, char)>
    decreases s.len(),
{
    if s.len() == 0 {
        Seq::empty()
    } else if white_space(s.last().1) {
        visible(s.drop_last())
    } else {
        visible(s.drop_last()).push(s.last())
    }
}

/// The visible characters of two sequences joined are those of the first,
/// then those of the second.
pub proof fn lemma_visible_concat(a: Seq<(Kind, char)>, b: Seq<(Kind, char)>)
    ensures
        visible(a + b) == visible(a) + visible(b),
    decreases b.len(),
{
    if b.len() > 0 {
        lemma_visible_concat(a, b.drop_last());
        assert((a + b).drop_last() == a + b.drop_last());
    }
}

/// The styled characters of two texts joined are those of the first, then
/// those of the second.
pub proof fn lemma_styled_text_concat(kind: Kind, a: Seq<char>, b: Seq<char>)
    ensures
        styled_text(kind, a + b) == styled_text(kind, a) + styled_text(kind, b),
{
}

/// Trimming a text takes no visible character from it.
pub proof fn lemma_visible_trim_start(kind: Kind, s: Seq<char>)
    ensures
        visible(styled_text(kind, trim_start(s))) == visible(styled_text(kind, s)),
    decreases s.len(),
{
    if s.len() > 0 && white_space(s[0]) {
        let first = seq![s[0]];
        let rest = s.skip(1);
        lemma_visible_trim_start(kind, rest);
        assert(s == first + rest);
        lemma_styled_text_concat(kind, first, rest);
        lemma_visible_concat(styled_text(kind, first), styled_text(kind, rest));
        let one = styled_text(kind, first);
        assert(visible(one.drop_last()).len() == 0);
    }
}

/// The visible characters of a text are those of the part that fits, then
/// those of what is left over.
pub proof fn lemma_visible_split(kind: Kind, text: Seq<char>, budget: nat)
    ensures
        visible(styled_text(kind, text)) == visible(styled_text(kind, head_at_width(text, budget)))
            + visible(styled_text(kind, tail_at_width(text, budget))),
{
    lemma_fit_len(text, budget);
    let k = fit_len(text, budget) as int;
    assert(text == text.take(k) + text.skip(k));
    lemma_styled_text_concat(kind, text.take(k), text.skip(k));
    lemma_visible_concat(styled_text(kind, text.take(k)), styled_text(kind, text.skip(k)));
    lemma_visible_trim_start(kind, text.skip(k));
}

/// Appending a span adds its characters, with its kind, at the end of the
/// row's.
pub proof fn lemma_styled_push_part(parts: Seq<PartView>, kind: Kind, text: Seq<char>)
    ensures
        styled(push_part(parts, kind, text)) == styled(parts) + styled_text(kind, text),
{
    let out = push_part(parts, kind, text);
    if parts.len() > 0 && parts.last().kind == kind {
        assert(out.drop_last() == parts.drop_last());
    } else {
        assert(out.drop_last() == parts);
    }
}

/// A display row and what it leaves over hold, between them, the visible
/// characters of the segments they were taken from.
pub proof fn lemma_scan_row_keeps_visible(parts: Seq<PartView>, n: nat)
    ensures
        visible(styled(parts)) == visible(styled(scan_row(parts, n).row)) + visible(
            styled(
                match scan_row(parts, n).rest {
                    Some(rest) => rest,
                    None => Seq::empty(),
                },
            ),
        ),
    decreases parts.len(),
{
    let none = Seq::<PartView>::empty();
    if parts.len() > 0 {
        let front = parts.drop_last();
        let part = parts.last();
        lemma_scan_row_keeps_visible(front, n);
        let before = scan_row(front, n);
        let here = styled_text(part.kind, part.text);
        lemma_visible_concat(styled(front), here);
        match before.rest {
            Some(rest) => {
                let after = rest.push(part);
                assert(after.drop_last() == rest);
                lemma_visible_concat(styled(rest), here);
                assert(visible(styled(before.row)) + (visible(styled(rest)) + visible(here)) =~= (
                visible(styled(before.row)) + visible(styled(rest))) + visible(here));
            },
            None => {
                let budget = (n - before.used) as nat;
                let head = head_at_width(part.text, budget);
                let tail = tail_at_width(part.text, budget);
                let after = scan_row(parts, n);
                lemma_visible_split(part.kind, part.text, budget);
                assert(visible(styled(after.row)) == visible(styled(before.row)) + visible(
                    styled_text(part.kind, head),
                )) by {
                    if head.len() > 0 {
                        lemma_styled_push_part(before.row, part.kind, head);
                        lemma_visible_concat(styled(before.row), styled_text(part.kind, head));
                    } else {
                        assert(visible(styled(before.row)) + visible(styled_text(part.kind, head))
                            =~= visible(styled(before.row)));
                    }
                }
                let left_over = match after.rest {
                    Some(rest) => rest,
                    None => none,
                };
                assert(visible(styled(left_over)) == visible(styled_text(part.kind, tail))) by {
                    if tail.len() > 0 {
                        let one = seq![PartView { kind: part.kind, text: tail }];
                        assert(one.drop_last() =~= none);
                    }
                }
                assert((visible(styled(before.row)) + visible(styled_text(part.kind, head)))
                    + visible(styled_text(part.kind, tail)) =~= visible(styled(before.row)) + (
                visible(styled_text(part.kind, head)) + visible(styled_text(part.kind, tail))));
            },
        }
    }
}

/// The styled characters of a first display row and more display rows are
/// those of the first, then those of the others.
pub proof fn lemma_styled_rows_front(first: Seq<PartView>, more: Seq<Seq<PartView>>)
    ensures
        styled_rows(seq![first] + more) == styled(first) + styled_rows(more),
    decreases more.len(),
{
    let all = seq![first] + more;
    if more.len() == 0 {
        assert(styled_rows(all.drop_last()).len() == 0);
    } else {
        lemma_styled_rows_front(first, more.drop_last());
        assert(all.drop_last() =~= seq![first] + more.drop_last());
    }
}

/// Reflow keeps the content: the display rows of a row hold, in order and
/// each with its kind, every character of the row that is no whitespace, and
/// no other.
pub proof fn lemma_reflow_row_keeps_visible(parts: Seq<PartView>, n: nat)
    requires
        placeable(parts, n),
    ensures
        visible(styled_rows(reflow_row(parts, n))) == visible(styled(parts)),
    decreases row_text(parts).len(),
{
    lemma_scan_row_keeps_visible(parts, n);
    lemma_scan_progress(parts, n);
    let scan = scan_row(parts, n);
    match scan.rest {
        Some(rest) => {
            lemma_reflow_row_keeps_visible(rest, n);
            lemma_styled_rows_front(scan.row, reflow_row(rest, n));
            lemma_visible_concat(styled(scan.row), styled_rows(reflow_row(rest, n)));
        },
        None => {
            lemma_styled_rows_front(scan.row, Seq::empty());
        },
    }
}

} // verus!
