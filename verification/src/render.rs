//! The whole comparison: from two texts to a markup document or to
//! colourised terminal text.

use crate::align::{align, context_radius, diff_a_and_b, lemma_align_two_sided, unchanged_row};
use crate::console::{
    console_document, find_widest_line_left, generate_console, lemma_widest_left, widest_left,
};
use crate::error::DiffError;
use crate::gutter::max_lineno_width;
use crate::markup::{generate_html, markup_document};
use crate::parts::{all_rows_sound, PartsDiff, PartsDiffView};
use crate::reflow::{reflowed, side_budget, split_parts_diff};
use crate::reflow_laws::{all_unchanged, lemma_reflow_all, lemma_reflow_all_unchanged, unchanged};
use crate::script::{char_edit_script, line_edit_script, trim_line_end, ChangeView, MAX_INPUT_CHARS};
use crate::subline::{convert_all, convert_diffs, lemma_segments_of_equal_script, only_equal};
use vstd::prelude::*;
use vstd::string::StrSliceExecFns;

verus! {

/// The row pairs for two texts: the line-level edit script with the given
/// context, aligned into rows, each row refined into segments.
pub open spec fn compared(a: Seq<char>, b: Seq<char>, context_lines: Option<usize>) -> Seq<
    PartsDiffView,
> {
    convert_all(align(line_edit_script(a, b, context_radius(context_lines))))
}

/// Row pairs laid out: reflowed to the total width where one is given, as
/// they are where none is.
pub open spec fn laid_out(rows: Seq<PartsDiffView>, max_total_width: Option<usize>) -> Result<
    Seq<PartsDiffView>,
    DiffError,
> {
    match max_total_width {
        Some(width) => reflowed(rows, width as nat),
        None => Ok(rows),
    }
}

/// The display rows for two texts, or why there are none.
pub open spec fn display_rows(
    a: Seq<char>,
    b: Seq<char>,
    context_lines: Option<usize>,
    max_total_width: Option<usize>,
) -> Result<Seq<PartsDiffView>, DiffError> {
    if a.len() + b.len() > MAX_INPUT_CHARS {
        Err(DiffError::InputTooLarge)
    } else {
        laid_out(compared(a, b, context_lines), max_total_width)
    }
}

/// The markup document for two texts, or why there is none.
pub open spec fn markup_of(
    a: Seq<char>,
    b: Seq<char>,
    context_lines: Option<usize>,
    max_total_width: Option<usize>,
) -> Result<Seq<char>, DiffError> {
    match display_rows(a, b, context_lines, max_total_width) {
        Ok(rows) => Ok(markup_document(rows)),
        Err(e) => Err(e),
    }
}

/// The terminal text for two texts, or why there is none: the left column
/// is padded to the width of its widest row.
pub open spec fn console_of(
    a: Seq<char>,
    b: Seq<char>,
    context_lines: Option<usize>,
    max_total_width: Option<usize>,
) -> Result<Seq<char>, DiffError> {
    match display_rows(a, b, context_lines, max_total_width) {
        Ok(rows) => if widest_left(rows) <= usize::MAX {
            Ok(console_document(rows, widest_left(rows)))
        } else {
            Err(DiffError::WidthOverflow)
        },
        Err(e) => Err(e),
    }
}

/// Whether the two texts are small enough for the line-level edit script.
pub fn input_fits(a: &str, b: &str) -> (ok: bool)
    ensures
        ok == (a@.len() + b@.len() <= MAX_INPUT_CHARS),
{
    let len_a: usize = a.unicode_len();
    let len_b: usize = b.unicode_len();
    len_a <= MAX_INPUT_CHARS && len_b <= MAX_INPUT_CHARS - len_a
}

/// The display rows for two texts: the changed lines and their context,
/// aligned, refined into segments and, where a total width is given,
/// reflowed to it. Every pair has at least one side, and no row has two
/// neighbouring segments of one kind.
pub fn diff_rows(
    a: &str,
    b: &str,
    context_lines: Option<usize>,
    max_total_width: Option<usize>,
) -> (result: Result<Vec<PartsDiff>, DiffError>)
    ensures
        result matches Ok(rows) ==> display_rows(a@, b@, context_lines, max_total_width) == Ok::<
            Seq<PartsDiffView>,
            DiffError,
        >(rows.deep_view()) && all_rows_sound(rows.deep_view()),
        result matches Err(e) ==> display_rows(a@, b@, context_lines, max_total_width) == Err::<
            Seq<PartsDiffView>,
            DiffError,
        >(e),
{
    if !input_fits(a, b) {
        return Err(DiffError::InputTooLarge);
    }
    let line_diffs = diff_a_and_b(a, b, context_lines);
    let parts_diffs = convert_diffs(&line_diffs);
    match max_total_width {
        Some(width) => {
            let result = split_parts_diff(&parts_diffs, width);
            result
        },
        None => Ok(parts_diffs),
    }
}

/// Reflowing keeps row pairs sound: every pair keeps a side, and no row has
/// two neighbouring segments of one kind.
pub proof fn lemma_reflowed_sound(rows: Seq<PartsDiffView>, max_total_width: nat)
    requires
        all_rows_sound(rows),
        reflowed(rows, max_total_width) is Ok,
    ensures
        all_rows_sound(reflowed(rows, max_total_width)->Ok_0),
{
    let n = side_budget(max_total_width, max_lineno_width(rows))->0;
    lemma_reflow_all(rows, n);
}

/// The comparison of two texts as a markup document. `context_lines` is the
/// number of unchanged lines kept around each change, all of them where it
/// is absent; `max_total_width`, where present, is the number of columns
/// that both sides and their gutters are reflowed to.
pub fn render_markup(
    a: &str,
    b: &str,
    context_lines: Option<usize>,
    max_total_width: Option<usize>,
) -> (result: Result<String, DiffError>)
    ensures
        result matches Ok(html) ==> markup_of(a@, b@, context_lines, max_total_width) == Ok::<
            Seq<char>,
            DiffError,
        >(html@),
        result matches Err(e) ==> markup_of(a@, b@, context_lines, max_total_width) == Err::<
            Seq<char>,
            DiffError,
        >(e),
{
    match diff_rows(a, b, context_lines, max_total_width) {
        Ok(rows) => Ok(generate_html(&rows)),
        Err(e) => Err(e),
    }
}

/// The comparison of two texts as colourised terminal text, the left column
/// padded to the width of its widest row. The parameters are those of
/// `render_markup`.
pub fn render_console(
    a: &str,
    b: &str,
    context_lines: Option<usize>,
    max_total_width: Option<usize>,
) -> (result: Result<String, DiffError>)
    ensures
        result matches Ok(stdout) ==> console_of(a@, b@, context_lines, max_total_width) == Ok::<
            Seq<char>,
            DiffError,
        >(stdout@),
        result matches Err(e) ==> console_of(a@, b@, context_lines, max_total_width) == Err::<
            Seq<char>,
            DiffError,
        >(e),
{
    match diff_rows(a, b, context_lines, max_total_width) {
        Ok(rows) => {
            match find_widest_line_left(&rows) {
                Some(widest_line_left) => {
                    proof {
                        lemma_widest_left(rows.deep_view());
                    }
                    Ok(generate_console(&rows, widest_line_left))
                },
                None => Err(DiffError::WidthOverflow),
            }
        },
        Err(e) => Err(e),
    }
}

/// Where the edit script of the lines reports no change, and that of the
/// characters of each line reports none either, as it is for two texts that
/// are the same, every display row shows both sides with the same segments,
/// all of them `Equal`.
pub proof fn lemma_no_change_shows_none(script: Seq<ChangeView>, max_total_width: Option<usize>)
    requires
        only_equal(script),
        forall|i: int|
            0 <= i < script.len() ==> only_equal(
                char_edit_script(
                    trim_line_end((#[trigger] script[i]).value),
                    trim_line_end(script[i].value),
                ),
            ),
        laid_out(convert_all(align(script)), max_total_width) is Ok,
    ensures
        all_unchanged(laid_out(convert_all(align(script)), max_total_width)->Ok_0),
{
    let rows = convert_all(align(script));
    lemma_align_two_sided(script);
    assert forall|i: int| 0 <= i < rows.len() implies unchanged(#[trigger] rows[i]) by {
        let line = trim_line_end(script[i].value);
        lemma_segments_of_equal_script(
            char_edit_script(line, line),
            unchanged_row(script[i]).left->0.lineno,
            unchanged_row(script[i]).right->0.lineno,
        );
    }
    match max_total_width {
        Some(width) => {
            let n = side_budget(width as nat, max_lineno_width(rows))->0;
            lemma_reflow_all_unchanged(rows, n);
        },
        None => {},
    }
}

} // verus!
