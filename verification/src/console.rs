//! The console renderer: row pairs as lines of colourised terminal text, the
//! old text's column padded so that the new text's column starts at one
//! offset on every line.

use crate::gutter::{
    find_max_lineno_width, generate_lineno_str, last_lineno, lineno_of, lineno_str,
    max_lineno_width, spaces, spaces_string,
};
use crate::parts::{row_width, Kind, Part, PartView, Parts, PartsDiff, PartsDiffView, PartsView};
use vstd::prelude::*;
use vstd::string::StringExecFns;

verus! {

/// Red, green and blue of the colour of unchanged text.
pub const EQUAL_RGB: (u8, u8, u8) = (172, 172, 172);

/// Red, green and blue of the colour of deleted text.
pub const DELETE_RGB: (u8, u8, u8) = (255, 0, 0);

/// Red, green and blue of the colour of inserted text.
pub const INSERT_RGB: (u8, u8, u8) = (0, 128, 0);

/// Red, green and blue of the colour of the gutter's text.
pub const LINENO_RGB: (u8, u8, u8) = (59, 59, 59);

/// Red, green and blue of the colour behind the gutter's text.
pub const LINENO_BACK_RGB: (u8, u8, u8) = (0, 0, 61);

/// A text as `ansi_term` paints it in a foreground colour.
pub uninterp spec fn ansi_painted(r: u8, g: u8, b: u8, text: Seq<char>) -> Seq<char>;

/// A text as `ansi_term` paints it in a foreground colour on a background
/// colour.
pub uninterp spec fn ansi_painted_on(
    r: u8,
    g: u8,
    b: u8,
    back_r: u8,
    back_g: u8,
    back_b: u8,
    text: Seq<char>,
) -> Seq<char>;

/// `Colour::paint` on an RGB colour, written out: the text between the
/// escape codes that switch the colour on and off. The result depends on
/// the colour and the text alone.
#[verifier::external_body]
fn paint(r: u8, g: u8, b: u8, text: &str) -> (painted: String)
    ensures
        painted@ == ansi_painted(r, g, b, text@),
{
    ansi_term::Colour::RGB(r, g, b).paint(text).to_string()
}

/// `Style::paint` on the style that `Colour::on` makes of two RGB colours,
/// written out: the text between the escape codes that switch both colours
/// on and off. The result depends on the colours and the text alone.
#[verifier::external_body]
fn paint_on(r: u8, g: u8, b: u8, back_r: u8, back_g: u8, back_b: u8, text: &str) -> (painted:
    String)
    ensures
        painted@ == ansi_painted_on(r, g, b, back_r, back_g, back_b, text@),
{
    ansi_term::Colour::RGB(r, g, b)
        .on(ansi_term::Colour::RGB(back_r, back_g, back_b))
        .paint(text)
        .to_string()
}

/// The colour of a segment's kind.
pub open spec fn kind_rgb(kind: Kind) -> (u8, u8, u8) {
    match kind {
        Kind::Equal => EQUAL_RGB,
        Kind::Delete => DELETE_RGB,
        Kind::Insert => INSERT_RGB,
    }
}

/// One segment painted in the colour of its kind. The text is not escaped.
pub open spec fn console_span(part: PartView) -> Seq<char> {
    ansi_painted(kind_rgb(part.kind).0, kind_rgb(part.kind).1, kind_rgb(part.kind).2, part.text)
}

/// The segments of a row, painted, one after the other.
pub open spec fn console_spans(parts: Seq<PartView>) -> Seq<char>
    decreases parts.len(),
{
    if parts.len() == 0 {
        Seq::empty()
    } else {
        console_spans(parts.drop_last()) + console_span(parts.last())
    }
}

/// The columns that a side occupies: none where it is absent.
pub open spec fn side_width(side: Option<PartsView>) -> nat {
    match side {
        Some(row) => row_width(row.parts),
        None => 0,
    }
}

/// The content of one side of a row: its segments painted, nothing where
/// the side is absent; then, where a width to pad to is given, the blanks
/// that fill the side up to that width.
pub open spec fn console_parts(side: Option<PartsView>, pad_to_width: Option<nat>) -> Seq<char> {
    (match side {
        Some(row) => console_spans(row.parts),
        None => Seq::empty(),
    }) + (match pad_to_width {
        Some(n) => spaces((n - side_width(side)) as nat),
        None => Seq::empty(),
    })
}

/// The gutter text of a side, painted in the gutter's colours.
pub open spec fn console_lineno(prev_lineno: nat, side: Option<PartsView>, width: nat) -> Seq<
    char,
> {
    ansi_painted_on(
        LINENO_RGB.0,
        LINENO_RGB.1,
        LINENO_RGB.2,
        LINENO_BACK_RGB.0,
        LINENO_BACK_RGB.1,
        LINENO_BACK_RGB.2,
        lineno_str(prev_lineno, lineno_of(side), width),
    )
}

/// One line: the old text's gutter and content, padded to the widest, then
/// the new text's gutter and content, then a line break.
pub open spec fn console_line(
    prev_left: nat,
    prev_right: nat,
    pair: PartsDiffView,
    width: nat,
    widest_line_left: nat,
) -> Seq<char> {
    console_lineno(prev_left, pair.left, width) + console_parts(pair.left, Some(widest_line_left))
        + console_lineno(prev_right, pair.right, width) + console_parts(pair.right, None) + "\n"@
}

/// All lines. `width` is the width of the gutter's numbers.
pub open spec fn console_lines(diff: Seq<PartsDiffView>, width: nat, widest_line_left: nat) -> Seq<
    char,
>
    decreases diff.len(),
{
    if diff.len() == 0 {
        Seq::empty()
    } else {
        console_lines(diff.drop_last(), width, widest_line_left) + console_line(
            last_lineno(diff.drop_last(), true),
            last_lineno(diff.drop_last(), false),
            diff.last(),
            width,
            widest_line_left,
        )
    }
}

/// The whole output: a line break, then the lines.
pub open spec fn console_document(diff: Seq<PartsDiffView>, widest_line_left: nat) -> Seq<char> {
    "\n"@ + console_lines(diff, max_lineno_width(diff), widest_line_left)
}

/// The width of the widest row on the left; zero without rows.
pub open spec fn widest_left(diff: Seq<PartsDiffView>) -> nat
    decreases diff.len(),
{
    if diff.len() == 0 {
        0
    } else {
        let before = widest_left(diff.drop_last());
        let here = side_width(diff.last().left);
        if before >= here {
            before
        } else {
            here
        }
    }
}

/// No row on the left is wider than `widest`.
pub open spec fn left_within(diff: Seq<PartsDiffView>, widest: nat) -> bool {
    forall|i: int| 0 <= i < diff.len() ==> side_width((#[trigger] diff[i]).left) <= widest
}

/// No row on the left is wider than the widest.
pub proof fn lemma_widest_left(diff: Seq<PartsDiffView>)
    ensures
        left_within(diff, widest_left(diff)),
    decreases diff.len(),
{
    if diff.len() > 0 {
        let front = diff.drop_last();
        lemma_widest_left(front);
        assert forall|i: int| 0 <= i < diff.len() implies side_width((#[trigger] diff[i]).left)
            <= widest_left(diff) by {
            if i < front.len() {
                assert(diff[i] == front[i]);
            }
        }
    }
}

/// The width of the widest row on the left, zero without rows; `None` where
/// a width does not fit the machine's word.
pub fn find_widest_line_left(diff: &Vec<PartsDiff>) -> (widest: Option<usize>)
    ensures
        widest == (if widest_left(diff.deep_view()) <= usize::MAX {
            Some(widest_left(diff.deep_view()) as usize)
        } else {
            None
        }),
{
    let ghost all = diff.deep_view();
    let mut widest: usize = 0;
    let mut i: usize = 0;
    while i < diff.len()
        invariant
            all == diff.deep_view(),
            0 <= i <= diff.len(),
            widest == widest_left(all.take(i as int)),
        decreases diff.len() - i,
    {
        proof {
            assert(all.take(i + 1).drop_last() == all.take(i as int));
            lemma_widest_left_prefix(all, i + 1);
        }
        match &diff[i].left {
            Some(row) => {
                match row.width_within(usize::MAX) {
                    Some(width) => {
                        if width > widest {
                            widest = width;
                        }
                    },
                    None => {
                        return None;
                    },
                }
            },
            None => {},
        }
        i = i + 1;
    }
    assert(all.take(i as int) == all);
    Some(widest)
}

/// The widest row among the first pairs is no wider than the widest of all.
pub proof fn lemma_widest_left_prefix(diff: Seq<PartsDiffView>, upto: int)
    requires
        0 <= upto <= diff.len(),
    ensures
        widest_left(diff.take(upto)) <= widest_left(diff),
    decreases diff.len() - upto,
{
    if upto < diff.len() {
        lemma_widest_left_prefix(diff, upto + 1);
        assert(diff.take(upto + 1).drop_last() == diff.take(upto));
    } else {
        assert(diff.take(upto) == diff);
    }
}

/// The content of one side of a row as terminal text: each segment in the
/// colour of its kind, then blanks up to `pad_to_width` columns where that is
/// given.
pub fn generate_console_parts(parts_diff: &Option<Parts>, pad_to_width: Option<usize>) -> (out:
    String)
    requires
        pad_to_width matches Some(n) ==> side_width(parts_diff.deep_view()) <= n,
    ensures
        out@ == console_parts(
            parts_diff.deep_view(),
            match pad_to_width {
                Some(n) => Some(n as nat),
                None => None,
            },
        ),
{
    let mut out = String::new();
    match parts_diff {
        None => {},
        Some(p) => {
            let mut i: usize = 0;
            while i < p.parts.len()
                invariant
                    0 <= i <= p.parts.len(),
                    out@ == console_spans(p.parts.deep_view().take(i as int)),
                decreases p.parts.len() - i,
            {
                let part = &p.parts[i];
                let painted = match part {
                    Part::Equal(text) => paint(
                        EQUAL_RGB.0,
                        EQUAL_RGB.1,
                        EQUAL_RGB.2,
                        text.as_str(),
                    ),
                    Part::Delete(text) => paint(
                        DELETE_RGB.0,
                        DELETE_RGB.1,
                        DELETE_RGB.2,
                        text.as_str(),
                    ),
                    Part::Insert(text) => paint(
                        INSERT_RGB.0,
                        INSERT_RGB.1,
                        INSERT_RGB.2,
                        text.as_str(),
                    ),
                };
                proof {
                    let all = p.parts.deep_view();
                    assert(all.take(i + 1).drop_last() == all.take(i as int));
                }
                out.append(painted.as_str());
                i = i + 1;
            }
            assert(p.parts.deep_view().take(i as int) == p.parts.deep_view());
        },
    }
    match pad_to_width {
        Some(n) => {
            let content_width = match parts_diff {
                Some(p) => p.width(),
                None => 0,
            };
            out.append(spaces_string(n - content_width).as_str());
        },
        None => {
        },
    }
    out
}

/// The row pairs as colourised terminal text: a line break, then one line
/// for each pair, with the left column padded to `widest_line_left` columns.
pub fn generate_console(diff: &Vec<PartsDiff>, widest_line_left: usize) -> (stdout: String)
    requires
        left_within(diff.deep_view(), widest_line_left as nat),
    ensures
        stdout@ == console_document(diff.deep_view(), widest_line_left as nat),
{
    let ghost all = diff.deep_view();
    let max_lineno_width: usize = find_max_lineno_width(diff);
    let mut lines = String::new();
    let mut prev_lineno_left: usize = 0;
    let mut prev_lineno_right: usize = 0;
    let mut i: usize = 0;
    while i < diff.len()
        invariant
            all == diff.deep_view(),
            left_within(all, widest_line_left as nat),
            max_lineno_width <= 20,
            0 <= i <= diff.len(),
            prev_lineno_left == last_lineno(all.take(i as int), true),
            prev_lineno_right == last_lineno(all.take(i as int), false),
            lines@ == console_lines(
                all.take(i as int),
                max_lineno_width as nat,
                widest_line_left as nat,
            ),
        decreases diff.len() - i,
    {
        let line_diff = &diff[i];
        proof {
            assert(all.take(i + 1).drop_last() == all.take(i as int));
        }
        let new_lineno_left = match &line_diff.left {
            Some(parts) => Some(parts.lineno),
            None => None,
        };
        let new_lineno_right = match &line_diff.right {
            Some(parts) => Some(parts.lineno),
            None => None,
        };
        let lineno_str_left = generate_lineno_str(
            prev_lineno_left,
            new_lineno_left,
            max_lineno_width,
        );
        let lineno_str_right = generate_lineno_str(
            prev_lineno_right,
            new_lineno_right,
            max_lineno_width,
        );
        let mut line = paint_on(
            LINENO_RGB.0,
            LINENO_RGB.1,
            LINENO_RGB.2,
            LINENO_BACK_RGB.0,
            LINENO_BACK_RGB.1,
            LINENO_BACK_RGB.2,
            lineno_str_left.as_str(),
        );
        line.append(generate_console_parts(&line_diff.left, Some(widest_line_left)).as_str());
        line.append(
            paint_on(
                LINENO_RGB.0,
                LINENO_RGB.1,
                LINENO_RGB.2,
                LINENO_BACK_RGB.0,
                LINENO_BACK_RGB.1,
                LINENO_BACK_RGB.2,
                lineno_str_right.as_str(),
            ).as_str(),
        );
        line.append(generate_console_parts(&line_diff.right, None).as_str());
        line.append("\n");
        lines.append(line.as_str());
        prev_lineno_left =
        match new_lineno_left {
            Some(n) => n,
            None => prev_lineno_left,
        };
        prev_lineno_right =
        match new_lineno_right {
            Some(n) => n,
            None => prev_lineno_right,
        };
        i = i + 1;
    }
    assert(all.take(i as int) == all);
    let mut stdout = String::from_str("\n");
    stdout.append(lines.as_str());
    stdout
}

} // verus!
