//! The line-number column that stands beside each side's content.

use crate::parts::{PartsDiff, PartsDiffView, PartsView};
use vstd::prelude::*;
use vstd::string::{StrSliceExecFns, StringExecFns};

verus! {

/// Blank columns on each side of a line number.
pub const LINENO_PADDING: usize = 1;

/// The character that stands for a digit.
pub open spec fn digit_char(d: nat) -> char {
    if d == 0 {
        '0'
    } else if d == 1 {
        '1'
    } else if d == 2 {
        '2'
    } else if d == 3 {
        '3'
    } else if d == 4 {
        '4'
    } else if d == 5 {
        '5'
    } else if d == 6 {
        '6'
    } else if d == 7 {
        '7'
    } else if d == 8 {
        '8'
    } else {
        '9'
    }
}

/// A number written in decimal digits, without leading zeros.
pub open spec fn decimal(n: nat) -> Seq<char>
    decreases n,
{
    if n < 10 {
        seq![digit_char(n)]
    } else {
        decimal(n / 10).push(digit_char(n % 10))
    }
}

/// `n` blanks.
pub open spec fn spaces(n: nat) -> Seq<char> {
    Seq::new(n, |i: int| ' ')
}

/// A text centred in a field of `width` characters: where the blanks cannot
/// be shared evenly, the extra one stands to the right. A text that fills
/// the field is left as it is.
pub open spec fn centered(s: Seq<char>, width: nat) -> Seq<char> {
    if s.len() >= width {
        s
    } else {
        let pad = (width - s.len()) as nat;
        spaces(pad / 2) + s + spaces((pad - pad / 2) as nat)
    }
}

/// What the gutter shows for a row: nothing where the side is absent, an
/// ellipsis where the row continues the line shown before it, and the line
/// number otherwise.
pub open spec fn lineno_label(prev_lineno: nat, new_lineno: Option<nat>) -> Seq<char> {
    match new_lineno {
        None => Seq::empty(),
        Some(n) => if prev_lineno == n {
            seq!['\u{2026}']
        } else {
            decimal(n)
        },
    }
}

/// The gutter text of a row: the label, centred in the gutter's width.
pub open spec fn lineno_str(
    prev_lineno: nat,
    new_lineno: Option<nat>,
    max_lineno_width: nat,
) -> Seq<char> {
    centered(
        lineno_label(prev_lineno, new_lineno),
        (max_lineno_width + 2 * LINENO_PADDING) as nat,
    )
}

/// The line number of a side, if the side is present.
pub open spec fn lineno_of(side: Option<PartsView>) -> Option<nat> {
    match side {
        Some(row) => Some(row.lineno),
        None => None,
    }
}

/// The line number of a side, or zero where the side is absent.
pub open spec fn lineno_or_zero(side: Option<PartsView>) -> nat {
    match side {
        Some(row) => row.lineno,
        None => 0,
    }
}

/// The side of a row pair that a column shows.
pub open spec fn side_of(pair: PartsDiffView, left: bool) -> Option<PartsView> {
    if left {
        pair.left
    } else {
        pair.right
    }
}

/// The line number that a column showed last: that of the last row in which
/// the side is present, zero where there is none.
pub open spec fn last_lineno(diff: Seq<PartsDiffView>, left: bool) -> nat
    decreases diff.len(),
{
    if diff.len() == 0 {
        0
    } else {
        match side_of(diff.last(), left) {
            Some(row) => row.lineno,
            None => last_lineno(diff.drop_last(), left),
        }
    }
}

/// The largest line number on either side of any row; zero without rows.
pub open spec fn max_lineno(diff: Seq<PartsDiffView>) -> nat
    decreases diff.len(),
{
    if diff.len() == 0 {
        0
    } else {
        let before = max_lineno(diff.drop_last());
        let left = lineno_or_zero(diff.last().left);
        let right = lineno_or_zero(diff.last().right);
        if before >= left && before >= right {
            before
        } else if left >= right {
            left
        } else {
            right
        }
    }
}

/// The width of the widest line number: the digits of the largest one.
pub open spec fn max_lineno_width(diff: Seq<PartsDiffView>) -> nat {
    decimal(max_lineno(diff)).len()
}

/// A number in a machine word has at most twenty decimal digits.
pub proof fn lemma_decimal_len(n: nat)
    ensures
        decimal(n).len() >= 1,
        n <= u64::MAX ==> decimal(n).len() <= 20,
{
    reveal_with_fuel(decimal, 21);
}

/// The one-character text that stands for a digit.
fn digit_str(d: usize) -> (s: &'static str)
    requires
        d < 10,
    ensures
        s@ == seq![digit_char(d as nat)],
{
    proof {
        reveal_strlit("0");
        reveal_strlit("1");
        reveal_strlit("2");
        reveal_strlit("3");
        reveal_strlit("4");
        reveal_strlit("5");
        reveal_strlit("6");
        reveal_strlit("7");
        reveal_strlit("8");
        reveal_strlit("9");
    }
    let s = if d == 0 {
        "0"
    } else if d == 1 {
        "1"
    } else if d == 2 {
        "2"
    } else if d == 3 {
        "3"
    } else if d == 4 {
        "4"
    } else if d == 5 {
        "5"
    } else if d == 6 {
        "6"
    } else if d == 7 {
        "7"
    } else if d == 8 {
        "8"
    } else {
        "9"
    };
    s
}

/// A number written in decimal digits.
pub fn decimal_string(n: usize) -> (s: String)
    ensures
        s@ == decimal(n as nat),
    decreases n,
{
    if n < 10 {
        String::from_str(digit_str(n))
    } else {
        let mut s = decimal_string(n / 10);
        s.append(digit_str(n % 10));
        s
    }
}

/// How many decimal digits a number has.
pub fn decimal_len(n: usize) -> (len: usize)
    ensures
        len == decimal(n as nat).len(),
        1 <= len <= 20,
    decreases n,
{
    proof {
        lemma_decimal_len(n as nat);
    }
    if n < 10 {
        1
    } else {
        decimal_len(n / 10) + 1
    }
}

/// A text of `n` blanks.
pub fn spaces_string(n: usize) -> (s: String)
    ensures
        s@ == spaces(n as nat),
{
    let mut s = String::new();
    let mut i: usize = 0;
    while i < n
        invariant
            0 <= i <= n,
            s@ == spaces(i as nat),
        decreases n - i,
    {
        proof {
            reveal_strlit(" ");
        }
        s.append(" ");
        i = i + 1;
    }
    s
}

/// The width of the gutter's numbers: the number of digits of the largest
/// line number that any row shows.
pub fn find_max_lineno_width(diff: &Vec<PartsDiff>) -> (width: usize)
    ensures
        width == max_lineno_width(diff.deep_view()),
        1 <= width <= 20,
{
    let mut max: usize = 0;
    let mut i: usize = 0;
    while i < diff.len()
        invariant
            0 <= i <= diff.len(),
            max == max_lineno(diff.deep_view().take(i as int)),
        decreases diff.len() - i,
    {
        proof {
            assert(diff.deep_view().take(i + 1).drop_last() == diff.deep_view().take(i as int));
        }
        match &diff[i].left {
            Some(row) => {
                if row.lineno > max {
                    max = row.lineno;
                }
            },
            None => {},
        }
        match &diff[i].right {
            Some(row) => {
                if row.lineno > max {
                    max = row.lineno;
                }
            },
            None => {},
        }
        i = i + 1;
    }
    assert(diff.deep_view().take(i as int) == diff.deep_view());
    decimal_len(max)
}

/// The gutter text of one side of one row. `prev_lineno` is the line number
/// that the side showed last, zero where it has shown none.
pub fn generate_lineno_str(
    prev_lineno: usize,
    new_lineno: Option<usize>,
    max_lineno_width: usize,
) -> (gutter: String)
    requires
        max_lineno_width + 2 * LINENO_PADDING <= usize::MAX,
    ensures
        gutter@ == lineno_str(
            prev_lineno as nat,
            match new_lineno {
                Some(n) => Some(n as nat),
                None => None,
            },
            max_lineno_width as nat,
        ),
{
    let label = match new_lineno {
        None => String::new(),
        Some(n) => {
            if prev_lineno == n {
                proof {
                    reveal_strlit("\u{2026}");
                }
                let s = String::from_str("\u{2026}");
                s
            } else {
                decimal_string(n)
            }
        },
    };
    let width: usize = max_lineno_width + 2 * LINENO_PADDING;
    let len: usize = label.as_str().unicode_len();
    if len >= width {
        label
    } else {
        let pad: usize = width - len;
        let mut gutter = spaces_string(pad / 2);
        gutter.append(label.as_str());
        gutter.append(spaces_string(pad - pad / 2).as_str());
        gutter
    }
}

} // verus!
