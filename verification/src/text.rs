//! Display width of characters and texts, and splitting a text at a width.

use unicode_width::UnicodeWidthChar;
use vstd::prelude::*;
use vstd::string::StrSliceExecFns;

verus! {

/// The column count that the `unicode-width` tables assign to a character;
/// `None` for a control character.
pub uninterp spec fn unicode_width(c: char) -> Option<usize>;

/// Whether a character has the Unicode `White_Space` property.
pub uninterp spec fn white_space(c: char) -> bool;

/// `UnicodeWidthChar::width` looks the character up in the crate's tables:
/// the result depends on the character alone.
#[verifier::external_body]
fn lookup_width(c: char) -> (w: Option<usize>)
    ensures
        w == unicode_width(c),
{
    UnicodeWidthChar::width(c)
}

/// `char::is_whitespace` tests the `White_Space` property of the character.
pub assume_specification[ char::is_whitespace ](c: char) -> (b: bool)
    ensures
        b == white_space(c),
;

/// Columns that a character occupies on screen: control characters count as
/// zero columns.
pub open spec fn char_width(c: char) -> nat {
    match unicode_width(c) {
        Some(w) => w as nat,
        None => 0,
    }
}

/// Columns that a text occupies: the sum of the widths of its characters.
pub open spec fn text_width(s: Seq<char>) -> nat
    decreases s.len(),
{
    if s.len() == 0 {
        0
    } else {
        text_width(s.drop_last()) + char_width(s.last())
    }
}

/// How many leading characters of a text fit into `n` columns: the length of
/// its longest prefix that is at most `n` columns wide.
pub open spec fn fit_len(s: Seq<char>, n: nat) -> nat
    decreases s.len(),
{
    if s.len() == 0 || text_width(s) <= n {
        s.len()
    } else {
        fit_len(s.drop_last(), n)
    }
}

/// A text without its leading whitespace.
pub open spec fn trim_start(s: Seq<char>) -> Seq<char>
    decreases s.len(),
{
    if s.len() > 0 && white_space(s[0]) {
        trim_start(s.skip(1))
    } else {
        s
    }
}

/// The part of a text that fits into `n` columns.
pub open spec fn head_at_width(s: Seq<char>, n: nat) -> Seq<char> {
    s.take(fit_len(s, n) as int)
}

/// What is left of a text after the part that fits into `n` columns, without
/// the whitespace it starts with.
pub open spec fn tail_at_width(s: Seq<char>, n: nat) -> Seq<char> {
    trim_start(s.skip(fit_len(s, n) as int))
}

/// The width of a text grows by the width of each character added to it.
pub proof fn lemma_text_width_take(s: Seq<char>, i: int)
    requires
        0 <= i < s.len(),
    ensures
        text_width(s.take(i + 1)) == text_width(s.take(i)) + char_width(s[i]),
{
    assert(s.take(i + 1).drop_last() == s.take(i));
}

/// The width of two texts joined is the sum of their widths.
pub proof fn lemma_text_width_concat(a: Seq<char>, b: Seq<char>)
    ensures
        text_width(a + b) == text_width(a) + text_width(b),
    decreases b.len(),
{
    if b.len() > 0 {
        lemma_text_width_concat(a, b.drop_last());
        assert((a + b).drop_last() == a + b.drop_last());
    }
}

/// A prefix of a text is no wider than the text.
pub proof fn lemma_text_width_prefix(s: Seq<char>, i: int)
    requires
        0 <= i <= s.len(),
    ensures
        text_width(s.take(i)) <= text_width(s),
{
    lemma_text_width_concat(s.take(i), s.skip(i));
    assert(s.take(i) + s.skip(i) == s);
}

/// The part that fits is a prefix, is at most `n` columns wide, and the
/// character after it, if there is one, does not fit beside it.
pub proof fn lemma_fit_len(s: Seq<char>, n: nat)
    ensures
        fit_len(s, n) <= s.len(),
        text_width(s.take(fit_len(s, n) as int)) <= n,
        fit_len(s, n) < s.len() ==> text_width(s.take(fit_len(s, n) as int + 1)) > n,
        text_width(s) <= n <==> fit_len(s, n) == s.len(),
    decreases s.len(),
{
    if s.len() == 0 || text_width(s) <= n {
        assert(s.take(s.len() as int) == s);
    } else {
        let t = s.drop_last();
        lemma_fit_len(t, n);
        let k = fit_len(t, n) as int;
        assert(t.take(k) == s.take(k));
        if k < t.len() {
            assert(t.take(k + 1) == s.take(k + 1));
        } else {
            assert(s.take(k + 1) == s);
        }
    }
}

/// A prefix length with the two properties of `lemma_fit_len` is the one that
/// `fit_len` gives.
pub proof fn lemma_fit_len_unique(s: Seq<char>, n: nat, k: int)
    requires
        0 <= k <= s.len(),
        text_width(s.take(k)) <= n,
        k < s.len() ==> text_width(s.take(k + 1)) > n,
    ensures
        fit_len(s, n) == k,
    decreases s.len(),
{
    if s.len() > 0 && text_width(s) <= n {
        if k < s.len() {
            lemma_text_width_prefix(s, k + 1);
        }
    } else if s.len() > 0 {
        let t = s.drop_last();
        if k == s.len() {
            assert(s.take(k) == s);
        } else {
            assert(t.take(k) == s.take(k));
            if k < t.len() {
                assert(t.take(k + 1) == s.take(k + 1));
            }
            lemma_fit_len_unique(t, n, k);
        }
    }
}

/// Trimming the text from `from` on gives the text from `to` on, where only
/// whitespace lies between the two and the character at `to` is none.
pub proof fn lemma_trim_start_skip(s: Seq<char>, from: int, to: int)
    requires
        0 <= from <= to <= s.len(),
        forall|i: int| from <= i < to ==> white_space(#[trigger] s[i]),
        to < s.len() ==> !white_space(s[to]),
    ensures
        trim_start(s.skip(from)) == s.skip(to),
    decreases to - from,
{
    if from < to {
        lemma_trim_start_skip(s, from + 1, to);
        assert(s.skip(from).skip(1) == s.skip(from + 1));
    }
}

/// Trimmed text is the end of the text that was trimmed.
pub proof fn lemma_trim_start_suffix(s: Seq<char>)
    ensures
        trim_start(s).len() <= s.len(),
        trim_start(s) == s.skip(s.len() - trim_start(s).len()),
    decreases s.len(),
{
    if s.len() > 0 && white_space(s[0]) {
        lemma_trim_start_suffix(s.skip(1));
    }
}

/// Trimmed text does not start with whitespace, and is shorter than a text
/// that does.
pub proof fn lemma_trim_start_len(s: Seq<char>)
    ensures
        trim_start(s).len() <= s.len(),
        trim_start(s).len() > 0 ==> !white_space(trim_start(s)[0]),
        s.len() > 0 && white_space(s[0]) ==> trim_start(s).len() < s.len(),
    decreases s.len(),
{
    if s.len() > 0 && white_space(s[0]) {
        lemma_trim_start_len(s.skip(1));
    }
}

/// Columns that a character occupies on screen.
pub fn width_of_char(c: char) -> (w: usize)
    ensures
        w == char_width(c),
{
    match lookup_width(c) {
        Some(w) => w,
        None => 0,
    }
}

/// The characters of a text, one by one.
pub fn collect_chars(s: &str) -> (v: Vec<char>)
    ensures
        v@ == s@,
{
    broadcast use vstd::string::axiom_spec_iter;

    let mut v: Vec<char> = Vec::new();
    for c in it: s.chars()
        invariant
            it.seq() == s@,
            v@ == s@.take(it.index()),
    {
        v.push(c);
    }
    v
}

/// The display width of a text where it is at most `limit` columns, and
/// `None` where the text is wider.
pub fn width_within(text: &str, limit: usize) -> (width: Option<usize>)
    ensures
        width == (if text_width(text@) <= limit {
            Some(text_width(text@) as usize)
        } else {
            None
        }),
{
    let chars = collect_chars(text);
    let mut width: usize = 0;
    let mut i: usize = 0;
    while i < chars.len()
        invariant
            chars@ == text@,
            0 <= i <= chars.len(),
            width == text_width(text@.take(i as int)),
            width <= limit,
        decreases chars.len() - i,
    {
        let w: usize = width_of_char(chars[i]);
        proof {
            lemma_text_width_take(text@, i as int);
        }
        if w > limit - width {
            proof {
                lemma_text_width_prefix(text@, i + 1);
            }
            return None;
        }
        width = width + w;
        i = i + 1;
    }
    assert(text@.take(i as int) == text@);
    Some(width)
}

/// Splits a text where it would grow wider than `n` columns: the first part
/// is the longest prefix that fits, the second is the rest without the
/// whitespace it starts with. Both consist of whole characters.
pub fn split_string_at_width(input: &str, n: usize) -> (halves: (&str, &str))
    ensures
        halves.0@ == head_at_width(input@, n as nat),
        halves.1@ == tail_at_width(input@, n as nat),
{
    let chars = collect_chars(input);
    let len: usize = chars.len();
    let mut width: usize = 0;
    let mut split: usize = 0;
    while split < len && width_of_char(chars[split]) <= n - width
        invariant
            chars@ == input@,
            len == chars.len(),
            0 <= split <= len,
            width == text_width(input@.take(split as int)),
            width <= n,
        decreases len - split,
    {
        proof {
            lemma_text_width_take(input@, split as int);
        }
        width = width + width_of_char(chars[split]);
        split = split + 1;
    }
    proof {
        if split < len {
            lemma_text_width_take(input@, split as int);
        }
        lemma_fit_len_unique(input@, n as nat, split as int);
    }
    let mut rest: usize = split;
    while rest < len && chars[rest].is_whitespace()
        invariant
            chars@ == input@,
            len == chars.len(),
            split <= rest <= len,
            forall|i: int| split <= i < rest ==> white_space(#[trigger] input@[i]),
        decreases len - rest,
    {
        rest = rest + 1;
    }
    proof {
        lemma_trim_start_skip(input@, split as int, rest as int);
    }
    (input.substring_char(0, split), input.substring_char(rest, len))
}

} // verus!
