//! The markup renderer: row pairs as two scrollable columns of tagged spans.

use crate::gutter::{
    find_max_lineno_width, generate_lineno_str, last_lineno, lineno_of, lineno_str,
    max_lineno_width, side_of,
};
use crate::parts::{Kind, Part, PartView, Parts, PartsDiff, PartsDiffView, PartsView};
use vstd::prelude::*;
use vstd::string::StringExecFns;

verus! {

/// What stands for one character of text inside markup.
pub open spec fn escape_char(c: char) -> Seq<char> {
    if c == '&' {
        seq!['&', 'a', 'm', 'p', ';']
    } else if c == '<' {
        seq!['&', 'l', 't', ';']
    } else if c == '>' {
        seq!['&', 'g', 't', ';']
    } else {
        seq![c]
    }
}

/// A text made safe to stand between tags: `&`, `<` and `>` are replaced by
/// their entities, every other character stands for itself.
pub open spec fn escape_text(s: Seq<char>) -> Seq<char>
    decreases s.len(),
{
    if s.len() == 0 {
        Seq::empty()
    } else {
        escape_text(s.drop_last()) + escape_char(s.last())
    }
}

/// `html_escape::encode_text` replaces each `&` by `&amp;`, each `<` by
/// `&lt;` and each `>` by `&gt;`, and copies every other character.
#[verifier::external_body]
fn encode_text(text: &str) -> (encoded: String)
    ensures
        encoded@ == escape_text(text@),
{
    html_escape::encode_text(text).into_owned()
}

/// The class name that marks a segment's kind.
pub open spec fn kind_class(kind: Kind) -> Seq<char> {
    match kind {
        Kind::Equal => "ocdiff-equal"@,
        Kind::Delete => "ocdiff-delete"@,
        Kind::Insert => "ocdiff-insert"@,
    }
}

/// One segment as a span: its kind as the class, its text escaped.
pub open spec fn markup_span(part: PartView) -> Seq<char> {
    "<span class=\"ocdiff-line "@ + kind_class(part.kind) + "\">"@ + escape_text(part.text)
        + "</span>"@
}

/// The segments of a row as spans, one after the other.
pub open spec fn markup_spans(parts: Seq<PartView>) -> Seq<char>
    decreases parts.len(),
{
    if parts.len() == 0 {
        Seq::empty()
    } else {
        markup_spans(parts.drop_last()) + markup_span(parts.last())
    }
}

/// The content of one side of a row: an empty placeholder where the side is
/// absent.
pub open spec fn markup_parts(side: Option<PartsView>) -> Seq<char> {
    match side {
        None => "<span class=\"ocdiff-line ocdiff-none\"></span>"@,
        Some(row) => markup_spans(row.parts),
    }
}

/// One line of a column: the gutter, the content, a line break.
pub open spec fn markup_line(prev_lineno: nat, side: Option<PartsView>, width: nat) -> Seq<char> {
    "<span class=\"ocdiff-lineno\">"@ + lineno_str(prev_lineno, lineno_of(side), width)
        + "</span>"@ + markup_parts(side) + "\n"@
}

/// All lines of a column. `width` is the width of the gutter's numbers.
pub open spec fn markup_column(diff: Seq<PartsDiffView>, left: bool, width: nat) -> Seq<char>
    decreases diff.len(),
{
    if diff.len() == 0 {
        Seq::empty()
    } else {
        markup_column(diff.drop_last(), left, width) + markup_line(
            last_lineno(diff.drop_last(), left),
            side_of(diff.last(), left),
            width,
        )
    }
}

/// What opens the document: the style rules and the container.
pub open spec fn markup_prologue() -> Seq<char> {
    "<div>"@ + "<style>"@
        + ".ocdiff-container { display: flex; background-color: #141414; color: #acacac; }"@
        + ".ocdiff-side { overflow-x: auto; margin: 0; }"@
        + ".ocdiff-lineno { color: #3b3b3b; background-color: #00003d; }"@
        + ".ocdiff-delete { color: red; }"@ + ".ocdiff-insert { color: green; }"@ + "</style>"@
        + "<div class=\"ocdiff-container\">"@
}

/// The whole document: the prologue, then the old text's column and the new
/// text's column, each in a scrollable block.
pub open spec fn markup_document(diff: Seq<PartsDiffView>) -> Seq<char> {
    markup_prologue() + "<pre class=\"ocdiff-side\">"@ + markup_column(
        diff,
        true,
        max_lineno_width(diff),
    ) + "</pre>"@ + "<pre class=\"ocdiff-side\">"@ + markup_column(
        diff,
        false,
        max_lineno_width(diff),
    ) + "</pre>"@ + "</div>"@ + "</div>"@
}

/// Whether one of the three entities starts at position `i`.
pub open spec fn entity_at(t: Seq<char>, i: int) -> bool {
    ||| i + 4 < t.len() && t[i] == '&' && t[i + 1] == 'a' && t[i + 2] == 'm' && t[i + 3] == 'p'
        && t[i + 4] == ';'
    ||| i + 3 < t.len() && t[i] == '&' && t[i + 1] == 'l' && t[i + 2] == 't' && t[i + 3] == ';'
    ||| i + 3 < t.len() && t[i] == '&' && t[i + 1] == 'g' && t[i + 2] == 't' && t[i + 3] == ';'
}

/// Escaped text holds no `<` and no `>`, and each `&` in it starts an
/// entity: no character of the input that markup gives a meaning to stands
/// raw in the output.
pub proof fn lemma_escape_text_is_safe(s: Seq<char>)
    ensures
        forall|i: int|
            0 <= i < escape_text(s).len() ==> {
                &&& (#[trigger] escape_text(s)[i]) != '<'
                &&& escape_text(s)[i] != '>'
                &&& escape_text(s)[i] == '&' ==> entity_at(escape_text(s), i)
            },
    decreases s.len(),
{
    if s.len() > 0 {
        lemma_escape_text_is_safe(s.drop_last());
        let before = escape_text(s.drop_last());
        let t = escape_text(s);
        assert forall|i: int| 0 <= i < t.len() implies {
            &&& (#[trigger] t[i]) != '<'
            &&& t[i] != '>'
            &&& t[i] == '&' ==> entity_at(t, i)
        } by {
            if i < before.len() {
                assert(t[i] == before[i]);
            }
        }
    }
}

/// A text begins with the given characters.
pub open spec fn starts_with(t: Seq<char>, prefix: Seq<char>) -> bool {
    t.len() >= prefix.len() && t.take(prefix.len() as int) == prefix
}

/// Escaped text read back: each of the three entities stands for its
/// character, every other character for itself.
pub open spec fn unescape_text(t: Seq<char>) -> Seq<char>
    decreases t.len(),
{
    if t.len() == 0 {
        Seq::empty()
    } else if starts_with(t, escape_char('&')) {
        seq!['&'] + unescape_text(t.skip(5))
    } else if starts_with(t, escape_char('<')) {
        seq!['<'] + unescape_text(t.skip(4))
    } else if starts_with(t, escape_char('>')) {
        seq!['>'] + unescape_text(t.skip(4))
    } else {
        seq![t[0]] + unescape_text(t.skip(1))
    }
}

/// Escaping a text is escaping its first character, then the rest.
pub proof fn lemma_escape_text_front(c: char, s: Seq<char>)
    ensures
        escape_text(seq![c] + s) == escape_char(c) + escape_text(s),
    decreases s.len(),
{
    let whole = seq![c] + s;
    if s.len() == 0 {
        assert(escape_text(whole.drop_last()).len() == 0);
    } else {
        lemma_escape_text_front(c, s.drop_last());
        assert(whole.drop_last() =~= seq![c] + s.drop_last());
    }
}

/// Markup round trip: escaped text, read back, is the text that was
/// escaped.
pub proof fn lemma_escape_round_trip(s: Seq<char>)
    ensures
        unescape_text(escape_text(s)) == s,
    decreases s.len(),
{
    if s.len() > 0 {
        let c = s[0];
        let rest = s.skip(1);
        assert(s == seq![c] + rest);
        lemma_escape_text_front(c, rest);
        lemma_escape_round_trip(rest);
        let t = escape_text(s);
        let first = escape_char(c);
        assert(t.skip(first.len() as int) == escape_text(rest));
        assert(t.take(first.len() as int) == first);
    }
}

/// The content of one side of a row as markup.
pub fn generate_html_parts(parts_diff: &Option<Parts>) -> (html: String)
    ensures
        html@ == markup_parts(parts_diff.deep_view()),
{
    match parts_diff {
        None => String::from_str("<span class=\"ocdiff-line ocdiff-none\"></span>"),
        Some(p) => {
            let mut html = String::new();
            let mut i: usize = 0;
            while i < p.parts.len()
                invariant
                    0 <= i <= p.parts.len(),
                    html@ == markup_spans(p.parts.deep_view().take(i as int)),
                decreases p.parts.len() - i,
            {
                let part = &p.parts[i];
                let class = match part {
                    Part::Equal(_) => "ocdiff-equal",
                    Part::Delete(_) => "ocdiff-delete",
                    Part::Insert(_) => "ocdiff-insert",
                };
                let mut span = String::from_str("<span class=\"ocdiff-line ");
                span.append(class);
                span.append("\">");
                span.append(encode_text(part.str().as_str()).as_str());
                span.append("</span>");
                proof {
                    let all = p.parts.deep_view();
                    assert(all.take(i + 1).drop_last() == all.take(i as int));
                }
                html.append(span.as_str());
                i = i + 1;
            }
            assert(p.parts.deep_view().take(i as int) == p.parts.deep_view());
            html
        },
    }
}

/// All lines of one column as markup.
fn generate_html_column(diff: &Vec<PartsDiff>, left: bool, max_lineno_width: usize) -> (html:
    String)
    requires
        max_lineno_width <= 20,
    ensures
        html@ == markup_column(diff.deep_view(), left, max_lineno_width as nat),
{
    let mut html = String::new();
    let mut prev_lineno: usize = 0;
    let mut i: usize = 0;
    while i < diff.len()
        invariant
            0 <= i <= diff.len(),
            max_lineno_width <= 20,
            prev_lineno == last_lineno(diff.deep_view().take(i as int), left),
            html@ == markup_column(diff.deep_view().take(i as int), left, max_lineno_width as nat),
        decreases diff.len() - i,
    {
        let side = if left {
            &diff[i].left
        } else {
            &diff[i].right
        };
        let new_lineno = match side {
            Some(parts) => Some(parts.lineno),
            None => None,
        };
        let mut line = String::from_str("<span class=\"ocdiff-lineno\">");
        line.append(generate_lineno_str(prev_lineno, new_lineno, max_lineno_width).as_str());
        line.append("</span>");
        line.append(generate_html_parts(side).as_str());
        line.append("\n");
        proof {
            let all = diff.deep_view();
            assert(all.take(i + 1).drop_last() == all.take(i as int));
        }
        html.append(line.as_str());
        prev_lineno =
        match new_lineno {
            Some(n) => n,
            None => prev_lineno,
        };
        i = i + 1;
    }
    assert(diff.deep_view().take(i as int) == diff.deep_view());
    html
}

/// The row pairs as a markup document: style rules, then the two columns,
/// each line with its gutter and its segments as spans of escaped text.
pub fn generate_html(diff: &Vec<PartsDiff>) -> (html: String)
    ensures
        html@ == markup_document(diff.deep_view()),
{
    let max_lineno_width: usize = find_max_lineno_width(diff);
    let mut html = String::new();
    html.append("<div>");
    html.append("<style>");
    html.append(".ocdiff-container { display: flex; background-color: #141414; color: #acacac; }");
    html.append(".ocdiff-side { overflow-x: auto; margin: 0; }");
    html.append(".ocdiff-lineno { color: #3b3b3b; background-color: #00003d; }");
    html.append(".ocdiff-delete { color: red; }");
    html.append(".ocdiff-insert { color: green; }");
    html.append("</style>");
    html.append("<div class=\"ocdiff-container\">");
    let left = generate_html_column(diff, true, max_lineno_width);
    let right = generate_html_column(diff, false, max_lineno_width);
    html.append("<pre class=\"ocdiff-side\">");
    html.append(left.as_str());
    html.append("</pre>");
    html.append("<pre class=\"ocdiff-side\">");
    html.append(right.as_str());
    html.append("</pre>");
    html.append("</div>");
    html.append("</div>");
    html
}

} // verus!
