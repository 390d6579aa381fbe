use ocdiff::markup::{generate_html, generate_html_parts};
use ocdiff::parts::{Part, Parts, PartsDiff};

const PROLOGUE: &str = "<div><style>.ocdiff-container { display: flex; background-color: #141414; color: #acacac; }.ocdiff-side { overflow-x: auto; margin: 0; }.ocdiff-lineno { color: #3b3b3b; background-color: #00003d; }.ocdiff-delete { color: red; }.ocdiff-insert { color: green; }</style><div class=\"ocdiff-container\">";

fn equal(text: &str) -> Part {
    Part::Equal(String::from(text))
}

fn delete(text: &str) -> Part {
    Part::Delete(String::from(text))
}

fn insert(text: &str) -> Part {
    Part::Insert(String::from(text))
}

fn row(lineno: usize, parts: Vec<Part>) -> Parts {
    Parts { lineno, parts }
}

fn document(left: &str, right: &str) -> String {
    format!(
        "{}<pre class=\"ocdiff-side\">{}</pre><pre class=\"ocdiff-side\">{}</pre></div></div>",
        PROLOGUE, left, right
    )
}

#[test]
fn an_absent_side_is_an_empty_placeholder() {
    assert_eq!(generate_html_parts(&None), "<span class=\"ocdiff-line ocdiff-none\"></span>");
}

#[test]
fn a_row_without_segments_is_empty() {
    assert_eq!(generate_html_parts(&Some(row(1, vec![]))), "");
}

#[test]
fn each_segment_is_a_span_tagged_with_its_kind() {
    let side = Some(row(1, vec![equal("same"), delete("old"), insert("new")]));
    assert_eq!(
        generate_html_parts(&side),
        "<span class=\"ocdiff-line ocdiff-equal\">same</span>\
         <span class=\"ocdiff-line ocdiff-delete\">old</span>\
         <span class=\"ocdiff-line ocdiff-insert\">new</span>"
    );
}

#[test]
fn text_is_escaped() {
    let side = Some(row(1, vec![equal("a < b && c > d")]));
    assert_eq!(
        generate_html_parts(&side),
        "<span class=\"ocdiff-line ocdiff-equal\">a &lt; b &amp;&amp; c &gt; d</span>"
    );
}

#[test]
fn text_that_looks_like_markup_stays_text() {
    let side = Some(row(1, vec![insert("</span><script>alert(1)</script>&amp;")]));
    assert_eq!(
        generate_html_parts(&side),
        "<span class=\"ocdiff-line ocdiff-insert\">&lt;/span&gt;&lt;script&gt;alert(1)&lt;/script&gt;&amp;amp;</span>"
    );
}

#[test]
fn quotes_and_other_characters_stand_for_themselves() {
    let side = Some(row(1, vec![delete("\"it's\" \u{65e5}\u{672c} \t/")]));
    assert_eq!(
        generate_html_parts(&side),
        "<span class=\"ocdiff-line ocdiff-delete\">\"it's\" \u{65e5}\u{672c} \t/</span>"
    );
}

#[test]
fn no_rows_give_two_empty_columns() {
    assert_eq!(generate_html(&vec![]), document("", ""));
}

#[test]
fn each_row_pair_is_a_line_in_both_columns() {
    let diff = vec![
        PartsDiff {
            left: Some(row(1, vec![equal("a"), delete("b")])),
            right: Some(row(1, vec![equal("a"), insert("c")])),
        },
        PartsDiff { left: Some(row(2, vec![delete("gone")])), right: None },
        PartsDiff { left: None, right: Some(row(2, vec![insert("<new>")])) },
    ];
    let left = "<span class=\"ocdiff-lineno\"> 1 </span>\
                <span class=\"ocdiff-line ocdiff-equal\">a</span>\
                <span class=\"ocdiff-line ocdiff-delete\">b</span>\n\
                <span class=\"ocdiff-lineno\"> 2 </span>\
                <span class=\"ocdiff-line ocdiff-delete\">gone</span>\n\
                <span class=\"ocdiff-lineno\">   </span>\
                <span class=\"ocdiff-line ocdiff-none\"></span>\n";
    let right = "<span class=\"ocdiff-lineno\"> 1 </span>\
                 <span class=\"ocdiff-line ocdiff-equal\">a</span>\
                 <span class=\"ocdiff-line ocdiff-insert\">c</span>\n\
                 <span class=\"ocdiff-lineno\">   </span>\
                 <span class=\"ocdiff-line ocdiff-none\"></span>\n\
                 <span class=\"ocdiff-lineno\"> 2 </span>\
                 <span class=\"ocdiff-line ocdiff-insert\">&lt;new&gt;</span>\n";
    assert_eq!(generate_html(&diff), document(left, right));
}

#[test]
fn a_continued_line_shows_an_ellipsis_in_its_gutter() {
    let diff = vec![
        PartsDiff { left: Some(row(7, vec![equal("hello")])), right: Some(row(9, vec![equal("hello")])) },
        PartsDiff { left: Some(row(7, vec![equal("world")])), right: None },
        PartsDiff { left: Some(row(8, vec![equal("next")])), right: Some(row(9, vec![equal("world")])) },
    ];
    let left = "<span class=\"ocdiff-lineno\"> 7 </span>\
                <span class=\"ocdiff-line ocdiff-equal\">hello</span>\n\
                <span class=\"ocdiff-lineno\"> \u{2026} </span>\
                <span class=\"ocdiff-line ocdiff-equal\">world</span>\n\
                <span class=\"ocdiff-lineno\"> 8 </span>\
                <span class=\"ocdiff-line ocdiff-equal\">next</span>\n";
    let right = "<span class=\"ocdiff-lineno\"> 9 </span>\
                 <span class=\"ocdiff-line ocdiff-equal\">hello</span>\n\
                 <span class=\"ocdiff-lineno\">   </span>\
                 <span class=\"ocdiff-line ocdiff-none\"></span>\n\
                 <span class=\"ocdiff-lineno\"> \u{2026} </span>\
                 <span class=\"ocdiff-line ocdiff-equal\">world</span>\n";
    assert_eq!(generate_html(&diff), document(left, right));
}

#[test]
fn both_gutters_are_as_wide_as_the_largest_line_number() {
    let diff = vec![PartsDiff {
        left: Some(row(5, vec![equal("x")])),
        right: Some(row(120, vec![equal("x")])),
    }];
    let left = "<span class=\"ocdiff-lineno\">  5  </span>\
                <span class=\"ocdiff-line ocdiff-equal\">x</span>\n";
    let right = "<span class=\"ocdiff-lineno\"> 120 </span>\
                 <span class=\"ocdiff-line ocdiff-equal\">x</span>\n";
    assert_eq!(generate_html(&diff), document(left, right));
}
