use ocdiff::error::DiffError;
use ocdiff::parts::{Kind, Part, Parts, PartsDiff};
use ocdiff::render::{diff_rows, input_fits, render_console, render_markup};

const OLD: &str = "Hello World\nLine two\nLine three";
const NEW: &str = "Hallo Welt\nLine two\nLine four";

fn equal(text: &str) -> Part {
    Part::Equal(String::from(text))
}

fn delete(text: &str) -> Part {
    Part::Delete(String::from(text))
}

fn insert(text: &str) -> Part {
    Part::Insert(String::from(text))
}

fn row(lineno: usize, parts: Vec<Part>) -> Parts {
    Parts { lineno, parts }
}

fn pair(left: Option<Parts>, right: Option<Parts>) -> PartsDiff {
    PartsDiff { left, right }
}

fn painted(rgb: (u8, u8, u8), text: &str) -> String {
    format!("\u{1b}[38;2;{};{};{}m{}\u{1b}[0m", rgb.0, rgb.1, rgb.2, text)
}

fn gutter(text: &str) -> String {
    format!("\u{1b}[48;2;0;0;61;38;2;59;59;59m{}\u{1b}[0m", text)
}

#[test]
fn texts_of_ordinary_size_fit() {
    assert!(input_fits("", ""));
    assert!(input_fits(OLD, NEW));
}

#[test]
fn changed_lines_are_paired_and_diffed_by_character() {
    let rows = diff_rows(OLD, NEW, None, None);
    assert_eq!(
        rows,
        Ok(vec![
            pair(
                Some(row(
                    1,
                    vec![
                        equal("H"),
                        delete("e"),
                        equal("llo W"),
                        delete("or"),
                        equal("l"),
                        delete("d"),
                    ]
                )),
                Some(row(
                    1,
                    vec![
                        equal("H"),
                        insert("a"),
                        equal("llo W"),
                        insert("e"),
                        equal("l"),
                        insert("t"),
                    ]
                )),
            ),
            pair(Some(row(2, vec![equal("Line two")])), Some(row(2, vec![equal("Line two")]))),
            pair(
                Some(row(3, vec![equal("Line "), delete("th"), equal("r"), delete("ee")])),
                Some(row(3, vec![equal("Line "), insert("fou"), equal("r")])),
            ),
        ])
    );
}

#[test]
fn identical_texts_show_no_change() {
    assert_eq!(diff_rows(OLD, OLD, None, None), Ok(vec![]));
    assert_eq!(diff_rows("", "", Some(3), Some(80)), Ok(vec![]));
}

#[test]
fn unchanged_lines_have_both_sides_and_equal_segments_only() {
    let old = "one\ntwo\nthree\nfour\nfive\n";
    let new = "one\ntwo\nthree\nfour\nfive\nsix\n";
    for width in [None, Some(16), Some(80)] {
        let rows = diff_rows(old, new, None, width).unwrap();
        let unchanged: Vec<&PartsDiff> =
            rows.iter().filter(|p| p.left.is_some() && p.right.is_some()).collect();
        assert_eq!(unchanged.len(), 5);
        for p in unchanged {
            let (left, right) = (p.left.as_ref().unwrap(), p.right.as_ref().unwrap());
            assert_eq!(left.parts, right.parts);
            assert!(left.parts.iter().all(|part| part.kind() == Kind::Equal));
        }
        assert_eq!(rows.last().unwrap(), &pair(None, Some(row(6, vec![insert("six")]))));
    }
}

#[test]
fn every_row_pair_has_a_side_and_coalesced_segments() {
    let old = "alpha\nbeta\ngamma delta epsilon\n\nzeta\n";
    let new = "alpha\nBETA\ngamma delta\n\neta theta iota kappa\nzeta\n";
    for width in [None, Some(10), Some(24), Some(80)] {
        for context in [None, Some(0), Some(1)] {
            for p in diff_rows(old, new, context, width).unwrap() {
                assert!(p.left.is_some() || p.right.is_some());
                for side in [&p.left, &p.right] {
                    if let Some(r) = side {
                        for neighbours in r.parts.windows(2) {
                            assert_ne!(neighbours[0].kind(), neighbours[1].kind());
                        }
                    }
                }
            }
        }
    }
}

#[test]
fn a_total_width_reflows_the_rows() {
    let rows = diff_rows("The quick brown fox", "The quick red fox", None, Some(24)).unwrap();
    // Half of the width is twelve columns, of which the gutter takes three.
    for p in &rows {
        for side in [&p.left, &p.right] {
            if let Some(r) = side {
                assert!(r.width() <= 9);
                assert_eq!(r.lineno, 1);
            }
        }
    }
    assert!(rows.len() >= 2);
    assert_eq!(diff_rows("The quick brown fox", "The quick red fox", None, Some(200)).unwrap().len(), 1);
}

#[test]
fn a_width_too_small_for_content_is_an_error() {
    assert_eq!(diff_rows(OLD, NEW, None, Some(7)), Err(DiffError::BudgetTooSmall));
    assert_eq!(render_markup(OLD, NEW, None, Some(0)), Err(DiffError::BudgetTooSmall));
    assert_eq!(render_console(OLD, NEW, None, Some(6)), Err(DiffError::BudgetTooSmall));
}

#[test]
fn a_character_wider_than_a_side_is_an_error() {
    assert_eq!(
        render_markup("\u{65e5}\u{672c}", "\u{65e5}\u{672c}\u{8a9e}", None, Some(8)),
        Err(DiffError::CharacterTooWide)
    );
    assert_eq!(
        render_console("\u{65e5}\u{672c}", "\u{65e5}\u{672c}\u{8a9e}", None, Some(9)),
        Err(DiffError::CharacterTooWide)
    );
    assert!(render_markup("\u{65e5}\u{672c}", "\u{65e5}\u{672c}\u{8a9e}", None, Some(10)).is_ok());
}

#[test]
fn markup_shows_the_comparison_in_two_columns() {
    let html = render_markup(OLD, NEW, None, None).unwrap();
    assert!(html.starts_with("<div><style>.ocdiff-container {"));
    assert!(html.ends_with("</pre></div></div>"));
    assert_eq!(html.matches("<pre class=\"ocdiff-side\">").count(), 2);
    let left_first = "<pre class=\"ocdiff-side\"><span class=\"ocdiff-lineno\"> 1 </span>\
                      <span class=\"ocdiff-line ocdiff-equal\">H</span>\
                      <span class=\"ocdiff-line ocdiff-delete\">e</span>\
                      <span class=\"ocdiff-line ocdiff-equal\">llo W</span>\
                      <span class=\"ocdiff-line ocdiff-delete\">or</span>\
                      <span class=\"ocdiff-line ocdiff-equal\">l</span>\
                      <span class=\"ocdiff-line ocdiff-delete\">d</span>\n";
    assert!(html.contains(left_first));
    let right_last = "<span class=\"ocdiff-lineno\"> 3 </span>\
                      <span class=\"ocdiff-line ocdiff-equal\">Line </span>\
                      <span class=\"ocdiff-line ocdiff-insert\">fou</span>\
                      <span class=\"ocdiff-line ocdiff-equal\">r</span>\n</pre></div></div>";
    assert!(html.ends_with(right_last));
}

#[test]
fn markup_never_shows_input_characters_raw() {
    let old = "if a < b && c > d {\n<b>bold</b>\n";
    let new = "if a <= b && c >= d {\n<i>italic</i> &amp;\n";
    let html = render_markup(old, new, None, None).unwrap();
    let body = &html[html.find("<pre").unwrap()..];
    let mut text = String::new();
    let mut rest = body;
    while let Some(start) = rest.find("<span class=\"ocdiff-line ocdiff-") {
        let after = &rest[start..];
        let open = after.find("\">").unwrap() + 2;
        let close = after.find("</span>").unwrap();
        text.push_str(&after[open..close]);
        rest = &after[close..];
    }
    assert!(!text.contains('<'));
    assert!(!text.contains('>'));
    let mut ampersands = text.as_str();
    while let Some(at) = ampersands.find('&') {
        let entity = &ampersands[at..];
        assert!(
            entity.starts_with("&amp;") || entity.starts_with("&lt;") || entity.starts_with("&gt;")
        );
        ampersands = &entity[1..];
    }
    assert!(html.contains("&lt;"));
    assert!(html.contains("&amp;&amp;"));
    assert!(html.contains("&amp;amp;"));
    assert!(!html.contains("<b>"));
    assert!(!html.contains("<i>"));
}

#[test]
fn console_text_pads_the_left_column_to_its_widest_row() {
    let out = render_console("ab\nlonger line\n", "ac\nlonger lines\n", None, None).unwrap();
    let expected = format!(
        "\n{}{}{}         {}{}{}\n{}{}{}{}{}\n",
        gutter(" 1 "),
        painted((172, 172, 172), "a"),
        painted((255, 0, 0), "b"),
        gutter(" 1 "),
        painted((172, 172, 172), "a"),
        painted((0, 128, 0), "c"),
        gutter(" 2 "),
        painted((172, 172, 172), "longer line"),
        gutter(" 2 "),
        painted((172, 172, 172), "longer line"),
        painted((0, 128, 0), "s"),
    );
    assert_eq!(out, expected);
}

#[test]
fn console_text_of_reflowed_rows_marks_continued_lines() {
    let out = render_console("abcdefghij", "abcdefghiX", None, Some(16)).unwrap();
    // Eight columns a side, three of them gutter: five for content.
    let expected = format!(
        "\n{}{}{}{}\n{}{}{}{}{}{}\n",
        gutter(" 1 "),
        painted((172, 172, 172), "abcde"),
        gutter(" 1 "),
        painted((172, 172, 172), "abcde"),
        gutter(" \u{2026} "),
        painted((172, 172, 172), "fghi"),
        painted((255, 0, 0), "j"),
        gutter(" \u{2026} "),
        painted((172, 172, 172), "fghi"),
        painted((0, 128, 0), "X"),
    );
    assert_eq!(out, expected);
}

#[test]
fn a_context_radius_limits_the_unchanged_lines_shown() {
    let old = "1\n2\n3\n4\n5\n6\n7\n8\nold\n";
    let new = "1\n2\n3\n4\n5\n6\n7\n8\nnew\n";
    assert_eq!(diff_rows(old, new, None, None).unwrap().len(), 9);
    assert_eq!(diff_rows(old, new, Some(3), None).unwrap().len(), 4);
    assert_eq!(diff_rows(old, new, Some(0), None).unwrap().len(), 1);
}
