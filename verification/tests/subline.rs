use ocdiff::lines::{Line, LineDiff};
use ocdiff::parts::{Kind, Part, Parts, PartsDiff};
use ocdiff::script::Change;
use ocdiff::subline::{convert_diff, convert_diffs, diff_lines, parts_from_changes};

fn line(lineno: usize, value: &str) -> Line {
    Line { lineno, value: String::from(value) }
}

fn equal(text: &str) -> Part {
    Part::Equal(String::from(text))
}

fn delete(text: &str) -> Part {
    Part::Delete(String::from(text))
}

fn insert(text: &str) -> Part {
    Part::Insert(String::from(text))
}

fn op(tag: Kind, old_index: Option<usize>, new_index: Option<usize>, value: &str) -> Change {
    Change { tag, old_index, new_index, value: String::from(value) }
}

fn text_of(side: &Parts, skip: Kind) -> String {
    side.parts.iter().filter(|p| p.kind() != skip).map(|p| p.str().as_str()).collect()
}

#[test]
fn an_empty_script_gives_two_empty_rows() {
    let (x, y) = parts_from_changes(3, 4, &vec![]);
    assert_eq!(x, Parts { lineno: 3, parts: vec![] });
    assert_eq!(y, Parts { lineno: 4, parts: vec![] });
}

#[test]
fn unchanged_characters_go_to_both_rows() {
    let script = vec![op(Kind::Equal, Some(0), Some(0), "a"), op(Kind::Equal, Some(1), Some(1), "b")];
    let (x, y) = parts_from_changes(1, 1, &script);
    assert_eq!(x.parts, vec![equal("ab")]);
    assert_eq!(y.parts, vec![equal("ab")]);
}

#[test]
fn changed_characters_go_to_the_side_they_touch() {
    let script = vec![
        op(Kind::Equal, Some(0), Some(0), "a"),
        op(Kind::Delete, Some(1), None, "b"),
        op(Kind::Delete, Some(2), None, "c"),
        op(Kind::Insert, None, Some(1), "x"),
        op(Kind::Equal, Some(3), Some(2), "d"),
    ];
    let (x, y) = parts_from_changes(5, 6, &script);
    assert_eq!(x, Parts { lineno: 5, parts: vec![equal("a"), delete("bc"), equal("d")] });
    assert_eq!(y, Parts { lineno: 6, parts: vec![equal("a"), insert("x"), equal("d")] });
}

#[test]
fn the_kind_follows_the_tag_and_the_side_follows_the_index() {
    let script =
        vec![op(Kind::Delete, None, Some(0), "r"), op(Kind::Insert, Some(0), None, "l")];
    let (x, y) = parts_from_changes(1, 1, &script);
    assert_eq!(x.parts, vec![insert("l")]);
    assert_eq!(y.parts, vec![delete("r")]);
}

#[test]
fn two_lines_are_diffed_by_their_characters() {
    let (x, y) = diff_lines(&line(1, "Hello World"), &line(1, "Hallo Welt"));
    assert_eq!(
        x,
        Some(Parts {
            lineno: 1,
            parts: vec![
                equal("H"),
                delete("e"),
                equal("llo W"),
                delete("or"),
                equal("l"),
                delete("d"),
            ],
        })
    );
    assert_eq!(
        y,
        Some(Parts {
            lineno: 1,
            parts: vec![
                equal("H"),
                insert("a"),
                equal("llo W"),
                insert("e"),
                equal("l"),
                insert("t"),
            ],
        })
    );
}

#[test]
fn each_row_keeps_its_line_number() {
    let (x, y) = diff_lines(&line(12, "abc"), &line(40, "abd"));
    assert_eq!(x.unwrap().lineno, 12);
    assert_eq!(y.unwrap().lineno, 40);
}

#[test]
fn identical_lines_give_one_equal_segment_on_each_side() {
    let (x, y) = diff_lines(&line(2, "Line two"), &line(2, "Line two"));
    assert_eq!(x, Some(Parts { lineno: 2, parts: vec![equal("Line two")] }));
    assert_eq!(y, Some(Parts { lineno: 2, parts: vec![equal("Line two")] }));
}

#[test]
fn the_left_row_spells_the_old_line_and_the_right_row_the_new_one() {
    let cases = [
        ("Line three", "Line four"),
        ("", "added"),
        ("removed", ""),
        ("na\u{ef}ve caf\u{e9}", "naive cafe"),
        ("\u{65e5}\u{672c}\u{8a9e}", "\u{65e5}\u{672c}"),
    ];
    for (old, new) in cases {
        let (x, y) = diff_lines(&line(1, old), &line(1, new));
        let (x, y) = (x.unwrap(), y.unwrap());
        assert_eq!(text_of(&x, Kind::Insert), old);
        assert_eq!(text_of(&y, Kind::Delete), new);
        assert_eq!(text_of(&x, Kind::Delete), text_of(&y, Kind::Insert));
        for row in [&x, &y] {
            for pair in row.parts.windows(2) {
                assert_ne!(pair[0].kind(), pair[1].kind());
            }
        }
        assert!(x.parts.iter().all(|p| p.kind() != Kind::Insert));
        assert!(y.parts.iter().all(|p| p.kind() != Kind::Delete));
    }
}

#[test]
fn a_line_of_the_old_text_alone_is_one_delete_segment() {
    let pair = convert_diff(&LineDiff { left: Some(line(4, "gone")), right: None });
    assert_eq!(
        pair,
        PartsDiff { left: Some(Parts { lineno: 4, parts: vec![delete("gone")] }), right: None }
    );
}

#[test]
fn a_line_of_the_new_text_alone_is_one_insert_segment() {
    let pair = convert_diff(&LineDiff { left: None, right: Some(line(9, "new")) });
    assert_eq!(
        pair,
        PartsDiff { left: None, right: Some(Parts { lineno: 9, parts: vec![insert("new")] }) }
    );
}

#[test]
fn an_empty_line_alone_is_one_empty_segment() {
    let pair = convert_diff(&LineDiff { left: Some(line(1, "")), right: None });
    assert_eq!(pair.left, Some(Parts { lineno: 1, parts: vec![delete("")] }));
}

#[test]
fn two_lines_side_by_side_are_diffed() {
    let pair = convert_diff(&LineDiff {
        left: Some(line(3, "Line three")),
        right: Some(line(3, "Line four")),
    });
    assert_eq!(
        pair,
        PartsDiff {
            left: Some(Parts {
                lineno: 3,
                parts: vec![equal("Line "), delete("th"), equal("r"), delete("ee")],
            }),
            right: Some(Parts { lineno: 3, parts: vec![equal("Line "), insert("fou"), equal("r")] }),
        }
    );
}

#[test]
fn all_rows_are_converted_in_order() {
    let rows = vec![
        LineDiff { left: Some(line(1, "a")), right: Some(line(1, "a")) },
        LineDiff { left: Some(line(2, "b")), right: None },
        LineDiff { left: None, right: Some(line(2, "c")) },
    ];
    let pairs = convert_diffs(&rows);
    assert_eq!(pairs.len(), 3);
    for (row, pair) in rows.iter().zip(pairs.iter()) {
        assert_eq!(&convert_diff(row), pair);
        assert_eq!(row.left.is_some(), pair.left.is_some());
        assert_eq!(row.right.is_some(), pair.right.is_some());
    }
}
