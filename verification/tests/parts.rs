use ocdiff::parts::{duplicate_parts, push_merged, Kind, Part, Parts, PartsDiff};

fn equal(text: &str) -> Part {
    Part::Equal(String::from(text))
}

fn delete(text: &str) -> Part {
    Part::Delete(String::from(text))
}

fn insert(text: &str) -> Part {
    Part::Insert(String::from(text))
}

#[test]
fn a_new_row_has_no_segments() {
    assert_eq!(Parts::new(7), Parts { lineno: 7, parts: vec![] });
}

#[test]
fn the_first_span_starts_a_segment() {
    let mut row = Parts::new(1);
    row.push_equal("ab");
    assert_eq!(row.parts, vec![equal("ab")]);
}

#[test]
fn a_span_of_the_same_kind_joins_the_last_segment() {
    let mut row = Parts::new(1);
    row.push_equal("ab");
    row.push_equal("cd");
    assert_eq!(row.parts, vec![equal("abcd")]);
    row.push_delete("x");
    row.push_delete("y");
    assert_eq!(row.parts, vec![equal("abcd"), delete("xy")]);
    row.push_insert("1");
    row.push_insert("2");
    assert_eq!(row.parts, vec![equal("abcd"), delete("xy"), insert("12")]);
}

#[test]
fn a_span_of_another_kind_starts_a_segment() {
    let mut row = Parts::new(3);
    row.push_equal("a");
    row.push_delete("b");
    row.push_equal("c");
    row.push_insert("d");
    assert_eq!(row.parts, vec![equal("a"), delete("b"), equal("c"), insert("d")]);
    assert_eq!(row.lineno, 3);
}

#[test]
fn pushing_never_leaves_neighbours_of_one_kind() {
    let kinds = [Kind::Equal, Kind::Equal, Kind::Delete, Kind::Insert, Kind::Insert, Kind::Equal];
    let mut row = Parts::new(1);
    for kind in kinds {
        row.push(kind, "x");
    }
    for pair in row.parts.windows(2) {
        assert_ne!(pair[0].kind(), pair[1].kind());
    }
    assert_eq!(row.parts, vec![equal("xx"), delete("x"), insert("xx"), equal("x")]);
}

#[test]
fn an_empty_span_of_a_new_kind_is_a_segment_of_its_own() {
    let mut row = Parts::new(1);
    row.push_equal("a");
    row.push_delete("");
    assert_eq!(row.parts, vec![equal("a"), delete("")]);
}

#[test]
fn push_merged_works_on_bare_segments() {
    let mut parts = vec![equal("a")];
    push_merged(&mut parts, Kind::Equal, "b");
    push_merged(&mut parts, Kind::Insert, "c");
    assert_eq!(parts, vec![equal("ab"), insert("c")]);
}

#[test]
fn a_segment_knows_its_kind_and_text() {
    assert_eq!(equal("a").kind(), Kind::Equal);
    assert_eq!(delete("b").kind(), Kind::Delete);
    assert_eq!(insert("c").kind(), Kind::Insert);
    assert_eq!(insert("c").str(), "c");
    assert_eq!(delete("text").into_string(), "text");
    assert_eq!(Part::of_kind(Kind::Delete, String::from("x")), delete("x"));
}

#[test]
fn copies_hold_what_their_source_holds() {
    assert_eq!(delete("x").duplicate(), delete("x"));
    let parts = vec![equal("a"), insert("b")];
    assert_eq!(duplicate_parts(&parts), parts);
}

#[test]
fn the_width_of_a_row_is_the_sum_of_its_segments() {
    let row = Parts { lineno: 1, parts: vec![equal("ab"), insert("\u{65e5}"), delete("e\u{301}")] };
    assert_eq!(row.width(), 5);
    assert_eq!(row.width_within(5), Some(5));
    assert_eq!(row.width_within(4), None);
    assert_eq!(Parts::new(1).width(), 0);
}

#[test]
fn a_row_pair_holds_its_two_sides() {
    let pair = PartsDiff { left: Some(Parts::new(1)), right: None };
    assert!(pair.left.is_some());
    assert!(pair.right.is_none());
}
