use ocdiff::lines::{Line, Side};
use ocdiff::parts::Kind;
use ocdiff::script::{side, trim_newlines, Change};

fn change(tag: Kind, old_index: Option<usize>, new_index: Option<usize>, value: &str) -> Change {
    Change { tag, old_index, new_index, value: String::from(value) }
}

fn line(lineno: usize, value: &str) -> Line {
    Line { lineno, value: String::from(value) }
}

#[test]
fn trailing_line_feeds_are_cut_off() {
    assert_eq!(trim_newlines("abc\n"), "abc");
    assert_eq!(trim_newlines("abc\n\n\n"), "abc");
    assert_eq!(trim_newlines("abc"), "abc");
    assert_eq!(trim_newlines("\n"), "");
    assert_eq!(trim_newlines(""), "");
}

#[test]
fn line_feeds_inside_and_carriage_returns_stay() {
    assert_eq!(trim_newlines("a\nb\n"), "a\nb");
    assert_eq!(trim_newlines("abc\r\n"), "abc\r");
    assert_eq!(trim_newlines("\nabc"), "\nabc");
}

#[test]
fn an_operation_with_both_indices_touches_both_sides() {
    let both = side(&change(Kind::Equal, Some(0), Some(4), "same\n"));
    assert_eq!(both, Side::Both(line(1, "same"), line(5, "same")));
}

#[test]
fn an_operation_with_the_old_index_touches_the_left() {
    let left = side(&change(Kind::Delete, Some(2), None, "gone\n"));
    assert_eq!(left, Side::Left(line(3, "gone")));
}

#[test]
fn an_operation_with_the_new_index_touches_the_right() {
    let right = side(&change(Kind::Insert, None, Some(9), "new"));
    assert_eq!(right, Side::Right(line(10, "new")));
}

#[test]
fn line_numbers_count_from_one() {
    match side(&change(Kind::Equal, Some(0), Some(0), "first")) {
        Side::Both(l, r) => {
            assert_eq!(l.lineno, 1);
            assert_eq!(r.lineno, 1);
        },
        other => panic!("unexpected side {:?}", other),
    }
}
