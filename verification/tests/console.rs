use ocdiff::console::{
    find_widest_line_left, generate_console, generate_console_parts, DELETE_RGB, EQUAL_RGB,
    INSERT_RGB, LINENO_BACK_RGB, LINENO_RGB,
};
use ocdiff::parts::{Part, Parts, PartsDiff};

fn equal(text: &str) -> Part {
    Part::Equal(String::from(text))
}

fn delete(text: &str) -> Part {
    Part::Delete(String::from(text))
}

fn insert(text: &str) -> Part {
    Part::Insert(String::from(text))
}

fn row(lineno: usize, parts: Vec<Part>) -> Parts {
    Parts { lineno, parts }
}

fn painted(rgb: (u8, u8, u8), text: &str) -> String {
    format!("\u{1b}[38;2;{};{};{}m{}\u{1b}[0m", rgb.0, rgb.1, rgb.2, text)
}

fn gutter(text: &str) -> String {
    format!("\u{1b}[48;2;0;0;61;38;2;59;59;59m{}\u{1b}[0m", text)
}

#[test]
fn the_colours_are_those_of_the_markup() {
    assert_eq!(EQUAL_RGB, (0xac, 0xac, 0xac));
    assert_eq!(DELETE_RGB, (255, 0, 0));
    assert_eq!(INSERT_RGB, (0, 128, 0));
    assert_eq!(LINENO_RGB, (0x3b, 0x3b, 0x3b));
    assert_eq!(LINENO_BACK_RGB, (0, 0, 0x3d));
}

#[test]
fn an_absent_side_is_empty() {
    assert_eq!(generate_console_parts(&None, None), "");
}

#[test]
fn each_segment_is_painted_in_the_colour_of_its_kind() {
    let side = Some(row(1, vec![equal("same"), delete("old"), insert("new")]));
    assert_eq!(
        generate_console_parts(&side, None),
        format!(
            "{}{}{}",
            painted((172, 172, 172), "same"),
            painted((255, 0, 0), "old"),
            painted((0, 128, 0), "new")
        )
    );
}

#[test]
fn text_is_not_escaped() {
    let side = Some(row(1, vec![equal("a < b && c")]));
    assert_eq!(generate_console_parts(&side, None), painted((172, 172, 172), "a < b && c"));
}

#[test]
fn a_side_is_padded_to_the_given_width() {
    let side = Some(row(1, vec![equal("ab"), insert("c")]));
    assert_eq!(
        generate_console_parts(&side, Some(5)),
        format!("{}{}  ", painted((172, 172, 172), "ab"), painted((0, 128, 0), "c"))
    );
    assert_eq!(
        generate_console_parts(&side, Some(3)),
        format!("{}{}", painted((172, 172, 172), "ab"), painted((0, 128, 0), "c"))
    );
}

#[test]
fn the_padding_counts_columns() {
    let side = Some(row(1, vec![equal("\u{65e5}\u{672c}")]));
    assert_eq!(
        generate_console_parts(&side, Some(6)),
        format!("{}  ", painted((172, 172, 172), "\u{65e5}\u{672c}"))
    );
}

#[test]
fn an_absent_side_is_padded_with_blanks_alone() {
    assert_eq!(generate_console_parts(&None, Some(4)), "    ");
    assert_eq!(generate_console_parts(&None, Some(0)), "");
}

#[test]
fn the_widest_row_on_the_left_is_found() {
    assert_eq!(find_widest_line_left(&vec![]), Some(0));
    let diff = vec![
        PartsDiff { left: Some(row(1, vec![equal("abc")])), right: Some(row(1, vec![equal("abcdefgh")])) },
        PartsDiff { left: None, right: Some(row(2, vec![insert("abcdefghijkl")])) },
        PartsDiff { left: Some(row(2, vec![equal("ab"), delete("\u{65e5}\u{672c}")])), right: None },
        PartsDiff { left: Some(row(3, vec![])), right: None },
    ];
    assert_eq!(find_widest_line_left(&diff), Some(6));
}

#[test]
fn no_rows_give_a_line_break() {
    assert_eq!(generate_console(&vec![], 0), "\n");
}

#[test]
fn each_row_pair_is_a_line_with_two_gutters() {
    let diff = vec![
        PartsDiff {
            left: Some(row(1, vec![equal("a"), delete("bc")])),
            right: Some(row(1, vec![equal("a"), insert("d")])),
        },
        PartsDiff { left: Some(row(2, vec![delete("x")])), right: None },
        PartsDiff { left: None, right: Some(row(2, vec![insert("y")])) },
    ];
    let expected = format!(
        "\n{}{}{}{}{}{}\n{}{}  {}\n{}   {}{}\n",
        gutter(" 1 "),
        painted((172, 172, 172), "a"),
        painted((255, 0, 0), "bc"),
        gutter(" 1 "),
        painted((172, 172, 172), "a"),
        painted((0, 128, 0), "d"),
        gutter(" 2 "),
        painted((255, 0, 0), "x"),
        gutter("   "),
        gutter("   "),
        gutter(" 2 "),
        painted((0, 128, 0), "y"),
    );
    assert_eq!(generate_console(&diff, 3), expected);
}

#[test]
fn a_continued_console_line_shows_an_ellipsis() {
    let diff = vec![
        PartsDiff { left: Some(row(4, vec![equal("ab")])), right: Some(row(4, vec![equal("ab")])) },
        PartsDiff { left: Some(row(4, vec![equal("c")])), right: Some(row(4, vec![equal("c")])) },
    ];
    let expected = format!(
        "\n{}{}{}{}\n{}{} {}{}\n",
        gutter(" 4 "),
        painted((172, 172, 172), "ab"),
        gutter(" 4 "),
        painted((172, 172, 172), "ab"),
        gutter(" \u{2026} "),
        painted((172, 172, 172), "c"),
        gutter(" \u{2026} "),
        painted((172, 172, 172), "c"),
    );
    assert_eq!(generate_console(&diff, 2), expected);
}
