use term_table::table_cell::{string_width, Alignment, TableCell};

fn plain(data: &str) -> TableCell {
    TableCell::builder(data).pad_content(false).build()
}

#[test]
fn new_cell_has_defaults() {
    let cell = TableCell::new("abc");
    assert_eq!(cell.data, "abc");
    assert_eq!(cell.col_span, 1);
    assert_eq!(cell.alignment, Alignment::Left);
    assert!(cell.pad_content);
}

#[test]
fn cell_builder_sets_every_property() {
    let cell = TableCell::builder("x")
        .col_span(3)
        .alignment(Alignment::Right)
        .pad_content(false)
        .build();
    assert_eq!(cell.data, "x");
    assert_eq!(cell.col_span, 3);
    assert_eq!(cell.alignment, Alignment::Right);
    assert!(!cell.pad_content);
}

#[test]
fn zero_span_counts_as_one() {
    assert_eq!(TableCell::builder("x").col_span(0).build().col_span, 1);
    assert_eq!(TableCell::new_with_col_span("x", 0).col_span, 1);
    assert_eq!(TableCell::new_with_alignment("x", 0, Alignment::Center).col_span, 1);
    assert_eq!(
        TableCell::new_with_alignment_and_padding("x", 0, Alignment::Center, false).col_span,
        1
    );
    assert_eq!(TableCell::new_with_col_span("x", 4).col_span, 4);
}

#[test]
fn older_constructors_keep_their_arguments() {
    let a = TableCell::new_with_alignment("t", 2, Alignment::Center);
    assert_eq!((a.col_span, a.alignment, a.pad_content), (2, Alignment::Center, true));
    let b = TableCell::new_with_alignment_and_padding("t", 2, Alignment::Right, false);
    assert_eq!((b.col_span, b.alignment, b.pad_content), (2, Alignment::Right, false));
    assert_eq!(b.data, "t");
}

#[test]
fn string_width_counts_columns() {
    assert_eq!(string_width(""), 0);
    assert_eq!(string_width("abc"), 3);
    assert_eq!(string_width("a b"), 3);
}

#[test]
fn string_width_counts_wide_characters_twice() {
    assert_eq!(string_width("世界"), 4);
    assert_eq!(string_width("a世"), 3);
}

#[test]
fn string_width_skips_combining_marks() {
    assert_eq!(string_width("e\u{301}"), 1);
}

#[test]
fn string_width_skips_escape_sequences() {
    assert_eq!(string_width("\u{1b}[31ma\u{1b}[0m"), 1);
    assert_eq!(string_width("\u{1b}[1;32mok\u{1b}[0m!"), 3);
}

#[test]
fn character_of_unknown_width_takes_one_column() {
    assert_eq!(string_width("\t"), 1);
    assert_eq!(string_width("a\u{7}b"), 3);
}

#[test]
fn width_is_that_of_the_widest_line() {
    assert_eq!(TableCell::new("ab\ncde").width(), 5);
    assert_eq!(plain("ab\ncde").width(), 3);
    assert_eq!(TableCell::new("").width(), 2);
    assert_eq!(plain("").width(), 0);
    assert_eq!(TableCell::new("\u{1b}[31mab\u{1b}[0m").width(), 4);
}

#[test]
fn min_width_is_the_widest_character_with_padding() {
    assert_eq!(TableCell::new("abc").min_width(), 3);
    assert_eq!(plain("abc").min_width(), 1);
    assert_eq!(TableCell::new("a世").min_width(), 4);
    assert_eq!(plain("a世").min_width(), 2);
    assert_eq!(TableCell::new("").min_width(), 2);
    assert_eq!(plain("").min_width(), 0);
}

#[test]
fn split_width_divides_by_the_span() {
    let cell = TableCell::builder("Spanner").col_span(2).build();
    assert_eq!(cell.width(), 9);
    assert_eq!(cell.split_width(), 4);
    assert_eq!(TableCell::new("Spanner").split_width(), 9);
}

#[test]
fn wraps_when_the_next_character_would_not_fit() {
    assert_eq!(plain("abcdef").wrapped_content(3), vec!["abc", "def"]);
    assert_eq!(plain("abcdefg").wrapped_content(3), vec!["abc", "def", "g"]);
    assert_eq!(
        TableCell::new("hello world").wrapped_content(7),
        vec![" hello ", "  worl ", " d "]
    );
}

#[test]
fn wraps_at_line_feeds() {
    assert_eq!(TableCell::new("a\nb").wrapped_content(10), vec![" a ", " b "]);
    assert_eq!(TableCell::new("a\n").wrapped_content(10), vec![" a ", "  "]);
    assert_eq!(plain("\n\n").wrapped_content(10), vec!["", "", ""]);
    assert_eq!(plain("abc\nd").wrapped_content(3), vec!["abc", "d"]);
}

#[test]
fn empty_content_gives_one_line() {
    assert_eq!(TableCell::new("").wrapped_content(10), vec!["  "]);
    assert_eq!(plain("").wrapped_content(0), vec![""]);
}

#[test]
fn carriage_returns_become_line_feeds() {
    assert_eq!(plain("a\r\nb").wrapped_content(10), vec!["a", "b"]);
    assert_eq!(plain("a\rb").wrapped_content(10), vec!["a", "b"]);
    assert_eq!(plain("a\r\r\nb").wrapped_content(10), vec!["a", "", "b"]);
    assert_eq!(plain("a\n\rb").wrapped_content(10), vec!["a", "", "b"]);
    assert_eq!(TableCell::new("ab\r\ncde").width(), 5);
}

#[test]
fn wide_characters_are_not_carried_past_the_width() {
    assert_eq!(plain("世界").wrapped_content(3), vec!["世", "界"]);
    assert_eq!(plain("a世b").wrapped_content(3), vec!["a世", "b"]);
    assert_eq!(plain("世界").wrapped_content(4), vec!["世界"]);
}

#[test]
fn escape_sequences_are_not_split() {
    let cell = plain("\u{1b}[31mab\u{1b}[0m");
    assert_eq!(cell.wrapped_content(1), vec!["\u{1b}[31ma", "b\u{1b}[0m"]);
    assert_eq!(cell.wrapped_content(2), vec!["\u{1b}[31mab\u{1b}[0m"]);
}

#[test]
fn a_width_below_the_padding_does_not_underflow() {
    assert_eq!(TableCell::new("ab").wrapped_content(0), vec!["  ", " a ", " b "]);
    assert_eq!(TableCell::new("ab").wrapped_content(1), vec!["  ", " a ", " b "]);
    assert_eq!(TableCell::new("ab").wrapped_content(2), vec!["  ", " a ", " b "]);
    assert_eq!(TableCell::new("ab").wrapped_content(3), vec![" a ", " b "]);
}

#[test]
fn wrapped_lines_are_no_wider_than_the_width() {
    let cell = TableCell::new("The quick brown fox\njumps over the lazy dog");
    let mut width = cell.min_width();
    while width < 30 {
        for line in cell.wrapped_content(width) {
            assert!(string_width(&line) <= width);
        }
        width += 1;
    }
}

#[test]
fn wrapping_again_changes_nothing() {
    let text = "The quick brown fox\njumps over\n\nthe lazy dog 世界 and more";
    let mut width = 2;
    while width < 30 {
        let once = plain(text).wrapped_content(width);
        let twice = plain(&once.join("\n")).wrapped_content(width);
        assert_eq!(once, twice);
        width += 1;
    }
}

#[test]
fn wrapping_again_splits_what_does_not_fit() {
    let once = plain("ab").wrapped_content(0);
    assert_eq!(once, vec!["", "a", "b"]);
    let twice = plain(&once.join("\n")).wrapped_content(0);
    assert_eq!(twice, vec!["", "", "a", "", "b"]);
}

#[test]
fn cells_can_be_copied() {
    let cell = TableCell::builder("copy").col_span(2).alignment(Alignment::Center).build();
    let copy = cell.clone();
    assert_eq!(copy.data, "copy");
    assert_eq!(copy.col_span, 2);
    assert_eq!(copy.alignment, Alignment::Center);
    assert!(copy.pad_content);
}
