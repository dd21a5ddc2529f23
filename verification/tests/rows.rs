use term_table::row::Row;
use term_table::table_cell::{Alignment, TableCell};
use term_table::{RowPosition, TableStyle};

#[test]
fn new_row_has_a_separator() {
    let row = Row::new(vec![TableCell::new("a")]);
    assert!(row.has_separator);
    assert_eq!(row.cells.len(), 1);
    assert!(!Row::without_separator(vec![TableCell::new("a")]).has_separator);
    assert_eq!(Row::empty().cells.len(), 0);
}

#[test]
fn num_columns_is_the_sum_of_the_spans() {
    let row = Row::new(vec![
        TableCell::builder("a").col_span(2).build(),
        TableCell::new("b"),
        TableCell::builder("c").col_span(3).build(),
    ]);
    assert_eq!(row.num_columns(), 6);
    assert_eq!(Row::empty().num_columns(), 0);
}

#[test]
fn split_column_widths_repeats_each_cell_over_its_span() {
    let row = Row::new(vec![
        TableCell::builder("abcd").col_span(2).build(),
        TableCell::new("世"),
        TableCell::builder("Spanner").col_span(2).pad_content(false).build(),
    ]);
    assert_eq!(row.split_column_widths(), vec![(3, 1), (3, 1), (4, 4), (3, 0), (3, 0)]);
}

#[test]
fn pad_string_places_the_padding_by_alignment() {
    let row = Row::empty();
    assert_eq!(row.pad_string(3, Alignment::Left, "x"), "x   ");
    assert_eq!(row.pad_string(3, Alignment::Right, "x"), "   x");
    assert_eq!(row.pad_string(3, Alignment::Center, "x"), "  x ");
    assert_eq!(row.pad_string(4, Alignment::Center, "x"), "  x  ");
    assert_eq!(row.pad_string(1, Alignment::Center, "x"), " x");
    assert_eq!(row.pad_string(0, Alignment::Center, "x"), "x");
}

#[test]
fn centred_padding_is_balanced() {
    let row = Row::empty();
    let mut padding = 0;
    while padding < 20 {
        let padded = row.pad_string(padding, Alignment::Center, "x");
        let left = padded.find('x').unwrap();
        let right = padded.len() - left - 1;
        assert_eq!(left + right, padding);
        assert!(left == right || left == right + 1);
        padding += 1;
    }
}

#[test]
fn separator_for_each_position() {
    let row = Row::new(vec![TableCell::new("a"), TableCell::new("b")]);
    let style = TableStyle::extended();
    let widths = vec![3, 2];
    assert_eq!(row.gen_separator(&widths, &style, RowPosition::First, None), "╔═══╦══╗");
    assert_eq!(row.gen_separator(&widths, &style, RowPosition::Mid, None), "╠═══╬══╣");
    assert_eq!(row.gen_separator(&widths, &style, RowPosition::Last, None), "╚═══╩══╝");
}

#[test]
fn separator_runs_plain_under_a_span() {
    let row = Row::new(vec![TableCell::builder("a").col_span(2).build(), TableCell::new("b")]);
    let style = TableStyle::thin();
    assert_eq!(
        row.gen_separator(&vec![1, 2, 3], &style, RowPosition::First, None),
        "┌────┬───┐"
    );
}

#[test]
fn separator_marks_every_column_after_the_cells() {
    let row = Row::new(vec![TableCell::new("a")]);
    let style = TableStyle::simple();
    assert_eq!(
        row.gen_separator(&vec![1, 1, 1], &style, RowPosition::Mid, None),
        "+-+-+-+"
    );
    assert_eq!(
        Row::empty().gen_separator(&vec![2, 2], &TableStyle::extended(), RowPosition::First, None),
        "╔══╦══╗"
    );
    assert_eq!(
        Row::empty().gen_separator(&vec![], &TableStyle::extended(), RowPosition::Last, None),
        "╚╝"
    );
}

#[test]
fn separator_merges_with_the_one_above() {
    let style = TableStyle::extended();
    let widths = vec![1, 1];
    let wide = Row::new(vec![TableCell::builder("AB").col_span(2).build()]);
    let split = Row::new(vec![TableCell::new("1"), TableCell::new("2")]);
    let top = wide.gen_separator(&widths, &style, RowPosition::First, None);
    assert_eq!(top, "╔═══╗");
    let opening = split.gen_separator(&widths, &style, RowPosition::Mid, Some(top.clone()));
    assert_eq!(opening, "╠═╦═╣");
    let crossing = split.gen_separator(&widths, &style, RowPosition::Mid, Some(opening.clone()));
    assert_eq!(crossing, "╠═╬═╣");
    let closing = wide.gen_separator(&widths, &style, RowPosition::Mid, Some(crossing));
    assert_eq!(closing, "╠═╩═╣");
    let plain = wide.gen_separator(&widths, &style, RowPosition::Mid, Some(closing));
    assert_eq!(plain, "╠═══╣");
}

#[test]
fn merged_separator_is_as_long_as_the_shorter_line() {
    let style = TableStyle::simple();
    let row = Row::new(vec![TableCell::new("a"), TableCell::new("b")]);
    let merged = row.gen_separator(&vec![2, 2], &style, RowPosition::Mid, Some("+--".to_string()));
    assert_eq!(merged, "+--");
}

#[test]
fn format_pads_each_cell_to_its_column() {
    let row = Row::new(vec![
        TableCell::new("a"),
        TableCell::builder("b").alignment(Alignment::Right).build(),
        TableCell::builder("c").alignment(Alignment::Center).build(),
    ]);
    assert_eq!(row.format(&vec![5, 5, 6], &TableStyle::simple()), "| a   |   b |   c  |");
}

#[test]
fn format_fills_the_lines_that_a_cell_lacks() {
    let row = Row::new(vec![TableCell::new("a\nb"), TableCell::new("x")]);
    assert_eq!(row.format(&vec![3, 3], &TableStyle::simple()), "| a | x |\n| b |   |");
}

#[test]
fn format_fills_the_columns_that_no_cell_covers() {
    let row = Row::new(vec![TableCell::new("a")]);
    assert_eq!(row.format(&vec![3, 2, 1], &TableStyle::simple()), "| a |  | |");
}

#[test]
fn format_gives_a_spanning_cell_the_borders_it_covers() {
    let row = Row::new(vec![TableCell::builder("ab").col_span(3).build(), TableCell::new("c")]);
    assert_eq!(row.format(&vec![2, 2, 2, 3], &TableStyle::simple()), "| ab     | c |");
    let tall = Row::new(vec![
        TableCell::builder("ab").col_span(3).build(),
        TableCell::new("c\nd"),
    ]);
    assert_eq!(
        tall.format(&vec![1, 2, 3, 3], &TableStyle::simple()),
        "| ab     | c |\n|        | d |"
    );
}

#[test]
fn format_pads_a_line_wider_than_the_columns_alone() {
    let row = Row::new(vec![TableCell::builder("abcde").col_span(3).build()]);
    assert_eq!(row.format(&vec![2, 2, 2], &TableStyle::simple()), "| abcde  |");
}

#[test]
fn format_wraps_to_the_columns() {
    let row = Row::new(vec![TableCell::new("abcd"), TableCell::new("x")]);
    assert_eq!(
        row.format(&vec![4, 3], &TableStyle::extended()),
        "║ ab ║ x ║\n║ cd ║   ║"
    );
}

#[test]
fn format_without_cells_is_empty() {
    assert_eq!(Row::empty().format(&vec![3, 3], &TableStyle::simple()), "");
}

#[test]
fn blank_style_covers_no_columns_under_a_span() {
    let row = Row::new(vec![TableCell::builder("ab").col_span(2).build()]);
    assert_eq!(row.format(&vec![3, 3], &TableStyle::blank()), "\0 ab   \0");
    assert_eq!(row.format(&vec![3, 3], &TableStyle::empty()), "  ab     ");
}

#[test]
fn rows_can_be_copied() {
    let row = Row::without_separator(vec![TableCell::new("a"), TableCell::new("b")]);
    let copy = row.clone();
    assert_eq!(copy.cells.len(), 2);
    assert_eq!(copy.cells[1].data, "b");
    assert!(!copy.has_separator);
}
