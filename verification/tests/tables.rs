use std::collections::HashMap;
use term_table::row::Row;
use term_table::table_cell::{string_width, Alignment, TableCell};
use term_table::{RowPosition, Table, TableBuilder, TableStyle};

fn centred(data: &str) -> TableCell {
    TableCell::builder(data).alignment(Alignment::Center).build()
}

fn spanning(data: &str, span: usize) -> TableCell {
    TableCell::builder(data).col_span(span).build()
}

fn many_spans() -> Vec<Row> {
    vec![
        Row::new(vec![
            spanning("Col*1*Span*2", 2),
            TableCell::new("Col 2 Span 1"),
            spanning("Col 3 Span 2", 2),
            TableCell::new("Col 4 Span 1"),
        ]),
        Row::new(vec![
            TableCell::new("Col 1 Span 1"),
            TableCell::new("Col 2 Span 1"),
            TableCell::new("Col 3 Span 1"),
            spanning("Col 4 Span 2", 2),
        ]),
        Row::new(vec![TableCell::new("fasdaff"), TableCell::new("fff"), TableCell::new("fff")]),
        Row::new(vec![
            TableCell::builder("fasdff").col_span(3).alignment(Alignment::Right).build(),
            spanning("fffdff", 4),
        ]),
        Row::new(vec![
            TableCell::new("fasdsaff"),
            TableCell::new("fff"),
            TableCell::new("f\nf\nf\nfff\nrrr\n\n\n"),
        ]),
        Row::new(vec![TableCell::new("fasdsaff")]),
    ]
}

#[test]
fn new_table_has_defaults() {
    let table = Table::new();
    assert!(table.rows.is_empty());
    assert_eq!(table.style, TableStyle::extended());
    assert_eq!(table.max_column_width, usize::MAX);
    assert!(table.max_column_widths.is_empty());
    assert!(table.separate_rows);
    assert!(table.has_top_boarder);
    assert!(table.has_bottom_boarder);
}

#[test]
fn table_builder_sets_every_property() {
    let mut limits = HashMap::new();
    limits.insert(1, 7);
    let table = TableBuilder::new()
        .rows(vec![Row::new(vec![TableCell::new("a")])])
        .style(TableStyle::thin())
        .max_column_width(9)
        .max_column_widths(limits)
        .separate_rows(false)
        .has_top_boarder(false)
        .has_bottom_boarder(false)
        .build();
    assert_eq!(table.rows.len(), 1);
    assert_eq!(table.rows[0].cells[0].data, "a");
    assert_eq!(table.style, TableStyle::thin());
    assert_eq!(table.max_column_width, 9);
    assert_eq!(table.max_column_widths.get(&1), Some(&7));
    assert!(!table.separate_rows);
    assert!(!table.has_top_boarder);
    assert!(!table.has_bottom_boarder);
}

#[test]
fn setters_change_the_table() {
    let mut table = Table::with_rows(vec![Row::new(vec![TableCell::new("a")])]);
    assert_eq!(table.rows.len(), 1);
    table.max_column_width(12);
    assert_eq!(table.max_column_width, 12);
    table.set_max_width_for_column(2, 5);
    table.set_max_column_widths(vec![(0, 1), (2, 6), (0, 3)]);
    assert_eq!(table.max_column_widths.get(&0), Some(&3));
    assert_eq!(table.max_column_widths.get(&2), Some(&6));
    assert_eq!(table.max_column_widths.len(), 2);
    table.add_row(Row::new(vec![TableCell::new("b")]));
    assert_eq!(table.rows.len(), 2);
    assert_eq!(table.rows[1].cells[0].data, "b");
}

#[test]
fn buffer_line_appends_a_line_feed() {
    let mut buffer = String::from("a\n");
    Table::buffer_line(&mut buffer, "bc");
    assert_eq!(buffer, "a\nbc\n");
}

#[test]
fn every_style_has_its_characters() {
    assert_eq!(TableStyle::simple().intersection, '+');
    assert_eq!(TableStyle::simple().vertical, '|');
    assert_eq!(TableStyle::simple().horizontal, '-');
    assert_eq!(TableStyle::extended().top_left_corner, '╔');
    assert_eq!(TableStyle::extended().outer_bottom_horizontal, '╩');
    assert_eq!(TableStyle::thin().bottom_right_corner, '┘');
    assert_eq!(TableStyle::thin().outer_left_vertical, '├');
    assert_eq!(TableStyle::rounded().top_right_corner, '╮');
    assert_eq!(TableStyle::rounded().bottom_left_corner, '╰');
    assert_eq!(TableStyle::elegant().intersection, '┼');
    assert_eq!(TableStyle::elegant().outer_top_horizontal, '╦');
    assert_eq!(TableStyle::blank().vertical, '\0');
    assert_eq!(TableStyle::empty().horizontal, ' ');
    assert_eq!(TableStyle::default(), TableStyle::blank());
    assert_eq!(RowPosition::default(), RowPosition::First);
}

#[test]
fn style_gives_the_characters_for_a_position() {
    let style = TableStyle::extended();
    assert_eq!(style.start_for_position(RowPosition::First), '╔');
    assert_eq!(style.start_for_position(RowPosition::Mid), '╠');
    assert_eq!(style.start_for_position(RowPosition::Last), '╚');
    assert_eq!(style.end_for_position(RowPosition::First), '╗');
    assert_eq!(style.end_for_position(RowPosition::Mid), '╣');
    assert_eq!(style.end_for_position(RowPosition::Last), '╝');
    assert_eq!(style.intersect_for_position(RowPosition::First), '╦');
    assert_eq!(style.intersect_for_position(RowPosition::Mid), '╬');
    assert_eq!(style.intersect_for_position(RowPosition::Last), '╩');
}

#[test]
fn style_merges_junctions() {
    let style = TableStyle::extended();
    let mid = RowPosition::Mid;
    assert_eq!(style.merge_intersection_for_position('═', '╬', mid), '╦');
    assert_eq!(style.merge_intersection_for_position('╩', '╬', mid), '╦');
    assert_eq!(style.merge_intersection_for_position('╬', '═', mid), '╩');
    assert_eq!(style.merge_intersection_for_position('╦', '═', mid), '╩');
    assert_eq!(style.merge_intersection_for_position('╩', '═', mid), '═');
    assert_eq!(style.merge_intersection_for_position('╬', '╬', mid), '╬');
    assert_eq!(style.merge_intersection_for_position('╦', '╬', mid), '╬');
    assert_eq!(style.merge_intersection_for_position('╬', '╬', RowPosition::Last), '╩');
    assert_eq!(style.merge_intersection_for_position('x', 'y', RowPosition::First), '╦');
}

#[test]
fn one_centred_cell() {
    let table = Table::builder()
        .style(TableStyle::simple())
        .separate_rows(false)
        .rows(vec![Row::new(vec![centred("A")])])
        .build();
    assert_eq!(table.render(), "+---+\n| A |\n+---+\n");
}

#[test]
fn a_span_splits_into_two_columns() {
    let table = Table::builder()
        .style(TableStyle::extended())
        .rows(vec![
            Row::new(vec![TableCell::builder("AB")
                .col_span(2)
                .alignment(Alignment::Center)
                .build()]),
            Row::new(vec![TableCell::new("1"), TableCell::new("2")]),
        ])
        .build();
    let expected = "╔════════╗
║   AB   ║
╠════╦═══╣
║ 1  ║ 2 ║
╚════╩═══╝
";
    assert_eq!(table.calculate_max_column_widths(), vec![4, 3]);
    assert_eq!(table.render(), expected);
}

#[test]
fn a_short_cell_is_filled_with_blanks() {
    let table = Table::builder()
        .style(TableStyle::simple())
        .rows(vec![Row::new(vec![TableCell::new("a\nb"), TableCell::new("xyz")])])
        .build();
    assert_eq!(table.render(), "+---+-----+\n| a | xyz |\n| b |     |\n+---+-----+\n");
}

#[test]
fn a_table_inside_a_cell_keeps_its_borders() {
    let inner = Table::builder()
        .style(TableStyle::simple())
        .rows(vec![Row::new(vec![TableCell::new("a"), TableCell::new("b")])])
        .build()
        .render();
    assert_eq!(inner, "+---+---+\n| a | b |\n+---+---+\n");
    let outer = Table::builder()
        .style(TableStyle::simple())
        .rows(vec![Row::new(vec![TableCell::new(&inner)])])
        .build();
    let expected = "+-----------+
| +---+---+ |
| | a | b | |
| +---+---+ |
|           |
+-----------+
";
    assert_eq!(outer.render(), expected);
}

#[test]
fn a_table_of_many_spans_inside_a_cell_keeps_its_borders() {
    let mut table = Table::builder().rows(many_spans()).build();
    let inner = table.render();
    table.add_row(Row::new(vec![TableCell::builder(&inner)
        .col_span(3)
        .alignment(Alignment::Left)
        .build()]));
    let outer = table.render();
    for line in inner.lines() {
        assert!(outer.contains(&format!("║ {} ", line)));
    }
    assert!(outer.starts_with('╔'));
    assert!(outer.ends_with("╝\n"));
}

#[test]
fn every_line_of_a_table_of_many_spans_is_equally_wide() {
    let mut table = Table::builder().rows(many_spans()).build();
    let inner = table.render();
    let width = string_width(inner.lines().next().unwrap());
    for line in inner.lines() {
        assert_eq!(string_width(line), width);
    }
    table.add_row(Row::new(vec![spanning(&inner, 3)]));
    let outer = table.render();
    let width = string_width(outer.lines().next().unwrap());
    for line in outer.lines() {
        assert_eq!(string_width(line), width);
    }
    let widths = table.calculate_max_column_widths();
    assert_eq!(width, widths.iter().sum::<usize>() + widths.len() + 1);
}

#[test]
fn every_line_is_equally_wide_in_every_style() {
    let styles = vec![
        TableStyle::simple(),
        TableStyle::extended(),
        TableStyle::thin(),
        TableStyle::rounded(),
        TableStyle::elegant(),
        TableStyle::empty(),
    ];
    for style in styles {
        let table = Table::builder()
            .style(style)
            .max_column_width(6)
            .rows(vec![
                Row::new(vec![spanning("abcdefgh", 3), centred("世界")]),
                Row::new(vec![TableCell::new("x"), spanning("a rather long text", 2)]),
                Row::new(vec![centred("\u{1b}[31mred\u{1b}[0m")]),
            ])
            .build();
        let widths = table.calculate_max_column_widths();
        let expected = widths.iter().sum::<usize>() + widths.len() + 1;
        for line in table.render().lines() {
            assert_eq!(string_width(line), expected);
        }
    }
}

#[test]
fn line_count_is_borders_plus_wrapped_lines() {
    let mut table = Table::builder()
        .style(TableStyle::simple())
        .max_column_width(5)
        .rows(vec![
            Row::new(vec![TableCell::new("abcdefg"), TableCell::new("x")]),
            Row::without_separator(vec![TableCell::new("a\nb\nc")]),
            Row::new(vec![TableCell::new("y")]),
        ])
        .build();
    assert_eq!(table.render().lines().count(), 3 + 3 + 3 + 1);
    table.has_top_boarder = false;
    assert_eq!(table.render().lines().count(), 2 + 3 + 3 + 1);
    table.has_bottom_boarder = false;
    assert_eq!(table.render().lines().count(), 1 + 3 + 3 + 1);
    table.separate_rows = false;
    assert_eq!(table.render().lines().count(), 3 + 3 + 1);
}

#[test]
fn a_row_without_cells_gives_one_line() {
    let table = Table::builder()
        .style(TableStyle::simple())
        .rows(vec![Row::new(vec![TableCell::new("a")]), Row::empty()])
        .build();
    assert_eq!(table.render(), "+---+\n| a |\n+---+\n\n+---+\n");
}

#[test]
fn a_table_without_rows_renders_to_nothing() {
    assert_eq!(Table::new().render(), "");
    assert_eq!(Table::new().try_render(), Some(String::new()));
    assert_eq!(Table::builder().has_bottom_boarder(true).build().render(), "");
}

#[test]
fn rendering_twice_gives_the_same() {
    let table = Table::builder().rows(many_spans()).build();
    assert_eq!(table.render(), table.render());
    assert_eq!(table.try_render(), Some(table.render()));
}

#[test]
fn try_render_refuses_a_cell_over_no_column() {
    let mut table = Table::builder()
        .rows(vec![Row::new(vec![TableCell::new("a"), TableCell::new("b")])])
        .build();
    assert!(table.try_render().is_some());
    table.rows[0].cells[1].col_span = 0;
    assert_eq!(table.try_render(), None);
}

#[test]
fn try_render_refuses_spans_that_cannot_be_counted() {
    let table = Table::builder()
        .rows(vec![Row::new(vec![spanning("a", usize::MAX), TableCell::new("b")])])
        .build();
    assert_eq!(table.try_render(), None);
}

#[test]
fn column_widths_follow_the_widest_share() {
    let table = Table::builder()
        .rows(vec![
            Row::new(vec![TableCell::new("a"), TableCell::new("bcd")]),
            Row::new(vec![spanning("Spanner", 2)]),
            Row::new(vec![TableCell::new("xy")]),
        ])
        .build();
    assert_eq!(table.calculate_max_column_widths(), vec![4, 5]);
}

#[test]
fn column_widths_keep_to_the_limits() {
    let mut table = Table::builder()
        .max_column_width(6)
        .rows(vec![Row::new(vec![
            TableCell::new("a long text"),
            TableCell::new("another"),
            TableCell::new("x"),
        ])])
        .build();
    assert_eq!(table.calculate_max_column_widths(), vec![6, 6, 3]);
    table.set_max_width_for_column(1, 8);
    assert_eq!(table.calculate_max_column_widths(), vec![6, 8, 3]);
    table.set_max_width_for_column(0, 20);
    assert_eq!(table.calculate_max_column_widths(), vec![13, 8, 3]);
}

#[test]
fn a_limit_below_the_least_width_gives_the_least_width() {
    let table = Table::builder()
        .max_column_width(1)
        .rows(vec![Row::new(vec![TableCell::new("abc"), TableCell::new("世界")])])
        .build();
    assert_eq!(table.calculate_max_column_widths(), vec![3, 4]);
    let expected = "╔═══╦════╗
║ a ║ 世 ║
║ b ║ 界 ║
║ c ║    ║
╚═══╩════╝
";
    assert_eq!(table.render(), expected);
}

#[test]
fn a_centred_cell_widens_a_column_of_even_width() {
    let table = Table::builder()
        .rows(vec![Row::new(vec![centred("A")]), Row::new(vec![TableCell::new("11")])])
        .build();
    assert_eq!(table.calculate_max_column_widths(), vec![5]);
    let capped = Table::builder()
        .max_column_width(4)
        .rows(vec![Row::new(vec![centred("A")]), Row::new(vec![TableCell::new("11")])])
        .build();
    assert_eq!(capped.calculate_max_column_widths(), vec![4]);
    let odd = Table::builder()
        .rows(vec![Row::new(vec![centred("A")]), Row::new(vec![TableCell::new("111")])])
        .build();
    assert_eq!(odd.calculate_max_column_widths(), vec![5]);
    let exact = Table::builder().rows(vec![Row::new(vec![centred("AB")])]).build();
    assert_eq!(exact.calculate_max_column_widths(), vec![4]);
}

#[test]
fn a_centred_cell_after_a_span_looks_at_its_own_column() {
    let table = Table::builder()
        .rows(vec![
            Row::new(vec![spanning("abcd", 2), centred("A")]),
            Row::new(vec![TableCell::new("1"), TableCell::new("2"), TableCell::new("33")]),
        ])
        .build();
    assert_eq!(table.calculate_max_column_widths(), vec![3, 3, 5]);
}

#[test]
fn tables_can_be_copied() {
    let table = Table::builder()
        .style(TableStyle::simple())
        .rows(vec![Row::new(vec![TableCell::new("a")])])
        .build();
    let copy = table.clone();
    assert_eq!(copy.render(), table.render());
    assert_eq!(Table::default().render(), "");
    assert_eq!(TableBuilder::default().build().rows.len(), 0);
}
