use std::collections::HashMap;
use term_table::row::Row;
use term_table::table_cell::{Alignment, TableCell};
use term_table::{Table, TableBuilder, TableStyle};

#[test]
fn correct_default_padding() {
    let table = Table::builder()
        .separate_rows(false)
        .style(TableStyle::simple())
        .rows(vec![
            Row::new(vec![TableCell::builder("A").alignment(Alignment::Center).build(), TableCell::builder("B").alignment(Alignment::Center).build()]),
            Row::new(vec![TableCell::builder("1").build(), TableCell::builder("1").build()]),
            Row::new(vec![TableCell::builder("2").build(), TableCell::builder("10").build()]),
            Row::new(vec![TableCell::builder("3").build(), TableCell::builder("100").build()]),
        ])
        .build();

    let expected = r"+---+-----+
| A |  B  |
| 1 | 1   |
| 2 | 10  |
| 3 | 100 |
+---+-----+
";
    println!("{}", table.render());
    assert_eq!(expected, table.render());
}

#[test]
fn uneven_center_alignment() {
    let table = Table::builder()
        .separate_rows(false)
        .style(TableStyle::simple())
        .rows(vec![
            Row::new(vec![TableCell::builder("A").alignment(Alignment::Center).build()]),
            Row::new(vec![TableCell::builder("11").build()]),
            Row::new(vec![TableCell::builder("2").build()]),
            Row::new(vec![TableCell::builder("3").build()]),
        ])
        .build();

    let expected = r"+-----+
|  A  |
| 11  |
| 2   |
| 3   |
+-----+
";
    println!("{}", table.render());
    assert_eq!(expected, table.render());
}

#[test]
fn uneven_center_alignment_2() {
    let table = Table::builder()
        .separate_rows(false)
        .style(TableStyle::simple())
        .rows(vec![Row::new(vec![TableCell::builder("A1").alignment(Alignment::Center).build(), TableCell::builder("B").alignment(Alignment::Center).build()]),])
        .build();
    println!("{}", table.render());
    let expected = r"+----+---+
| A1 | B |
+----+---+
";
    println!("{}", table.render());
    assert_eq!(expected, table.render());
}

#[test]
fn simple_table_style() {
    let mut builder = TableBuilder::new().style(TableStyle::simple()).to_owned();
    add_data_to_test_table(&mut builder);
    let table = builder.build();

    let expected = r"+---------------------------------------------------------------------------------+
|                            This is some centered text                           |
+----------------------------------------+----------------------------------------+
| This is left aligned text              |             This is right aligned text |
+----------------------------------------+----------------------------------------+
| This is left aligned text              |             This is right aligned text |
+----------------------------------------+----------------------------------------+
| This is some really really really really really really really really really tha |
| t is going to wrap to the next line                                             |
+---------------------------------------------------------------------------------+
";
    println!("{}", table.render());
    assert_eq!(expected, table.render());
}

#[test]
fn uneven_with_varying_col_span() {
    let table = Table::builder()
        .separate_rows(true)
        .style(TableStyle::simple())
        .rows(vec![
            Row::new(vec![TableCell::builder("A1111111").alignment(Alignment::Center).build(), TableCell::builder("B").alignment(Alignment::Center).build()]),
            Row::new(vec![TableCell::new("1"), TableCell::new("1")]),
            Row::new(vec![TableCell::new("2"), TableCell::new("10")]),
            Row::new(vec![TableCell::builder("3")
                    .alignment(Alignment::Left)
                    .pad_content(false).build(), TableCell::new("100")]),
            Row::new(vec![TableCell::builder("S")
                .alignment(Alignment::Center)
                .col_span(2).build()]),
        ])
        .build();

    let expected = "+----------+-----+
| A1111111 |  B  |
+----------+-----+
| 1        | 1   |
+----------+-----+
| 2        | 10  |
+----------+-----+
|3         | 100 |
+----------+-----+
|        S       |
+----------------+
";
    println!("{}", table.render());
    assert_eq!(expected.trim(), table.render().trim());
}

#[test]
fn uneven_with_varying_col_span_2() {
    let table = Table::builder()
        .separate_rows(false)
        .style(TableStyle::simple())
        .rows(vec![
            Row::new(vec![TableCell::builder("A").alignment(Alignment::Center).build(), TableCell::builder("B").alignment(Alignment::Center).build()]),
            Row::new(vec![TableCell::builder("1").build(), TableCell::builder("1").build()]),
            Row::new(vec![TableCell::builder("2").build(), TableCell::builder("10").build()]),
            Row::new(vec![TableCell::builder("3").build(), TableCell::builder("100").build()]),
            Row::new(vec![TableCell::builder("Spanner")
                .col_span(2)
                .alignment(Alignment::Center).build()]),
        ])
        .build();

    let expected = "+------+-----+
|   A  |  B  |
| 1    | 1   |
| 2    | 10  |
| 3    | 100 |
|   Spanner  |
+------------+
";
    println!("{}", table.render());
    assert_eq!(expected.trim(), table.render().trim());
}

#[test]
fn extended_table_style_wrapped() {
    let table = Table::builder()
        .max_column_width(40)
        .style(TableStyle::extended())
        .max_column_widths(vec![(0, 1), (1, 1)].into_iter().collect::<HashMap<usize, usize>>())
        .rows(vec![
            Row::new(vec![TableCell::builder("This is some centered text").alignment(Alignment::Center).col_span(2).build()]),
            Row::new(vec![TableCell::builder("This is left aligned text").build(), TableCell::builder("This is right aligned text").alignment(Alignment::Right).build()]),
            Row::new(vec![TableCell::builder("This is left aligned text").build(), TableCell::builder("This is right aligned text").alignment(Alignment::Right).build()]),
            Row::new(vec![TableCell::builder("This is some really really really really really really really really really that is going to wrap to the next line\n1\n2").col_span(2).build()]),
        ])
        .build();

    let expected = r"╔═══════╗
║ This  ║
║ is so ║
║ me ce ║
║ ntere ║
║ d tex ║
║   t   ║
╠═══╦═══╣
║ T ║ T ║
║ h ║ h ║
║ i ║ i ║
║ s ║ s ║
║   ║   ║
║ i ║ i ║
║ s ║ s ║
║   ║   ║
║ l ║ r ║
║ e ║ i ║
║ f ║ g ║
║ t ║ h ║
║   ║ t ║
║ a ║   ║
║ l ║ a ║
║ i ║ l ║
║ g ║ i ║
║ n ║ g ║
║ e ║ n ║
║ d ║ e ║
║   ║ d ║
║ t ║   ║
║ e ║ t ║
║ x ║ e ║
║ t ║ x ║
║   ║ t ║
╠═══╬═══╣
║ T ║ T ║
║ h ║ h ║
║ i ║ i ║
║ s ║ s ║
║   ║   ║
║ i ║ i ║
║ s ║ s ║
║   ║   ║
║ l ║ r ║
║ e ║ i ║
║ f ║ g ║
║ t ║ h ║
║   ║ t ║
║ a ║   ║
║ l ║ a ║
║ i ║ l ║
║ g ║ i ║
║ n ║ g ║
║ e ║ n ║
║ d ║ e ║
║   ║ d ║
║ t ║   ║
║ e ║ t ║
║ x ║ e ║
║ t ║ x ║
║   ║ t ║
╠═══╩═══╣
║ This  ║
║ is so ║
║ me re ║
║ ally  ║
║ reall ║
║ y rea ║
║ lly r ║
║ eally ║
║  real ║
║ ly re ║
║ ally  ║
║ reall ║
║ y rea ║
║ lly r ║
║ eally ║
║  that ║
║  is g ║
║ oing  ║
║ to wr ║
║ ap to ║
║  the  ║
║ next  ║
║ line  ║
║ 1     ║
║ 2     ║
╚═══════╝
";
    println!("{}", table.render());
    assert_eq!(expected, table.render());
}

#[test]
fn elegant_table_style() {
    let mut builder = Table::builder().style(TableStyle::elegant()).to_owned();
    add_data_to_test_table(&mut builder);
    let table = builder.build();

    let expected = r"╔─────────────────────────────────────────────────────────────────────────────────╗
│                            This is some centered text                           │
╠────────────────────────────────────────╦────────────────────────────────────────╣
│ This is left aligned text              │             This is right aligned text │
╠────────────────────────────────────────┼────────────────────────────────────────╣
│ This is left aligned text              │             This is right aligned text │
╠────────────────────────────────────────╩────────────────────────────────────────╣
│ This is some really really really really really really really really really tha │
│ t is going to wrap to the next line                                             │
╚─────────────────────────────────────────────────────────────────────────────────╝
";
    println!("{}", table.render());
    assert_eq!(expected, table.render());
}

#[test]
fn thin_table_style() {
    let mut builder = Table::builder().style(TableStyle::thin()).to_owned();
    add_data_to_test_table(&mut builder);
    let table = builder.build();

    let expected = r"┌─────────────────────────────────────────────────────────────────────────────────┐
│                            This is some centered text                           │
├────────────────────────────────────────┬────────────────────────────────────────┤
│ This is left aligned text              │             This is right aligned text │
├────────────────────────────────────────┼────────────────────────────────────────┤
│ This is left aligned text              │             This is right aligned text │
├────────────────────────────────────────┴────────────────────────────────────────┤
│ This is some really really really really really really really really really tha │
│ t is going to wrap to the next line                                             │
└─────────────────────────────────────────────────────────────────────────────────┘
";
    println!("{}", table.render());
    assert_eq!(expected, table.render());
}

#[test]
fn rounded_table_style() {
    let mut builder = Table::builder().style(TableStyle::rounded()).to_owned();
    add_data_to_test_table(&mut builder);
    let table = builder.build();

    let expected = r"╭─────────────────────────────────────────────────────────────────────────────────╮
│                            This is some centered text                           │
├────────────────────────────────────────┬────────────────────────────────────────┤
│ This is left aligned text              │             This is right aligned text │
├────────────────────────────────────────┼────────────────────────────────────────┤
│ This is left aligned text              │             This is right aligned text │
├────────────────────────────────────────┴────────────────────────────────────────┤
│ This is some really really really really really really really really really tha │
│ t is going to wrap to the next line                                             │
╰─────────────────────────────────────────────────────────────────────────────────╯
";
    println!("{}", table.render());
    assert_eq!(expected, table.render());
}

#[test]
fn no_top_boarder() {
    let mut builder = Table::builder()
        .style(TableStyle::simple())
        .has_top_boarder(false)
        .to_owned();
    add_data_to_test_table(&mut builder);
    let table = builder.build();

    let expected = r"|                            This is some centered text                           |
+----------------------------------------+----------------------------------------+
| This is left aligned text              |             This is right aligned text |
+----------------------------------------+----------------------------------------+
| This is left aligned text              |             This is right aligned text |
+----------------------------------------+----------------------------------------+
| This is some really really really really really really really really really tha |
| t is going to wrap to the next line                                             |
+---------------------------------------------------------------------------------+
";
    println!("{}", table.render());
    assert_eq!(expected, table.render());
}

#[test]
fn no_bottom_boarder() {
    let mut builder = Table::builder()
        .style(TableStyle::simple())
        .has_bottom_boarder(false)
        .to_owned();
    add_data_to_test_table(&mut builder);
    let table = builder.build();

    let expected = r"+---------------------------------------------------------------------------------+
|                            This is some centered text                           |
+----------------------------------------+----------------------------------------+
| This is left aligned text              |             This is right aligned text |
+----------------------------------------+----------------------------------------+
| This is left aligned text              |             This is right aligned text |
+----------------------------------------+----------------------------------------+
| This is some really really really really really really really really really tha |
| t is going to wrap to the next line                                             |
";
    println!("{}", table.render());
    assert_eq!(expected, table.render());
}

#[test]
fn no_separators() {
    let mut builder = Table::builder()
        .style(TableStyle::simple())
        .separate_rows(false)
        .to_owned();

    add_data_to_test_table(&mut builder);
    let table = builder.build();

    let expected = r"+---------------------------------------------------------------------------------+
|                            This is some centered text                           |
| This is left aligned text              |             This is right aligned text |
| This is left aligned text              |             This is right aligned text |
| This is some really really really really really really really really really tha |
| t is going to wrap to the next line                                             |
+---------------------------------------------------------------------------------+
";
    println!("{}", table.render());
    assert_eq!(expected, table.render());
}

#[test]
fn some_rows_no_separators() {
    let mut builder = Table::builder().style(TableStyle::simple()).to_owned();
    add_data_to_test_table(&mut builder);
    let mut table = builder.build();

    table.rows[2].has_separator = false;

    let expected = r"+---------------------------------------------------------------------------------+
|                            This is some centered text                           |
+----------------------------------------+----------------------------------------+
| This is left aligned text              |             This is right aligned text |
| This is left aligned text              |             This is right aligned text |
+----------------------------------------+----------------------------------------+
| This is some really really really really really really really really really tha |
| t is going to wrap to the next line                                             |
+---------------------------------------------------------------------------------+
";
    println!("{}", table.render());
    assert_eq!(expected, table.render());
}

#[test]
fn colored_data_works() {
    let table = Table::builder()
        .rows(vec![Row::new(vec![TableCell::builder("\u{1b}[31ma\u{1b}[0m").build()])])
        .build();
    let expected = "╔═══╗
║ \u{1b}[31ma\u{1b}[0m ║
╚═══╝
";
    println!("{}", table.render());
    assert_eq!(expected, table.render());
}

fn add_data_to_test_table(builder: &mut TableBuilder) {
    builder
    .max_column_width(40)
    .rows(
        vec![
            Row::new(vec![TableCell::builder("This is some centered text")
                    .col_span(2)
                    .alignment(Alignment::Center).build()]),
            Row::new(vec![TableCell::new("This is left aligned text"), TableCell::builder("This is right aligned text")
                    .alignment(Alignment::Right).build()]),
            Row::new(vec![TableCell::new("This is left aligned text"), TableCell::builder("This is right aligned text")
                    .alignment(Alignment::Right).build()]),
            Row::new(vec![TableCell::builder("This is some really really really really really really really really really that is going to wrap to the next line")
                    .col_span(2).build()])
        ]
    );
}
