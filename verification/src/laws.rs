//! What holds of every rendered table.

use crate::row::{
    border_line, border_upto, cell_room, cells_fit, cells_fit_columns, cells_well_formed,
    column_demands, demand_of, lemma_column_demands_len, lemma_row_line_width,
    lemma_span_sum_monotonic, row_height, row_lines, span_sum, span_width, total_width,
};
use crate::style::{RowPosition, TableStyle};
use crate::table::{
    lemma_row_columns_bounded, lemma_widths_len, plain_line, smaller, TableView,
};
use crate::table_cell::{content_cols, lemma_fits_in, lemma_width_bounded, TableCell};
use crate::width::{border_cols, char_cols, glyphs_width};
use crate::wrap::{lemma_wrap_nonempty, wrap_lines};
use vstd::prelude::*;

verus! {

impl TableView {
    /// Whether every row holds at least one cell.
    pub open spec fn rows_have_cells(&self) -> bool {
        forall|r: int| 0 <= r < self.rows.len() ==> (#[trigger] self.rows[r]).cells.len() >= 1
    }

    /// The number of lines of row `r`: that of its tallest cell.
    pub open spec fn height_of(&self, widths: Seq<usize>, r: int) -> nat {
        row_height(self.rows[r].cells, widths, self.rows[r].cells.len() as int)
    }

    /// The number of border lines that are shown above the first `r` rows.
    pub open spec fn separators_upto(&self, r: int) -> nat
        decreases r,
    {
        if r <= 0 {
            0
        } else {
            self.separators_upto(r - 1) + if self.shows_separator(r - 1) {
                1nat
            } else {
                0nat
            }
        }
    }

    /// The number of content lines of the first `r` rows.
    pub open spec fn heights_upto(&self, widths: Seq<usize>, r: int) -> nat
        decreases r,
    {
        if r <= 0 {
            0
        } else {
            self.heights_upto(widths, r - 1) + self.height_of(widths, r - 1)
        }
    }

    /// The number of border lines in the output: those shown above rows, and
    /// the bottom border if it is shown and there is a row.
    pub open spec fn border_count(&self) -> nat {
        self.separators_upto(self.rows.len() as int) + if self.rows.len() > 0
            && self.has_bottom_boarder {
            1nat
        } else {
            0nat
        }
    }
}

/// A row with a cell has at least one line.
pub proof fn lemma_row_height_positive(cells: Seq<TableCell>, widths: Seq<usize>, k: int)
    requires
        1 <= k <= cells.len(),
    ensures
        row_height(cells, widths, k) >= 1,
    decreases k,
{
    let cell = cells[k - 1];
    let room = cell_room(cell, widths, span_sum(cells, k - 1) as int);
    lemma_wrap_nonempty(cell.glyphs(), content_cols(room, cell.pad_content), 0, Seq::empty());
    assert(cell.wrap_spec(room).len() == wrap_lines(
        cell.glyphs(),
        content_cols(room, cell.pad_content),
    ).len());
}

/// The first `r` rows give as many lines as they show border lines and have
/// content lines.
pub proof fn lemma_lines_upto_len(table: TableView, widths: Seq<usize>, r: int)
    requires
        table.rows_have_cells(),
        0 <= r <= table.rows.len(),
    ensures
        table.lines_upto(widths, r).len() == table.separators_upto(r) + table.heights_upto(
            widths,
            r,
        ),
    decreases r,
{
    if r > 0 {
        lemma_lines_upto_len(table, widths, r - 1);
        let cells = table.rows[r - 1].cells;
        assert(cells.len() >= 1);
        lemma_row_height_positive(cells, widths, cells.len() as int);
        assert(row_lines(cells, widths, table.style).len() == table.height_of(widths, r - 1));
    }
}

/// The number of rendered lines is the number of border lines shown plus,
/// for each row, the number of lines of its tallest cell. This holds of
/// tables in which every row has a cell; a row without cells still gives one
/// line.
pub proof fn lemma_line_count(table: TableView)
    requires
        table.rows_have_cells(),
    ensures
        table.render_lines().len() == table.border_count() + table.heights_upto(
            table.widths(),
            table.rows.len() as int,
        ),
{
    lemma_lines_upto_len(table, table.widths(), table.rows.len() as int);
}

/// Whether every character of the style takes one column, and the vertical
/// border character also where a spanning cell covers it.
pub open spec fn single_column(style: TableStyle) -> bool {
    &&& char_cols(style.top_left_corner) == 1
    &&& char_cols(style.top_right_corner) == 1
    &&& char_cols(style.bottom_left_corner) == 1
    &&& char_cols(style.bottom_right_corner) == 1
    &&& char_cols(style.outer_left_vertical) == 1
    &&& char_cols(style.outer_right_vertical) == 1
    &&& char_cols(style.outer_bottom_horizontal) == 1
    &&& char_cols(style.outer_top_horizontal) == 1
    &&& char_cols(style.intersection) == 1
    &&& char_cols(style.vertical) == 1
    &&& char_cols(style.horizontal) == 1
    &&& border_cols(style.vertical) == 1
}

/// Whether every character of the text is one of the style.
pub open spec fn drawn(style: TableStyle, text: Seq<char>) -> bool {
    forall|j: int| 0 <= j < text.len() ==> style.draws(#[trigger] text[j])
}

/// What the cell at index `k` asks of each of its columns.
pub proof fn lemma_column_demand_entry(cells: Seq<TableCell>, upto: int, k: int, j: int)
    requires
        0 <= k < upto <= cells.len(),
        span_sum(cells, k) <= j < span_sum(cells, k + 1),
    ensures
        j < column_demands(cells, upto).len(),
        column_demands(cells, upto)[j] == (
            cells[k].split_width_spec(),
            cells[k].split_min_width_spec(),
        ),
    decreases upto,
{
    lemma_column_demands_len(cells, upto - 1);
    lemma_column_demands_len(cells, upto);
    if upto - 1 > k {
        lemma_span_sum_monotonic(cells, k + 1, upto - 1);
        lemma_column_demand_entry(cells, upto - 1, k, j);
    }
}

/// No column is asked for more than can be counted.
pub proof fn lemma_column_demands_bounded(cells: Seq<TableCell>, upto: int, j: int)
    requires
        cells_well_formed(cells),
        0 <= upto <= cells.len(),
        0 <= j < column_demands(cells, upto).len(),
    ensures
        column_demands(cells, upto)[j].0 <= usize::MAX,
    decreases upto,
{
    if upto > 0 {
        let before = column_demands(cells, upto - 1);
        if j < before.len() {
            lemma_column_demands_bounded(cells, upto - 1, j);
        } else {
            let cell = cells[upto - 1];
            assert(cell.well_formed());
            lemma_width_bounded(cell);
            assert(cell.width_spec() / (cell.col_span as nat) <= cell.width_spec())
                by (nonlinear_arith)
                requires
                    cell.col_span >= 1,
            ;
        }
    }
}

/// What the rows ask of a column is no less than what any one of them asks.
pub proof fn lemma_demand_covers(table: TableView, upto: int, r: int, i: int)
    requires
        0 <= r < upto <= table.rows.len(),
    ensures
        table.floor_upto(upto, i) >= demand_of(table.rows[r].cells, i).1,
        table.demand_upto(upto, i) >= demand_of(table.rows[r].cells, i).0,
    decreases upto,
{
    if r < upto - 1 {
        lemma_demand_covers(table, upto - 1, r, i);
    }
}

/// What the rows ask of a column can be counted.
pub proof fn lemma_demand_bounded(table: TableView, upto: int, i: int)
    requires
        table.well_formed(),
        0 <= upto <= table.rows.len(),
    ensures
        table.demand_upto(upto, i) <= usize::MAX,
    decreases upto,
{
    if upto > 0 {
        lemma_demand_bounded(table, upto - 1, i);
        let cells = table.rows[upto - 1].cells;
        assert(cells_fit(cells));
        let demands = column_demands(cells, cells.len() as int);
        if 0 <= i < demands.len() {
            lemma_column_demands_bounded(cells, cells.len() as int, i);
        }
    }
}

/// A look at one cell makes no column narrower.
pub proof fn lemma_centred_cell_grows(
    table: TableView,
    widths: Seq<usize>,
    cell: TableCell,
    col: int,
    j: int,
)
    requires
        0 <= j < widths.len(),
    ensures
        table.centred_cell(widths, cell, col).len() == widths.len(),
        table.centred_cell(widths, cell, col)[j] >= widths[j],
{
}

/// A look at the first `k` cells of a row makes no column narrower.
pub proof fn lemma_centred_cells_grow(
    table: TableView,
    widths: Seq<usize>,
    cells: Seq<TableCell>,
    k: int,
    j: int,
)
    requires
        0 <= j < widths.len(),
    ensures
        table.centred_cells(widths, cells, k).len() == widths.len(),
        table.centred_cells(widths, cells, k)[j] >= widths[j],
    decreases k,
{
    if k > 0 {
        lemma_centred_cells_grow(table, widths, cells, k - 1, j);
        lemma_centred_cell_grows(
            table,
            table.centred_cells(widths, cells, k - 1),
            cells[k - 1],
            span_sum(cells, k - 1) as int,
            j,
        );
    }
}

/// A look at the first `r` rows makes no column narrower.
pub proof fn lemma_centred_rows_grow(table: TableView, widths: Seq<usize>, r: int, j: int)
    requires
        0 <= j < widths.len(),
    ensures
        table.centred_rows(widths, r).len() == widths.len(),
        table.centred_rows(widths, r)[j] >= widths[j],
    decreases r,
{
    if r > 0 {
        lemma_centred_rows_grow(table, widths, r - 1, j);
        lemma_centred_cells_grow(
            table,
            table.centred_rows(widths, r - 1),
            table.rows[r - 1].cells,
            table.rows[r - 1].cells.len() as int,
            j,
        );
    }
}

/// Columns that are each at least `least` wide are together at least that
/// wide as many times.
pub proof fn lemma_span_width_at_least(widths: Seq<usize>, col: int, span: int, least: nat)
    requires
        0 <= span,
        forall|j: int| col <= j < col + span ==> (#[trigger] widths[j]) >= least,
    ensures
        span_width(widths, col, span) >= span * least,
    decreases span,
{
    if span > 0 {
        lemma_span_width_at_least(widths, col, span - 1, least);
        assert(widths[col + span - 1] >= least);
        assert(span * least == (span - 1) * least + least) by (nonlinear_arith);
    } else {
        assert(span * least == 0) by (nonlinear_arith)
            requires
                span == 0,
        ;
    }
}

/// The shares of a number over `span` columns, with the borders between the
/// columns, make up the number.
pub proof fn lemma_shares_cover(x: nat, span: nat)
    requires
        span >= 1,
    ensures
        span * (x / span) + span - 1 >= x,
{
    vstd::arithmetic::div_mod::lemma_fundamental_div_mod(x as int, span as int);
    vstd::arithmetic::div_mod::lemma_mod_bound(x as int, span as int);
}

/// In the layout of a table each cell's columns hold the cell's padding and
/// any one visible character of its content.
pub proof fn lemma_row_fits_columns(table: TableView, r: int)
    requires
        table.well_formed(),
        0 <= r < table.rows.len(),
    ensures
        cells_fit_columns(table.rows[r].cells, table.widths()),
{
    let cells = table.rows[r].cells;
    let widths = table.widths();
    let base = table.base_widths();
    let rows = table.rows.len() as int;
    assert(cells_fit(cells));
    lemma_widths_len(table);
    lemma_row_columns_bounded(table, r, rows);
    assert forall|k: int| 0 <= k < cells.len() implies (#[trigger] cells[k]).fits_in(
        cell_room(cells[k], widths, span_sum(cells, k) as int),
    ) by {
        let cell = cells[k];
        let col = span_sum(cells, k) as int;
        let span = cell.col_span as nat;
        assert(cell.well_formed());
        lemma_span_sum_monotonic(cells, k + 1, cells.len() as int);
        let share = cell.split_width_spec();
        let least = cell.split_min_width_spec();
        let low = smaller(share, least);
        assert forall|j: int| col <= j < col + span implies (#[trigger] widths[j]) >= low by {
            lemma_column_demand_entry(cells, cells.len() as int, k, j);
            lemma_demand_covers(table, rows, r, j);
            lemma_demand_bounded(table, rows, j);
            assert(base[j] == table.base_width(j));
            lemma_centred_rows_grow(table, base, rows, j);
        }
        lemma_span_width_at_least(widths, col, span as int, low);
        if share <= least {
            lemma_shares_cover(cell.width_spec(), span);
        } else {
            lemma_shares_cover(cell.min_width_spec(), span);
        }
        lemma_fits_in(cell, cell_room(cell, widths, col));
    }
}

/// The length of a border line as far as column `n - 1`.
pub proof fn lemma_border_upto_len(
    cells: Seq<TableCell>,
    widths: Seq<usize>,
    style: TableStyle,
    pos: RowPosition,
    n: int,
)
    requires
        0 <= n,
    ensures
        border_upto(cells, widths, style, pos, n).len() == 1 + span_width(widths, 0, n) + if n
            >= 1 {
            n - 1
        } else {
            0
        },
        drawn(style, border_upto(cells, widths, style, pos, n)),
    decreases n,
{
    if n > 0 {
        lemma_border_upto_len(cells, widths, style, pos, n - 1);
    }
}

/// A border line over one or more columns is as long as the columns are wide,
/// with one character for each column and one at the end, and holds only
/// characters of the style.
pub proof fn lemma_border_line_len(
    cells: Seq<TableCell>,
    widths: Seq<usize>,
    style: TableStyle,
    pos: RowPosition,
)
    requires
        widths.len() >= 1,
    ensures
        border_line(cells, widths, style, pos).len() == total_width(widths) + widths.len() + 1,
        drawn(style, border_line(cells, widths, style, pos)),
{
    lemma_border_upto_len(cells, widths, style, pos, widths.len() as int);
}

/// The border line above row `i` is as long as any border line of the table
/// and holds only characters of the style.
pub proof fn lemma_separator_len(table: TableView, widths: Seq<usize>, i: int)
    requires
        widths.len() >= 1,
        0 <= i < table.rows.len(),
    ensures
        table.separator_at(widths, i).len() == total_width(widths) + widths.len() + 1,
        drawn(table.style, table.separator_at(widths, i)),
    decreases i,
{
    if i <= 0 {
        lemma_border_line_len(table.rows[0].cells, widths, table.style, RowPosition::First);
    } else {
        lemma_separator_len(table, widths, i - 1);
        lemma_border_line_len(table.rows[i].cells, widths, table.style, RowPosition::Mid);
    }
}

/// A line of characters that take one column each is as wide as it is long.
pub proof fn lemma_plain_line_width(text: Seq<char>)
    requires
        forall|j: int| 0 <= j < text.len() ==> char_cols(#[trigger] text[j]) == 1,
    ensures
        glyphs_width(plain_line(text)) == text.len(),
    decreases text.len(),
{
    if text.len() > 0 {
        let init = text.drop_last();
        assert forall|j: int| 0 <= j < init.len() implies char_cols(#[trigger] init[j]) == 1 by {
            assert(init[j] == text[j]);
        }
        lemma_plain_line_width(init);
        assert(plain_line(text).drop_last() =~= plain_line(init));
        assert(char_cols(text[text.len() - 1]) == 1);
    }
}

/// A border line in a style of one-column characters is as wide as it is
/// long.
pub proof fn lemma_drawn_width(style: TableStyle, text: Seq<char>)
    requires
        single_column(style),
        drawn(style, text),
    ensures
        glyphs_width(plain_line(text)) == text.len(),
{
    assert forall|j: int| 0 <= j < text.len() implies char_cols(#[trigger] text[j]) == 1 by {
        assert(style.draws(text[j]));
    }
    lemma_plain_line_width(text);
}

/// Every line of the first `r` rows has the width of the table.
pub proof fn lemma_lines_upto_width(table: TableView, r: int, j: int)
    requires
        table.well_formed(),
        table.rows_have_cells(),
        single_column(table.style),
        0 <= r <= table.rows.len(),
        0 <= j < table.lines_upto(table.widths(), r).len(),
    ensures
        glyphs_width(table.lines_upto(table.widths(), r)[j]) == total_width(table.widths())
            + table.widths().len() + 1,
    decreases r,
{
    let widths = table.widths();
    let before = table.lines_upto(widths, r - 1);
    if j < before.len() {
        lemma_lines_upto_width(table, r - 1, j);
    } else {
        let cells = table.rows[r - 1].cells;
        let l = j - before.len();
        assert(cells_fit(cells));
        assert(cells.len() >= 1);
        assert(cells[0].well_formed());
        lemma_span_sum_monotonic(cells, 1, cells.len() as int);
        lemma_widths_len(table);
        lemma_row_columns_bounded(table, r - 1, table.rows.len() as int);
        lemma_row_height_positive(cells, widths, cells.len() as int);
        lemma_row_fits_columns(table, r - 1);
        let content = row_lines(cells, widths, table.style);
        assert(table.content_lines(widths, r - 1) == content);
        if table.shows_separator(r - 1) {
            if l == 0 {
                lemma_separator_len(table, widths, r - 1);
                lemma_drawn_width(table.style, table.separator_at(widths, r - 1));
            } else {
                lemma_row_line_width(cells, widths, table.style, l - 1);
            }
        } else {
            lemma_row_line_width(cells, widths, table.style, l);
        }
    }
}

/// Every line of a rendered table has the same display width: the widths of
/// all columns, one border character for each column, and one at the end.
/// This holds of tables in which every row has a cell, in a style whose
/// characters take one column each.
pub proof fn lemma_equal_line_widths(table: TableView, j: int)
    requires
        table.well_formed(),
        table.rows_have_cells(),
        single_column(table.style),
        0 <= j < table.render_lines().len(),
    ensures
        glyphs_width(table.render_lines()[j]) == total_width(table.widths())
            + table.widths().len() + 1,
{
    let widths = table.widths();
    let rows = table.rows.len() as int;
    let body = table.lines_upto(widths, rows);
    if j < body.len() {
        lemma_lines_upto_width(table, rows, j);
    } else {
        let cells = table.rows[rows - 1].cells;
        assert(cells_fit(cells));
        assert(cells.len() >= 1);
        assert(cells[0].well_formed());
        lemma_span_sum_monotonic(cells, 1, cells.len() as int);
        lemma_widths_len(table);
        lemma_row_columns_bounded(table, rows - 1, rows);
        lemma_border_line_len(cells, widths, table.style, RowPosition::Last);
        lemma_drawn_width(table.style, table.bottom_line(widths));
    }
}

} // verus!
