//! Tables: rows, a style, and limits on the column widths.

use crate::row::{
    border_line, cells_fit, column_demands, demand_of, demands_view, lemma_column_demands_len,
    lemma_span_sum_monotonic, lemma_span_width_monotonic, line_budget, row_lines,
    separator_line, span_sum, span_width, texts_of, Row, RowView,
};
use crate::wrap::join_lines;
use crate::style::{RowPosition, TableStyle};
use crate::table_cell::{Alignment, TableCell};
use crate::width::{chars_of, plain, Glyph};
use std::collections::HashMap;
use vstd::prelude::*;
use vstd::string::StringExecFns;

verus! {

broadcast use vstd::std_specs::hash::group_hash_axioms;

/// The larger of two numbers.
pub open spec fn larger(a: nat, b: nat) -> nat {
    if a >= b {
        a
    } else {
        b
    }
}

/// The smaller of two numbers.
pub open spec fn smaller(a: nat, b: nat) -> nat {
    if a <= b {
        a
    } else {
        b
    }
}

/// The views of the row at index `i`.
pub open spec fn row_view_at(rows: Seq<Row>, i: int) -> RowView {
    rows[i]@
}

/// The views of the rows.
pub open spec fn rows_view(rows: Seq<Row>) -> Seq<RowView> {
    Seq::new(rows.len(), |i: int| row_view_at(rows, i))
}

/// A visible glyph for the character at index `i`.
pub open spec fn plain_at(text: Seq<char>, i: int) -> Glyph {
    plain(text[i])
}

/// A line of visible glyphs.
pub open spec fn plain_line(text: Seq<char>) -> Seq<Glyph> {
    Seq::new(text.len(), |i: int| plain_at(text, i))
}

/// The lines, each followed by a line feed.
pub open spec fn emit_lines(lines: Seq<Seq<char>>) -> Seq<char>
    decreases lines.len(),
{
    if lines.len() == 0 {
        Seq::empty()
    } else {
        (emit_lines(lines.drop_last()) + lines.last()).push('\n')
    }
}

/// The pairs `(column, width)` up to index `k`, entered into a map in order.
pub open spec fn insert_pairs(map: Map<usize, usize>, pairs: Seq<(usize, usize)>, k: int) -> Map<
    usize,
    usize,
>
    decreases k,
{
    if k <= 0 {
        map
    } else {
        insert_pairs(map, pairs, k - 1).insert(pairs[k - 1].0, pairs[k - 1].1)
    }
}

/// What a table holds, as mathematical values.
pub struct TableView {
    pub rows: Seq<RowView>,
    pub style: TableStyle,
    pub max_column_width: usize,
    pub max_column_widths: Map<usize, usize>,
    pub separate_rows: bool,
    pub has_top_boarder: bool,
    pub has_bottom_boarder: bool,
}

impl TableView {
    /// Every row can be laid out.
    pub open spec fn well_formed(&self) -> bool {
        forall|r: int| 0 <= r < self.rows.len() ==> cells_fit((#[trigger] self.rows[r]).cells)
    }

    /// The number of columns of row `r`.
    pub open spec fn row_columns(&self, r: int) -> nat {
        span_sum(self.rows[r].cells, self.rows[r].cells.len() as int)
    }

    /// The most columns that any of the first `r` rows has.
    pub open spec fn columns_upto(&self, r: int) -> nat
        decreases r,
    {
        if r <= 0 {
            0
        } else {
            larger(self.columns_upto(r - 1), self.row_columns(r - 1))
        }
    }

    /// The number of columns of the table: the most that any row has.
    pub open spec fn column_count(&self) -> nat {
        self.columns_upto(self.rows.len() as int)
    }

    /// The least width of column `i` as far as the first `r` rows ask: the
    /// largest share of a least width that a cell over the column has.
    pub open spec fn floor_upto(&self, r: int, i: int) -> nat
        decreases r,
    {
        if r <= 0 {
            0
        } else {
            larger(self.floor_upto(r - 1, i), demand_of(self.rows[r - 1].cells, i).1)
        }
    }

    /// The width that the content of column `i` asks for in the first `r`
    /// rows: the largest share of a content width that a cell over the
    /// column has.
    pub open spec fn demand_upto(&self, r: int, i: int) -> nat
        decreases r,
    {
        if r <= 0 {
            0
        } else {
            larger(self.demand_upto(r - 1, i), demand_of(self.rows[r - 1].cells, i).0)
        }
    }

    /// The most that column `i` may take: its own limit where one is set,
    /// else the limit for all columns.
    pub open spec fn cap(&self, i: int) -> nat {
        if self.max_column_widths.contains_key(i as usize) {
            self.max_column_widths[i as usize] as nat
        } else {
            self.max_column_width as nat
        }
    }

    /// The limit of column `i`, raised to the least width of the column.
    pub open spec fn limit(&self, i: int) -> nat {
        larger(self.floor_upto(self.rows.len() as int, i), self.cap(i))
    }

    /// The width of column `i` before centred cells are looked at: what the
    /// content asks for, but no more than the limit.
    pub open spec fn base_width(&self, i: int) -> usize {
        smaller(self.limit(i), self.demand_upto(self.rows.len() as int, i)) as usize
    }

    /// The column widths before centred cells are looked at.
    pub open spec fn base_widths(&self) -> Seq<usize> {
        Seq::new(self.column_count(), |i: int| self.base_width(i))
    }

    /// The widths after a look at one cell that starts at column `col`. A
    /// centred cell whose content is not as wide as its columns, over columns
    /// of even width in all, makes its first column one wider if that column
    /// is below its limit.
    pub open spec fn centred_cell(&self, widths: Seq<usize>, cell: TableCell, col: int) -> Seq<
        usize,
    > {
        let total = span_width(widths, col, cell.col_span as int);
        if 0 <= col < widths.len() && cell.width_spec() != total && cell.alignment
            == Alignment::Center && total % 2 == 0 && widths[col] < self.cap(col) {
            widths.update(col, (widths[col] + 1) as usize)
        } else {
            widths
        }
    }

    /// The widths after a look at the first `k` cells of a row, in order.
    pub open spec fn centred_cells(&self, widths: Seq<usize>, cells: Seq<TableCell>, k: int) -> Seq<
        usize,
    >
        decreases k,
    {
        if k <= 0 {
            widths
        } else {
            self.centred_cell(
                self.centred_cells(widths, cells, k - 1),
                cells[k - 1],
                span_sum(cells, k - 1) as int,
            )
        }
    }

    /// The widths after a look at the first `r` rows, in order.
    pub open spec fn centred_rows(&self, widths: Seq<usize>, r: int) -> Seq<usize>
        decreases r,
    {
        if r <= 0 {
            widths
        } else {
            self.centred_cells(
                self.centred_rows(widths, r - 1),
                self.rows[r - 1].cells,
                self.rows[r - 1].cells.len() as int,
            )
        }
    }

    /// The column widths of the table.
    pub open spec fn widths(&self) -> Seq<usize> {
        self.centred_rows(self.base_widths(), self.rows.len() as int)
    }

    /// The border line above row `i`, merged with those above it.
    pub open spec fn separator_at(&self, widths: Seq<usize>, i: int) -> Seq<char>
        decreases i,
    {
        if i <= 0 {
            separator_line(self.rows[0].cells, widths, self.style, RowPosition::First, None)
        } else {
            separator_line(
                self.rows[i].cells,
                widths,
                self.style,
                RowPosition::Mid,
                Some(self.separator_at(widths, i - 1)),
            )
        }
    }

    /// Whether the border line above row `i` is shown.
    pub open spec fn shows_separator(&self, i: int) -> bool {
        self.rows[i].has_separator && ((i == 0 && self.has_top_boarder) || (i != 0
            && self.separate_rows))
    }

    /// The lines of row `i`; one empty line for a row without cells.
    pub open spec fn content_lines(&self, widths: Seq<usize>, i: int) -> Seq<Seq<Glyph>> {
        let lines = row_lines(self.rows[i].cells, widths, self.style);
        if lines.len() == 0 {
            seq![Seq::empty()]
        } else {
            lines
        }
    }

    /// The lines that row `i` adds to the output: its border line, if shown,
    /// and its content.
    pub open spec fn row_block(&self, widths: Seq<usize>, i: int) -> Seq<Seq<Glyph>> {
        if self.shows_separator(i) {
            seq![plain_line(self.separator_at(widths, i))] + self.content_lines(widths, i)
        } else {
            self.content_lines(widths, i)
        }
    }

    /// The lines of the first `r` rows.
    pub open spec fn lines_upto(&self, widths: Seq<usize>, r: int) -> Seq<Seq<Glyph>>
        decreases r,
    {
        if r <= 0 {
            Seq::empty()
        } else {
            self.lines_upto(widths, r - 1) + self.row_block(widths, r - 1)
        }
    }

    /// The border line below the last row.
    pub open spec fn bottom_line(&self, widths: Seq<usize>) -> Seq<char> {
        border_line(self.rows.last().cells, widths, self.style, RowPosition::Last)
    }

    /// The lines of the table, given its column widths. A table without rows
    /// has none.
    pub open spec fn lines_for(&self, widths: Seq<usize>) -> Seq<Seq<Glyph>> {
        if self.rows.len() == 0 {
            Seq::empty()
        } else if self.has_bottom_boarder {
            self.lines_upto(widths, self.rows.len() as int).push(
                plain_line(self.bottom_line(widths)),
            )
        } else {
            self.lines_upto(widths, self.rows.len() as int)
        }
    }

    /// The lines of the rendered table.
    pub open spec fn render_lines(&self) -> Seq<Seq<Glyph>> {
        self.lines_for(self.widths())
    }

    /// The rendered table: every line followed by a line feed.
    pub open spec fn render_text(&self) -> Seq<char> {
        emit_lines(texts_of(self.render_lines()))
    }

    /// The table can be rendered: its rows can be laid out, and a line of
    /// its width can be held.
    pub open spec fn renderable(&self) -> bool {
        self.well_formed() && line_budget(self.widths()) <= usize::MAX
    }
}

/// Emitting two runs of lines one after the other.
pub proof fn lemma_emit_concat(a: Seq<Seq<char>>, b: Seq<Seq<char>>)
    ensures
        emit_lines(a + b) == emit_lines(a) + emit_lines(b),
    decreases b.len(),
{
    if b.len() == 0 {
        assert(a + b =~= a);
        assert(emit_lines(a) + emit_lines(b) =~= emit_lines(a));
    } else {
        lemma_emit_concat(a, b.drop_last());
        assert((a + b).drop_last() =~= a + b.drop_last());
        assert((a + b).last() == b.last());
        assert(emit_lines(a + b) =~= emit_lines(a) + emit_lines(b));
    }
}

/// Lines joined by line feeds, with one more line feed at the end, are the
/// lines emitted.
pub proof fn lemma_join_emit(lines: Seq<Seq<char>>)
    requires
        lines.len() >= 1,
    ensures
        join_lines(lines, '\n').push('\n') == emit_lines(lines),
    decreases lines.len(),
{
    if lines.len() == 1 {
        assert(lines.drop_last() =~= Seq::<Seq<char>>::empty());
        assert(emit_lines(lines.drop_last()) =~= Seq::<char>::empty());
        assert(emit_lines(lines) =~= lines[0].push('\n'));
    } else {
        lemma_join_emit(lines.drop_last());
        assert(join_lines(lines, '\n').push('\n') =~= (join_lines(lines.drop_last(), '\n').push(
            '\n',
        ) + lines.last()).push('\n'));
    }
}

/// One line emitted is the line and a line feed.
pub proof fn lemma_emit_one(line: Seq<char>)
    ensures
        emit_lines(seq![line]) == line.push('\n'),
{
    let lines = seq![line];
    assert(lines.drop_last() =~= Seq::<Seq<char>>::empty());
    assert(emit_lines(lines.drop_last()) =~= Seq::<char>::empty());
    assert(emit_lines(lines) =~= line.push('\n'));
}

/// The characters of a line of visible glyphs are the text it was made of.
pub proof fn lemma_plain_line_chars(text: Seq<char>)
    ensures
        chars_of(plain_line(text)) == text,
{
    assert(chars_of(plain_line(text)) =~= text);
}

/// No row has more columns than the table.
pub proof fn lemma_row_columns_bounded(table: TableView, r: int, upto: int)
    requires
        0 <= r < upto <= table.rows.len(),
    ensures
        table.row_columns(r) <= table.columns_upto(upto),
    decreases upto,
{
    if r < upto - 1 {
        lemma_row_columns_bounded(table, r, upto - 1);
    }
}

/// A look at the first `k` cells of a row keeps the number of columns.
pub proof fn lemma_centred_cells_len(
    table: TableView,
    widths: Seq<usize>,
    cells: Seq<TableCell>,
    k: int,
)
    ensures
        table.centred_cells(widths, cells, k).len() == widths.len(),
    decreases k,
{
    if k > 0 {
        lemma_centred_cells_len(table, widths, cells, k - 1);
    }
}

/// A look at the first `r` rows keeps the number of columns.
pub proof fn lemma_centred_rows_len(table: TableView, widths: Seq<usize>, r: int)
    ensures
        table.centred_rows(widths, r).len() == widths.len(),
    decreases r,
{
    if r > 0 {
        lemma_centred_rows_len(table, widths, r - 1);
        lemma_centred_cells_len(
            table,
            table.centred_rows(widths, r - 1),
            table.rows[r - 1].cells,
            table.rows[r - 1].cells.len() as int,
        );
    }
}

/// The table has one width for each of its columns.
pub proof fn lemma_widths_len(table: TableView)
    ensures
        table.widths().len() == table.column_count(),
{
    lemma_centred_rows_len(table, table.base_widths(), table.rows.len() as int);
}

/// A set of rows with a style and limits on the column widths.
#[derive(Debug)]
pub struct Table {
    pub rows: Vec<Row>,
    pub style: TableStyle,
    /// The most that any column may take, unless `max_column_widths` has a
    /// limit for the column.
    pub max_column_width: usize,
    /// The most that single columns may take, by column index.
    pub max_column_widths: HashMap<usize, usize>,
    /// Whether border lines stand between the rows.
    pub separate_rows: bool,
    /// Whether a border line stands above the first row.
    pub has_top_boarder: bool,
    /// Whether a border line stands below the last row.
    pub has_bottom_boarder: bool,
}

impl View for Table {
    type V = TableView;

    open spec fn view(&self) -> TableView {
        TableView {
            rows: rows_view(self.rows@),
            style: self.style,
            max_column_width: self.max_column_width,
            max_column_widths: self.max_column_widths@,
            separate_rows: self.separate_rows,
            has_top_boarder: self.has_top_boarder,
            has_bottom_boarder: self.has_bottom_boarder,
        }
    }
}

/// A copy of the rows.
pub fn clone_rows(rows: &Vec<Row>) -> (copy: Vec<Row>)
    ensures
        rows_view(copy@) == rows_view(rows@),
{
    let mut copy: Vec<Row> = Vec::new();
    let mut i: usize = 0;
    while i < rows.len()
        invariant
            i <= rows.len(),
            copy@.len() == i,
            forall|j: int| 0 <= j < i ==> (#[trigger] copy@[j])@ == rows@[j]@,
        decreases rows.len() - i,
    {
        copy.push(rows[i].clone());
        i += 1;
    }
    assert(rows_view(copy@) =~= rows_view(rows@));
    copy
}

impl Clone for Table {
    fn clone(&self) -> (t: Self)
        ensures
            t@ == self@,
    {
        Table {
            rows: clone_rows(&self.rows),
            style: self.style,
            max_column_width: self.max_column_width,
            max_column_widths: self.max_column_widths.clone(),
            separate_rows: self.separate_rows,
            has_top_boarder: self.has_top_boarder,
            has_bottom_boarder: self.has_bottom_boarder,
        }
    }
}

impl Default for Table {
    fn default() -> (t: Self)
        ensures
            t@ == TableView::initial(),
    {
        Table::new()
    }
}

impl TableView {
    /// A table without rows: extended style, no limit on the column widths,
    /// every border shown.
    pub open spec fn initial() -> TableView {
        TableView {
            rows: Seq::empty(),
            style: TableStyle::extended_style(),
            max_column_width: usize::MAX,
            max_column_widths: Map::empty(),
            separate_rows: true,
            has_top_boarder: true,
            has_bottom_boarder: true,
        }
    }
}

/// Whether the cells can be laid out.
pub fn cells_can_fit(cells: &Vec<TableCell>) -> (fits: bool)
    ensures
        fits == cells_fit(cells@),
{
    let mut sum: usize = 0;
    let mut k: usize = 0;
    while k < cells.len()
        invariant
            k <= cells.len(),
            sum == span_sum(cells@, k as int),
            forall|c: int| 0 <= c < k ==> (#[trigger] cells@[c]).well_formed(),
        decreases cells.len() - k,
    {
        if cells[k].col_span == 0 {
            return false;
        }
        match sum.checked_add(cells[k].col_span) {
            Some(next) => {
                sum = next;
            },
            None => {
                proof {
                    lemma_span_sum_monotonic(cells@, k + 1, cells@.len() as int);
                }
                return false;
            },
        }
        k += 1;
    }
    true
}

/// Whether a line over the given columns can be held.
pub fn budget_fits(widths: &Vec<usize>) -> (fits: bool)
    ensures
        fits == (line_budget(widths@) <= usize::MAX),
{
    let n = widths.len();
    let mut sum: usize = 0;
    let mut i: usize = 0;
    while i < n
        invariant
            i <= n,
            n == widths@.len(),
            sum == span_width(widths@, 0, i as int),
        decreases n - i,
    {
        match sum.checked_add(widths[i]) {
            Some(next) => {
                sum = next;
            },
            None => {
                proof {
                    lemma_span_width_monotonic(widths@, 0, i + 1, n as int);
                }
                return false;
            },
        }
        i += 1;
    }
    match n.checked_mul(3) {
        Some(borders) => sum.checked_add(borders).is_some(),
        None => false,
    }
}

impl Table {
    /// A table without rows: extended style, no limit on the column widths,
    /// every border shown.
    pub fn new() -> (t: Table)
        ensures
            t@ == TableView::initial(),
    {
        let t = Table {
            rows: Vec::new(),
            style: TableStyle::extended(),
            max_column_width: usize::MAX,
            max_column_widths: HashMap::new(),
            separate_rows: true,
            has_top_boarder: true,
            has_bottom_boarder: true,
        };
        assert(t@.rows =~= Seq::empty());
        t
    }

    /// Starts a builder.
    pub fn builder() -> (b: TableBuilder)
        ensures
            b.table() == TableView::initial(),
    {
        TableBuilder::new()
    }

    /// A table of the given rows, otherwise as `new` makes it.
    pub fn with_rows(rows: Vec<Row>) -> (t: Table)
        ensures
            t@ == (TableView { rows: rows_view(rows@), ..TableView::initial() }),
    {
        Table {
            rows,
            style: TableStyle::extended(),
            max_column_width: usize::MAX,
            max_column_widths: HashMap::new(),
            separate_rows: true,
            has_top_boarder: true,
            has_bottom_boarder: true,
        }
    }

    /// Sets the most that any column may take.
    pub fn max_column_width(&mut self, max_column_width: usize) -> (t: &mut Self)
        ensures
            t@ == (TableView { max_column_width, ..old(self)@ }),
            *final(self) == *final(t),
    {
        self.max_column_width = max_column_width;
        self
    }

    /// Sets the most that one column may take.
    pub fn set_max_width_for_column(&mut self, column_index: usize, width: usize)
        ensures
            final(self)@ == (TableView {
                max_column_widths: old(self)@.max_column_widths.insert(column_index, width),
                ..old(self)@
            }),
    {
        self.max_column_widths.insert(column_index, width);
    }

    /// Sets the most that each of the given columns may take. Of two entries
    /// for one column the later counts.
    pub fn set_max_column_widths(&mut self, index_width_pairs: Vec<(usize, usize)>)
        ensures
            final(self)@ == (TableView {
                max_column_widths: insert_pairs(
                    old(self)@.max_column_widths,
                    index_width_pairs@,
                    index_width_pairs@.len() as int,
                ),
                ..old(self)@
            }),
    {
        let mut i: usize = 0;
        while i < index_width_pairs.len()
            invariant
                i <= index_width_pairs.len(),
                self@ == (TableView {
                    max_column_widths: insert_pairs(
                        old(self)@.max_column_widths,
                        index_width_pairs@,
                        i as int,
                    ),
                    ..old(self)@
                }),
            decreases index_width_pairs.len() - i,
        {
            let pair = index_width_pairs[i];
            self.max_column_widths.insert(pair.0, pair.1);
            i += 1;
        }
    }

    /// Adds a row below the others.
    pub fn add_row(&mut self, row: Row)
        ensures
            final(self)@ == (TableView { rows: old(self)@.rows.push(row@), ..old(self)@ }),
    {
        self.rows.push(row);
        assert(self@.rows =~= old(self)@.rows.push(row@));
    }

    /// Appends a line and a line feed to the buffer.
    pub fn buffer_line(buffer: &mut String, line: &str)
        ensures
            final(buffer)@ == (old(buffer)@ + line@).push('\n'),
    {
        buffer.append(line);
        buffer.push('\n');
    }

    /// The most that column `i` may take.
    fn cap_for(&self, i: usize) -> (cap: usize)
        ensures
            cap == self@.cap(i as int),
    {
        match self.max_column_widths.get(&i) {
            Some(width) => *width,
            None => self.max_column_width,
        }
    }

    /// The number of columns: the most that any row has.
    fn count_columns(&self) -> (n: usize)
        requires
            self@.well_formed(),
        ensures
            n == self@.column_count(),
    {
        let mut n: usize = 0;
        let mut r: usize = 0;
        while r < self.rows.len()
            invariant
                r <= self.rows.len(),
                self@.well_formed(),
                n == self@.columns_upto(r as int),
            decreases self.rows.len() - r,
        {
            assert(cells_fit(self@.rows[r as int].cells));
            let columns = self.rows[r].num_columns();
            if columns > n {
                n = columns;
            }
            r += 1;
        }
        n
    }

    /// What each row asks of each column.
    fn row_demands(&self) -> (demands: Vec<Vec<(usize, usize)>>)
        requires
            self@.well_formed(),
        ensures
            demands@.len() == self.rows@.len(),
            forall|r: int|
                0 <= r < demands@.len() ==> demands_view((#[trigger] demands@[r])@)
                    == column_demands(
                    self@.rows[r].cells,
                    self@.rows[r].cells.len() as int,
                ),
    {
        let mut demands: Vec<Vec<(usize, usize)>> = Vec::new();
        let mut r: usize = 0;
        while r < self.rows.len()
            invariant
                r <= self.rows.len(),
                self@.well_formed(),
                demands@.len() == r,
                forall|q: int|
                    0 <= q < r ==> demands_view((#[trigger] demands@[q])@)
                        == column_demands(
                        self@.rows[q].cells,
                        self@.rows[q].cells.len() as int,
                    ),
            decreases self.rows.len() - r,
        {
            assert(cells_fit(self@.rows[r as int].cells));
            demands.push(self.rows[r].split_column_widths());
            r += 1;
        }
        demands
    }

    /// The least width of each column.
    fn column_floors(&self, demands: &Vec<Vec<(usize, usize)>>, n: usize) -> (floors: Vec<usize>)
        requires
            self@.well_formed(),
            n == self@.column_count(),
            demands@.len() == self.rows@.len(),
            forall|r: int|
                0 <= r < demands@.len() ==> demands_view((#[trigger] demands@[r])@)
                    == column_demands(
                    self@.rows[r].cells,
                    self@.rows[r].cells.len() as int,
                ),
        ensures
            floors@.len() == n,
            forall|i: int|
                0 <= i < n ==> (#[trigger] floors@[i]) == self@.floor_upto(
                    self.rows@.len() as int,
                    i,
                ),
    {
        let mut floors: Vec<usize> = Vec::new();
        push_zeros(&mut floors, n);
        let mut r: usize = 0;
        while r < self.rows.len()
            invariant
                r <= self.rows.len(),
                self@.well_formed(),
                n == self@.column_count(),
                demands@.len() == self.rows@.len(),
                forall|q: int|
                    0 <= q < demands@.len() ==> demands_view((#[trigger] demands@[q])@)
                        == column_demands(
                        self@.rows[q].cells,
                        self@.rows[q].cells.len() as int,
                    ),
                floors@.len() == n,
                forall|i: int|
                    0 <= i < n ==> (#[trigger] floors@[i]) == self@.floor_upto(r as int, i),
            decreases self.rows.len() - r,
        {
            let row = &demands[r];
            let ghost cells = self@.rows[r as int].cells;
            proof {
                lemma_row_columns_bounded(self@, r as int, self.rows@.len() as int);
                lemma_column_demands_len(cells, cells.len() as int);
                assert(demands_view(row@).len() == row@.len());
            }
            let mut i: usize = 0;
            while i < row.len()
                invariant
                    i <= row.len(),
                    r < self.rows.len(),
                    row@.len() <= n,
                    cells == self@.rows[r as int].cells,
                    demands_view(row@) == column_demands(cells, cells.len() as int),
                    floors@.len() == n,
                    forall|c: int|
                        0 <= c < i ==> (#[trigger] floors@[c]) == self@.floor_upto(r + 1, c),
                    forall|c: int|
                        i <= c < n ==> (#[trigger] floors@[c]) == self@.floor_upto(r as int, c),
                decreases row.len() - i,
            {
                assert(demands_view(row@)[i as int] == demand_of(cells, i as int));
                if row[i].1 > floors[i] {
                    floors.set(i, row[i].1);
                }
                i += 1;
            }
            r += 1;
        }
        floors
    }

    /// The column widths before centred cells are looked at.
    fn column_bases(
        &self,
        demands: &Vec<Vec<(usize, usize)>>,
        floors: &Vec<usize>,
        n: usize,
    ) -> (widths: Vec<usize>)
        requires
            self@.well_formed(),
            n == self@.column_count(),
            demands@.len() == self.rows@.len(),
            forall|r: int|
                0 <= r < demands@.len() ==> demands_view((#[trigger] demands@[r])@)
                    == column_demands(
                    self@.rows[r].cells,
                    self@.rows[r].cells.len() as int,
                ),
            floors@.len() == n,
            forall|i: int|
                0 <= i < n ==> (#[trigger] floors@[i]) == self@.floor_upto(
                    self.rows@.len() as int,
                    i,
                ),
        ensures
            widths@ == self@.base_widths(),
    {
        let mut widths: Vec<usize> = Vec::new();
        push_zeros(&mut widths, n);
        let mut r: usize = 0;
        while r < self.rows.len()
            invariant
                r <= self.rows.len(),
                self@.well_formed(),
                n == self@.column_count(),
                demands@.len() == self.rows@.len(),
                forall|q: int|
                    0 <= q < demands@.len() ==> demands_view((#[trigger] demands@[q])@)
                        == column_demands(
                        self@.rows[q].cells,
                        self@.rows[q].cells.len() as int,
                    ),
                floors@.len() == n,
                forall|i: int|
                    0 <= i < n ==> (#[trigger] floors@[i]) == self@.floor_upto(
                        self.rows@.len() as int,
                        i,
                    ),
                widths@.len() == n,
                forall|i: int|
                    0 <= i < n ==> (#[trigger] widths@[i]) == smaller(
                        self@.limit(i),
                        self@.demand_upto(r as int, i),
                    ),
            decreases self.rows.len() - r,
        {
            let row = &demands[r];
            let ghost cells = self@.rows[r as int].cells;
            proof {
                lemma_row_columns_bounded(self@, r as int, self.rows@.len() as int);
                lemma_column_demands_len(cells, cells.len() as int);
                assert(demands_view(row@).len() == row@.len());
            }
            let mut i: usize = 0;
            while i < row.len()
                invariant
                    i <= row.len(),
                    r < self.rows.len(),
                    row@.len() <= n,
                    cells == self@.rows[r as int].cells,
                    demands_view(row@) == column_demands(cells, cells.len() as int),
                    floors@.len() == n,
                    forall|c: int|
                        0 <= c < n ==> (#[trigger] floors@[c]) == self@.floor_upto(
                            self.rows@.len() as int,
                            c,
                        ),
                    widths@.len() == n,
                    forall|c: int|
                        0 <= c < i ==> (#[trigger] widths@[c]) == smaller(
                            self@.limit(c),
                            self@.demand_upto(r + 1, c),
                        ),
                    forall|c: int|
                        i <= c < n ==> (#[trigger] widths@[c]) == smaller(
                            self@.limit(c),
                            self@.demand_upto(r as int, c),
                        ),
                decreases row.len() - i,
            {
                assert(demands_view(row@)[i as int] == demand_of(cells, i as int));
                let cap = self.cap_for(i);
                let limit = if floors[i] > cap {
                    floors[i]
                } else {
                    cap
                };
                let asked = if row[i].0 > widths[i] {
                    row[i].0
                } else {
                    widths[i]
                };
                widths.set(
                    i,
                    if asked < limit {
                        asked
                    } else {
                        limit
                    },
                );
                i += 1;
            }
            r += 1;
        }
        assert(widths@ =~= self@.base_widths());
        widths
    }

    /// Looks at every cell in turn and widens the first column of a centred
    /// cell where that lets the padding come out even.
    fn centre_pass(&self, widths: &mut Vec<usize>)
        requires
            self@.well_formed(),
            old(widths)@.len() == self@.column_count(),
        ensures
            final(widths)@ == self@.centred_rows(old(widths)@, self.rows@.len() as int),
    {
        let ghost start = widths@;
        let n = widths.len();
        let mut r: usize = 0;
        while r < self.rows.len()
            invariant
                r <= self.rows.len(),
                self@.well_formed(),
                n == self@.column_count(),
                widths@.len() == n,
                widths@ == self@.centred_rows(start, r as int),
            decreases self.rows.len() - r,
        {
            let row = &self.rows[r];
            let ghost cells = self@.rows[r as int].cells;
            let ghost before = widths@;
            proof {
                assert(cells == row.cells@);
                assert(cells_fit(cells));
                lemma_row_columns_bounded(self@, r as int, self.rows@.len() as int);
            }
            let mut col_index: usize = 0;
            let mut k: usize = 0;
            while k < row.cells.len()
                invariant
                    k <= row.cells.len(),
                    cells == row.cells@,
                    cells_fit(cells),
                    span_sum(cells, cells.len() as int) <= n,
                    col_index == span_sum(cells, k as int),
                    widths@.len() == n,
                    widths@ == self@.centred_cells(before, cells, k as int),
                decreases row.cells.len() - k,
            {
                let cell = &row.cells[k];
                proof {
                    assert(cells[k as int].well_formed());
                    lemma_span_sum_monotonic(cells, k + 1, cells.len() as int);
                }
                let mut total_col_width: u128 = 0;
                let mut j: usize = 0;
                while j < cell.col_span
                    invariant
                        j <= cell.col_span,
                        col_index + cell.col_span <= n,
                        widths@.len() == n,
                        total_col_width == span_width(widths@, col_index as int, j as int),
                        total_col_width <= j * 0xFFFF_FFFF_FFFF_FFFF,
                    decreases cell.col_span - j,
                {
                    assert(j * 0xFFFF_FFFF_FFFF_FFFF + 0xFFFF_FFFF_FFFF_FFFF <= u128::MAX)
                        by (nonlinear_arith)
                        requires
                            j <= 0xFFFF_FFFF_FFFF_FFFF,
                    ;
                    total_col_width = total_col_width + widths[col_index + j] as u128;
                    j += 1;
                }
                if cell.width() as u128 != total_col_width && is_centre(cell.alignment)
                    && total_col_width % 2 == 0 {
                    let max_col_width = self.cap_for(col_index);
                    if widths[col_index] < max_col_width {
                        widths.set(col_index, widths[col_index] + 1);
                    }
                }
                col_index += cell.col_span;
                k += 1;
            }
            r += 1;
        }
    }

    /// Resolves the width of every column.
    ///
    /// A column is as wide as the widest share that a cell over it asks for,
    /// but no wider than its limit; the limit is never below the least width
    /// that shows every character. Then each centred cell whose content is
    /// not as wide as its columns, over an even number of columns in all,
    /// widens its first column by one if the column is below its limit.
    pub fn calculate_max_column_widths(&self) -> (widths: Vec<usize>)
        requires
            self@.well_formed(),
        ensures
            widths@ == self@.widths(),
    {
        let n = self.count_columns();
        let demands = self.row_demands();
        let floors = self.column_floors(&demands, n);
        let mut widths = self.column_bases(&demands, &floors, n);
        self.centre_pass(&mut widths);
        widths
    }

    /// Renders the table.
    ///
    /// Above each row stands its border line, if the row allows one and the
    /// table shows it: the top border for the first row, a separator for the
    /// others. The border line of each row is merged with that of the row
    /// above, shown or not. Below the last row stands the bottom border, if
    /// the table shows it. Every line ends with a line feed. A table without
    /// rows renders to the empty string.
    pub fn render(&self) -> (out: String)
        requires
            self@.renderable(),
        ensures
            out@ == self@.render_text(),
    {
        let mut print_buffer = String::new();
        let max_widths = self.calculate_max_column_widths();
        let ghost widths = max_widths@;
        let mut previous_separator: Option<String> = None;
        proof {
            lemma_widths_len(self@);
        }
        if self.rows.len() == 0 {
            assert(texts_of(self@.render_lines()) =~= Seq::<Seq<char>>::empty());
            return print_buffer;
        }
        let mut i: usize = 0;
        while i < self.rows.len()
            invariant
                i <= self.rows.len(),
                self@.well_formed(),
                widths == max_widths@,
                widths == self@.widths(),
                widths.len() == self@.column_count(),
                line_budget(widths) <= usize::MAX,
                print_buffer@ == emit_lines(texts_of(self@.lines_upto(widths, i as int))),
                i == 0 ==> previous_separator is None,
                i > 0 ==> (previous_separator matches Some(prev) && prev@ == self@.separator_at(
                    widths,
                    i - 1,
                )),
            decreases self.rows.len() - i,
        {
            let row = &self.rows[i];
            let ghost cells = self@.rows[i as int].cells;
            let ghost done = self@.lines_upto(widths, i as int);
            let ghost buffer = print_buffer@;
            proof {
                assert(cells == row.cells@);
                assert(cells_fit(cells));
                lemma_row_columns_bounded(self@, i as int, self.rows@.len() as int);
            }
            let row_pos = if i == 0 {
                RowPosition::First
            } else {
                RowPosition::Mid
            };
            let separator = row.gen_separator(&max_widths, &self.style, row_pos, previous_separator);
            assert(separator@ == self@.separator_at(widths, i as int));
            let shown = row.has_separator && ((i == 0 && self.has_top_boarder) || (i != 0
                && self.separate_rows));
            if shown {
                Table::buffer_line(&mut print_buffer, separator.as_str());
            }
            let content = row.format(&max_widths, &self.style);
            Table::buffer_line(&mut print_buffer, content.as_str());
            proof {
                let lines = row_lines(cells, widths, self@.style);
                let block = self@.row_block(widths, i as int);
                let content_lines = self@.content_lines(widths, i as int);
                if lines.len() == 0 {
                    assert(chars_of(Seq::<Glyph>::empty()) =~= Seq::<char>::empty());
                    assert(texts_of(content_lines) =~= seq![Seq::<char>::empty()]);
                    lemma_emit_one(Seq::<char>::empty());
                    assert(texts_of(lines) =~= Seq::<Seq<char>>::empty());
                    assert(content@ =~= Seq::<char>::empty());
                } else {
                    lemma_join_emit(texts_of(lines));
                }
                assert(content@.push('\n') == emit_lines(texts_of(content_lines)));
                if shown {
                    let sep = seq![plain_line(separator@)];
                    lemma_plain_line_chars(separator@);
                    assert(texts_of(sep) =~= seq![separator@]);
                    lemma_emit_one(separator@);
                    assert(texts_of(block) =~= texts_of(sep) + texts_of(content_lines));
                    lemma_emit_concat(texts_of(sep), texts_of(content_lines));
                    assert(emit_lines(texts_of(block)) =~= (separator@.push('\n') + content@).push(
                        '\n',
                    ));
                } else {
                    assert(emit_lines(texts_of(block)) =~= content@.push('\n'));
                }
                assert(texts_of(done + block) =~= texts_of(done) + texts_of(block));
                lemma_emit_concat(texts_of(done), texts_of(block));
                assert(print_buffer@ =~= buffer + emit_lines(texts_of(block)));
            }
            previous_separator = Some(separator);
            i += 1;
        }
        if self.has_bottom_boarder {
            let last = &self.rows[self.rows.len() - 1];
            let ghost done = self@.lines_upto(widths, self.rows@.len() as int);
            proof {
                assert(self@.rows.last().cells == last.cells@);
                assert(cells_fit(last.cells@));
            }
            let separator = last.gen_separator(&max_widths, &self.style, RowPosition::Last, None);
            Table::buffer_line(&mut print_buffer, separator.as_str());
            proof {
                let bottom = seq![plain_line(separator@)];
                lemma_plain_line_chars(separator@);
                assert(texts_of(bottom) =~= seq![separator@]);
                lemma_emit_one(separator@);
                assert(self@.render_lines() =~= done + bottom);
                assert(texts_of(done + bottom) =~= texts_of(done) + texts_of(bottom));
                lemma_emit_concat(texts_of(done), texts_of(bottom));
            }
        }
        print_buffer
    }

    /// Renders the table if it can be rendered: if every cell spans at least
    /// one column, the columns of each row can be counted, and a line of the
    /// table's width can be held.
    pub fn try_render(&self) -> (out: Option<String>)
        ensures
            match out {
                Some(text) => self@.renderable() && text@ == self@.render_text(),
                None => !self@.renderable(),
            },
    {
        let mut r: usize = 0;
        while r < self.rows.len()
            invariant
                r <= self.rows.len(),
                forall|q: int| 0 <= q < r ==> cells_fit((#[trigger] self@.rows[q]).cells),
            decreases self.rows.len() - r,
        {
            if !cells_can_fit(&self.rows[r].cells) {
                assert(!cells_fit(self@.rows[r as int].cells));
                return None;
            }
            r += 1;
        }
        let widths = self.calculate_max_column_widths();
        if !budget_fits(&widths) {
            return None;
        }
        Some(self.render())
    }
}

/// Whether the alignment is `Center`.
pub fn is_centre(alignment: Alignment) -> (b: bool)
    ensures
        b == (alignment == Alignment::Center),
{
    match alignment {
        Alignment::Center => true,
        _ => false,
    }
}

/// Appends `n` zeros.
pub fn push_zeros(out: &mut Vec<usize>, n: usize)
    ensures
        final(out)@.len() == old(out)@.len() + n,
        forall|i: int| 0 <= i < old(out)@.len() ==> final(out)@[i] == old(out)@[i],
        forall|i: int| old(out)@.len() <= i < final(out)@.len() ==> final(out)@[i] == 0,
{
    let mut i: usize = 0;
    while i < n
        invariant
            i <= n,
            out@.len() == old(out)@.len() + i,
            forall|j: int| 0 <= j < old(out)@.len() ==> out@[j] == old(out)@[j],
            forall|j: int| old(out)@.len() <= j < out@.len() ==> out@[j] == 0,
        decreases n - i,
    {
        out.push(0);
        i += 1;
    }
}

/// Collects the properties of a table.
#[derive(Debug)]
pub struct TableBuilder {
    rows: Vec<Row>,
    style: TableStyle,
    max_column_width: usize,
    max_column_widths: HashMap<usize, usize>,
    separate_rows: bool,
    has_top_boarder: bool,
    has_bottom_boarder: bool,
}

impl Clone for TableBuilder {
    fn clone(&self) -> (b: Self)
        ensures
            b.table() == self.table(),
    {
        TableBuilder {
            rows: clone_rows(&self.rows),
            style: self.style,
            max_column_width: self.max_column_width,
            max_column_widths: self.max_column_widths.clone(),
            separate_rows: self.separate_rows,
            has_top_boarder: self.has_top_boarder,
            has_bottom_boarder: self.has_bottom_boarder,
        }
    }
}

impl Default for TableBuilder {
    fn default() -> (b: Self)
        ensures
            b.table() == TableView::initial(),
    {
        TableBuilder::new()
    }
}

impl TableBuilder {
    /// What the table that `build` would give holds.
    pub closed spec fn table(&self) -> TableView {
        TableView {
            rows: rows_view(self.rows@),
            style: self.style,
            max_column_width: self.max_column_width,
            max_column_widths: self.max_column_widths@,
            separate_rows: self.separate_rows,
            has_top_boarder: self.has_top_boarder,
            has_bottom_boarder: self.has_bottom_boarder,
        }
    }

    /// A builder for a table without rows: extended style, no limit on the
    /// column widths, every border shown.
    pub fn new() -> (b: TableBuilder)
        ensures
            b.table() == TableView::initial(),
    {
        let b = TableBuilder {
            rows: Vec::new(),
            style: TableStyle::extended(),
            max_column_width: usize::MAX,
            max_column_widths: HashMap::new(),
            separate_rows: true,
            has_top_boarder: true,
            has_bottom_boarder: true,
        };
        assert(b.table().rows =~= Seq::empty());
        b
    }

    /// Sets the rows.
    pub fn rows(&mut self, rows: Vec<Row>) -> (b: &mut Self)
        ensures
            b.table() == (TableView { rows: rows_view(rows@), ..old(self).table() }),
            *final(self) == *final(b),
    {
        self.rows = rows;
        self
    }

    /// Sets the style.
    pub fn style(&mut self, style: TableStyle) -> (b: &mut Self)
        ensures
            b.table() == (TableView { style, ..old(self).table() }),
            *final(self) == *final(b),
    {
        self.style = style;
        self
    }

    /// Sets the most that any column may take.
    pub fn max_column_width(&mut self, max_column_width: usize) -> (b: &mut Self)
        ensures
            b.table() == (TableView { max_column_width, ..old(self).table() }),
            *final(self) == *final(b),
    {
        self.max_column_width = max_column_width;
        self
    }

    /// Sets the most that single columns may take, by column index.
    pub fn max_column_widths(&mut self, max_column_widths: HashMap<usize, usize>) -> (b: &mut Self)
        ensures
            b.table() == (TableView {
                max_column_widths: max_column_widths@,
                ..old(self).table()
            }),
            *final(self) == *final(b),
    {
        self.max_column_widths = max_column_widths;
        self
    }

    /// Sets whether border lines stand between the rows.
    pub fn separate_rows(&mut self, separate_rows: bool) -> (b: &mut Self)
        ensures
            b.table() == (TableView { separate_rows, ..old(self).table() }),
            *final(self) == *final(b),
    {
        self.separate_rows = separate_rows;
        self
    }

    /// Sets whether a border line stands above the first row.
    pub fn has_top_boarder(&mut self, has_top_boarder: bool) -> (b: &mut Self)
        ensures
            b.table() == (TableView { has_top_boarder, ..old(self).table() }),
            *final(self) == *final(b),
    {
        self.has_top_boarder = has_top_boarder;
        self
    }

    /// Sets whether a border line stands below the last row.
    pub fn has_bottom_boarder(&mut self, has_bottom_boarder: bool) -> (b: &mut Self)
        ensures
            b.table() == (TableView { has_bottom_boarder, ..old(self).table() }),
            *final(self) == *final(b),
    {
        self.has_bottom_boarder = has_bottom_boarder;
        self
    }

    /// The table.
    pub fn build(&self) -> (t: Table)
        ensures
            t@ == self.table(),
    {
        Table {
            rows: clone_rows(&self.rows),
            style: self.style,
            max_column_width: self.max_column_width,
            max_column_widths: self.max_column_widths.clone(),
            separate_rows: self.separate_rows,
            has_top_boarder: self.has_top_boarder,
            has_bottom_boarder: self.has_bottom_boarder,
        }
    }
}

} // verus!
