//! Rows: an ordered run of cells, rendered against a set of column widths.

use crate::style::{RowPosition, TableStyle};
use crate::table_cell::{lemma_wrapped_lines_fit, Alignment, TableCell};
use crate::width::{
    border_cols, border_columns, char_cols, chars_of, from_chars, glyph_cols, glyphs_width,
    lemma_width_concat, lemma_width_push, plain, to_chars, Glyph,
};
use crate::wrap::{join_lines, lines_view, lines_well_formed, Line};
use vstd::prelude::*;

verus! {

/// The columns that the first `k` cells take.
pub open spec fn span_sum(cells: Seq<TableCell>, k: int) -> nat
    decreases k,
{
    if k <= 0 {
        0
    } else {
        span_sum(cells, k - 1) + cells[k - 1].col_span as nat
    }
}

/// Every cell spans at least one column.
pub open spec fn cells_well_formed(cells: Seq<TableCell>) -> bool {
    forall|k: int| 0 <= k < cells.len() ==> (#[trigger] cells[k]).well_formed()
}

/// The sum of `span` column widths from column `col` on.
pub open spec fn span_width(widths: Seq<usize>, col: int, span: int) -> nat
    decreases span,
{
    if span <= 0 {
        0
    } else {
        span_width(widths, col, span - 1) + widths[col + span - 1] as nat
    }
}

/// The sum of all column widths.
pub open spec fn total_width(widths: Seq<usize>) -> nat {
    span_width(widths, 0, widths.len() as int)
}

/// Columns of fill to the left of a line that gets `padding` columns in all.
pub open spec fn left_fill(padding: nat, alignment: Alignment) -> nat {
    match alignment {
        Alignment::Left => 0,
        Alignment::Right => padding,
        Alignment::Center => (padding + 1) / 2,
    }
}

/// Columns of fill to the right of a line that gets `padding` columns in all.
pub open spec fn right_fill(padding: nat, alignment: Alignment) -> nat {
    match alignment {
        Alignment::Left => padding,
        Alignment::Right => 0,
        Alignment::Center => padding / 2,
    }
}

/// `n` copies of `item`.
pub open spec fn repeated<T>(item: T, n: nat) -> Seq<T> {
    Seq::new(n, |i: int| item)
}

/// A line with `padding` copies of `fill` around it, placed by the alignment:
/// all to the right for `Left`, all to the left for `Right`; for `Center` the
/// left side gets the half rounded up and the right side the half rounded
/// down.
pub open spec fn aligned<T>(line: Seq<T>, fill: T, padding: nat, alignment: Alignment) -> Seq<T> {
    repeated(fill, left_fill(padding, alignment)) + line + repeated(
        fill,
        right_fill(padding, alignment),
    )
}

/// Whether a column boundary of the cells lies before column `i`: one cell
/// ends and the next begins there, or the cells have ended before it.
pub open spec fn is_boundary(cells: Seq<TableCell>, i: int) -> bool {
    i > span_sum(cells, cells.len() as int) || exists|k: int|
        0 < k <= cells.len() && #[trigger] span_sum(cells, k) == i
}

/// The character of a border line between column `i - 1` and column `i`.
pub open spec fn joint(cells: Seq<TableCell>, style: TableStyle, pos: RowPosition, i: int) -> char {
    if is_boundary(cells, i) {
        style.intersect_of(pos)
    } else {
        style.horizontal
    }
}

/// A border line up to and including the fill of column `n - 1`.
pub open spec fn border_upto(
    cells: Seq<TableCell>,
    widths: Seq<usize>,
    style: TableStyle,
    pos: RowPosition,
    n: int,
) -> Seq<char>
    decreases n,
{
    if n <= 0 {
        seq![style.start_of(pos)]
    } else {
        let before = border_upto(cells, widths, style, pos, n - 1);
        let fill = repeated(style.horizontal, widths[n - 1] as nat);
        if n == 1 {
            before + fill
        } else {
            before.push(joint(cells, style, pos, n - 1)) + fill
        }
    }
}

/// The border line of a row, not yet merged with the one above.
pub open spec fn border_line(
    cells: Seq<TableCell>,
    widths: Seq<usize>,
    style: TableStyle,
    pos: RowPosition,
) -> Seq<char> {
    border_upto(cells, widths, style, pos, widths.len() as int).push(style.end_of(pos))
}

/// The character at index `j` of a border line merged with the one above.
/// The two ends keep the new line's character; a place where both lines run
/// plain stays plain; any other place gets the junction of the two.
pub open spec fn merged_at(
    style: TableStyle,
    pos: RowPosition,
    line: Seq<char>,
    above: Seq<char>,
    j: int,
) -> char {
    if j == 0 || j == line.len() - 1 {
        line[j]
    } else if line[j] == style.horizontal && above[j] == style.horizontal {
        style.horizontal
    } else {
        style.merge_of(above[j], line[j], pos)
    }
}

/// A border line merged with the one above, as far as both reach.
pub open spec fn merged(style: TableStyle, pos: RowPosition, line: Seq<char>, above: Seq<char>) -> Seq<
    char,
> {
    Seq::new(
        if line.len() <= above.len() {
            line.len()
        } else {
            above.len()
        },
        |j: int| merged_at(style, pos, line, above, j),
    )
}

/// The border line above a row: drawn for the row's own column boundaries,
/// then merged with the border line above it, if any.
pub open spec fn separator_line(
    cells: Seq<TableCell>,
    widths: Seq<usize>,
    style: TableStyle,
    pos: RowPosition,
    above: Option<Seq<char>>,
) -> Seq<char> {
    let line = border_line(cells, widths, style, pos);
    match above {
        Some(prev) => merged(style, pos, line, prev),
        None => line,
    }
}

/// The cells can be laid out: each spans at least one column, and together
/// they span no more columns than can be counted.
pub open spec fn cells_fit(cells: Seq<TableCell>) -> bool {
    cells_well_formed(cells) && span_sum(cells, cells.len() as int) <= usize::MAX
}

/// The column before which boundary number `c` lies, counted from 0: the end
/// of cell `c` while there are cells, then every column.
pub open spec fn boundary(cells: Seq<TableCell>, c: int) -> nat {
    if c < cells.len() {
        span_sum(cells, c + 1)
    } else {
        (span_sum(cells, cells.len() as int) + (c - cells.len()) + 1) as nat
    }
}

/// The columns taken grow with the number of cells.
pub proof fn lemma_span_sum_monotonic(cells: Seq<TableCell>, a: int, b: int)
    requires
        a <= b,
    ensures
        span_sum(cells, a) <= span_sum(cells, b),
    decreases b - a,
{
    if a < b {
        lemma_span_sum_monotonic(cells, a, b - 1);
    }
}

/// Each boundary lies after the one before.
pub proof fn lemma_boundary_increasing(cells: Seq<TableCell>, a: int, b: int)
    requires
        cells_well_formed(cells),
        0 <= a < b,
    ensures
        boundary(cells, a) < boundary(cells, b),
    decreases b - a,
{
    if a + 1 < b {
        lemma_boundary_increasing(cells, a, b - 1);
    }
    let c = b - 1;
    if b < cells.len() {
        assert(cells[b].well_formed());
    } else if c < cells.len() {
    } else {
    }
}

/// When boundary `c` is the first that is not before column `i`, a boundary
/// lies before column `i` exactly if it is boundary `c`.
pub proof fn lemma_boundary_found(cells: Seq<TableCell>, c: int, i: int)
    requires
        cells_well_formed(cells),
        0 <= c,
        c == 0 || boundary(cells, c - 1) < i,
        i <= boundary(cells, c),
    ensures
        is_boundary(cells, i) <==> i == boundary(cells, c),
{
    let m = cells.len() as int;
    if is_boundary(cells, i) {
        let d: int = if i > span_sum(cells, m) {
            i - span_sum(cells, m) - 1 + m
        } else {
            let k = choose|k: int| 0 < k <= cells.len() && #[trigger] span_sum(cells, k) == i;
            k - 1
        };
        assert(boundary(cells, d) == i);
        if d < c {
            if d < c - 1 {
                lemma_boundary_increasing(cells, d, c - 1);
            }
        } else if d > c {
            lemma_boundary_increasing(cells, c, d);
        }
    }
    if i == boundary(cells, c) {
        if c < m {
            assert(span_sum(cells, c + 1) == i);
        }
    }
}

/// What each column is asked for by the first `k` cells: for every column
/// that a cell spans, the cell's share of its content width and its share of
/// its least width.
pub open spec fn column_demands(cells: Seq<TableCell>, k: int) -> Seq<(nat, nat)>
    decreases k,
{
    if k <= 0 {
        Seq::empty()
    } else {
        column_demands(cells, k - 1) + repeated(
            (cells[k - 1].split_width_spec(), cells[k - 1].split_min_width_spec()),
            cells[k - 1].col_span as nat,
        )
    }
}

/// What the cells ask of column `i`; nothing where no cell covers it.
pub open spec fn demand_of(cells: Seq<TableCell>, i: int) -> (nat, nat) {
    let demands = column_demands(cells, cells.len() as int);
    if 0 <= i < demands.len() {
        demands[i]
    } else {
        (0, 0)
    }
}

/// The pair at index `i`, as natural numbers.
pub open spec fn demand_at(pairs: Seq<(usize, usize)>, i: int) -> (nat, nat) {
    (pairs[i].0 as nat, pairs[i].1 as nat)
}

/// The pairs as natural numbers.
pub open spec fn demands_view(pairs: Seq<(usize, usize)>) -> Seq<(nat, nat)> {
    Seq::new(pairs.len(), |i: int| demand_at(pairs, i))
}

/// The columns that a spanning cell gains from the border characters that it
/// covers.
pub open spec fn covered_borders(cell: TableCell, style: TableStyle) -> nat {
    (border_cols(style.vertical) * (cell.col_span - 1)) as nat
}

/// The width that a cell starting at column `col` is wrapped to: the widths
/// of its columns and one column for each border between them.
pub open spec fn cell_room(cell: TableCell, widths: Seq<usize>, col: int) -> nat {
    (span_width(widths, col, cell.col_span as int) + cell.col_span - 1) as nat
}

/// What a cell starting at column `col` shows on line `l` of its row: its
/// wrapped line, padded by the alignment to the width of its columns and of
/// the borders between them, or blanks of that width when the cell has no
/// such line. A line that is wider gets no padding.
pub open spec fn cell_segment(
    cell: TableCell,
    widths: Seq<usize>,
    col: int,
    style: TableStyle,
    l: int,
) -> Seq<Glyph> {
    let columns = span_width(widths, col, cell.col_span as int);
    let lines = cell.wrap_spec(cell_room(cell, widths, col));
    if l < lines.len() {
        let used = glyphs_width(lines[l]);
        let room = columns + covered_borders(cell, style);
        let padding = if room >= used {
            (room - used) as nat
        } else {
            0
        };
        aligned(lines[l], plain(' '), padding, cell.alignment)
    } else {
        repeated(plain(' '), columns + covered_borders(cell, style))
    }
}

/// Line `l` of a row as far as its first `k` cells go: before each cell the
/// vertical border character, then what the cell shows.
pub open spec fn cells_segments(
    cells: Seq<TableCell>,
    widths: Seq<usize>,
    style: TableStyle,
    l: int,
    k: int,
) -> Seq<Glyph>
    decreases k,
{
    if k <= 0 {
        Seq::empty()
    } else {
        cells_segments(cells, widths, style, l, k - 1).push(plain(style.vertical)) + cell_segment(
            cells[k - 1],
            widths,
            span_sum(cells, k - 1) as int,
            style,
            l,
        )
    }
}

/// Blank columns `from` up to `to`, each after a vertical border character.
pub open spec fn filler_segments(widths: Seq<usize>, style: TableStyle, from: int, to: int) -> Seq<
    Glyph,
>
    decreases to - from,
{
    if to <= from {
        Seq::empty()
    } else {
        filler_segments(widths, style, from, to - 1).push(plain(style.vertical)) + repeated(
            plain(' '),
            widths[to - 1] as nat,
        )
    }
}

/// Line `l` of a row: the cells, blanks for the columns that no cell covers,
/// and the closing vertical border character.
pub open spec fn row_line(cells: Seq<TableCell>, widths: Seq<usize>, style: TableStyle, l: int) -> Seq<
    Glyph,
> {
    (cells_segments(cells, widths, style, l, cells.len() as int) + filler_segments(
        widths,
        style,
        span_sum(cells, cells.len() as int) as int,
        widths.len() as int,
    )).push(plain(style.vertical))
}

/// The number of lines of the tallest of the first `k` cells.
pub open spec fn row_height(cells: Seq<TableCell>, widths: Seq<usize>, k: int) -> nat
    decreases k,
{
    if k <= 0 {
        0
    } else {
        let before = row_height(cells, widths, k - 1);
        let lines = cells[k - 1].wrap_spec(
            cell_room(cells[k - 1], widths, span_sum(cells, k - 1) as int),
        ).len();
        if lines > before {
            lines
        } else {
            before
        }
    }
}

/// The lines of a row: as many as its tallest cell has.
pub open spec fn row_lines(cells: Seq<TableCell>, widths: Seq<usize>, style: TableStyle) -> Seq<
    Seq<Glyph>,
> {
    Seq::new(
        row_height(cells, widths, cells.len() as int),
        |l: int| row_line(cells, widths, style, l),
    )
}

/// The characters of line `i`.
pub open spec fn text_at(lines: Seq<Seq<Glyph>>, i: int) -> Seq<char> {
    chars_of(lines[i])
}

/// The characters of each line.
pub open spec fn texts_of(lines: Seq<Seq<Glyph>>) -> Seq<Seq<char>> {
    Seq::new(lines.len(), |i: int| text_at(lines, i))
}

/// The most columns that a line of a row can need: every column with its
/// width, and at most three columns for the border character beside it.
pub open spec fn line_budget(widths: Seq<usize>) -> nat {
    total_width(widths) + 3 * widths.len()
}

/// A run of columns is no wider than a run that contains it.
pub proof fn lemma_span_width_monotonic(widths: Seq<usize>, col: int, a: int, b: int)
    requires
        a <= b,
    ensures
        span_width(widths, col, a) <= span_width(widths, col, b),
    decreases b - a,
{
    if a < b {
        lemma_span_width_monotonic(widths, col, a, b - 1);
    }
}

/// A run of columns splits into the columns before `col` and those from
/// `col` on.
pub proof fn lemma_span_width_split(widths: Seq<usize>, col: int, span: int)
    requires
        0 <= col,
        0 <= span,
    ensures
        span_width(widths, 0, col + span) == span_width(widths, 0, col) + span_width(
            widths,
            col,
            span,
        ),
    decreases span,
{
    if span > 0 {
        lemma_span_width_split(widths, col, span - 1);
    }
}

/// A run of columns inside the table is no wider than all columns together.
pub proof fn lemma_span_width_bounded(widths: Seq<usize>, col: int, span: int)
    requires
        0 <= col,
        0 <= span,
        col + span <= widths.len(),
    ensures
        span_width(widths, col, span) <= total_width(widths),
{
    lemma_span_width_split(widths, col, span);
    lemma_span_width_monotonic(widths, 0, col + span, widths.len() as int);
}

/// The demands of the first `k` cells cover as many columns as the cells
/// span.
pub proof fn lemma_column_demands_len(cells: Seq<TableCell>, k: int)
    ensures
        column_demands(cells, k).len() == span_sum(cells, k),
    decreases k,
{
    if k > 0 {
        lemma_column_demands_len(cells, k - 1);
    }
}

/// Centred padding is balanced: the two sides share the padding, and the
/// left side has the same as the right side or one more.
pub proof fn lemma_centre_padding_balanced(padding: nat)
    ensures
        left_fill(padding, Alignment::Center) + right_fill(padding, Alignment::Center) == padding,
        right_fill(padding, Alignment::Center) <= left_fill(padding, Alignment::Center)
            <= right_fill(padding, Alignment::Center) + 1,
{
}

/// Whatever the alignment, the two sides share the padding.
pub proof fn lemma_fill_sum(padding: nat, alignment: Alignment)
    ensures
        left_fill(padding, alignment) + right_fill(padding, alignment) == padding,
{
}

/// `n` copies of a glyph are `n` times as wide as one.
pub proof fn lemma_repeated_width(g: Glyph, n: nat)
    ensures
        glyphs_width(repeated(g, n)) == n * glyph_cols(g),
    decreases n,
{
    if n > 0 {
        lemma_repeated_width(g, (n - 1) as nat);
        assert(repeated(g, n).drop_last() =~= repeated(g, (n - 1) as nat));
        assert(n * glyph_cols(g) == (n - 1) * glyph_cols(g) + glyph_cols(g)) by (nonlinear_arith);
    } else {
        assert(0 * glyph_cols(g) == 0);
    }
}

/// A line padded with blanks is wider by the padding.
pub proof fn lemma_aligned_width(line: Seq<Glyph>, padding: nat, alignment: Alignment)
    ensures
        glyphs_width(aligned(line, plain(' '), padding, alignment)) == glyphs_width(line) + padding,
{
    let left = repeated(plain(' '), left_fill(padding, alignment));
    let right = repeated(plain(' '), right_fill(padding, alignment));
    lemma_repeated_width(plain(' '), left_fill(padding, alignment));
    lemma_repeated_width(plain(' '), right_fill(padding, alignment));
    lemma_width_concat(left, line);
    lemma_width_concat(left + line, right);
    lemma_fill_sum(padding, alignment);
    assert(glyph_cols(plain(' ')) == 1);
    assert(left_fill(padding, alignment) * 1 == left_fill(padding, alignment));
    assert(right_fill(padding, alignment) * 1 == right_fill(padding, alignment));
}

/// Whether each cell's columns hold its padding and any one visible
/// character of its content.
pub open spec fn cells_fit_columns(cells: Seq<TableCell>, widths: Seq<usize>) -> bool {
    forall|k: int|
        0 <= k < cells.len() ==> (#[trigger] cells[k]).fits_in(
            cell_room(cells[k], widths, span_sum(cells, k) as int),
        )
}

/// Whether the vertical border character takes one column, alone and under a
/// spanning cell.
pub open spec fn single_bar(style: TableStyle) -> bool {
    char_cols(style.vertical) == 1 && border_cols(style.vertical) == 1
}

/// What a cell shows on a line is as wide as its columns and the borders
/// between them.
pub proof fn lemma_cell_segment_width(
    cell: TableCell,
    widths: Seq<usize>,
    col: int,
    style: TableStyle,
    l: int,
)
    requires
        cell.well_formed(),
        single_bar(style),
        cell.fits_in(cell_room(cell, widths, col)),
        0 <= l,
    ensures
        glyphs_width(cell_segment(cell, widths, col, style, l)) == cell_room(cell, widths, col),
{
    let columns = span_width(widths, col, cell.col_span as int);
    let room = cell_room(cell, widths, col);
    assert(covered_borders(cell, style) == cell.col_span - 1) by (nonlinear_arith)
        requires
            covered_borders(cell, style) == (border_cols(style.vertical) * (cell.col_span - 1)),
            border_cols(style.vertical) == 1,
    ;
    let lines = cell.wrap_spec(room);
    if l < lines.len() {
        lemma_wrapped_lines_fit(cell, room);
        assert(glyphs_width(lines[l]) <= room);
        lemma_aligned_width(lines[l], (room - glyphs_width(lines[l])) as nat, cell.alignment);
    } else {
        lemma_repeated_width(plain(' '), room);
        assert(room * 1 == room);
    }
}

/// A line of a row is as wide over its first `k` cells as their columns and
/// one border character for each column.
pub proof fn lemma_cells_segments_width(
    cells: Seq<TableCell>,
    widths: Seq<usize>,
    style: TableStyle,
    l: int,
    k: int,
)
    requires
        cells_well_formed(cells),
        cells_fit_columns(cells, widths),
        single_bar(style),
        0 <= l,
        0 <= k <= cells.len(),
    ensures
        glyphs_width(cells_segments(cells, widths, style, l, k)) == span_width(
            widths,
            0,
            span_sum(cells, k) as int,
        ) + span_sum(cells, k),
    decreases k,
{
    if k > 0 {
        let before = cells_segments(cells, widths, style, l, k - 1);
        let col = span_sum(cells, k - 1) as int;
        let segment = cell_segment(cells[k - 1], widths, col, style, l);
        lemma_cells_segments_width(cells, widths, style, l, k - 1);
        assert(cells[k - 1].well_formed());
        lemma_cell_segment_width(cells[k - 1], widths, col, style, l);
        lemma_width_push(before, plain(style.vertical));
        lemma_width_concat(before.push(plain(style.vertical)), segment);
        lemma_span_width_split(widths, col, cells[k - 1].col_span as int);
    }
}

/// Blank columns are as wide as their widths and one border character each.
pub proof fn lemma_filler_segments_width(
    widths: Seq<usize>,
    style: TableStyle,
    from: int,
    to: int,
)
    requires
        single_bar(style),
        0 <= from <= to,
    ensures
        glyphs_width(filler_segments(widths, style, from, to)) == span_width(
            widths,
            from,
            to - from,
        ) + (to - from),
    decreases to - from,
{
    if to > from {
        let before = filler_segments(widths, style, from, to - 1);
        let blanks = repeated(plain(' '), widths[to - 1] as nat);
        lemma_filler_segments_width(widths, style, from, to - 1);
        lemma_width_push(before, plain(style.vertical));
        lemma_repeated_width(plain(' '), widths[to - 1] as nat);
        assert(widths[to - 1] as nat * 1 == widths[to - 1] as nat);
        lemma_width_concat(before.push(plain(style.vertical)), blanks);
    }
}

/// Every line of a row has the same width: the widths of all columns, one
/// border character for each column, and one at the end. This holds when
/// the vertical border character takes one column and each cell's columns
/// hold its padding and any one visible character of its content.
pub proof fn lemma_row_line_width(
    cells: Seq<TableCell>,
    widths: Seq<usize>,
    style: TableStyle,
    l: int,
)
    requires
        cells_well_formed(cells),
        span_sum(cells, cells.len() as int) <= widths.len(),
        cells_fit_columns(cells, widths),
        single_bar(style),
        0 <= l,
    ensures
        glyphs_width(row_line(cells, widths, style, l)) == total_width(widths) + widths.len() + 1,
{
    let taken = span_sum(cells, cells.len() as int) as int;
    let head = cells_segments(cells, widths, style, l, cells.len() as int);
    let tail = filler_segments(widths, style, taken, widths.len() as int);
    lemma_cells_segments_width(cells, widths, style, l, cells.len() as int);
    lemma_filler_segments_width(widths, style, taken, widths.len() as int);
    lemma_width_concat(head, tail);
    lemma_width_push(head + tail, plain(style.vertical));
    lemma_span_width_split(widths, taken, widths.len() - taken);
}

/// A row of cells.
#[derive(Debug)]
pub struct Row {
    pub cells: Vec<TableCell>,
    /// Whether a border line may stand above the row.
    pub has_separator: bool,
}

/// What a row holds, as mathematical values.
pub struct RowView {
    pub cells: Seq<TableCell>,
    pub has_separator: bool,
}

impl View for Row {
    type V = RowView;

    open spec fn view(&self) -> RowView {
        RowView { cells: self.cells@, has_separator: self.has_separator }
    }
}

/// A copy of the cells.
pub fn clone_cells(cells: &Vec<TableCell>) -> (copy: Vec<TableCell>)
    ensures
        copy@ == cells@,
{
    let mut copy: Vec<TableCell> = Vec::new();
    let mut i: usize = 0;
    while i < cells.len()
        invariant
            i <= cells.len(),
            copy@ == cells@.take(i as int),
        decreases cells.len() - i,
    {
        copy.push(cells[i].clone());
        assert(cells@.take(i + 1) =~= cells@.take(i as int).push(cells@[i as int]));
        i += 1;
    }
    assert(cells@.take(cells@.len() as int) =~= cells@);
    copy
}

impl Clone for Row {
    fn clone(&self) -> (r: Self)
        ensures
            r@ == self@,
    {
        Row { cells: clone_cells(&self.cells), has_separator: self.has_separator }
    }
}

/// Appends `n` copies of `item`.
pub fn push_repeated<T: Copy>(out: &mut Vec<T>, item: T, n: usize)
    ensures
        final(out)@ == old(out)@ + repeated(item, n as nat),
{
    let mut i: usize = 0;
    while i < n
        invariant
            i <= n,
            out@ == old(out)@ + repeated(item, i as nat),
        decreases n - i,
    {
        out.push(item);
        assert(out@ =~= old(out)@ + repeated(item, (i + 1) as nat));
        i += 1;
    }
}

/// Appends the items of `src`.
pub fn push_all<T: Copy>(out: &mut Vec<T>, src: &Vec<T>)
    ensures
        final(out)@ == old(out)@ + src@,
{
    let mut i: usize = 0;
    while i < src.len()
        invariant
            i <= src.len(),
            out@ == old(out)@ + src@.take(i as int),
        decreases src.len() - i,
    {
        out.push(src[i]);
        assert(out@ =~= old(out)@ + src@.take(i + 1));
        i += 1;
    }
    assert(src@.take(src@.len() as int) =~= src@);
}

/// Appends `line` with `padding` copies of `fill` placed by the alignment.
pub fn push_aligned<T: Copy>(
    out: &mut Vec<T>,
    line: &Vec<T>,
    fill: T,
    padding: usize,
    alignment: Alignment,
)
    ensures
        final(out)@ == old(out)@ + aligned(line@, fill, padding as nat, alignment),
{
    let (left, right): (usize, usize) = match alignment {
        Alignment::Left => (0, padding),
        Alignment::Right => (padding, 0),
        Alignment::Center => (padding - padding / 2, padding / 2),
    };
    assert(left == left_fill(padding as nat, alignment));
    assert(right == right_fill(padding as nat, alignment));
    let ghost before = out@;
    push_repeated(out, fill, left);
    push_all(out, line);
    push_repeated(out, fill, right);
    assert(out@ =~= before + aligned(line@, fill, padding as nat, alignment));
}

/// The sum of `span` column widths from column `col` on.
pub fn span_total(widths: &Vec<usize>, col: usize, span: usize) -> (sum: usize)
    requires
        col + span <= widths@.len(),
        total_width(widths@) <= usize::MAX,
    ensures
        sum == span_width(widths@, col as int, span as int),
{
    let n = widths.len();
    let mut sum: usize = 0;
    let mut j: usize = 0;
    while j < span
        invariant
            j <= span,
            n == widths@.len(),
            col + span <= widths@.len(),
            total_width(widths@) <= usize::MAX,
            sum == span_width(widths@, col as int, j as int),
        decreases span - j,
    {
        proof {
            lemma_span_width_bounded(widths@, col as int, j + 1);
        }
        sum = sum + widths[col + j];
        j += 1;
    }
    sum
}

/// What the cells of a row come to when each is wrapped to its columns:
/// for each cell the width of its columns and its wrapped lines.
pub open spec fn cells_wrapped(
    cells: Seq<TableCell>,
    widths: Seq<usize>,
    columns: Seq<usize>,
    wrapped: Seq<Vec<Line>>,
    k: int,
) -> bool {
    &&& columns.len() == k
    &&& wrapped.len() == k
    &&& forall|c: int|
        0 <= c < k ==> #[trigger] columns[c] == span_width(
            widths,
            span_sum(cells, c) as int,
            cells[c].col_span as int,
        )
    &&& forall|c: int|
        0 <= c < k ==> lines_view((#[trigger] wrapped[c])@) == cells[c].wrap_spec(
            cell_room(cells[c], widths, span_sum(cells, c) as int),
        )
    &&& forall|c: int| 0 <= c < k ==> lines_well_formed((#[trigger] wrapped[c])@)
}

impl Row {
    /// Every cell spans at least one column.
    pub open spec fn well_formed(&self) -> bool {
        cells_well_formed(self.cells@)
    }

    /// The number of columns that the cells take: the sum of their spans.
    pub open spec fn columns(&self) -> nat {
        span_sum(self.cells@, self.cells@.len() as int)
    }

    /// The border line above the row: drawn for the row's own column
    /// boundaries, then merged with the border line above it, if any.
    pub open spec fn separator_spec(
        &self,
        widths: Seq<usize>,
        style: TableStyle,
        pos: RowPosition,
        above: Option<Seq<char>>,
    ) -> Seq<char> {
        separator_line(self.cells@, widths, style, pos, above)
    }

    /// A row that may have a border line above it.
    pub fn new(cells: Vec<TableCell>) -> (r: Row)
        ensures
            r.cells == cells,
            r.has_separator,
    {
        Row { cells, has_separator: true }
    }

    /// A row without cells.
    pub fn empty() -> (r: Row)
        ensures
            r.cells@.len() == 0,
            r.has_separator,
    {
        Row { cells: Vec::new(), has_separator: true }
    }

    /// A row that never has a border line above it.
    pub fn without_separator(cells: Vec<TableCell>) -> (r: Row)
        ensures
            r.cells == cells,
            !r.has_separator,
    {
        Row { cells, has_separator: false }
    }

    /// The number of columns in the row: the sum of the cells' spans.
    pub fn num_columns(&self) -> (n: usize)
        requires
            self.columns() <= usize::MAX,
        ensures
            n == self.columns(),
    {
        let mut n: usize = 0;
        let mut k: usize = 0;
        while k < self.cells.len()
            invariant
                k <= self.cells.len(),
                n == span_sum(self.cells@, k as int),
                self.columns() <= usize::MAX,
            decreases self.cells.len() - k,
        {
            proof {
                lemma_span_sum_monotonic(self.cells@, k + 1, self.cells@.len() as int);
            }
            n = n + self.cells[k].col_span;
            k += 1;
        }
        n
    }

    /// Pads a text with `padding` spaces, placed by the alignment.
    pub fn pad_string(&self, padding: usize, alignment: Alignment, text: &str) -> (out: String)
        ensures
            out@ == aligned(text@, ' ', padding as nat, alignment),
    {
        let line = to_chars(text);
        let mut out: Vec<char> = Vec::new();
        push_aligned(&mut out, &line, ' ', padding, alignment);
        assert(out@ =~= aligned(text@, ' ', padding as nat, alignment));
        from_chars(&out)
    }

    /// Draws the border line above the row.
    ///
    /// The line starts and ends with the characters for `row_position`. Each
    /// column is filled with the horizontal character; between two columns
    /// stands the junction character where a cell of this row ends, and the
    /// horizontal character inside a spanning cell. Given the border line of
    /// the row above, the two are merged so that a boundary that only one of
    /// them has gets the junction that opens to that side.
    pub fn gen_separator(
        &self,
        column_widths: &Vec<usize>,
        style: &TableStyle,
        row_position: RowPosition,
        previous_separator: Option<String>,
    ) -> (line: String)
        requires
            self.well_formed(),
            self.columns() <= usize::MAX,
        ensures
            line@ == self.separator_spec(
                column_widths@,
                *style,
                row_position,
                match previous_separator {
                    Some(prev) => Some(prev@),
                    None => None,
                },
            ),
    {
        let ghost cells = self.cells@;
        let ghost widths = column_widths@;
        let mut buf: Vec<char> = Vec::new();
        let mut next_intersection: usize = if self.cells.len() > 0 {
            self.cells[0].col_span
        } else {
            1
        };
        buf.push(style.start_for_position(row_position));
        let mut current_column: usize = 0;
        proof {
            if cells.len() > 0 {
                assert(cells[0].well_formed());
                assert(span_sum(cells, 0) == 0);
            }
            assert(buf@ =~= border_upto(cells, widths, *style, row_position, 0));
        }
        let mut i: usize = 0;
        while i < column_widths.len()
            invariant
                i <= column_widths.len(),
                cells == self.cells@,
                widths == column_widths@,
                cells_well_formed(cells),
                span_sum(cells, cells.len() as int) <= usize::MAX,
                buf@ == border_upto(cells, widths, *style, row_position, i as int),
                next_intersection == boundary(cells, current_column as int),
                current_column <= i,
                i <= next_intersection,
                current_column == 0 || boundary(cells, current_column - 1) < i,
                i == 0 ==> next_intersection >= 1,
            decreases column_widths.len() - i,
        {
            let ghost before = buf@;
            proof {
                if i >= 1 {
                    lemma_boundary_found(cells, current_column as int, i as int);
                }
            }
            if i == next_intersection {
                buf.push(style.intersect_for_position(row_position));
                current_column += 1;
                if self.cells.len() > current_column {
                    proof {
                        lemma_span_sum_monotonic(
                            cells,
                            current_column + 1,
                            cells.len() as int,
                        );
                        assert(cells[current_column as int].well_formed());
                    }
                    next_intersection += self.cells[current_column].col_span;
                } else {
                    next_intersection += 1;
                }
            } else if i > 0 {
                buf.push(style.horizontal);
            }
            push_repeated(&mut buf, style.horizontal, column_widths[i]);
            proof {
                if i == 0 {
                    assert(buf@ =~= before + repeated(style.horizontal, widths[0] as nat));
                } else {
                    assert(buf@ =~= before.push(joint(cells, *style, row_position, i as int))
                        + repeated(style.horizontal, widths[i as int] as nat));
                }
            }
            i += 1;
        }
        buf.push(style.end_for_position(row_position));
        assert(buf@ == border_line(cells, widths, *style, row_position));
        match previous_separator {
            None => from_chars(&buf),
            Some(prev) => {
                let above = to_chars(prev.as_str());
                let ghost target = merged(*style, row_position, buf@, above@);
                let mut out: Vec<char> = Vec::new();
                let mut j: usize = 0;
                while j < buf.len() && j < above.len()
                    invariant
                        j <= buf.len(),
                        j <= above.len(),
                        target == merged(*style, row_position, buf@, above@),
                        out@ == target.take(j as int),
                    decreases buf.len() - j,
                {
                    let c = if j == 0 || j == buf.len() - 1 {
                        buf[j]
                    } else if buf[j] == style.horizontal && above[j] == style.horizontal {
                        style.horizontal
                    } else {
                        style.merge_intersection_for_position(above[j], buf[j], row_position)
                    };
                    out.push(c);
                    assert(target.take(j + 1) =~= target.take(j as int).push(target[j as int]));
                    j += 1;
                }
                assert(target.take(target.len() as int) =~= target);
                from_chars(&out)
            },
        }
    }
    /// What the row asks of each column: for every column that a cell spans,
    /// the cell's content width and its least width, each divided by the
    /// cell's span.
    pub fn split_column_widths(&self) -> (res: Vec<(usize, usize)>)
        requires
            self.well_formed(),
        ensures
            demands_view(res@) == column_demands(self.cells@, self.cells@.len() as int),
            res@.len() == self.columns(),
    {
        let mut res: Vec<(usize, usize)> = Vec::new();
        let mut k: usize = 0;
        while k < self.cells.len()
            invariant
                k <= self.cells.len(),
                self.well_formed(),
                demands_view(res@) == column_demands(self.cells@, k as int),
            decreases self.cells.len() - k,
        {
            let cell = &self.cells[k];
            assert(self.cells@[k as int].well_formed());
            let val = cell.split_width();
            let min = cell.min_width() / cell.col_span;
            let ghost before = res@;
            push_repeated(&mut res, (val, min), cell.col_span);
            proof {
                assert(demands_view(res@) =~= demands_view(before) + repeated(
                    (cell.split_width_spec(), cell.split_min_width_spec()),
                    cell.col_span as nat,
                ));
            }
            k += 1;
        }
        proof {
            lemma_column_demands_len(self.cells@, self.cells@.len() as int);
        }
        res
    }

    /// Wraps each cell to the width of the columns that it spans.
    fn wrap_cells(&self, column_widths: &Vec<usize>) -> (res: (Vec<usize>, Vec<Vec<Line>>))
        requires
            self.well_formed(),
            self.columns() <= column_widths@.len(),
            line_budget(column_widths@) <= usize::MAX,
        ensures
            cells_wrapped(
                self.cells@,
                column_widths@,
                res.0@,
                res.1@,
                self.cells@.len() as int,
            ),
    {
        let ghost cells = self.cells@;
        let ghost widths = column_widths@;
        let mut columns: Vec<usize> = Vec::new();
        let mut wrapped: Vec<Vec<Line>> = Vec::new();
        let mut spanned_columns: usize = 0;
        let mut k: usize = 0;
        while k < self.cells.len()
            invariant
                k <= self.cells.len(),
                cells == self.cells@,
                widths == column_widths@,
                cells_well_formed(cells),
                span_sum(cells, cells.len() as int) <= widths.len(),
                line_budget(widths) <= usize::MAX,
                spanned_columns == span_sum(cells, k as int),
                cells_wrapped(cells, widths, columns@, wrapped@, k as int),
            decreases self.cells.len() - k,
        {
            let cell = &self.cells[k];
            proof {
                assert(cells[k as int].well_formed());
                lemma_span_sum_monotonic(cells, k + 1, cells.len() as int);
                lemma_span_width_bounded(widths, spanned_columns as int, cell.col_span as int);
            }
            let width = span_total(column_widths, spanned_columns, cell.col_span);
            let lines = cell.wrap_glyphs(width + cell.col_span - 1);
            columns.push(width);
            wrapped.push(lines);
            spanned_columns += cell.col_span;
            k += 1;
        }
        (columns, wrapped)
    }

    /// Builds line `l` of the row.
    fn build_line(
        &self,
        column_widths: &Vec<usize>,
        style: &TableStyle,
        columns: &Vec<usize>,
        wrapped: &Vec<Vec<Line>>,
        l: usize,
    ) -> (line: Vec<Glyph>)
        requires
            self.well_formed(),
            self.columns() <= column_widths@.len(),
            line_budget(column_widths@) <= usize::MAX,
            cells_wrapped(
                self.cells@,
                column_widths@,
                columns@,
                wrapped@,
                self.cells@.len() as int,
            ),
        ensures
            line@ == row_line(self.cells@, column_widths@, *style, l as int),
    {
        let ghost cells = self.cells@;
        let ghost widths = column_widths@;
        let blank = Glyph { ch: ' ', hidden: false };
        let bar = Glyph { ch: style.vertical, hidden: false };
        let bar_cols = border_columns(style.vertical);
        let mut line: Vec<Glyph> = Vec::new();
        let mut spanned_columns: usize = 0;
        let mut k: usize = 0;
        while k < self.cells.len()
            invariant
                k <= self.cells.len(),
                cells == self.cells@,
                widths == column_widths@,
                blank == plain(' '),
                bar == plain(style.vertical),
                bar_cols == border_cols(style.vertical),
                bar_cols <= 3,
                cells_well_formed(cells),
                span_sum(cells, cells.len() as int) <= widths.len(),
                line_budget(widths) <= usize::MAX,
                spanned_columns == span_sum(cells, k as int),
                cells_wrapped(cells, widths, columns@, wrapped@, cells.len() as int),
                line@ == cells_segments(cells, widths, *style, l as int, k as int),
            decreases self.cells.len() - k,
        {
            let cell = &self.cells[k];
            let cell_span = columns[k];
            let ghost before = line@;
            proof {
                assert(cells[k as int].well_formed());
                lemma_span_sum_monotonic(cells, k + 1, cells.len() as int);
                lemma_span_width_bounded(widths, spanned_columns as int, cell.col_span as int);
                assert(bar_cols * (cell.col_span - 1) <= 3 * widths.len()) by (nonlinear_arith)
                    requires
                        bar_cols <= 3,
                        1 <= cell.col_span <= widths.len(),
                ;
                assert(lines_well_formed(wrapped@[k as int]@));
            }
            let extra = bar_cols * (cell.col_span - 1);
            line.push(bar);
            if l < wrapped[k].len() {
                assert(wrapped@[k as int]@[l as int].well_formed());
                let used = wrapped[k][l].cols;
                let padding = if cell_span + extra >= used {
                    cell_span + extra - used
                } else {
                    0
                };
                push_aligned(&mut line, &wrapped[k][l].glyphs, blank, padding, cell.alignment);
            } else {
                push_repeated(&mut line, blank, cell_span + extra);
            }
            proof {
                assert(line@ =~= before.push(bar) + cell_segment(
                    cells[k as int],
                    widths,
                    spanned_columns as int,
                    *style,
                    l as int,
                ));
            }
            spanned_columns += cell.col_span;
            k += 1;
        }
        let ghost first = spanned_columns;
        let ghost head = line@;
        while spanned_columns < column_widths.len()
            invariant
                first <= spanned_columns <= column_widths.len(),
                widths == column_widths@,
                blank == plain(' '),
                bar == plain(style.vertical),
                line@ == head + filler_segments(widths, *style, first as int, spanned_columns as int),
            decreases column_widths.len() - spanned_columns,
        {
            let ghost before = line@;
            line.push(bar);
            push_repeated(&mut line, blank, column_widths[spanned_columns]);
            proof {
                assert(line@ =~= head + (filler_segments(
                    widths,
                    *style,
                    first as int,
                    spanned_columns as int,
                ).push(bar) + repeated(blank, widths[spanned_columns as int] as nat)));
            }
            spanned_columns += 1;
        }
        line.push(bar);
        line
    }

    /// Renders the content of the row against the given column widths.
    ///
    /// Each cell is wrapped to the columns that it spans. The row has as many
    /// lines as its tallest cell. On each line every cell stands behind a
    /// vertical border character, padded to the width of its columns; a
    /// column that no cell covers is blank; a vertical border character
    /// closes the line. The lines are joined by line feeds.
    pub fn format(&self, column_widths: &Vec<usize>, style: &TableStyle) -> (out: String)
        requires
            self.well_formed(),
            self.columns() <= column_widths@.len(),
            line_budget(column_widths@) <= usize::MAX,
        ensures
            out@ == join_lines(texts_of(row_lines(self.cells@, column_widths@, *style)), '\n'),
    {
        let ghost cells = self.cells@;
        let ghost widths = column_widths@;
        let (columns, wrapped) = self.wrap_cells(column_widths);
        let mut height: usize = 0;
        let mut k: usize = 0;
        while k < wrapped.len()
            invariant
                k <= wrapped.len(),
                wrapped@.len() == cells.len(),
                cells_wrapped(cells, widths, columns@, wrapped@, cells.len() as int),
                height == row_height(cells, widths, k as int),
            decreases wrapped.len() - k,
        {
            assert(lines_view(wrapped@[k as int]@).len() == wrapped@[k as int]@.len());
            if wrapped[k].len() > height {
                height = wrapped[k].len();
            }
            k += 1;
        }
        let ghost lines = row_lines(cells, widths, *style);
        let ghost texts = texts_of(lines);
        let mut out = String::new();
        let mut l: usize = 0;
        while l < height
            invariant
                l <= height,
                cells == self.cells@,
                widths == column_widths@,
                self.well_formed(),
                self.columns() <= column_widths@.len(),
                line_budget(column_widths@) <= usize::MAX,
                cells_wrapped(cells, widths, columns@, wrapped@, cells.len() as int),
                lines == row_lines(cells, widths, *style),
                lines.len() == height,
                texts == texts_of(lines),
                out@ == join_lines(texts.take(l as int), '\n'),
            decreases height - l,
        {
            let line = self.build_line(column_widths, style, &columns, &wrapped, l);
            let ghost before = out@;
            if l > 0 {
                out.push('\n');
            }
            let mut j: usize = 0;
            let ghost start = out@;
            while j < line.len()
                invariant
                    j <= line.len(),
                    out@ == start + chars_of(line@).take(j as int),
                decreases line.len() - j,
            {
                out.push(line[j].ch);
                assert(chars_of(line@).take(j + 1) =~= chars_of(line@).take(j as int).push(
                    line@[j as int].ch,
                ));
                assert(out@ =~= start + chars_of(line@).take(j + 1));
                j += 1;
            }
            proof {
                assert(chars_of(line@).take(line@.len() as int) =~= chars_of(line@));
                assert(texts.take(l + 1).drop_last() =~= texts.take(l as int));
                assert(texts.take(l + 1).last() == chars_of(line@));
                if l == 0 {
                    assert(out@ =~= chars_of(line@));
                    assert(texts.take(1)[0] == chars_of(line@));
                } else {
                    assert(out@ =~= before.push('\n') + chars_of(line@));
                }
            }
            l += 1;
        }
        assert(texts.take(texts.len() as int) =~= texts);
        out
    }
}

} // verus!
