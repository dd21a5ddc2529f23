//! Table cells: a text with a column span, an alignment and a padding flag.

use crate::width::{
    chars_of, display_width, glyphs_of, glyphs_to_string, glyphs_width, lemma_normalized_cols,
    lemma_width_concat, lemma_width_push, measure, measure_normalized, normalize_newlines, plain,
    widest_char, widest_char_of, width_of, Glyph,
};
use crate::wrap::{
    glyphs_fit, lemma_placed_fit, lemma_widest_bounded, lemma_wrap_bounded, lemma_wrap_fits,
    lemma_wrap_nonempty, lemma_wrap_widest, lines_view, lines_well_formed, placed_cols,
    widest_line, widest_placed, wrap, wrap_lines, Line,
};
use vstd::prelude::*;

verus! {

/// Horizontal alignment of a cell's content.
#[derive(Clone, Copy, Debug, PartialEq, Eq, Structural)]
pub enum Alignment {
    Left,
    Right,
    Center,
}

/// A column span of 0 counts as 1.
pub open spec fn span_or_one(col_span: usize) -> usize {
    if col_span == 0 {
        1
    } else {
        col_span
    }
}

/// Columns left for content when a line of `width` columns keeps one column
/// of padding at each end.
pub open spec fn content_cols(width: nat, pad: bool) -> nat {
    if !pad {
        width
    } else if width >= 2 {
        (width - 2) as nat
    } else {
        0
    }
}

/// A line with one space at each end, if `pad` is set.
pub open spec fn pad_both(line: Seq<Glyph>, pad: bool) -> Seq<Glyph> {
    if pad {
        seq![plain(' ')] + line + seq![plain(' ')]
    } else {
        line
    }
}

/// The line at index `i`, padded.
pub open spec fn padded_at(lines: Seq<Seq<Glyph>>, pad: bool, i: int) -> Seq<Glyph> {
    pad_both(lines[i], pad)
}

/// Every line padded.
pub open spec fn pad_lines(lines: Seq<Seq<Glyph>>, pad: bool) -> Seq<Seq<Glyph>> {
    Seq::new(lines.len(), |i: int| padded_at(lines, pad, i))
}

/// A padded line is two columns wider than the line.
pub proof fn lemma_pad_width(line: Seq<Glyph>, pad: bool)
    ensures
        glyphs_width(pad_both(line, pad)) == glyphs_width(line) + if pad {
            2nat
        } else {
            0nat
        },
{
    if pad {
        let sp = seq![plain(' ')];
        lemma_width_push(Seq::empty(), plain(' '));
        assert(Seq::<Glyph>::empty().push(plain(' ')) =~= sp);
        lemma_width_concat(sp, line);
        lemma_width_concat(sp + line, sp);
    }
}

/// When `width` columns hold the padding and any one visible character of a
/// cell, no line of the cell wrapped to `width` is wider than that.
pub proof fn lemma_wrapped_lines_fit(cell: TableCell, width: nat)
    requires
        cell.fits_in(width),
    ensures
        forall|l: int|
            0 <= l < cell.wrap_spec(width).len() ==> glyphs_width(
                #[trigger] cell.wrap_spec(width)[l],
            ) <= width,
{
    let avail = content_cols(width, cell.pad_content);
    let raw = wrap_lines(cell.glyphs(), avail);
    lemma_wrap_fits(cell.glyphs(), avail);
    assert forall|l: int| 0 <= l < cell.wrap_spec(width).len() implies glyphs_width(
        #[trigger] cell.wrap_spec(width)[l],
    ) <= width by {
        lemma_pad_width(raw[l], cell.pad_content);
    }
}

/// Padding makes the widest line two columns wider.
pub proof fn lemma_pad_lines_widest(lines: Seq<Seq<Glyph>>, pad: bool)
    requires
        lines.len() >= 1,
    ensures
        widest_line(pad_lines(lines, pad)) == widest_line(lines) + if pad {
            2nat
        } else {
            0nat
        },
    decreases lines.len(),
{
    let padded = pad_lines(lines, pad);
    assert(padded.drop_last() =~= pad_lines(lines.drop_last(), pad));
    assert(padded.last() == pad_both(lines.last(), pad));
    lemma_pad_width(lines.last(), pad);
    if lines.len() > 1 {
        lemma_pad_lines_widest(lines.drop_last(), pad);
    } else {
        assert(widest_line(lines.drop_last()) == 0);
        assert(widest_line(padded.drop_last()) == 0);
    }
}

/// The widest glyph that wrapping has to place is no wider than a bound on
/// all of them.
pub proof fn lemma_widest_placed_bounded(text: Seq<Glyph>, i: int, bound: nat)
    requires
        0 <= i,
        forall|j: int| i <= j < text.len() ==> placed_cols(#[trigger] text[j]) <= bound,
    ensures
        widest_placed(text, i) <= bound,
    decreases text.len() - i,
{
    if i < text.len() {
        lemma_widest_placed_bounded(text, i + 1, bound);
    }
}

/// The content width of a cell holds its padding and any one visible
/// character of its content.
pub proof fn lemma_width_covers(cell: TableCell)
    ensures
        cell.width_spec() >= widest_placed(cell.glyphs(), 0) + if cell.pad_content {
            2nat
        } else {
            0nat
        },
{
    let avail = content_cols(usize::MAX as nat, cell.pad_content);
    let raw = wrap_lines(cell.glyphs(), avail);
    lemma_wrap_nonempty(cell.glyphs(), avail, 0, Seq::empty());
    lemma_wrap_widest(cell.glyphs(), avail, 0, Seq::empty());
    lemma_pad_lines_widest(raw, cell.pad_content);
}

/// The content width of a cell can be counted.
pub proof fn lemma_width_bounded(cell: TableCell)
    ensures
        cell.width_spec() <= usize::MAX,
{
    let avail = content_cols(usize::MAX as nat, cell.pad_content);
    let raw = wrap_lines(cell.glyphs(), avail);
    let padded = cell.wrap_spec(usize::MAX as nat);
    assert forall|k: int| 0 <= k < padded.len() implies glyphs_width(#[trigger] padded[k])
        <= usize::MAX by {
        lemma_wrap_bounded(cell.glyphs(), avail, 0, Seq::empty(), k);
        lemma_pad_width(raw[k], cell.pad_content);
    }
    lemma_widest_bounded(padded, usize::MAX as nat);
}

/// The least width of a cell holds its padding and any one visible character
/// of its content.
pub proof fn lemma_min_width_covers(cell: TableCell)
    ensures
        cell.min_width_spec() >= widest_placed(cell.glyphs(), 0) + if cell.pad_content {
            2nat
        } else {
            0nat
        },
{
    let text = normalize_newlines(cell.data@);
    let glyphs = cell.glyphs();
    assert forall|j: int| 0 <= j < glyphs.len() implies placed_cols(#[trigger] glyphs[j])
        <= widest_char(cell.data@) by {
        lemma_normalized_cols(cell.data@, cell.data@.len() as int, j);
    }
    lemma_widest_placed_bounded(glyphs, 0, widest_char(cell.data@));
}

/// A width that is no less than the content width or no less than the least
/// width of a cell holds the cell's padding and any one visible character of
/// its content.
pub proof fn lemma_fits_in(cell: TableCell, width: nat)
    requires
        width >= cell.width_spec() || width >= cell.min_width_spec(),
    ensures
        cell.fits_in(width),
{
    lemma_width_covers(cell);
    lemma_min_width_covers(cell);
    lemma_placed_fit(cell.glyphs(), content_cols(width, cell.pad_content));
}

/// A table cell.
#[derive(Debug)]
pub struct TableCell {
    pub data: String,
    pub col_span: usize,
    pub alignment: Alignment,
    pub pad_content: bool,
}

impl Clone for TableCell {
    fn clone(&self) -> (c: Self)
        ensures
            c == *self,
    {
        TableCell {
            data: self.data.clone(),
            col_span: self.col_span,
            alignment: self.alignment,
            pad_content: self.pad_content,
        }
    }
}

impl TableCell {
    /// A cell spans at least one column.
    pub open spec fn well_formed(&self) -> bool {
        self.col_span >= 1
    }

    /// The content, measured: line endings made uniform, escape sequences
    /// flagged.
    pub open spec fn glyphs(&self) -> Seq<Glyph> {
        glyphs_of(normalize_newlines(self.data@))
    }

    /// The lines of the content wrapped to `width` columns, padding included.
    pub open spec fn wrap_spec(&self, width: nat) -> Seq<Seq<Glyph>> {
        pad_lines(wrap_lines(self.glyphs(), content_cols(width, self.pad_content)), self.pad_content)
    }

    /// Whether `width` columns hold the padding and any one visible
    /// character of the content.
    pub open spec fn fits_in(&self, width: nat) -> bool {
        glyphs_fit(self.glyphs(), content_cols(width, self.pad_content)) && (self.pad_content
            ==> width >= 2)
    }

    /// The width of the content: that of its widest line when only line feeds
    /// break it, padding included.
    pub open spec fn width_spec(&self) -> nat {
        widest_line(self.wrap_spec(usize::MAX as nat))
    }

    /// The least width that shows every character: the widest character,
    /// with padding.
    pub open spec fn min_width_spec(&self) -> nat {
        widest_char(self.data@) + if self.pad_content {
            2nat
        } else {
            0nat
        }
    }

    /// The share of the content width that falls to each spanned column.
    pub open spec fn split_width_spec(&self) -> nat {
        self.width_spec() / (self.col_span as nat)
    }

    /// The share of the least width that falls to each spanned column.
    pub open spec fn split_min_width_spec(&self) -> nat {
        self.min_width_spec() / (self.col_span as nat)
    }

    /// A left-aligned, padded cell over one column.
    pub fn new(data: &str) -> (c: TableCell)
        ensures
            c.data@ == data@,
            c.col_span == 1,
            c.alignment == Alignment::Left,
            c.pad_content,
    {
        TableCell {
            data: data.to_owned(),
            col_span: 1,
            alignment: Alignment::Left,
            pad_content: true,
        }
    }

    /// Starts a builder for a cell with the given content.
    pub fn builder(data: &str) -> (b: TableCellBuilder)
        ensures
            b.cell().data@ == data@,
            b.cell().col_span == 1,
            b.cell().alignment == Alignment::Left,
            b.cell().pad_content,
    {
        TableCellBuilder::new(data.to_owned())
    }

    /// A left-aligned, padded cell over `col_span` columns.
    pub fn new_with_col_span(data: &str, col_span: usize) -> (c: TableCell)
        ensures
            c.data@ == data@,
            c.col_span == span_or_one(col_span),
            c.alignment == Alignment::Left,
            c.pad_content,
    {
        TableCell::new_with_alignment_and_padding(data, col_span, Alignment::Left, true)
    }

    /// A padded cell over `col_span` columns.
    pub fn new_with_alignment(data: &str, col_span: usize, alignment: Alignment) -> (c: TableCell)
        ensures
            c.data@ == data@,
            c.col_span == span_or_one(col_span),
            c.alignment == alignment,
            c.pad_content,
    {
        TableCell::new_with_alignment_and_padding(data, col_span, alignment, true)
    }

    /// A cell with every property given.
    pub fn new_with_alignment_and_padding(
        data: &str,
        col_span: usize,
        alignment: Alignment,
        pad_content: bool,
    ) -> (c: TableCell)
        ensures
            c.data@ == data@,
            c.col_span == span_or_one(col_span),
            c.alignment == alignment,
            c.pad_content == pad_content,
    {
        TableCell {
            data: data.to_owned(),
            col_span: if col_span == 0 {
                1
            } else {
                col_span
            },
            alignment,
            pad_content,
        }
    }

    /// Wraps the content to `width` columns and gives each line with its
    /// display width.
    pub fn wrap_glyphs(&self, width: usize) -> (lines: Vec<Line>)
        ensures
            lines_view(lines@) == self.wrap_spec(width as nat),
            lines_well_formed(lines@),
            lines@.len() >= 1,
            forall|k: int|
                0 <= k < lines@.len() ==> (#[trigger] lines@[k]).cols <= width || lines@[k].cols
                    <= 5,
    {
        let glyphs = measure_normalized(self.data.as_str());
        let avail: usize = if !self.pad_content {
            width
        } else if width >= 2 {
            width - 2
        } else {
            0
        };
        let raw = wrap(&glyphs, avail);
        if !self.pad_content {
            assert(lines_view(raw@) =~= self.wrap_spec(width as nat));
            return raw;
        }
        let ghost target = self.wrap_spec(width as nat);
        let mut lines: Vec<Line> = Vec::new();
        let mut i: usize = 0;
        while i < raw.len()
            invariant
                i <= raw.len(),
                self.pad_content,
                lines_well_formed(raw@),
                lines_well_formed(lines@),
                target == pad_lines(lines_view(raw@), true),
                lines_view(lines@) == target.take(i as int),
                forall|k: int|
                    0 <= k < raw@.len() ==> (#[trigger] raw@[k]).cols <= avail || raw@[k].cols <= 3,
                avail + 2 <= width || avail == 0,
                forall|k: int|
                    0 <= k < lines@.len() ==> (#[trigger] lines@[k]).cols <= width
                        || lines@[k].cols <= 5,
            decreases raw.len() - i,
        {
            let ghost done = lines_view(lines@);
            let ghost inner = raw@[i as int].glyphs@;
            let mut padded: Vec<Glyph> = Vec::new();
            padded.push(Glyph { ch: ' ', hidden: false });
            let mut j: usize = 0;
            while j < raw[i].glyphs.len()
                invariant
                    i < raw.len(),
                    inner == raw@[i as int].glyphs@,
                    j <= inner.len(),
                    padded@ == seq![plain(' ')] + inner.take(j as int),
                decreases inner.len() - j,
            {
                padded.push(raw[i].glyphs[j]);
                assert(inner.take(j + 1) =~= inner.take(j as int).push(inner[j as int]));
                assert(padded@ =~= seq![plain(' ')] + inner.take(j + 1));
                j += 1;
            }
            padded.push(Glyph { ch: ' ', hidden: false });
            proof {
                assert(inner.take(inner.len() as int) =~= inner);
                assert(padded@ =~= pad_both(inner, true));
                lemma_pad_width(inner, true);
                assert(raw@[i as int].well_formed());
            }
            let cols = raw[i].cols + 2;
            lines.push(Line { glyphs: padded, cols });
            proof {
                assert(lines_view(lines@) =~= done.push(padded@));
                assert(target.take(i + 1) =~= target.take(i as int).push(target[i as int]));
            }
            i += 1;
        }
        assert(target.take(target.len() as int) =~= target);
        lines
    }

    /// Wraps the content to `width` columns. A line ends at each line feed
    /// and before a visible character that would not fit; with padding, each
    /// line has one space at each end. No line is wider than `width` if
    /// `width` is at least the least width of the cell.
    pub fn wrapped_content(&self, width: usize) -> (lines: Vec<String>)
        ensures
            lines@.len() == self.wrap_spec(width as nat).len(),
            lines@.len() >= 1,
            forall|i: int|
                0 <= i < lines@.len() ==> (#[trigger] lines@[i])@ == chars_of(
                    self.wrap_spec(width as nat)[i],
                ),
            width >= self.min_width_spec() ==> forall|i: int|
                0 <= i < lines@.len() ==> glyphs_width(#[trigger] self.wrap_spec(width as nat)[i])
                    <= width,
    {
        proof {
            if width >= self.min_width_spec() {
                lemma_fits_in(*self, width as nat);
                lemma_wrapped_lines_fit(*self, width as nat);
            }
        }
        let wrapped = self.wrap_glyphs(width);
        let mut lines: Vec<String> = Vec::new();
        let mut i: usize = 0;
        while i < wrapped.len()
            invariant
                i <= wrapped.len(),
                lines@.len() == i,
                forall|k: int|
                    0 <= k < i ==> (#[trigger] lines@[k])@ == chars_of(lines_view(wrapped@)[k]),
            decreases wrapped.len() - i,
        {
            lines.push(glyphs_to_string(&wrapped[i].glyphs));
            i += 1;
        }
        lines
    }

    /// The width of the content: that of its widest line, padding included.
    pub fn width(&self) -> (w: usize)
        ensures
            w == self.width_spec(),
    {
        let lines = self.wrap_glyphs(usize::MAX);
        let ghost view = lines_view(lines@);
        let mut w: usize = 0;
        let mut i: usize = 0;
        while i < lines.len()
            invariant
                i <= lines.len(),
                view == lines_view(lines@),
                lines_well_formed(lines@),
                w == widest_line(view.take(i as int)),
            decreases lines.len() - i,
        {
            assert(view.take(i + 1).drop_last() =~= view.take(i as int));
            assert(lines@[i as int].well_formed());
            if lines[i].cols > w {
                w = lines[i].cols;
            }
            i += 1;
        }
        assert(view.take(view.len() as int) =~= view);
        w
    }

    /// The share of the content width that falls to each spanned column.
    pub fn split_width(&self) -> (w: usize)
        requires
            self.well_formed(),
        ensures
            w == self.split_width_spec(),
    {
        self.width() / self.col_span
    }

    /// The least width that shows every character of the content.
    pub fn min_width(&self) -> (w: usize)
        ensures
            w == self.min_width_spec(),
    {
        let widest = widest_char_of(self.data.as_str());
        if self.pad_content {
            widest + 2
        } else {
            widest
        }
    }
}

/// Collects the properties of a cell.
pub struct TableCellBuilder {
    data: String,
    col_span: usize,
    alignment: Alignment,
    pad_content: bool,
}

impl TableCellBuilder {
    /// The cell that `build` would give.
    pub closed spec fn cell(&self) -> TableCell {
        TableCell {
            data: self.data,
            col_span: self.col_span,
            alignment: self.alignment,
            pad_content: self.pad_content,
        }
    }

    /// A builder for a left-aligned, padded cell over one column.
    pub fn new(data: String) -> (b: TableCellBuilder)
        ensures
            b.cell() == (TableCell {
                data,
                col_span: 1,
                alignment: Alignment::Left,
                pad_content: true,
            }),
    {
        TableCellBuilder { data, col_span: 1, alignment: Alignment::Left, pad_content: true }
    }

    /// Sets the number of columns that the cell spans; 0 counts as 1.
    pub fn col_span(&mut self, col_span: usize) -> (b: &mut Self)
        ensures
            b.cell() == (TableCell { col_span: span_or_one(col_span), ..old(self).cell() }),
            *final(self) == *final(b),
    {
        self.col_span = if col_span == 0 {
            1
        } else {
            col_span
        };
        self
    }

    /// Sets the alignment.
    pub fn alignment(&mut self, alignment: Alignment) -> (b: &mut Self)
        ensures
            b.cell() == (TableCell { alignment, ..old(self).cell() }),
            *final(self) == *final(b),
    {
        self.alignment = alignment;
        self
    }

    /// Sets whether the content gets a space at each end.
    pub fn pad_content(&mut self, pad_content: bool) -> (b: &mut Self)
        ensures
            b.cell() == (TableCell { pad_content, ..old(self).cell() }),
            *final(self) == *final(b),
    {
        self.pad_content = pad_content;
        self
    }

    /// The cell.
    pub fn build(&self) -> (c: TableCell)
        ensures
            c == self.cell(),
    {
        TableCell {
            data: self.data.clone(),
            col_span: self.col_span,
            alignment: self.alignment,
            pad_content: self.pad_content,
        }
    }
}

/// Display width of a string: the columns of its characters, those of escape
/// sequences left out.
pub fn string_width(string: &str) -> (w: usize)
    requires
        3 * string@.len() <= usize::MAX,
    ensures
        w == display_width(string@),
{
    let glyphs = measure(string);
    width_of(&glyphs)
}

} // verus!
