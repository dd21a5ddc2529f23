//! Line wrapping of measured text.
//!
//! Text is broken at every line feed, and before a visible character that
//! would carry the line past the columns available. A character of an escape
//! sequence takes no columns and never starts a line of its own.

use crate::width::{
    glyph_cols, glyph_columns, glyphs_width, lemma_width_push, plain, Glyph, MAX_CHAR_COLS,
};
use vstd::prelude::*;

verus! {

/// The lines that wrapping gives from index `i` of `text` on, when `line`
/// holds what the line in progress has taken so far.
pub open spec fn wrap_from(text: Seq<Glyph>, avail: nat, i: int, line: Seq<Glyph>) -> Seq<
    Seq<Glyph>,
>
    decreases text.len() - i,
{
    if i < 0 || i >= text.len() {
        seq![line]
    } else if text[i].ch == '\n' {
        seq![line] + wrap_from(text, avail, i + 1, Seq::empty())
    } else if !text[i].hidden && glyphs_width(line) + glyph_cols(text[i]) > avail {
        seq![line] + wrap_from(text, avail, i + 1, seq![text[i]])
    } else {
        wrap_from(text, avail, i + 1, line.push(text[i]))
    }
}

/// The text wrapped to `avail` columns.
pub open spec fn wrap_lines(text: Seq<Glyph>, avail: nat) -> Seq<Seq<Glyph>> {
    wrap_from(text, avail, 0, Seq::empty())
}

/// The lines with `sep` between each two.
pub open spec fn join_lines<T>(lines: Seq<Seq<T>>, sep: T) -> Seq<T>
    decreases lines.len(),
{
    if lines.len() == 0 {
        Seq::empty()
    } else if lines.len() == 1 {
        lines[0]
    } else {
        join_lines(lines.drop_last(), sep).push(sep) + lines.last()
    }
}

/// A line of output with its display width.
pub struct Line {
    pub glyphs: Vec<Glyph>,
    pub cols: usize,
}

impl Line {
    /// The stored width is the width of the glyphs.
    pub open spec fn well_formed(&self) -> bool {
        self.cols == glyphs_width(self.glyphs@)
    }
}

/// The glyphs of the line at index `i`.
pub open spec fn line_at(lines: Seq<Line>, i: int) -> Seq<Glyph> {
    lines[i].glyphs@
}

/// The glyph runs that a vector of lines holds.
pub open spec fn lines_view(lines: Seq<Line>) -> Seq<Seq<Glyph>> {
    Seq::new(lines.len(), |i: int| line_at(lines, i))
}

/// Every line carries its own width.
pub open spec fn lines_well_formed(lines: Seq<Line>) -> bool {
    forall|i: int| 0 <= i < lines.len() ==> (#[trigger] lines[i]).well_formed()
}

/// Wrapping always gives at least one line.
pub proof fn lemma_wrap_nonempty(text: Seq<Glyph>, avail: nat, i: int, line: Seq<Glyph>)
    ensures
        wrap_from(text, avail, i, line).len() >= 1,
    decreases text.len() - i,
{
    if i < 0 || i >= text.len() {
    } else if text[i].ch == '\n' {
        lemma_wrap_nonempty(text, avail, i + 1, Seq::empty());
    } else if !text[i].hidden && glyphs_width(line) + glyph_cols(text[i]) > avail {
        lemma_wrap_nonempty(text, avail, i + 1, seq![text[i]]);
    } else {
        lemma_wrap_nonempty(text, avail, i + 1, line.push(text[i]));
    }
}

/// Whether every visible glyph of the text, line feeds apart, takes no more
/// than `avail` columns.
pub open spec fn glyphs_fit(text: Seq<Glyph>, avail: nat) -> bool {
    forall|i: int|
        0 <= i < text.len() && (#[trigger] text[i]).ch != '\n' && !text[i].hidden ==> glyph_cols(
            text[i],
        ) <= avail
}

/// Whether wrapping to `avail` columns leaves the line in one piece: it holds
/// no line feed, and no visible glyph of it ends past column `avail`.
pub open spec fn unbroken(line: Seq<Glyph>, avail: nat) -> bool {
    forall|j: int|
        0 <= j < line.len() ==> (#[trigger] line[j]).ch != '\n' && (line[j].hidden || glyphs_width(
            line.take(j),
        ) + glyph_cols(line[j]) <= avail)
}

/// Whether wrapping to `avail` columns leaves each of the lines in one piece.
pub open spec fn all_unbroken(lines: Seq<Seq<Glyph>>, avail: nat) -> bool {
    forall|k: int| 0 <= k < lines.len() ==> unbroken(#[trigger] lines[k], avail)
}

/// What wrapping gives are lines that wrapping leaves in one piece, when
/// every visible glyph fits.
pub proof fn lemma_wrap_unbroken(text: Seq<Glyph>, avail: nat, i: int, line: Seq<Glyph>)
    requires
        glyphs_fit(text, avail),
        unbroken(line, avail),
        0 <= i,
    ensures
        all_unbroken(wrap_from(text, avail, i, line), avail),
    decreases text.len() - i,
{
    if i >= text.len() {
    } else {
        let g = text[i];
        if g.ch == '\n' {
            let rest = wrap_from(text, avail, i + 1, Seq::empty());
            lemma_wrap_unbroken(text, avail, i + 1, Seq::empty());
            assert forall|k: int| 0 <= k < (seq![line] + rest).len() implies unbroken(
                #[trigger] (seq![line] + rest)[k],
                avail,
            ) by {
                if k > 0 {
                    assert((seq![line] + rest)[k] == rest[k - 1]);
                }
            }
        } else if !g.hidden && glyphs_width(line) + glyph_cols(g) > avail {
            let start = seq![g];
            assert forall|j: int| 0 <= j < start.len() implies (#[trigger] start[j]).ch != '\n' && (
            start[j].hidden || glyphs_width(start.take(j)) + glyph_cols(start[j]) <= avail) by {
                assert(start.take(0) =~= Seq::<Glyph>::empty());
            }
            let rest = wrap_from(text, avail, i + 1, start);
            lemma_wrap_unbroken(text, avail, i + 1, start);
            assert forall|k: int| 0 <= k < (seq![line] + rest).len() implies unbroken(
                #[trigger] (seq![line] + rest)[k],
                avail,
            ) by {
                if k > 0 {
                    assert((seq![line] + rest)[k] == rest[k - 1]);
                }
            }
        } else {
            let longer = line.push(g);
            assert forall|j: int| 0 <= j < longer.len() implies (#[trigger] longer[j]).ch != '\n'
                && (longer[j].hidden || glyphs_width(longer.take(j)) + glyph_cols(longer[j])
                <= avail) by {
                if j < line.len() {
                    assert(longer.take(j) =~= line.take(j));
                    assert(longer[j] == line[j]);
                } else {
                    assert(longer.take(j) =~= line);
                }
            }
            lemma_wrap_unbroken(text, avail, i + 1, longer);
        }
    }
}

/// A line that wrapping leaves in one piece is no wider than the columns
/// available.
pub proof fn lemma_unbroken_width(line: Seq<Glyph>, avail: nat)
    requires
        unbroken(line, avail),
    ensures
        glyphs_width(line) <= avail,
    decreases line.len(),
{
    if line.len() > 0 {
        let init = line.drop_last();
        assert forall|j: int| 0 <= j < init.len() implies (#[trigger] init[j]).ch != '\n' && (
        init[j].hidden || glyphs_width(init.take(j)) + glyph_cols(init[j]) <= avail) by {
            assert(init[j] == line[j]);
            assert(init.take(j) =~= line.take(j));
        }
        lemma_unbroken_width(init, avail);
        let last = line.len() - 1;
        assert(line[last].ch != '\n');
        assert(line.take(last) =~= init);
    }
}

/// Every line that wrapping gives is no wider than the columns available,
/// when every visible glyph fits.
pub proof fn lemma_wrap_fits(text: Seq<Glyph>, avail: nat)
    requires
        glyphs_fit(text, avail),
    ensures
        forall|k: int|
            0 <= k < wrap_lines(text, avail).len() ==> glyphs_width(
                #[trigger] wrap_lines(text, avail)[k],
            ) <= avail,
{
    lemma_wrap_unbroken(text, avail, 0, Seq::empty());
    assert forall|k: int| 0 <= k < wrap_lines(text, avail).len() implies glyphs_width(
        #[trigger] wrap_lines(text, avail)[k],
    ) <= avail by {
        lemma_unbroken_width(wrap_lines(text, avail)[k], avail);
    }
}

/// The columns of a glyph if wrapping has to place it: those of a visible
/// glyph that is no line feed, and none for any other.
pub open spec fn placed_cols(g: Glyph) -> nat {
    if g.ch != '\n' && !g.hidden {
        glyph_cols(g)
    } else {
        0
    }
}

/// The widest glyph that wrapping has to place from index `i` on.
pub open spec fn widest_placed(text: Seq<Glyph>, i: int) -> nat
    decreases text.len() - i,
{
    if i < 0 || i >= text.len() {
        0
    } else {
        let rest = widest_placed(text, i + 1);
        if placed_cols(text[i]) > rest {
            placed_cols(text[i])
        } else {
            rest
        }
    }
}

/// The width of the widest line; 0 if there is none.
pub open spec fn widest_line(lines: Seq<Seq<Glyph>>) -> nat
    decreases lines.len(),
{
    if lines.len() == 0 {
        0
    } else {
        let before = widest_line(lines.drop_last());
        if glyphs_width(lines.last()) > before {
            glyphs_width(lines.last())
        } else {
            before
        }
    }
}

/// The widest of two runs of lines is the wider of their widest lines.
pub proof fn lemma_widest_concat(a: Seq<Seq<Glyph>>, b: Seq<Seq<Glyph>>)
    ensures
        widest_line(a + b) == if widest_line(a) >= widest_line(b) {
            widest_line(a)
        } else {
            widest_line(b)
        },
    decreases b.len(),
{
    if b.len() == 0 {
        assert(a + b =~= a);
    } else {
        lemma_widest_concat(a, b.drop_last());
        assert((a + b).drop_last() =~= a + b.drop_last());
    }
}

/// The widest of one line is that line's width.
pub proof fn lemma_widest_one(line: Seq<Glyph>)
    ensures
        widest_line(seq![line]) == glyphs_width(line),
{
    let lines = seq![line];
    assert(lines.drop_last() =~= Seq::<Seq<Glyph>>::empty());
    assert(widest_line(lines.drop_last()) == 0);
    assert(lines.last() == line);
}

/// No line is wider than the widest.
pub proof fn lemma_widest_bounds(lines: Seq<Seq<Glyph>>, k: int)
    requires
        0 <= k < lines.len(),
    ensures
        glyphs_width(lines[k]) <= widest_line(lines),
    decreases lines.len(),
{
    if k < lines.len() - 1 {
        lemma_widest_bounds(lines.drop_last(), k);
    }
}

/// The widest line is no wider than a bound on all lines.
pub proof fn lemma_widest_bounded(lines: Seq<Seq<Glyph>>, bound: nat)
    requires
        forall|k: int| 0 <= k < lines.len() ==> glyphs_width(#[trigger] lines[k]) <= bound,
    ensures
        widest_line(lines) <= bound,
    decreases lines.len(),
{
    if lines.len() > 0 {
        let init = lines.drop_last();
        assert forall|k: int| 0 <= k < init.len() implies glyphs_width(#[trigger] init[k])
            <= bound by {
            assert(init[k] == lines[k]);
        }
        lemma_widest_bounded(init, bound);
        assert(glyphs_width(lines[lines.len() - 1]) <= bound);
    }
}

/// No glyph that wrapping has to place is wider than the widest.
pub proof fn lemma_widest_placed_bounds(text: Seq<Glyph>, from: int, i: int)
    requires
        0 <= from <= i < text.len(),
    ensures
        placed_cols(text[i]) <= widest_placed(text, from),
    decreases i - from,
{
    if from < i {
        lemma_widest_placed_bounds(text, from + 1, i);
    }
}

/// A text whose widest placed glyph fits has every visible glyph fit.
pub proof fn lemma_placed_fit(text: Seq<Glyph>, avail: nat)
    requires
        widest_placed(text, 0) <= avail,
    ensures
        glyphs_fit(text, avail),
{
    assert forall|i: int|
        0 <= i < text.len() && (#[trigger] text[i]).ch != '\n' && !text[i].hidden implies glyph_cols(
        text[i],
    ) <= avail by {
        lemma_widest_placed_bounds(text, 0, i);
    }
}

/// The widest line that wrapping gives is at least as wide as the line in
/// progress and as any glyph that is still to be placed.
pub proof fn lemma_wrap_widest(text: Seq<Glyph>, avail: nat, i: int, line: Seq<Glyph>)
    requires
        0 <= i,
    ensures
        widest_line(wrap_from(text, avail, i, line)) >= glyphs_width(line),
        widest_line(wrap_from(text, avail, i, line)) >= widest_placed(text, i),
    decreases text.len() - i,
{
    if i >= text.len() {
        lemma_widest_one(line);
    } else {
        let g = text[i];
        if g.ch == '\n' {
            let rest = wrap_from(text, avail, i + 1, Seq::empty());
            lemma_wrap_widest(text, avail, i + 1, Seq::empty());
            lemma_widest_one(line);
            lemma_widest_concat(seq![line], rest);
        } else if !g.hidden && glyphs_width(line) + glyph_cols(g) > avail {
            let rest = wrap_from(text, avail, i + 1, seq![g]);
            lemma_wrap_widest(text, avail, i + 1, seq![g]);
            lemma_widest_one(line);
            lemma_widest_concat(seq![line], rest);
            lemma_width_push(Seq::empty(), g);
            assert(Seq::<Glyph>::empty().push(g) =~= seq![g]);
        } else {
            lemma_wrap_widest(text, avail, i + 1, line.push(g));
            lemma_width_push(line, g);
        }
    }
}

/// No line that wrapping gives is wider than the columns available, or than
/// one glyph where that is more.
pub proof fn lemma_wrap_bounded(text: Seq<Glyph>, avail: nat, i: int, line: Seq<Glyph>, k: int)
    requires
        0 <= i,
        glyphs_width(line) <= avail || glyphs_width(line) <= MAX_CHAR_COLS,
        0 <= k < wrap_from(text, avail, i, line).len(),
    ensures
        glyphs_width(wrap_from(text, avail, i, line)[k]) <= avail || glyphs_width(
            wrap_from(text, avail, i, line)[k],
        ) <= MAX_CHAR_COLS,
    decreases text.len() - i,
{
    if i >= text.len() {
    } else {
        let g = text[i];
        if g.ch == '\n' {
            if k > 0 {
                lemma_wrap_bounded(text, avail, i + 1, Seq::empty(), k - 1);
            }
        } else if !g.hidden && glyphs_width(line) + glyph_cols(g) > avail {
            if k > 0 {
                lemma_width_push(Seq::empty(), g);
                assert(Seq::<Glyph>::empty().push(g) =~= seq![g]);
                lemma_wrap_bounded(text, avail, i + 1, seq![g], k - 1);
            }
        } else {
            lemma_width_push(line, g);
            lemma_wrap_bounded(text, avail, i + 1, line.push(g), k);
        }
    }
}

/// Wrapping looks only at the text from the index on.
pub proof fn lemma_wrap_shift(a: Seq<Glyph>, b: Seq<Glyph>, avail: nat, i: int, line: Seq<Glyph>)
    requires
        0 <= i,
    ensures
        wrap_from(a + b, avail, a.len() + i, line) == wrap_from(b, avail, i, line),
    decreases b.len() - i,
{
    if i < b.len() {
        let g = b[i];
        assert((a + b)[a.len() + i] == g);
        if g.ch == '\n' {
            lemma_wrap_shift(a, b, avail, i + 1, Seq::empty());
        } else if !g.hidden && glyphs_width(line) + glyph_cols(g) > avail {
            lemma_wrap_shift(a, b, avail, i + 1, seq![g]);
        } else {
            lemma_wrap_shift(a, b, avail, i + 1, line.push(g));
        }
    }
}

/// A line feed parts the text: what stands before it and what stands after
/// it are wrapped each for itself.
pub proof fn lemma_wrap_parted(
    x: Seq<Glyph>,
    y: Seq<Glyph>,
    feed: Glyph,
    avail: nat,
    i: int,
    line: Seq<Glyph>,
)
    requires
        feed.ch == '\n',
        0 <= i <= x.len(),
    ensures
        wrap_from(x.push(feed) + y, avail, i, line) == wrap_from(x, avail, i, line) + wrap_lines(
            y,
            avail,
        ),
    decreases x.len() - i,
{
    let text = x.push(feed) + y;
    if i == x.len() {
        assert(text[i] == feed);
        lemma_wrap_shift(x.push(feed), y, avail, 0, Seq::empty());
        assert(wrap_from(x, avail, i, line) =~= seq![line]);
    } else {
        let g = x[i];
        assert(text[i] == g);
        if g.ch == '\n' {
            lemma_wrap_parted(x, y, feed, avail, i + 1, Seq::empty());
            let inner = wrap_from(x, avail, i + 1, Seq::empty());
            assert(seq![line] + (inner + wrap_lines(y, avail)) =~= (seq![line] + inner)
                + wrap_lines(y, avail));
        } else if !g.hidden && glyphs_width(line) + glyph_cols(g) > avail {
            lemma_wrap_parted(x, y, feed, avail, i + 1, seq![g]);
            let inner = wrap_from(x, avail, i + 1, seq![g]);
            assert(seq![line] + (inner + wrap_lines(y, avail)) =~= (seq![line] + inner)
                + wrap_lines(y, avail));
        } else {
            lemma_wrap_parted(x, y, feed, avail, i + 1, line.push(g));
        }
    }
}

/// A line that wrapping leaves in one piece is wrapped to itself.
pub proof fn lemma_wrap_one_piece(line: Seq<Glyph>, avail: nat, j: int)
    requires
        unbroken(line, avail),
        0 <= j <= line.len(),
    ensures
        wrap_from(line, avail, j, line.take(j)) == seq![line],
    decreases line.len() - j,
{
    if j < line.len() {
        assert(line[j].ch != '\n');
        assert(line.take(j).push(line[j]) =~= line.take(j + 1));
        lemma_wrap_one_piece(line, avail, j + 1);
    } else {
        assert(line.take(j) =~= line);
    }
}

/// Lines that wrapping leaves in one piece come out again when they are
/// joined by line feeds and wrapped.
pub proof fn lemma_rewrap(lines: Seq<Seq<Glyph>>, avail: nat)
    requires
        lines.len() >= 1,
        all_unbroken(lines, avail),
    ensures
        wrap_lines(join_lines(lines, plain('\n')), avail) == lines,
    decreases lines.len(),
{
    if lines.len() == 1 {
        assert(unbroken(lines[0], avail));
        assert(lines[0].take(0) =~= Seq::<Glyph>::empty());
        lemma_wrap_one_piece(lines[0], avail, 0);
        assert(lines =~= seq![lines[0]]);
    } else {
        let init = lines.drop_last();
        assert forall|k: int| 0 <= k < init.len() implies unbroken(#[trigger] init[k], avail) by {
            assert(init[k] == lines[k]);
        }
        lemma_rewrap(init, avail);
        let last = lines.last();
        assert(unbroken(lines[lines.len() - 1], avail));
        assert(last.take(0) =~= Seq::<Glyph>::empty());
        lemma_wrap_one_piece(last, avail, 0);
        lemma_wrap_parted(join_lines(init, plain('\n')), last, plain('\n'), avail, 0, Seq::empty());
        assert(init + seq![last] =~= lines);
    }
}

/// Wrapping is idempotent: the lines of a wrapped text, joined by line feeds
/// and wrapped again to the same width, are the same lines. This holds when
/// every visible glyph of the text fits the width.
pub proof fn lemma_wrap_idempotent(text: Seq<Glyph>, avail: nat)
    requires
        glyphs_fit(text, avail),
    ensures
        wrap_lines(join_lines(wrap_lines(text, avail), plain('\n')), avail) == wrap_lines(
            text,
            avail,
        ),
{
    lemma_wrap_nonempty(text, avail, 0, Seq::empty());
    lemma_wrap_unbroken(text, avail, 0, Seq::empty());
    lemma_rewrap(wrap_lines(text, avail), avail);
}

/// Wraps `text` to `avail` columns.
pub fn wrap(text: &Vec<Glyph>, avail: usize) -> (lines: Vec<Line>)
    ensures
        lines_view(lines@) == wrap_lines(text@, avail as nat),
        lines_well_formed(lines@),
        lines@.len() >= 1,
        forall|k: int| 0 <= k < lines@.len() ==> (#[trigger] lines@[k]).cols <= avail || lines@[k].cols <= 3,
{
    let mut lines: Vec<Line> = Vec::new();
    let mut line: Vec<Glyph> = Vec::new();
    let mut cols: usize = 0;
    let mut i: usize = 0;
    while i < text.len()
        invariant
            i <= text.len(),
            cols == glyphs_width(line@),
            cols <= avail || cols <= 3,
            lines_well_formed(lines@),
            forall|k: int| 0 <= k < lines@.len() ==> (#[trigger] lines@[k]).cols <= avail || lines@[k].cols <= 3,
            lines_view(lines@) + wrap_from(text@, avail as nat, i as int, line@) == wrap_lines(
                text@,
                avail as nat,
            ),
        decreases text.len() - i,
    {
        let g = text[i];
        let w = glyph_columns(g);
        let ghost done = lines_view(lines@);
        let ghost rest = wrap_from(text@, avail as nat, i + 1, Seq::empty());
        if g.ch == '\n' {
            lines.push(Line { glyphs: line, cols });
            proof {
                assert(lines_view(lines@) =~= done.push(line@));
                assert(done.push(line@) + rest =~= done + (seq![line@] + rest));
            }
            line = Vec::new();
            cols = 0;
        } else if !g.hidden && (w > avail || cols > avail - w) {
            lines.push(Line { glyphs: line, cols });
            proof {
                let ghost next = wrap_from(text@, avail as nat, i + 1, seq![g]);
                assert(lines_view(lines@) =~= done.push(line@));
                assert(done.push(line@) + next =~= done + (seq![line@] + next));
            }
            line = Vec::new();
            line.push(g);
            cols = w;
            proof {
                assert(line@ =~= seq![g]);
                lemma_width_push(Seq::empty(), g);
                assert(Seq::<Glyph>::empty().push(g) =~= seq![g]);
            }
        } else {
            proof {
                lemma_width_push(line@, g);
            }
            line.push(g);
            cols = cols + w;
        }
        i += 1;
    }
    let ghost done = lines_view(lines@);
    lines.push(Line { glyphs: line, cols });
    proof {
        assert(lines_view(lines@) =~= done.push(line@));
        assert(done.push(line@) =~= done + seq![line@]);
    }
    lines
}

} // verus!
