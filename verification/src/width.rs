//! Display-width measurement.
//!
//! A piece of text is measured character by character. Each character is
//! paired with a flag that says whether it belongs to an ANSI escape
//! sequence; flagged characters are printed but take no columns.

use regex::Regex;
use unicode_width::UnicodeWidthChar;
use vstd::prelude::*;

verus! {

/// What `unicode_width::UnicodeWidthChar::width` returns for a character.
pub uninterp spec fn unicode_width(c: char) -> Option<usize>;

/// What `regex::Regex::find_iter` reports for a pattern in a text: the byte
/// range `(start, end)` of each match, in order; `None` where
/// `regex::Regex::new` does not accept the pattern.
pub uninterp spec fn regex_matches(pattern: Seq<char>, text: Seq<char>) -> Option<
    Seq<(usize, usize)>,
>;

/// Calls `unicode_width::UnicodeWidthChar::width`.
///
/// Trusted: the result is the crate's answer for `c`.
#[verifier::external_body]
fn unicode_char_width(c: char) -> (w: Option<usize>)
    ensures
        w == unicode_width(c),
{
    UnicodeWidthChar::width(c)
}

/// Calls `regex::Regex::new` on `pattern` and then `regex::Regex::find_iter`
/// on `text`, and hands out each match as its `Match::start` and
/// `Match::end`.
///
/// Trusted: the result is the list of matches in the order the iterator gave
/// them, or `None` where the pattern was refused. Nothing is claimed about
/// where the matches lie.
#[verifier::external_body]
fn find_matches(pattern: &str, text: &str) -> (found: Option<Vec<(usize, usize)>>)
    ensures
        match found {
            Some(spans) => regex_matches(pattern@, text@) == Some(spans@),
            None => regex_matches(pattern@, text@) is None,
        },
{
    match Regex::new(pattern) {
        Ok(re) => Some(re.find_iter(text).map(|m| (m.start(), m.end())).collect()),
        Err(_) => None,
    }
}

/// The pattern of an ANSI escape sequence: ESC or CSI, any of `[()#;?`, numbers
/// separated by `;`, and a final character.
pub const ESCAPE_PATTERN: &'static str =
    "[\\x1b\\x9b][\\[()#;?]*(?:[0-9]{1,4}(?:;[0-9]{0,4})*)?[0-9A-PRZcf-nqry=><]";

/// The byte ranges `(start, end)` of the escape sequences of a text.
pub open spec fn escape_spans(text: Seq<char>) -> Seq<(usize, usize)> {
    match regex_matches(ESCAPE_PATTERN@, text) {
        Some(spans) => spans,
        None => Seq::empty(),
    }
}

/// Finds the escape sequences of a text.
pub fn find_escapes(text: &str) -> (spans: Vec<(usize, usize)>)
    ensures
        spans@ == escape_spans(text@),
{
    match find_matches(ESCAPE_PATTERN, text) {
        Some(spans) => spans,
        None => Vec::new(),
    }
}

/// `String::push` appends one character.
pub assume_specification[ String::push ](s: &mut String, c: char)
    ensures
        final(s)@ == old(s)@.push(c),
;

/// `char::len_utf8` is the number of bytes of the character's UTF-8 encoding.
pub assume_specification[ char::len_utf8 ](c: char) -> (n: usize)
    ensures
        n == utf8_len(c),
;

/// Number of bytes that a character takes in UTF-8.
pub open spec fn utf8_len(c: char) -> nat {
    if (c as u32) < 0x80 {
        1
    } else if (c as u32) < 0x800 {
        2
    } else if (c as u32) < 0x1_0000 {
        3
    } else {
        4
    }
}

/// Printable ASCII: U+0020 up to, not including, U+007F.
pub open spec fn is_printable_ascii(c: char) -> bool {
    0x20 <= (c as u32) && (c as u32) < 0x7f
}

/// The most columns that one character takes. The width tables know no
/// wider character.
pub const MAX_CHAR_COLS: usize = 3;

/// A width from the tables, counted as `MAX_CHAR_COLS` if it is larger.
pub open spec fn table_cols(w: usize) -> nat {
    if w > MAX_CHAR_COLS {
        MAX_CHAR_COLS as nat
    } else {
        w as nat
    }
}

/// Columns that a character takes on a terminal. Printable ASCII takes one;
/// any other character takes what the width tables say, and one column where
/// they give no width.
pub open spec fn char_cols(c: char) -> nat {
    if is_printable_ascii(c) {
        1
    } else {
        match unicode_width(c) {
            Some(w) => table_cols(w),
            None => 1,
        }
    }
}

/// Columns that a border character takes between two spanned columns: what
/// the width tables say, and nothing where they give no width.
pub open spec fn border_cols(c: char) -> nat {
    if is_printable_ascii(c) {
        1
    } else {
        match unicode_width(c) {
            Some(w) => table_cols(w),
            None => 0,
        }
    }
}

/// One character of output. `hidden` marks a character of an escape
/// sequence.
#[derive(Clone, Copy, Debug, PartialEq, Eq, Structural)]
pub struct Glyph {
    pub ch: char,
    pub hidden: bool,
}

/// Columns that one glyph takes.
pub open spec fn glyph_cols(g: Glyph) -> nat {
    if g.hidden {
        0
    } else {
        char_cols(g.ch)
    }
}

/// Display width of a run of glyphs: the sum of their columns.
pub open spec fn glyphs_width(s: Seq<Glyph>) -> nat
    decreases s.len(),
{
    if s.len() == 0 {
        0
    } else {
        glyphs_width(s.drop_last()) + glyph_cols(s.last())
    }
}

/// The characters of a run of glyphs.
pub open spec fn chars_of(s: Seq<Glyph>) -> Seq<char> {
    Seq::new(s.len(), |i: int| s[i].ch)
}

/// A visible glyph for `c`.
pub open spec fn plain(c: char) -> Glyph {
    Glyph { ch: c, hidden: false }
}

/// Byte offset of the character at index `i` in the UTF-8 encoding of `text`.
pub open spec fn byte_offset(text: Seq<char>, i: int) -> nat
    decreases i,
{
    if i <= 0 {
        0
    } else {
        byte_offset(text, i - 1) + utf8_len(text[i - 1])
    }
}

/// Whether byte offset `b` lies in one of the ranges.
pub open spec fn in_spans(spans: Seq<(usize, usize)>, b: nat) -> bool {
    exists|k: int| 0 <= k < spans.len() && (#[trigger] spans[k]).0 <= b < spans[k].1
}

/// Whether the character at index `i` belongs to an escape sequence: it
/// starts inside one of the ranges. A line feed never does.
pub open spec fn is_hidden(text: Seq<char>, spans: Seq<(usize, usize)>, i: int) -> bool {
    text[i] != '\n' && in_spans(spans, byte_offset(text, i))
}

/// The glyph of the character at index `i`.
pub open spec fn glyph_at(text: Seq<char>, spans: Seq<(usize, usize)>, i: int) -> Glyph {
    Glyph { ch: text[i], hidden: is_hidden(text, spans, i) }
}

/// The glyphs of `text`, given the byte ranges of its escape sequences.
pub open spec fn mark_spans(text: Seq<char>, spans: Seq<(usize, usize)>) -> Seq<Glyph> {
    Seq::new(text.len(), |i: int| glyph_at(text, spans, i))
}

/// The glyphs of `text`.
pub open spec fn glyphs_of(text: Seq<char>) -> Seq<Glyph> {
    mark_spans(text, escape_spans(text))
}

/// Display width of a string.
pub open spec fn display_width(text: Seq<char>) -> nat {
    glyphs_width(glyphs_of(text))
}

/// The text with every `"\r\n"` and every other `'\r'` replaced by `'\n'`,
/// as far as its first `n` characters go.
pub open spec fn normalized_upto(s: Seq<char>, n: int) -> Seq<char>
    decreases n,
{
    if n <= 0 {
        Seq::empty()
    } else {
        let before = normalized_upto(s, n - 1);
        let c = s[n - 1];
        if c == '\r' {
            before.push('\n')
        } else if c == '\n' && n >= 2 && s[n - 2] == '\r' {
            before
        } else {
            before.push(c)
        }
    }
}

/// The text with every `"\r\n"` and every other `'\r'` replaced by `'\n'`.
pub open spec fn normalize_newlines(s: Seq<char>) -> Seq<char> {
    normalized_upto(s, s.len() as int)
}

/// No character of a text is wider than the widest.
pub proof fn lemma_widest_char_bounds(text: Seq<char>, i: int)
    requires
        0 <= i < text.len(),
    ensures
        char_cols(text[i]) <= widest_char(text),
    decreases text.len(),
{
    if i < text.len() - 1 {
        lemma_widest_char_bounds(text.drop_last(), i);
    }
}

/// Making line endings uniform brings in no character but the line feed:
/// every other character of the result is one of the text.
pub proof fn lemma_normalized_cols(s: Seq<char>, n: int, j: int)
    requires
        0 <= n <= s.len(),
        0 <= j < normalized_upto(s, n).len(),
    ensures
        normalized_upto(s, n)[j] == '\n' || char_cols(normalized_upto(s, n)[j]) <= widest_char(s),
    decreases n,
{
    if n > 0 {
        let before = normalized_upto(s, n - 1);
        let c = s[n - 1];
        if j < before.len() {
            lemma_normalized_cols(s, n - 1, j);
        } else {
            lemma_widest_char_bounds(s, n - 1);
        }
    }
}

/// Appending a glyph adds its columns.
pub proof fn lemma_width_push(s: Seq<Glyph>, g: Glyph)
    ensures
        glyphs_width(s.push(g)) == glyphs_width(s) + glyph_cols(g),
{
    assert(s.push(g).drop_last() =~= s);
}

/// The width of a concatenation is the sum of the widths.
pub proof fn lemma_width_concat(a: Seq<Glyph>, b: Seq<Glyph>)
    ensures
        glyphs_width(a + b) == glyphs_width(a) + glyphs_width(b),
    decreases b.len(),
{
    if b.len() == 0 {
        assert(a + b =~= a);
    } else {
        lemma_width_concat(a, b.drop_last());
        assert((a + b).drop_last() =~= a + b.drop_last());
    }
}

/// Whether a character is printable ASCII.
pub fn printable_ascii(c: char) -> (b: bool)
    ensures
        b == is_printable_ascii(c),
{
    let code = c as u32;
    code >= 0x20 && code <= 0x7e
}

/// A width from the tables, counted as `MAX_CHAR_COLS` if it is larger.
fn table_columns(w: usize) -> (cols: usize)
    ensures
        cols == table_cols(w),
        cols <= MAX_CHAR_COLS,
{
    if w > MAX_CHAR_COLS {
        MAX_CHAR_COLS
    } else {
        w
    }
}

/// Columns of one character.
pub fn char_columns(c: char) -> (w: usize)
    ensures
        w == char_cols(c),
        w <= MAX_CHAR_COLS,
{
    if printable_ascii(c) {
        1
    } else {
        match unicode_char_width(c) {
            Some(n) => table_columns(n),
            None => 1,
        }
    }
}

/// Columns of a border character that a spanning cell covers.
pub fn border_columns(c: char) -> (w: usize)
    ensures
        w == border_cols(c),
        w <= MAX_CHAR_COLS,
{
    if printable_ascii(c) {
        1
    } else {
        match unicode_char_width(c) {
            Some(n) => table_columns(n),
            None => 0,
        }
    }
}

/// Columns of one glyph.
pub fn glyph_columns(g: Glyph) -> (w: usize)
    ensures
        w == glyph_cols(g),
        w <= 3,
{
    if g.hidden {
        0
    } else {
        char_columns(g.ch)
    }
}

/// The characters of a string, in order.
pub fn to_chars(s: &str) -> (v: Vec<char>)
    ensures
        v@ == s@,
{
    broadcast use vstd::string::group_string_axioms;

    let mut v: Vec<char> = Vec::new();
    for c in it: s.chars()
        invariant
            it.seq() == s@,
            v@ == s@.take(it.index() as int),
    {
        v.push(c);
    }
    assert(s@.take(s@.len() as int) =~= s@);
    v
}

/// A string made of the given characters.
pub fn from_chars(v: &Vec<char>) -> (s: String)
    ensures
        s@ == v@,
{
    let mut s = String::new();
    let mut i: usize = 0;
    while i < v.len()
        invariant
            i <= v.len(),
            s@ == v@.take(i as int),
        decreases v.len() - i,
    {
        s.push(v[i]);
        assert(v@.take(i + 1) =~= v@.take(i as int).push(v@[i as int]));
        i += 1;
    }
    assert(v@.take(v@.len() as int) =~= v@);
    s
}

/// A string made of the characters of the given glyphs.
pub fn glyphs_to_string(v: &Vec<Glyph>) -> (s: String)
    ensures
        s@ == chars_of(v@),
{
    let mut s = String::new();
    let mut i: usize = 0;
    while i < v.len()
        invariant
            i <= v.len(),
            s@ == chars_of(v@.take(i as int)),
        decreases v.len() - i,
    {
        s.push(v[i].ch);
        assert(chars_of(v@.take(i + 1)) =~= chars_of(v@.take(i as int)).push(v@[i as int].ch));
        i += 1;
    }
    assert(v@.take(v@.len() as int) =~= v@);
    s
}

/// Replaces every `"\r\n"` and every other `'\r'` by `'\n'`.
pub fn normalize(text: &Vec<char>) -> (out: Vec<char>)
    ensures
        out@ == normalize_newlines(text@),
{
    let mut out: Vec<char> = Vec::new();
    let mut i: usize = 0;
    while i < text.len()
        invariant
            i <= text.len(),
            out@ == normalized_upto(text@, i as int),
        decreases text.len() - i,
    {
        let c = text[i];
        if c == '\r' {
            out.push('\n');
        } else if c == '\n' && i >= 1 && text[i - 1] == '\r' {
        } else {
            out.push(c);
        }
        i += 1;
    }
    out
}

/// Whether byte offset `b` lies in one of the ranges.
fn in_any_span(spans: &Vec<(usize, usize)>, b: usize) -> (found: bool)
    ensures
        found == in_spans(spans@, b as nat),
{
    let mut k: usize = 0;
    while k < spans.len()
        invariant
            k <= spans.len(),
            forall|j: int| 0 <= j < k ==> !((#[trigger] spans@[j]).0 <= b < spans@[j].1),
        decreases spans.len() - k,
    {
        if spans[k].0 <= b && b < spans[k].1 {
            return true;
        }
        k += 1;
    }
    false
}

/// Pairs each character with its escape flag.
fn mark(text: &Vec<char>, spans: &Vec<(usize, usize)>) -> (glyphs: Vec<Glyph>)
    ensures
        glyphs@ == mark_spans(text@, spans@),
{
    let mut glyphs: Vec<Glyph> = Vec::new();
    let mut offset: Option<usize> = Some(0);
    let mut i: usize = 0;
    while i < text.len()
        invariant
            i <= text.len(),
            glyphs@ == mark_spans(text@, spans@).take(i as int),
            match offset {
                Some(b) => b == byte_offset(text@, i as int),
                None => byte_offset(text@, i as int) > usize::MAX,
            },
        decreases text.len() - i,
    {
        let c = text[i];
        let inside = match offset {
            Some(b) => in_any_span(spans, b),
            None => false,
        };
        let hidden = c != '\n' && inside;
        glyphs.push(Glyph { ch: c, hidden });
        assert(mark_spans(text@, spans@).take(i + 1) =~= mark_spans(text@, spans@).take(
            i as int,
        ).push(mark_spans(text@, spans@)[i as int]));
        offset =
        match offset {
            Some(b) => b.checked_add(c.len_utf8()),
            None => None,
        };
        i += 1;
    }
    assert(mark_spans(text@, spans@).take(text@.len() as int) =~= mark_spans(text@, spans@));
    glyphs
}

/// Measures a string: finds its escape sequences and flags their characters.
pub fn measure(text: &str) -> (glyphs: Vec<Glyph>)
    ensures
        glyphs@ == glyphs_of(text@),
{
    let chars = to_chars(text);
    let spans = find_escapes(text);
    mark(&chars, &spans)
}

/// Measures a string after its line endings have been made uniform.
pub fn measure_normalized(text: &str) -> (glyphs: Vec<Glyph>)
    ensures
        glyphs@ == glyphs_of(normalize_newlines(text@)),
{
    let chars = normalize(&to_chars(text));
    let uniform = from_chars(&chars);
    let spans = find_escapes(uniform.as_str());
    mark(&chars, &spans)
}

/// The widest character of a text, in columns; 0 for an empty text.
pub open spec fn widest_char(text: Seq<char>) -> nat
    decreases text.len(),
{
    if text.len() == 0 {
        0
    } else {
        let before = widest_char(text.drop_last());
        if char_cols(text.last()) > before {
            char_cols(text.last())
        } else {
            before
        }
    }
}

/// The widest character of a string, in columns.
pub fn widest_char_of(text: &str) -> (w: usize)
    ensures
        w == widest_char(text@),
        w <= 3,
{
    let chars = to_chars(text);
    let mut w: usize = 0;
    let mut i: usize = 0;
    while i < chars.len()
        invariant
            i <= chars.len(),
            w == widest_char(chars@.take(i as int)),
            w <= 3,
        decreases chars.len() - i,
    {
        let cols = char_columns(chars[i]);
        assert(chars@.take(i + 1).drop_last() =~= chars@.take(i as int));
        if cols > w {
            w = cols;
        }
        i += 1;
    }
    assert(chars@.take(chars@.len() as int) =~= chars@);
    w
}

/// Display width of a run of glyphs.
pub fn width_of(glyphs: &Vec<Glyph>) -> (w: usize)
    requires
        3 * glyphs@.len() <= usize::MAX,
    ensures
        w == glyphs_width(glyphs@),
{
    let mut w: usize = 0;
    let mut i: usize = 0;
    while i < glyphs.len()
        invariant
            i <= glyphs.len(),
            3 * glyphs@.len() <= usize::MAX,
            w == glyphs_width(glyphs@.take(i as int)),
            w <= 3 * i,
        decreases glyphs.len() - i,
    {
        let g = glyphs[i];
        let cols = glyph_columns(g);
        proof {
            lemma_width_push(glyphs@.take(i as int), g);
            assert(glyphs@.take(i + 1) =~= glyphs@.take(i as int).push(g));
        }
        w = w + cols;
        i += 1;
    }
    assert(glyphs@.take(glyphs@.len() as int) =~= glyphs@);
    w
}

} // verus!
