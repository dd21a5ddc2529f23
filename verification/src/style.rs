//! Border characters.

use vstd::prelude::*;

verus! {

/// Where a border line stands: above the first row, between two rows, or
/// below the last row.
#[derive(Clone, Copy, Debug, PartialEq, Eq, PartialOrd, Ord, Hash, Structural)]
pub enum RowPosition {
    First,
    Mid,
    Last,
}

impl Default for RowPosition {
    fn default() -> (p: RowPosition)
        ensures
            p == RowPosition::First,
    {
        RowPosition::First
    }
}

/// The characters that borders are drawn with.
#[derive(Clone, Copy, Debug, PartialEq, Eq, PartialOrd, Ord, Hash, Structural)]
pub struct TableStyle {
    pub top_left_corner: char,
    pub top_right_corner: char,
    pub bottom_left_corner: char,
    pub bottom_right_corner: char,
    pub outer_left_vertical: char,
    pub outer_right_vertical: char,
    pub outer_bottom_horizontal: char,
    pub outer_top_horizontal: char,
    pub intersection: char,
    pub vertical: char,
    pub horizontal: char,
}

impl Default for TableStyle {
    fn default() -> (s: TableStyle)
        ensures
            s == TableStyle::blank_style(),
    {
        TableStyle::blank()
    }
}

impl TableStyle {
    /// Plain ASCII: `+` at every junction, `|` and `-` for the lines.
    pub open spec fn simple_style() -> TableStyle {
        TableStyle {
            top_left_corner: '+',
            top_right_corner: '+',
            bottom_left_corner: '+',
            bottom_right_corner: '+',
            outer_left_vertical: '+',
            outer_right_vertical: '+',
            outer_bottom_horizontal: '+',
            outer_top_horizontal: '+',
            intersection: '+',
            vertical: '|',
            horizontal: '-',
        }
    }

    /// Plain ASCII: `+` at every junction, `|` and `-` for the lines.
    pub fn simple() -> (s: TableStyle)
        ensures
            s == TableStyle::simple_style(),
    {
        TableStyle {
            top_left_corner: '+',
            top_right_corner: '+',
            bottom_left_corner: '+',
            bottom_right_corner: '+',
            outer_left_vertical: '+',
            outer_right_vertical: '+',
            outer_bottom_horizontal: '+',
            outer_top_horizontal: '+',
            intersection: '+',
            vertical: '|',
            horizontal: '-',
        }
    }

    /// Double-line box-drawing characters.
    pub open spec fn extended_style() -> TableStyle {
        TableStyle {
            top_left_corner: '╔',
            top_right_corner: '╗',
            bottom_left_corner: '╚',
            bottom_right_corner: '╝',
            outer_left_vertical: '╠',
            outer_right_vertical: '╣',
            outer_bottom_horizontal: '╩',
            outer_top_horizontal: '╦',
            intersection: '╬',
            vertical: '║',
            horizontal: '═',
        }
    }

    /// Double-line box-drawing characters.
    pub fn extended() -> (s: TableStyle)
        ensures
            s == TableStyle::extended_style(),
    {
        TableStyle {
            top_left_corner: '╔',
            top_right_corner: '╗',
            bottom_left_corner: '╚',
            bottom_right_corner: '╝',
            outer_left_vertical: '╠',
            outer_right_vertical: '╣',
            outer_bottom_horizontal: '╩',
            outer_top_horizontal: '╦',
            intersection: '╬',
            vertical: '║',
            horizontal: '═',
        }
    }

    /// Single-line box-drawing characters.
    pub open spec fn thin_style() -> TableStyle {
        TableStyle {
            top_left_corner: '┌',
            top_right_corner: '┐',
            bottom_left_corner: '└',
            bottom_right_corner: '┘',
            outer_left_vertical: '├',
            outer_right_vertical: '┤',
            outer_bottom_horizontal: '┴',
            outer_top_horizontal: '┬',
            intersection: '┼',
            vertical: '│',
            horizontal: '─',
        }
    }

    /// Single-line box-drawing characters.
    pub fn thin() -> (s: TableStyle)
        ensures
            s == TableStyle::thin_style(),
    {
        TableStyle {
            top_left_corner: '┌',
            top_right_corner: '┐',
            bottom_left_corner: '└',
            bottom_right_corner: '┘',
            outer_left_vertical: '├',
            outer_right_vertical: '┤',
            outer_bottom_horizontal: '┴',
            outer_top_horizontal: '┬',
            intersection: '┼',
            vertical: '│',
            horizontal: '─',
        }
    }

    /// Single-line box-drawing characters with rounded corners.
    pub open spec fn rounded_style() -> TableStyle {
        TableStyle {
            top_left_corner: '╭',
            top_right_corner: '╮',
            bottom_left_corner: '╰',
            bottom_right_corner: '╯',
            outer_left_vertical: '├',
            outer_right_vertical: '┤',
            outer_bottom_horizontal: '┴',
            outer_top_horizontal: '┬',
            intersection: '┼',
            vertical: '│',
            horizontal: '─',
        }
    }

    /// Single-line box-drawing characters with rounded corners.
    pub fn rounded() -> (s: TableStyle)
        ensures
            s == TableStyle::rounded_style(),
    {
        TableStyle {
            top_left_corner: '╭',
            top_right_corner: '╮',
            bottom_left_corner: '╰',
            bottom_right_corner: '╯',
            outer_left_vertical: '├',
            outer_right_vertical: '┤',
            outer_bottom_horizontal: '┴',
            outer_top_horizontal: '┬',
            intersection: '┼',
            vertical: '│',
            horizontal: '─',
        }
    }

    /// Double-line outer junctions around single-line inner lines.
    pub open spec fn elegant_style() -> TableStyle {
        TableStyle {
            top_left_corner: '╔',
            top_right_corner: '╗',
            bottom_left_corner: '╚',
            bottom_right_corner: '╝',
            outer_left_vertical: '╠',
            outer_right_vertical: '╣',
            outer_bottom_horizontal: '╩',
            outer_top_horizontal: '╦',
            intersection: '┼',
            vertical: '│',
            horizontal: '─',
        }
    }

    /// Double-line outer junctions around single-line inner lines.
    pub fn elegant() -> (s: TableStyle)
        ensures
            s == TableStyle::elegant_style(),
    {
        TableStyle {
            top_left_corner: '╔',
            top_right_corner: '╗',
            bottom_left_corner: '╚',
            bottom_right_corner: '╝',
            outer_left_vertical: '╠',
            outer_right_vertical: '╣',
            outer_bottom_horizontal: '╩',
            outer_top_horizontal: '╦',
            intersection: '┼',
            vertical: '│',
            horizontal: '─',
        }
    }

    /// Every character is NUL, so that nothing is drawn.
    pub open spec fn blank_style() -> TableStyle {
        TableStyle {
            top_left_corner: '\0',
            top_right_corner: '\0',
            bottom_left_corner: '\0',
            bottom_right_corner: '\0',
            outer_left_vertical: '\0',
            outer_right_vertical: '\0',
            outer_bottom_horizontal: '\0',
            outer_top_horizontal: '\0',
            intersection: '\0',
            vertical: '\0',
            horizontal: '\0',
        }
    }

    /// Every character is NUL, so that nothing is drawn.
    pub fn blank() -> (s: TableStyle)
        ensures
            s == TableStyle::blank_style(),
    {
        TableStyle {
            top_left_corner: '\0',
            top_right_corner: '\0',
            bottom_left_corner: '\0',
            bottom_right_corner: '\0',
            outer_left_vertical: '\0',
            outer_right_vertical: '\0',
            outer_bottom_horizontal: '\0',
            outer_top_horizontal: '\0',
            intersection: '\0',
            vertical: '\0',
            horizontal: '\0',
        }
    }

    /// Every character is a space, for terminals that show NUL.
    pub open spec fn empty_style() -> TableStyle {
        TableStyle {
            top_left_corner: ' ',
            top_right_corner: ' ',
            bottom_left_corner: ' ',
            bottom_right_corner: ' ',
            outer_left_vertical: ' ',
            outer_right_vertical: ' ',
            outer_bottom_horizontal: ' ',
            outer_top_horizontal: ' ',
            intersection: ' ',
            vertical: ' ',
            horizontal: ' ',
        }
    }

    /// Every character is a space, for terminals that show NUL.
    pub fn empty() -> (s: TableStyle)
        ensures
            s == TableStyle::empty_style(),
    {
        TableStyle {
            top_left_corner: ' ',
            top_right_corner: ' ',
            bottom_left_corner: ' ',
            bottom_right_corner: ' ',
            outer_left_vertical: ' ',
            outer_right_vertical: ' ',
            outer_bottom_horizontal: ' ',
            outer_top_horizontal: ' ',
            intersection: ' ',
            vertical: ' ',
            horizontal: ' ',
        }
    }

    /// Whether `c` is one of the characters of the style.
    pub open spec fn draws(&self, c: char) -> bool {
        ||| c == self.top_left_corner
        ||| c == self.top_right_corner
        ||| c == self.bottom_left_corner
        ||| c == self.bottom_right_corner
        ||| c == self.outer_left_vertical
        ||| c == self.outer_right_vertical
        ||| c == self.outer_bottom_horizontal
        ||| c == self.outer_top_horizontal
        ||| c == self.intersection
        ||| c == self.vertical
        ||| c == self.horizontal
    }

    /// The character that starts a border line.
    pub open spec fn start_of(&self, pos: RowPosition) -> char {
        match pos {
            RowPosition::First => self.top_left_corner,
            RowPosition::Mid => self.outer_left_vertical,
            RowPosition::Last => self.bottom_left_corner,
        }
    }

    /// The character that ends a border line.
    pub open spec fn end_of(&self, pos: RowPosition) -> char {
        match pos {
            RowPosition::First => self.top_right_corner,
            RowPosition::Mid => self.outer_right_vertical,
            RowPosition::Last => self.bottom_right_corner,
        }
    }

    /// The character that stands where a border line meets a column boundary.
    pub open spec fn intersect_of(&self, pos: RowPosition) -> char {
        match pos {
            RowPosition::First => self.outer_top_horizontal,
            RowPosition::Mid => self.intersection,
            RowPosition::Last => self.outer_bottom_horizontal,
        }
    }

    /// The junction for a place where the border line above holds `top` and
    /// the new border line holds `bottom`.
    ///
    /// A boundary that only the new line has opens downwards; one that only
    /// the line above has closes upwards; a boundary closed above and absent
    /// below leaves a plain line.
    pub open spec fn merge_of(&self, top: char, bottom: char, pos: RowPosition) -> char {
        if (top == self.horizontal || top == self.outer_bottom_horizontal) && bottom
            == self.intersection {
            self.outer_top_horizontal
        } else if (top == self.intersection || top == self.outer_top_horizontal) && bottom
            == self.horizontal {
            self.outer_bottom_horizontal
        } else if top == self.outer_bottom_horizontal && bottom == self.horizontal {
            self.horizontal
        } else {
            self.intersect_of(pos)
        }
    }

    /// The character that starts a border line at the given position.
    pub fn start_for_position(&self, pos: RowPosition) -> (c: char)
        ensures
            c == self.start_of(pos),
    {
        match pos {
            RowPosition::First => self.top_left_corner,
            RowPosition::Mid => self.outer_left_vertical,
            RowPosition::Last => self.bottom_left_corner,
        }
    }

    /// The character that ends a border line at the given position.
    pub fn end_for_position(&self, pos: RowPosition) -> (c: char)
        ensures
            c == self.end_of(pos),
    {
        match pos {
            RowPosition::First => self.top_right_corner,
            RowPosition::Mid => self.outer_right_vertical,
            RowPosition::Last => self.bottom_right_corner,
        }
    }

    /// The character for a column boundary on a border line at the given
    /// position.
    pub fn intersect_for_position(&self, pos: RowPosition) -> (c: char)
        ensures
            c == self.intersect_of(pos),
    {
        match pos {
            RowPosition::First => self.outer_top_horizontal,
            RowPosition::Mid => self.intersection,
            RowPosition::Last => self.outer_bottom_horizontal,
        }
    }

    /// Merges the character `top` of the border line above with the character
    /// `bottom` of the new border line.
    pub fn merge_intersection_for_position(&self, top: char, bottom: char, pos: RowPosition) -> (c:
        char)
        ensures
            c == self.merge_of(top, bottom, pos),
    {
        if (top == self.horizontal || top == self.outer_bottom_horizontal) && bottom
            == self.intersection {
            self.outer_top_horizontal
        } else if (top == self.intersection || top == self.outer_top_horizontal) && bottom
            == self.horizontal {
            self.outer_bottom_horizontal
        } else if top == self.outer_bottom_horizontal && bottom == self.horizontal {
            self.horizontal
        } else {
            self.intersect_for_position(pos)
        }
    }
}

} // verus!
