//! The values that the paste command reads from the editor and hands back to it.

use vstd::prelude::*;

verus! {

/// The mode that Vim emulation is in.
#[derive(Clone, Copy, Debug, PartialEq, Eq, Structural)]
pub enum Mode {
    Normal,
    Insert,
    Replace,
    Visual,
    VisualLine,
    VisualBlock,
}

impl Mode {
    /// The modes in which text is selected.
    pub open spec fn visual(self) -> bool {
        self is Visual || self is VisualLine || self is VisualBlock
    }

    /// Whether text is selected in this mode.
    pub fn is_visual(&self) -> (r: bool)
        ensures
            r == self.visual(),
    {
        match self {
            Mode::Normal | Mode::Insert | Mode::Replace => false,
            Mode::Visual | Mode::VisualLine | Mode::VisualBlock => true,
        }
    }
}

/// A position on screen: a display row, and a column in it.
#[derive(Clone, Copy, Debug, PartialEq, Eq, Structural)]
pub struct DisplayPoint {
    pub row: u32,
    pub column: u32,
}

impl DisplayPoint {
    /// Positions are ordered by row, and within a row by column.
    pub open spec fn precedes(self, other: DisplayPoint) -> bool {
        self.row < other.row || (self.row == other.row && self.column < other.column)
    }
}

/// A range of display positions; `end` is not part of it.
#[derive(Clone, Copy, Debug, PartialEq, Eq, Structural)]
pub struct Selection {
    pub start: DisplayPoint,
    pub end: DisplayPoint,
}

impl Selection {
    /// The range covers nothing: its start is not before its end.
    pub open spec fn empty(self) -> bool {
        !self.start.precedes(self.end)
    }

    /// The smaller of the columns of the two ends.
    pub open spec fn left(self) -> u32 {
        if self.start.column <= self.end.column {
            self.start.column
        } else {
            self.end.column
        }
    }

    /// Whether the range covers nothing.
    pub fn is_empty(&self) -> (r: bool)
        ensures
            r == self.empty(),
    {
        !(self.start.row < self.end.row || (self.start.row == self.end.row && self.start.column
            < self.end.column))
    }
}

/// A position in the buffer.
#[derive(Clone, Copy, Debug, PartialEq, Eq, Structural)]
pub struct Point {
    pub row: u32,
    pub column: u32,
}

/// A range of buffer positions.
#[derive(Clone, Copy, Debug, PartialEq, Eq, Structural)]
pub struct PointRange {
    pub start: Point,
    pub end: Point,
}

/// What one cursor contributed to a register that several cursors filled: the length of its
/// piece of the register's text, in bytes, and the indentation of the line it came from.
#[derive(Clone, Copy, Debug, PartialEq, Eq, Structural)]
pub struct ClipboardSelection {
    pub len: usize,
    pub first_line_indent: u32,
}

/// The contents of a register. Where several cursors filled it, the pieces stand in `text` one
/// after the other, with one byte between each two.
#[derive(Debug)]
pub struct Register {
    pub text: String,
    pub clipboard_selections: Option<Vec<ClipboardSelection>>,
}

/// The paste command: `p` puts text after the cursor, `P` before it. Pasting over a selection
/// puts the selection into the register, unless `preserve_clipboard` is set.
#[derive(Clone, Copy, Debug, PartialEq, Eq, Structural)]
pub struct Paste {
    pub before: bool,
    pub preserve_clipboard: bool,
}

/// A range that text is pasted over, or at if it is empty. Only one that stood for a cursor of
/// its own before the command (`preserve`) gets a cursor back.
#[derive(Clone, Copy, Debug, PartialEq, Eq, Structural)]
pub struct Target {
    pub range: Selection,
    pub preserve: bool,
}

/// Where in the display an insertion goes.
#[derive(Clone, Copy, Debug, PartialEq, Eq, Structural)]
pub enum Place {
    /// In place of the range.
    Over(Selection),
    /// At the beginning of the line that holds the position.
    LineBeginning(DisplayPoint),
    /// At the end of the line that holds the position.
    LineEnd(DisplayPoint),
    /// At the position.
    At(DisplayPoint),
    /// One column to the right of the position, but not past the end of the line.
    RightOf(DisplayPoint),
}

/// Which end of the replaced buffer range a cursor is anchored to.
#[derive(Clone, Copy, Debug, PartialEq, Eq, Structural)]
pub enum AnchorSide {
    /// To the start of the range, in front of what is inserted.
    BeforeStart,
    /// To the end of the range, behind what is inserted.
    AfterEnd,
}

/// An anchor that is to be created in the buffer.
#[derive(Clone, Copy, Debug, PartialEq, Eq, Structural)]
pub enum AnchorRequest {
    Before(Point),
    After(Point),
}

/// How a cursor moves from its anchor, once the text is in.
#[derive(Clone, Copy, Debug, PartialEq, Eq, Structural)]
pub enum CursorMotion {
    /// It stays at the anchor.
    Stay,
    /// One column to the left, but not past the beginning of the line.
    Left,
    /// To the first non-blank character of the anchor's line.
    LineIndent,
    /// One line down, then to the first non-blank character of that line.
    DownToLineIndent,
}

/// A cursor that the command leaves behind: the number of its anchor, and how it moves from
/// there.
#[derive(Clone, Copy, Debug, PartialEq, Eq, Structural)]
pub struct CursorPlan {
    pub anchor: usize,
    pub motion: CursorMotion,
}

/// A piece of text for the buffer, and the range that it replaces.
#[derive(Debug)]
pub struct Edit {
    pub range: PointRange,
    pub text: String,
}

} // verus!
