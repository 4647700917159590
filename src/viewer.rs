use vstd::prelude::*;

use crate::frame::{Color, Size};

verus! {

/// Background color.
pub const THEME_BACKGROUND: Color = [40, 42, 54, 255];

/// Text color.
pub const THEME_FOREGROUND: Color = [248, 248, 242, 255];

/// Color of a cell away from the current position.
pub const THEME_SELECTION: Color = [68, 71, 90, 255];

/// Color of the current cell and of the cells near it.
pub const THEME_COMMENT: Color = [98, 114, 164, 255];

/// Side of a square of the memory grid, in pixels.
pub const MEM_BLOCK: u32 = 50;

/// Cells per row of the memory grid.
pub const GRID_COLUMNS: u32 = 16;

/// Slots in the strip of cells shown around a position.
pub const STRIP_SLOTS: usize = 9;

/// Slots on each side of the centre of the strip.
pub const STRIP_REACH: usize = 4;

/// How the memory grid shows a cell.
#[derive(Clone, Copy, Debug, PartialEq, Eq, Structural)]
pub enum Layout {
    /// Its value in decimal.
    Number,
    /// Its value as a character where it is printable ASCII.
    Ascii,
    /// A grey square as bright as its value.
    Color,
}

impl Layout {
    /// The layout that follows this one in the cycle.
    pub open spec fn successor(self) -> Layout {
        match self {
            Layout::Number => Layout::Ascii,
            Layout::Ascii => Layout::Color,
            Layout::Color => Layout::Number,
        }
    }

    /// Moves to the next layout of the cycle Number, Ascii, Color.
    pub fn next(&mut self)
        ensures
            *final(self) == old(self).successor(),
    {
        *self = match *self {
            Layout::Number => Layout::Ascii,
            Layout::Ascii => Layout::Color,
            Layout::Color => Layout::Number,
        };
    }
}

impl Default for Layout {
    fn default() -> (r: Layout)
        ensures
            r == Layout::Number,
    {
        Layout::Number
    }
}

/// The ASCII digit of `d`.
pub open spec fn digit(d: nat) -> u8 {
    (48 + d) as u8
}

/// The decimal digits of `n`, most significant first, without leading zeros.
pub open spec fn decimal(n: nat) -> Seq<u8>
    decreases n,
{
    if n < 10 {
        seq![digit(n)]
    } else {
        decimal(n / 10).push(digit(n % 10))
    }
}

/// The ASCII digits of `n` in decimal.
pub fn decimal_digits(n: u8) -> (r: Vec<u8>)
    ensures
        r@ == decimal(n as nat),
{
    proof {
        reveal_with_fuel(decimal, 3);
    }
    let mut r: Vec<u8> = Vec::new();
    if n >= 100 {
        r.push(48 + n / 100);
        r.push(48 + n / 10 % 10);
    } else if n >= 10 {
        r.push(48 + n / 10);
    }
    r.push(48 + n % 10);
    proof {
        if n >= 100 {
            assert(n / 10 / 10 == n / 100);
            assert(r@ =~= decimal(n as nat));
        } else if n >= 10 {
            assert(r@ =~= decimal(n as nat));
        } else {
            assert(r@ =~= decimal(n as nat));
        }
    }
    r
}

/// Printable ASCII: from the space up to `~`, control characters excluded.
pub fn is_printable(b: u8) -> (r: bool)
    ensures
        r == (32 <= b <= 126),
{
    32 <= b && b <= 126
}

/// What a cell of the memory grid shows.
#[derive(Clone, Copy, Debug)]
pub enum CellLook {
    /// A decimal number drawn in a color.
    Number { value: u8, color: Color },
    /// A character drawn in a color.
    Character { ch: u8, color: Color },
    /// A filled square of a color.
    Shade { color: Color },
}

/// How the memory grid shows a cell holding `value` under `layout`. In the
/// ASCII layout a cell that is not printable shows its number in the
/// background color, so that it stays hidden.
pub fn cell_look(layout: Layout, value: u8) -> (r: CellLook)
    ensures
        layout == Layout::Number ==> r == (CellLook::Number { value, color: THEME_FOREGROUND }),
        layout == Layout::Ascii && 32 <= value <= 126 ==> r == (CellLook::Character {
            ch: value,
            color: THEME_FOREGROUND,
        }),
        layout == Layout::Ascii && !(32 <= value <= 126) ==> r == (CellLook::Number {
            value,
            color: THEME_BACKGROUND,
        }),
        layout == Layout::Color ==> r == (CellLook::Shade { color: [value, value, value, 255] }),
{
    match layout {
        Layout::Number => CellLook::Number { value, color: THEME_FOREGROUND },
        Layout::Ascii => if is_printable(value) {
            CellLook::Character { ch: value, color: THEME_FOREGROUND }
        } else {
            CellLook::Number { value, color: THEME_BACKGROUND }
        },
        Layout::Color => CellLook::Shade { color: [value, value, value, 255] },
    }
}

/// Whether `index` lies within four places of `center`.
pub fn is_near(index: usize, center: usize) -> (r: bool)
    ensures
        r == (center - 4 <= index <= center + 4),
{
    if index <= center {
        center - index <= 4
    } else {
        index - center <= 4
    }
}

/// The color of a cell of the memory grid: highlighted near `center`.
pub fn grid_color(index: usize, center: usize) -> (r: Color)
    ensures
        r == if center - 4 <= index <= center + 4 {
            THEME_COMMENT
        } else {
            THEME_SELECTION
        },
{
    if is_near(index, center) {
        THEME_COMMENT
    } else {
        THEME_SELECTION
    }
}

/// The index shown in `slot` of the strip of nine around `center`, in a
/// sequence of `len` items. Slot four holds `center` itself. Following the
/// strip's layout, a slot stays empty where `center + slot` reaches `len`,
/// so the strip never shows the last four items.
pub fn strip_index(center: usize, len: usize, slot: usize) -> (r: Option<usize>)
    requires
        slot < STRIP_SLOTS,
    ensures
        r == if center + slot >= STRIP_REACH && center + slot < len {
            Some((center + slot - STRIP_REACH) as usize)
        } else {
            None::<usize>
        },
{
    if len <= slot || center >= len - slot {
        None
    } else if center + slot < STRIP_REACH {
        None
    } else {
        Some(center + slot - STRIP_REACH)
    }
}

/// The color of a slot of the strip: highlighted at the current position.
pub fn strip_color(index: usize, center: usize) -> (r: Color)
    ensures
        r == if index == center {
            THEME_COMMENT
        } else {
            THEME_SELECTION
        },
{
    if index == center {
        THEME_COMMENT
    } else {
        THEME_SELECTION
    }
}

/// The number of rows of the memory grid on a surface of `size`: one
/// square per row of `MEM_BLOCK` pixels, less one, and none on a surface
/// lower than two squares.
pub open spec fn grid_rows_spec(size: Size) -> int {
    if size.height / MEM_BLOCK >= 1 {
        size.height / MEM_BLOCK - 1
    } else {
        0
    }
}

/// The number of rows of the memory grid on a surface of `size`.
pub fn grid_rows(size: Size) -> (r: u32)
    ensures
        r == grid_rows_spec(size),
{
    let blocks = size.height / MEM_BLOCK;
    if blocks >= 1 {
        blocks - 1
    } else {
        0
    }
}

/// A square of the memory grid: which cell it shows and where.
#[derive(Clone, Copy, Debug, PartialEq, Eq, Structural)]
pub struct GridCell {
    pub index: usize,
    pub x: u32,
    pub y: u32,
}

/// The square in `column` and `row` of the memory grid, scrolled down by
/// `scroll` rows, on a surface of `size`: the grid starts at the middle of
/// the surface. None where the cell lies beyond a tape of `tape_len` cells.
pub fn grid_cell(size: Size, scroll: u32, tape_len: usize, column: u32, row: u32) -> (r: Option<
    GridCell,
>)
    requires
        column < GRID_COLUMNS,
        row < grid_rows_spec(size),
    ensures
        r == if column + (row + scroll) * GRID_COLUMNS < tape_len {
            Some(
                GridCell {
                    index: (column + (row + scroll) * GRID_COLUMNS) as usize,
                    x: (size.width / 2 + column * MEM_BLOCK) as u32,
                    y: (row * MEM_BLOCK) as u32,
                },
            )
        } else {
            None::<GridCell>
        },
{
    let index: u64 = column as u64 + (row as u64 + scroll as u64) * GRID_COLUMNS as u64;
    if index >= tape_len as u64 {
        None
    } else {
        Some(
            GridCell {
                index: index as usize,
                x: size.width / 2 + column * MEM_BLOCK,
                y: row * MEM_BLOCK,
            },
        )
    }
}

/// What the viewer is asked to do.
#[derive(Clone, Copy, Debug, PartialEq, Eq, Structural)]
pub enum Command {
    /// Execute one instruction.
    Step,
    /// Show the memory grid in the next layout.
    NextLayout,
    /// Scroll the memory grid up one row.
    ScrollUp,
    /// Scroll the memory grid down one row.
    ScrollDown,
    /// Anything else.
    Ignore,
}

/// The viewer's own state: how the grid is shown and whether a step waits.
#[derive(Clone, Copy, Debug, PartialEq, Eq, Structural)]
pub struct Viewer {
    pub layout: Layout,
    pub scroll: u32,
    pub step_requested: bool,
}

impl Viewer {
    /// A viewer in the number layout, scrolled to the top, with no step
    /// requested.
    pub fn new() -> (r: Viewer)
        ensures
            r == (Viewer { layout: Layout::Number, scroll: 0, step_requested: false }),
    {
        Viewer { layout: Layout::Number, scroll: 0, step_requested: false }
    }

    /// Applies `cmd` for a tape of `tape_len` cells, and tells whether the
    /// window must be redrawn. Scrolling stops at the top and at the row
    /// `tape_len / 16`, or at the largest row a `u32` can count.
    pub fn handle(&mut self, cmd: Command, tape_len: usize) -> (redraw: bool)
        ensures
            cmd == Command::Step ==> *final(self) == (Viewer { step_requested: true, ..*old(self) })
                && !redraw,
            cmd == Command::NextLayout ==> *final(self) == (Viewer {
                layout: old(self).layout.successor(),
                ..*old(self)
            }) && redraw,
            cmd == Command::ScrollUp ==> *final(self) == (Viewer {
                scroll: if old(self).scroll > 0 {
                    (old(self).scroll - 1) as u32
                } else {
                    0u32
                },
                ..*old(self)
            }) && redraw,
            cmd == Command::ScrollDown ==> *final(self) == (Viewer {
                scroll: if old(self).scroll < tape_len / 16 && old(self).scroll < u32::MAX {
                    (old(self).scroll + 1) as u32
                } else {
                    old(self).scroll
                },
                ..*old(self)
            }) && redraw,
            cmd == Command::Ignore ==> *final(self) == *old(self) && !redraw,
    {
        match cmd {
            Command::Step => {
                self.step_requested = true;
                false
            },
            Command::NextLayout => {
                self.layout.next();
                true
            },
            Command::ScrollUp => {
                if self.scroll > 0 {
                    self.scroll = self.scroll - 1;
                }
                true
            },
            Command::ScrollDown => {
                if (self.scroll as usize) < tape_len / 16 && self.scroll < u32::MAX {
                    self.scroll = self.scroll + 1;
                }
                true
            },
            Command::Ignore => false,
        }
    }
}

} // verus!
