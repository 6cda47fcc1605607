//! The VGA text console: a 25 by 80 grid of coloured characters.
//!
//! The writer tracks a cursor, wraps long lines, scrolls on a full screen,
//! and replaces unprintable bytes.  The grid itself is a model of the text
//! buffer; the memory-mapped device at its physical address is the
//! hardware edge outside the library.

use vstd::prelude::*;
use vstd::string::StringSliceAdditionalSpecFns;

verus! {

pub const BUFFER_HEIGHT: usize = 25;

pub const BUFFER_WIDTH: usize = 80;

/// Byte written in place of one outside the printable range.
pub const UNPRINTABLE: u8 = 0xfe;

#[derive(Debug, Clone, Copy, PartialEq, Eq, Structural)]
pub enum Color {
    Black,
    Blue,
    Green,
    Cyan,
    Red,
    Magenta,
    Brown,
    LightGray,
    DarkGray,
    LightBlue,
    LightGreen,
    LightCyan,
    LightRed,
    Pink,
    Yellow,
    White,
}

/// The device's 4-bit code of each colour.
pub open spec fn spec_color_code(c: Color) -> u8 {
    match c {
        Color::Black => 0x0,
        Color::Blue => 0x1,
        Color::Green => 0x2,
        Color::Cyan => 0x3,
        Color::Red => 0x4,
        Color::Magenta => 0x5,
        Color::Brown => 0x6,
        Color::LightGray => 0x7,
        Color::DarkGray => 0x8,
        Color::LightBlue => 0x9,
        Color::LightGreen => 0xa,
        Color::LightCyan => 0xb,
        Color::LightRed => 0xc,
        Color::Pink => 0xd,
        Color::Yellow => 0xe,
        Color::White => 0xf,
    }
}

pub fn color_code_of(c: Color) -> (r: u8)
    ensures
        r == spec_color_code(c),
{
    match c {
        Color::Black => 0x0,
        Color::Blue => 0x1,
        Color::Green => 0x2,
        Color::Cyan => 0x3,
        Color::Red => 0x4,
        Color::Magenta => 0x5,
        Color::Brown => 0x6,
        Color::LightGray => 0x7,
        Color::DarkGray => 0x8,
        Color::LightBlue => 0x9,
        Color::LightGreen => 0xa,
        Color::LightCyan => 0xb,
        Color::LightRed => 0xc,
        Color::Pink => 0xd,
        Color::Yellow => 0xe,
        Color::White => 0xf,
    }
}

/// Foreground and background colour packed into one attribute byte.
#[derive(Debug, Clone, Copy, PartialEq, Eq, Structural)]
pub struct ColorCode(pub u8);

impl ColorCode {
    pub fn new(foreground: Color, background: Color) -> (r: Self)
        ensures
            r.0 == spec_color_code(background) * 16 + spec_color_code(foreground),
    {
        ColorCode(color_code_of(background) * 16 + color_code_of(foreground))
    }
}

impl Default for ColorCode {
    /// White on black.
    fn default() -> (r: Self)
        ensures
            r.0 == 0x0f,
    {
        ColorCode::new(Color::White, Color::Black)
    }
}

/// One screen cell: an ASCII byte and its colour attribute.
#[derive(Debug, Clone, Copy, PartialEq, Eq, Structural)]
pub struct Char {
    pub ascii: u8,
    pub color_code: ColorCode,
}

/// The text grid.
pub struct Buffer {
    pub characters: Vec<Vec<Char>>,
}

impl Buffer {
    pub open spec fn wf(self) -> bool {
        &&& self.characters@.len() == BUFFER_HEIGHT
        &&& forall|r: int|
            0 <= r < BUFFER_HEIGHT ==> (#[trigger] self.characters@[r])@.len() == BUFFER_WIDTH
    }

    /// A grid of blank cells.
    pub fn new() -> (r: Self)
        ensures
            r.wf(),
    {
        let mut characters: Vec<Vec<Char>> = Vec::new();
        let mut row: usize = 0;
        while row < BUFFER_HEIGHT
            invariant
                row <= BUFFER_HEIGHT,
                characters@.len() == row,
                forall|r: int| 0 <= r < row ==> (#[trigger] characters@[r])@.len() == BUFFER_WIDTH,
            decreases BUFFER_HEIGHT - row,
        {
            let mut line: Vec<Char> = Vec::new();
            let mut col: usize = 0;
            while col < BUFFER_WIDTH
                invariant
                    col <= BUFFER_WIDTH,
                    line@.len() == col,
                decreases BUFFER_WIDTH - col,
            {
                line.push(Char { ascii: 0x20, color_code: ColorCode(0x0f) });
                col = col + 1;
            }
            characters.push(line);
            row = row + 1;
        }
        Buffer { characters }
    }
}

/// The text grid as a mathematical value: one row of cells per line.
pub open spec fn spec_grid(b: Buffer) -> Seq<Seq<Char>> {
    Seq::new(b.characters@.len(), |r: int| b.characters@[r]@)
}

/// The cursor and grid a writer holds.
pub open spec fn spec_writer_view(w: Writer) -> (int, int, Seq<Seq<Char>>) {
    (w.row_position as int, w.column_position as int, spec_grid(w.buffer))
}

/// A new line: column zero, then either the next row or, on the last row,
/// the grid scrolled up by one with the bottom row kept.
pub open spec fn spec_new_line(row: int, grid: Seq<Seq<Char>>) -> (int, Seq<Seq<Char>>) {
    if row < BUFFER_HEIGHT - 1 {
        (row + 1, grid)
    } else {
        (
            row,
            Seq::new(
                grid.len(),
                |r: int|
                    if r < BUFFER_HEIGHT - 1 {
                        grid[r + 1]
                    } else {
                        grid[r]
                    },
            ),
        )
    }
}

/// One byte on the screen: a newline starts a new line, a full line wraps
/// first, anything else lands at the cursor in colour `color`.
pub open spec fn spec_put_byte(
    row: int,
    col: int,
    color: ColorCode,
    grid: Seq<Seq<Char>>,
    byte: u8,
) -> (int, int, Seq<Seq<Char>>) {
    if byte == 0x0a {
        let (row2, grid2) = spec_new_line(row, grid);
        (row2, 0, grid2)
    } else {
        let (row2, col2, grid2) = if col >= BUFFER_WIDTH {
            let (r2, g2) = spec_new_line(row, grid);
            (r2, 0, g2)
        } else {
            (row, col, grid)
        };
        (
            row2,
            col2 + 1,
            grid2.update(row2, grid2[row2].update(col2, Char { ascii: byte, color_code: color })),
        )
    }
}

/// The printable translation of one byte: printable ASCII and newlines land
/// as they are, anything else as the replacement byte.
pub open spec fn spec_printable(byte: u8) -> u8 {
    if (0x20 <= byte < 0x7e) || byte == 0x0a {
        byte
    } else {
        UNPRINTABLE
    }
}

/// A whole string of bytes, written left to right after translation.
pub open spec fn spec_write_bytes(
    row: int,
    col: int,
    color: ColorCode,
    grid: Seq<Seq<Char>>,
    bytes: Seq<u8>,
) -> (int, int, Seq<Seq<Char>>)
    decreases bytes.len(),
{
    if bytes.len() == 0 {
        (row, col, grid)
    } else {
        let (row2, col2, grid2) = spec_write_bytes(row, col, color, grid, bytes.drop_last());
        spec_put_byte(row2, col2, color, grid2, spec_printable(bytes.last()))
    }
}

/// The console writer: a cursor over the grid.
pub struct Writer {
    pub column_position: usize,
    pub row_position: usize,
    pub color_code: ColorCode,
    pub buffer: Buffer,
}

impl Writer {
    pub open spec fn wf(self) -> bool {
        &&& self.buffer.wf()
        &&& self.column_position <= BUFFER_WIDTH
        &&& self.row_position < BUFFER_HEIGHT
    }

    pub fn new() -> (r: Self)
        ensures
            r.wf(),
            r.column_position == 0,
            r.row_position == 0,
    {
        Writer {
            column_position: 0,
            row_position: 0,
            color_code: ColorCode::new(Color::White, Color::Black),
            buffer: Buffer::new(),
        }
    }

    /// Starts a new line: back to column zero, and either down one row or,
    /// on the last row, the whole grid scrolls up by one; the bottom row
    /// keeps its contents.
    fn new_line(&mut self)
        requires
            old(self).wf(),
        ensures
            final(self).wf(),
            final(self).column_position == 0,
            final(self).color_code == old(self).color_code,
            (final(self).row_position as int, spec_grid(final(self).buffer)) == spec_new_line(
                old(self).row_position as int,
                spec_grid(old(self).buffer),
            ),
    {
        self.column_position = 0;
        if self.row_position < BUFFER_HEIGHT - 1 {
            self.row_position = self.row_position + 1;
        } else {
            let mut i: usize = 1;
            while i < BUFFER_HEIGHT
                invariant
                    old(self).wf(),
                    1 <= i <= BUFFER_HEIGHT,
                    self.buffer.characters@.len() == BUFFER_HEIGHT,
                    self.row_position == old(self).row_position,
                    self.column_position == 0,
                    self.color_code == old(self).color_code,
                    forall|r: int|
                        0 <= r < i - 1 ==> (#[trigger] self.buffer.characters@[r])@ =~= old(
                            self,
                        ).buffer.characters@[r + 1]@,
                    forall|r: int|
                        i - 1 <= r < BUFFER_HEIGHT ==> (#[trigger] self.buffer.characters@[r])@
                            =~= old(self).buffer.characters@[r]@,
                decreases BUFFER_HEIGHT - i,
            {
                let ghost pre = *self;
                let line = self.buffer.characters[i].clone();
                proof {
                    assert(line@ =~= self.buffer.characters@[i as int]@);
                }
                self.buffer.characters.set(i - 1, line);
                i = i + 1;
            }
        }
        proof {
            assert(spec_grid(self.buffer) =~~= spec_new_line(
                old(self).row_position as int,
                spec_grid(old(self).buffer),
            ).1);
        }
    }

    /// Puts one byte on the screen: a newline starts a new line, a full
    /// line wraps first, anything else lands at the cursor in the current
    /// colour.
    pub fn write_byte(&mut self, byte: u8)
        requires
            old(self).wf(),
        ensures
            final(self).wf(),
            final(self).color_code == old(self).color_code,
            spec_writer_view(*final(self)) == spec_put_byte(
                old(self).row_position as int,
                old(self).column_position as int,
                old(self).color_code,
                spec_grid(old(self).buffer),
                byte,
            ),
    {
        if byte == 0x0a {
            self.new_line();
        } else {
            if self.column_position >= BUFFER_WIDTH {
                self.new_line();
            }
            let row = self.row_position;
            let col = self.column_position;
            let color_code = self.color_code;
            let ghost pre = *self;
            let line = &mut self.buffer.characters[row];
            line.set(col, Char { ascii: byte, color_code });
            self.column_position = self.column_position + 1;
            proof {
                assert(self.buffer.characters@ =~= pre.buffer.characters@.update(
                    row as int,
                    self.buffer.characters@[row as int],
                ));
                assert(spec_grid(self.buffer) =~~= spec_put_byte(
                    old(self).row_position as int,
                    old(self).column_position as int,
                    old(self).color_code,
                    spec_grid(old(self).buffer),
                    byte,
                ).2);
            }
        }
    }

    /// Writes a string: printable ASCII and newlines land as they are,
    /// anything else as the replacement byte.
    pub fn write_string(&mut self, s: &str)
        requires
            old(self).wf(),
        ensures
            final(self).wf(),
            final(self).color_code == old(self).color_code,
            spec_writer_view(*final(self)) == spec_write_bytes(
                old(self).row_position as int,
                old(self).column_position as int,
                old(self).color_code,
                spec_grid(old(self).buffer),
                s.spec_bytes(),
            ),
    {
        let bytes = s.as_bytes();
        let n = bytes.len();
        let mut i: usize = 0;
        while i < n
            invariant
                self.wf(),
                self.color_code == old(self).color_code,
                i <= n,
                n == bytes@.len(),
                bytes@ == s.spec_bytes(),
                spec_writer_view(*self) == spec_write_bytes(
                    old(self).row_position as int,
                    old(self).column_position as int,
                    old(self).color_code,
                    spec_grid(old(self).buffer),
                    bytes@.take(i as int),
                ),
            decreases n - i,
        {
            let byte = bytes[i];
            proof {
                assert(bytes@.take(i as int + 1).drop_last() =~= bytes@.take(i as int));
                assert(bytes@.take(i as int + 1).last() == bytes@[i as int]);
            }
            if (0x20 <= byte && byte < 0x7e) || byte == 0x0a {
                self.write_byte(byte);
            } else {
                self.write_byte(UNPRINTABLE);
            }
            i = i + 1;
        }
        proof {
            assert(bytes@.take(n as int) =~= bytes@);
        }
    }
}

} // verus!
