//! The text console: an 80x25 grid of cells, each a byte and a colour code,
//! with a cursor. This is the screen's contents as the kernel keeps them;
//! copying them to the VGA text buffer and the cursor registers is the
//! caller's part.
use vstd::prelude::*;
use vstd::string::StringSliceAdditionalSpecFns;

verus! {

/// The 16 colours of VGA text mode.
#[derive(Clone, Copy, PartialEq, Eq, Structural, Debug)]
pub enum Color {
    Black,
    Blue,
    Green,
    Cyan,
    Red,
    Magenta,
    Brown,
    LightGray,
    DarkGray,
    LightBlue,
    LightGreen,
    LightCyan,
    LightRed,
    Pink,
    Yellow,
    White,
}

pub open spec fn color_value(c: Color) -> u8 {
    match c {
        Color::Black => 0,
        Color::Blue => 1,
        Color::Green => 2,
        Color::Cyan => 3,
        Color::Red => 4,
        Color::Magenta => 5,
        Color::Brown => 6,
        Color::LightGray => 7,
        Color::DarkGray => 8,
        Color::LightBlue => 9,
        Color::LightGreen => 10,
        Color::LightCyan => 11,
        Color::LightRed => 12,
        Color::Pink => 13,
        Color::Yellow => 14,
        Color::White => 15,
    }
}

impl Color {
    /// The palette index of the colour.
    pub fn as_u8(self) -> (r: u8)
        ensures
            r == color_value(self),
            r < 16,
    {
        match self {
            Color::Black => 0,
            Color::Blue => 1,
            Color::Green => 2,
            Color::Cyan => 3,
            Color::Red => 4,
            Color::Magenta => 5,
            Color::Brown => 6,
            Color::LightGray => 7,
            Color::DarkGray => 8,
            Color::LightBlue => 9,
            Color::LightGreen => 10,
            Color::LightCyan => 11,
            Color::LightRed => 12,
            Color::Pink => 13,
            Color::Yellow => 14,
            Color::White => 15,
        }
    }
}

/// A cell attribute: background colour in the high nibble, foreground in the
/// low one.
#[derive(Clone, Copy, PartialEq, Eq, Structural, Debug)]
pub struct ColorCode(pub u8);

impl ColorCode {
    pub fn new(foreground: Color, background: Color) -> (r: ColorCode)
        ensures
            r.0 == color_value(background) * 16 + color_value(foreground),
    {
        ColorCode(background.as_u8() * 16 + foreground.as_u8())
    }
}

/// One cell of the screen.
#[derive(Clone, Copy, PartialEq, Eq, Structural, Debug)]
pub struct ScreenChar {
    pub ascii_character: u8,
    pub color_code: ColorCode,
}

/// The number of rows on the screen.
pub const BUFFER_HEIGHT: usize = 25;

/// The number of columns on the screen.
pub const BUFFER_WIDTH: usize = 80;

/// The number of cells on the screen.
pub const BUFFER_CELLS: usize = 2000;

/// The screen as a value: its cells row by row, the cursor and the colour
/// in which text is written.
pub struct Screen {
    pub cells: Seq<ScreenChar>,
    pub row: int,
    pub col: int,
    pub color: ColorCode,
}

pub open spec fn cell_index(row: int, col: int) -> int {
    row * BUFFER_WIDTH + col
}

pub open spec fn blank(color: ColorCode) -> ScreenChar {
    ScreenChar { ascii_character: 0x20, color_code: color }
}

pub open spec fn screen_wf(m: Screen) -> bool {
    &&& m.cells.len() == BUFFER_CELLS
    &&& 0 <= m.row < BUFFER_HEIGHT
    &&& 0 <= m.col <= BUFFER_WIDTH
}

/// The cell at `row`, `col`.
pub open spec fn cell_at(m: Screen, row: int, col: int) -> ScreenChar {
    m.cells[cell_index(row, col)]
}

/// Moves to the start of the next line; on the last line the rows move up
/// by one and the last row is cleared.
pub open spec fn spec_new_line(m: Screen) -> Screen {
    if m.row >= BUFFER_HEIGHT - 1 {
        Screen {
            cells: Seq::new(
                BUFFER_CELLS as nat,
                |i: int|
                    if i < BUFFER_CELLS - BUFFER_WIDTH {
                        m.cells[i + BUFFER_WIDTH]
                    } else {
                        blank(m.color)
                    },
            ),
            row: BUFFER_HEIGHT - 1,
            col: 0,
            color: m.color,
        }
    } else {
        Screen { cells: m.cells, row: m.row + 1, col: 0, color: m.color }
    }
}

/// Writes `b` at the cursor and moves the cursor right.
pub open spec fn spec_put(m: Screen, b: u8) -> Screen {
    Screen {
        cells: m.cells.update(cell_index(m.row, m.col), ScreenChar { ascii_character: b, color_code: m.color }),
        row: m.row,
        col: m.col + 1,
        color: m.color,
    }
}

/// A newline moves to the next line; any other byte is placed at the cursor,
/// after moving to the next line when the current one is full.
pub open spec fn spec_write_byte(m: Screen, b: u8) -> Screen {
    if b == 10 {
        spec_new_line(m)
    } else if m.col >= BUFFER_WIDTH {
        spec_put(spec_new_line(m), b)
    } else {
        spec_put(m, b)
    }
}

pub open spec fn spec_write_bytes(m: Screen, bs: Seq<u8>) -> Screen
    decreases bs.len(),
{
    if bs.len() == 0 {
        m
    } else {
        spec_write_bytes(spec_write_byte(m, bs[0]), bs.drop_first())
    }
}

/// What is shown for a byte of a string: printable ASCII and newline as
/// they are, anything else as a filled square.
pub open spec fn printable(b: u8) -> u8 {
    if (0x20 <= b && b <= 0x7e) || b == 10 {
        b
    } else {
        0xfe
    }
}

pub open spec fn shown_bytes(bs: Seq<u8>) -> Seq<u8> {
    bs.map_values(|b: u8| printable(b))
}

/// Writes the UTF-8 bytes of `s`, each shown as `printable` gives it.
pub open spec fn spec_write_str(m: Screen, s: &str) -> Screen {
    spec_write_bytes(m, shown_bytes(s.spec_bytes()))
}

/// Every cell blank in the current colour, cursor at the top left.
pub open spec fn spec_clear(m: Screen) -> Screen {
    Screen { cells: Seq::new(BUFFER_CELLS as nat, |i: int| blank(m.color)), row: 0, col: 0, color: m.color }
}

pub open spec fn spec_move_back(m: Screen) -> Screen {
    if m.col > 0 {
        Screen { cells: m.cells, row: m.row, col: m.col - 1, color: m.color }
    } else {
        m
    }
}

/// Writes text into the screen's cells.
pub struct Writer {
    cursor_position: (usize, usize),
    color_code: ColorCode,
    chars: Vec<ScreenChar>,
}

impl View for Writer {
    type V = Screen;

    closed spec fn view(&self) -> Screen {
        Screen {
            cells: self.chars@,
            row: self.cursor_position.0 as int,
            col: self.cursor_position.1 as int,
            color: self.color_code,
        }
    }
}

impl Writer {
    pub open spec fn wf(&self) -> bool {
        screen_wf(self@)
    }

    /// A blank screen in `color_code`, cursor at the top left.
    pub fn new(color_code: ColorCode) -> (r: Writer)
        ensures
            r.wf(),
            r@ == spec_clear(r@),
            r@.color == color_code,
    {
        let mut chars: Vec<ScreenChar> = Vec::new();
        let mut i: usize = 0;
        while i < BUFFER_CELLS
            invariant
                i <= BUFFER_CELLS,
                chars@.len() == i,
                forall|j: int| 0 <= j < i ==> #[trigger] chars@[j] == blank(color_code),
            decreases BUFFER_CELLS - i,
        {
            chars.push(ScreenChar { ascii_character: 0x20, color_code });
            i = i + 1;
        }
        let r = Writer { cursor_position: (0, 0), color_code, chars };
        assert(r@.cells =~= spec_clear(r@).cells);
        r
    }

    /// The cell at `row`, `col`.
    pub fn cell(&self, row: usize, col: usize) -> (r: ScreenChar)
        requires
            self.wf(),
            row < BUFFER_HEIGHT,
            col < BUFFER_WIDTH,
        ensures
            r == cell_at(self@, row as int, col as int),
    {
        self.chars[row * BUFFER_WIDTH + col]
    }

    /// The cursor as row and column.
    pub fn cursor_position(&self) -> (r: (usize, usize))
        ensures
            r.0 == self@.row,
            r.1 == self@.col,
    {
        self.cursor_position
    }

    pub fn color_code(&self) -> (r: ColorCode)
        ensures
            r == self@.color,
    {
        self.color_code
    }

    /// The cursor as an offset into the grid, as the CRTC cursor registers
    /// take it.
    pub fn cursor_offset(&self) -> (r: u16)
        requires
            self.wf(),
        ensures
            r == self@.row * BUFFER_WIDTH + self@.col,
    {
        (self.cursor_position.0 * BUFFER_WIDTH + self.cursor_position.1) as u16
    }

    /// The low and the high byte of the cursor offset: the values written to
    /// CRTC registers 0x0F and 0x0E.
    pub fn cursor_bytes(&self) -> (r: (u8, u8))
        requires
            self.wf(),
        ensures
            r.0 == (self@.row * BUFFER_WIDTH + self@.col) % 256,
            r.1 == (self@.row * BUFFER_WIDTH + self@.col) / 256,
    {
        let pos = self.cursor_offset();
        ((pos % 256) as u8, (pos / 256) as u8)
    }

    /// Writes one byte: a newline moves to the next line, any other byte is
    /// placed at the cursor, wrapping to the next line first when the current
    /// one is full.
    pub fn write_byte(&mut self, byte: u8)
        requires
            old(self).wf(),
        ensures
            final(self).wf(),
            final(self)@ == spec_write_byte(old(self)@, byte),
    {
        if byte == 0x0a {
            self.new_line();
        } else {
            if self.cursor_position.1 >= BUFFER_WIDTH {
                self.new_line();
            }
            let (row, col) = self.cursor_position;
            let color_code = self.color_code;
            self.chars.set(row * BUFFER_WIDTH + col, ScreenChar { ascii_character: byte, color_code });
            self.cursor_position = (row, col + 1);
            proof {
                assert(self@.cells =~= spec_write_byte(old(self)@, byte).cells);
            }
        }
    }

    /// Writes the bytes of `s`, each shown as `printable` gives it.
    pub fn write_string(&mut self, s: &str)
        requires
            old(self).wf(),
        ensures
            final(self).wf(),
            final(self)@ == spec_write_str(old(self)@, s),
    {
        let bytes = s.as_bytes();
        let ghost shown = shown_bytes(s.spec_bytes());
        let mut i: usize = 0;
        assert(shown.skip(0) =~= shown);
        while i < bytes.len()
            invariant
                self.wf(),
                bytes@ == s.spec_bytes(),
                shown == shown_bytes(s.spec_bytes()),
                i <= bytes@.len(),
                spec_write_bytes(self@, shown.skip(i as int)) == spec_write_str(old(self)@, s),
            decreases bytes@.len() - i,
        {
            let byte = bytes[i];
            let b = if (0x20 <= byte && byte <= 0x7e) || byte == 0x0a {
                byte
            } else {
                0xfe
            };
            proof {
                assert(shown.skip(i as int).drop_first() =~= shown.skip(i as int + 1));
                assert(shown.skip(i as int)[0] == b);
            }
            self.write_byte(b);
            i = i + 1;
        }
        proof {
            assert(shown.skip(i as int) =~= Seq::<u8>::empty());
        }
    }

    /// Blanks every cell and puts the cursor at the top left.
    pub fn clear_screen(&mut self)
        requires
            old(self).wf(),
        ensures
            final(self).wf(),
            final(self)@ == spec_clear(old(self)@),
    {
        let mut row: usize = 0;
        while row < BUFFER_HEIGHT
            invariant
                self.wf(),
                row <= BUFFER_HEIGHT,
                self.color_code == old(self).color_code,
                self@.row == old(self)@.row,
                self@.col == old(self)@.col,
                forall|j: int| 0 <= j < row * BUFFER_WIDTH ==> #[trigger] self@.cells[j] == blank(self.color_code),
            decreases BUFFER_HEIGHT - row,
        {
            self.clear_row(row);
            row = row + 1;
        }
        self.cursor_position = (0, 0);
        proof {
            assert(self@.cells =~= spec_clear(old(self)@).cells);
        }
    }

    /// Moves to the start of the next line, scrolling when on the last line.
    fn new_line(&mut self)
        requires
            old(self).wf(),
        ensures
            final(self).wf(),
            final(self)@ == spec_new_line(old(self)@),
    {
        if self.cursor_position.0 >= BUFFER_HEIGHT - 1 {
            let mut i: usize = 0;
            while i < BUFFER_CELLS - BUFFER_WIDTH
                invariant
                    i <= BUFFER_CELLS - BUFFER_WIDTH,
                    self.chars@.len() == BUFFER_CELLS,
                    self.cursor_position == old(self).cursor_position,
                    self.color_code == old(self).color_code,
                    forall|j: int| 0 <= j < i ==> #[trigger] self.chars@[j] == old(self).chars@[j + BUFFER_WIDTH],
                    forall|j: int| i <= j < BUFFER_CELLS ==> #[trigger] self.chars@[j] == old(self).chars@[j],
                decreases BUFFER_CELLS - BUFFER_WIDTH - i,
            {
                let character = self.chars[i + BUFFER_WIDTH];
                self.chars.set(i, character);
                i = i + 1;
            }
            self.clear_row(BUFFER_HEIGHT - 1);
            self.cursor_position = (BUFFER_HEIGHT - 1, 0);
            proof {
                assert(self@.cells =~= spec_new_line(old(self)@).cells);
            }
        } else {
            self.cursor_position = (self.cursor_position.0 + 1, 0);
        }
    }

    /// Blanks the cells of `row`.
    fn clear_row(&mut self, row: usize)
        requires
            old(self).wf(),
            row < BUFFER_HEIGHT,
        ensures
            final(self).wf(),
            final(self).color_code == old(self).color_code,
            final(self).cursor_position == old(self).cursor_position,
            forall|j: int|
                0 <= j < BUFFER_CELLS ==> #[trigger] final(self).chars@[j] == if row * BUFFER_WIDTH <= j < (row
                    + 1) * BUFFER_WIDTH {
                    blank(old(self).color_code)
                } else {
                    old(self).chars@[j]
                },
    {
        let blank_char = ScreenChar { ascii_character: 0x20, color_code: self.color_code };
        let mut col: usize = 0;
        while col < BUFFER_WIDTH
            invariant
                col <= BUFFER_WIDTH,
                row < BUFFER_HEIGHT,
                self.chars@.len() == BUFFER_CELLS,
                self.color_code == old(self).color_code,
                self.cursor_position == old(self).cursor_position,
                blank_char == blank(self.color_code),
                forall|j: int|
                    0 <= j < BUFFER_CELLS ==> #[trigger] self.chars@[j] == if row * BUFFER_WIDTH <= j < row
                        * BUFFER_WIDTH + col {
                        blank_char
                    } else {
                        old(self).chars@[j]
                    },
            decreases BUFFER_WIDTH - col,
        {
            self.chars.set(row * BUFFER_WIDTH + col, blank_char);
            col = col + 1;
        }
    }

    /// Moves the cursor one column left, unless it is in the first column.
    pub fn move_cursor_back(&mut self)
        requires
            old(self).wf(),
        ensures
            final(self).wf(),
            final(self)@ == spec_move_back(old(self)@),
    {
        if self.cursor_position.1 > 0 {
            self.cursor_position = (self.cursor_position.0, self.cursor_position.1 - 1);
        }
    }
}

/// Clearing twice is clearing once; right after a clear the cursor is at the
/// top left and every cell is a space in the current colour.
pub proof fn lemma_clear_idempotent(m: Screen)
    ensures
        spec_clear(spec_clear(m)) == spec_clear(m),
        spec_clear(m).row == 0,
        spec_clear(m).col == 0,
        forall|i: int| 0 <= i < BUFFER_CELLS ==> #[trigger] spec_clear(m).cells[i] == blank(m.color),
{
    assert(spec_clear(spec_clear(m)).cells =~= spec_clear(m).cells);
}

/// A newline from the first column of the last row scrolls: every row takes
/// the contents of the row below it, the last row is blanked and the cursor
/// stays where it was. A second newline does the same again.
pub proof fn lemma_newline_at_bottom(m: Screen)
    requires
        screen_wf(m),
        m.row == BUFFER_HEIGHT - 1,
        m.col == 0,
    ensures
        ({
            let m1 = spec_write_byte(m, 10);
            let m2 = spec_write_byte(m1, 10);
            &&& m1.row == BUFFER_HEIGHT - 1 && m1.col == 0
            &&& m2.row == BUFFER_HEIGHT - 1 && m2.col == 0
            &&& forall|r: int, c: int|
                0 <= r < BUFFER_HEIGHT - 1 && 0 <= c < BUFFER_WIDTH ==> #[trigger] cell_at(m1, r, c) == cell_at(
                    m,
                    r + 1,
                    c,
                )
            &&& forall|c: int| 0 <= c < BUFFER_WIDTH ==> #[trigger] cell_at(m1, BUFFER_HEIGHT - 1, c) == blank(m.color)
            &&& forall|r: int, c: int|
                0 <= r < BUFFER_HEIGHT - 1 && 0 <= c < BUFFER_WIDTH ==> #[trigger] cell_at(m2, r, c) == cell_at(
                    m1,
                    r + 1,
                    c,
                )
            &&& forall|c: int| 0 <= c < BUFFER_WIDTH ==> #[trigger] cell_at(m2, BUFFER_HEIGHT - 1, c) == blank(m.color)
        }),
{
}

/// After a byte fills the last column of a line, the next byte other than a
/// newline goes to the first column of the next line (scrolling on the last
/// row) rather than past the line's end.
pub proof fn lemma_wrap_at_line_end(m: Screen, b1: u8, b2: u8)
    requires
        screen_wf(m),
        m.col == BUFFER_WIDTH - 1,
        b1 != 10,
        b2 != 10,
    ensures
        ({
            let m1 = spec_write_byte(m, b1);
            let m2 = spec_write_byte(m1, b2);
            let below = if m.row < BUFFER_HEIGHT - 1 { m.row + 1 } else { m.row };
            let above = if m.row < BUFFER_HEIGHT - 1 { m.row } else { m.row - 1 };
            &&& m1.row == m.row && m1.col == BUFFER_WIDTH
            &&& cell_at(m1, m.row, BUFFER_WIDTH - 1) == ScreenChar { ascii_character: b1, color_code: m.color }
            &&& m2.row == below && m2.col == 1
            &&& cell_at(m2, below, 0) == ScreenChar { ascii_character: b2, color_code: m.color }
            &&& cell_at(m2, above, BUFFER_WIDTH - 1) == ScreenChar { ascii_character: b1, color_code: m.color }
        }),
{
}

/// Bytes without a newline, written from the cursor, land in consecutive
/// cells (wrapping to the start of the next line at the end of a line), each
/// shown as `printable` gives it, as long as they fit on the screen without
/// scrolling; the cursor ends right after them and no other cell changes.
pub proof fn lemma_write_without_scroll(m: Screen, bs: Seq<u8>)
    requires
        screen_wf(m),
        forall|i: int| 0 <= i < bs.len() ==> #[trigger] bs[i] != 10,
        cell_index(m.row, m.col) + bs.len() <= BUFFER_CELLS,
    ensures
        ({
            let start = cell_index(m.row, m.col);
            let m1 = spec_write_bytes(m, shown_bytes(bs));
            &&& screen_wf(m1)
            &&& m1.color == m.color
            &&& cell_index(m1.row, m1.col) == start + bs.len()
            &&& forall|j: int|
                0 <= j < bs.len() ==> #[trigger] m1.cells[start + j] == ScreenChar {
                    ascii_character: printable(bs[j]),
                    color_code: m.color,
                }
            &&& forall|i: int|
                0 <= i < BUFFER_CELLS && !(start <= i < start + bs.len()) ==> #[trigger] m1.cells[i] == m.cells[i]
        }),
    decreases bs.len(),
{
    let shown = shown_bytes(bs);
    let start = cell_index(m.row, m.col);
    if bs.len() > 0 {
        let m0 = spec_write_byte(m, shown[0]);
        assert(cell_index(m0.row, m0.col) == start + 1);
        assert(m0.cells[start] == ScreenChar { ascii_character: printable(bs[0]), color_code: m.color });
        assert(forall|i: int| 0 <= i < BUFFER_CELLS && i != start ==> #[trigger] m0.cells[i] == m.cells[i]);
        let rest = bs.drop_first();
        assert(shown.drop_first() =~= shown_bytes(rest));
        lemma_write_without_scroll(m0, rest);
        let m1 = spec_write_bytes(m, shown);
        assert(m1 == spec_write_bytes(m0, shown_bytes(rest)));
        assert forall|j: int| 0 <= j < bs.len() implies #[trigger] m1.cells[start + j] == ScreenChar {
            ascii_character: printable(bs[j]),
            color_code: m.color,
        } by {
            if j > 0 {
                assert(rest[j - 1] == bs[j]);
                assert(m1.cells[(start + 1) + (j - 1)] == m1.cells[start + j]);
            }
        }
    } else {
        assert(shown =~= Seq::<u8>::empty());
    }
}

/// One byte other than a newline: it is placed just before the new cursor;
/// when it scrolls the screen, everything before the old cursor moves up by
/// one line, else nothing before the cursor moves.
proof fn lemma_write_byte_shift(m: Screen, b: u8)
    requires
        screen_wf(m),
        b != 10,
    ensures
        ({
            let cur = cell_index(m.row, m.col);
            let sh: int = if m.col >= BUFFER_WIDTH && m.row >= BUFFER_HEIGHT - 1 { BUFFER_WIDTH as int } else { 0 };
            let m1 = spec_write_byte(m, b);
            &&& screen_wf(m1)
            &&& m1.color == m.color
            &&& cell_index(m1.row, m1.col) == cur + 1 - sh
            &&& cur - sh >= 0
            &&& m1.cells[cur - sh] == ScreenChar { ascii_character: b, color_code: m.color }
            &&& forall|i: int| 0 <= i < cur && i - sh >= 0 ==> #[trigger] m1.cells[i - sh] == m.cells[i]
        }),
{
}

/// Bytes without a newline written from the cursor: every one of them that
/// is still on the screen sits at the same distance before the final cursor
/// as in the text, shown as `printable` gives it, and what stood before the
/// cursor moved up by exactly the lines that scrolled off.
pub proof fn lemma_write_keeps_text_before_cursor(m: Screen, bs: Seq<u8>)
    requires
        screen_wf(m),
        forall|i: int| 0 <= i < bs.len() ==> #[trigger] bs[i] != 10,
    ensures
        ({
            let start = cell_index(m.row, m.col);
            let m1 = spec_write_bytes(m, shown_bytes(bs));
            let sh = start + bs.len() - cell_index(m1.row, m1.col);
            &&& screen_wf(m1)
            &&& m1.color == m.color
            &&& sh >= 0
            &&& forall|j: int|
                0 <= j < bs.len() && start + j - sh >= 0 ==> #[trigger] m1.cells[start + j - sh] == ScreenChar {
                    ascii_character: printable(bs[j]),
                    color_code: m.color,
                }
            &&& forall|i: int| 0 <= i < start && i - sh >= 0 ==> #[trigger] m1.cells[i - sh] == m.cells[i]
        }),
    decreases bs.len(),
{
    let shown = shown_bytes(bs);
    let start = cell_index(m.row, m.col);
    if bs.len() > 0 {
        let m0 = spec_write_byte(m, shown[0]);
        lemma_write_byte_shift(m, shown[0]);
        let sh0: int = if m.col >= BUFFER_WIDTH && m.row >= BUFFER_HEIGHT - 1 { BUFFER_WIDTH as int } else { 0 };
        let start0 = cell_index(m0.row, m0.col);
        let rest = bs.drop_first();
        assert(shown.drop_first() =~= shown_bytes(rest));
        lemma_write_keeps_text_before_cursor(m0, rest);
        let m1 = spec_write_bytes(m, shown);
        assert(m1 == spec_write_bytes(m0, shown_bytes(rest)));
        let sh1 = start0 + rest.len() - cell_index(m1.row, m1.col);
        let sh = start + bs.len() - cell_index(m1.row, m1.col);
        assert(sh == sh0 + sh1);
        assert forall|j: int| 0 <= j < bs.len() && start + j - sh >= 0 implies #[trigger] m1.cells[start + j - sh]
            == ScreenChar { ascii_character: printable(bs[j]), color_code: m.color } by {
            if j > 0 {
                assert(rest[j - 1] == bs[j]);
                assert(start0 + (j - 1) - sh1 == start + j - sh);
            } else {
                assert(m1.cells[(start - sh0) - sh1] == m0.cells[start - sh0]);
            }
        }
        assert forall|i: int| 0 <= i < start && i - sh >= 0 implies #[trigger] m1.cells[i - sh] == m.cells[i] by {
            assert(m0.cells[i - sh0] == m.cells[i]);
            assert(m1.cells[(i - sh0) - sh1] == m0.cells[i - sh0]);
        }
    } else {
        assert(shown =~= Seq::<u8>::empty());
    }
}

} // verus!
