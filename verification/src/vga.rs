//! VGA text mode, 80 by 25: the cursor, the colour attribute, and which cell each
//! character goes to. The screen memory itself is written by the caller.
use vstd::prelude::*;

verus! {

pub const COLS: usize = 80;

pub const ROWS: usize = 25;

/// Physical address of the text buffer.
pub const VGA_BUF: u64 = 0xB8000;

#[derive(Clone, Copy, Debug, PartialEq, Eq, Structural)]
pub enum Color {
    Black,
    Blue,
    Green,
    Cyan,
    Red,
    Magenta,
    Brown,
    White,
    BrBlack,
    BrBlue,
    BrGreen,
    BrCyan,
    BrRed,
    Pink,
    Yellow,
    BrWhite,
}

/// The four-bit code of a colour.
pub open spec fn code_spec(c: Color) -> u8 {
    match c {
        Color::Black => 0,
        Color::Blue => 1,
        Color::Green => 2,
        Color::Cyan => 3,
        Color::Red => 4,
        Color::Magenta => 5,
        Color::Brown => 6,
        Color::White => 7,
        Color::BrBlack => 8,
        Color::BrBlue => 9,
        Color::BrGreen => 10,
        Color::BrCyan => 11,
        Color::BrRed => 12,
        Color::Pink => 13,
        Color::Yellow => 14,
        Color::BrWhite => 15,
    }
}

impl Color {
    pub fn code(self) -> (r: u8)
        ensures
            r == code_spec(self),
            r < 16,
    {
        match self {
            Color::Black => 0,
            Color::Blue => 1,
            Color::Green => 2,
            Color::Cyan => 3,
            Color::Red => 4,
            Color::Magenta => 5,
            Color::Brown => 6,
            Color::White => 7,
            Color::BrBlack => 8,
            Color::BrBlue => 9,
            Color::BrGreen => 10,
            Color::BrCyan => 11,
            Color::BrRed => 12,
            Color::Pink => 13,
            Color::Yellow => 14,
            Color::BrWhite => 15,
        }
    }
}

/// Attribute byte: background in the high nibble, foreground in the low one.
pub open spec fn attr_spec(fg: Color, bg: Color) -> u8 {
    (code_spec(bg) * 16 + code_spec(fg)) as u8
}

pub fn attr(fg: Color, bg: Color) -> (r: u8)
    ensures
        r == attr_spec(fg, bg),
{
    let b = bg.code();
    let f = fg.code();
    let r = (b << 4u8) | f;
    assert(r == b * 16 + f) by (bit_vector)
        requires
            b < 16,
            f < 16,
            r == (b << 4u8) | f,
    ;
    r
}

/// Screen cell for character `c` in attribute `color`.
pub open spec fn cell(color: u8, c: u8) -> u16 {
    (color * 256 + c) as u16
}

fn make_cell(color: u8, c: u8) -> (r: u16)
    ensures
        r == cell(color, c),
{
    let r = ((color as u16) << 8u16) | (c as u16);
    assert(r == (color as u16) * 256 + (c as u16)) by (bit_vector)
        requires
            r == ((color as u16) << 8u16) | (c as u16),
    ;
    r
}

pub struct Vga {
    col: usize,
    row: usize,
    color: u8,
}

/// Number of cells on the screen.
pub const CELLS: usize = 2000;

/// The screen `s` moved up one row, with the bottom row filled with `blank`.
pub open spec fn scrolled(s: Seq<u16>, blank: u16) -> Seq<u16> {
    Seq::new(
        CELLS as nat,
        |i: int|
            if i < CELLS - COLS {
                s[i + COLS]
            } else {
                blank
            },
    )
}

impl Vga {
    pub closed spec fn col(&self) -> int {
        self.col as int
    }

    pub closed spec fn row(&self) -> int {
        self.row as int
    }

    pub closed spec fn color(&self) -> u8 {
        self.color
    }

    pub closed spec fn wf(&self) -> bool {
        self.col < COLS && self.row < ROWS
    }

    /// Cursor at the top left, bright cyan on black.
    pub fn new() -> (v: Self)
        ensures
            v.wf(),
            v.col() == 0,
            v.row() == 0,
            v.color() == attr_spec(Color::BrCyan, Color::Black),
    {
        Vga { col: 0, row: 0, color: attr(Color::BrCyan, Color::Black) }
    }

    pub fn set_color(&mut self, fg: Color, bg: Color)
        requires
            old(self).wf(),
        ensures
            final(self).wf(),
            final(self).col() == old(self).col(),
            final(self).row() == old(self).row(),
            final(self).color() == attr_spec(fg, bg),
    {
        self.color = attr(fg, bg);
    }

    /// Writes byte `c` at the cursor: a newline starts the next row, a carriage
    /// return the current one, any other byte is drawn in the current colour and the
    /// cursor advances and wraps. Past the last row the screen scrolls and the cursor
    /// stays on the last row.
    pub fn put_char(&mut self, c: u8, cells: &mut [u16])
        requires
            old(self).wf(),
            old(cells)@.len() == CELLS,
        ensures
            final(self).wf(),
            final(self).color() == old(self).color(),
            final(cells)@.len() == CELLS,
            ({
                let (col1, row1) = if c == 10u8 {
                    (0, old(self).row() + 1)
                } else if c == 13u8 {
                    (0, old(self).row())
                } else if old(self).col() + 1 >= COLS {
                    (0, old(self).row() + 1)
                } else {
                    (old(self).col() + 1, old(self).row())
                };
                let drawn = if c == 10u8 || c == 13u8 {
                    old(cells)@
                } else {
                    old(cells)@.update(
                        old(self).row() * COLS + old(self).col(),
                        cell(old(self).color(), c),
                    )
                };
                &&& final(self).col() == col1
                &&& row1 >= ROWS ==> final(self).row() == ROWS - 1 && final(cells)@ == scrolled(
                    drawn,
                    cell(old(self).color(), 32u8),
                )
                &&& row1 < ROWS ==> final(self).row() == row1 && final(cells)@ == drawn
            }),
    {
        if c == 10u8 {
            self.col = 0;
            self.row = self.row + 1;
        } else if c == 13u8 {
            self.col = 0;
        } else {
            let entry = make_cell(self.color, c);
            cells[self.row * COLS + self.col] = entry;
            self.col = self.col + 1;
            if self.col >= COLS {
                self.col = 0;
                self.row = self.row + 1;
            }
        }
        if self.row >= ROWS {
            self.scroll(cells);
        }
    }

    /// Moves every row up by one, blanks the bottom row and puts the cursor on it.
    pub fn scroll(&mut self, cells: &mut [u16])
        requires
            old(cells)@.len() == CELLS,
            old(self).col() < COLS,
        ensures
            final(self).wf(),
            final(self).row() == ROWS - 1,
            final(self).col() == old(self).col(),
            final(self).color() == old(self).color(),
            final(cells)@ == scrolled(old(cells)@, cell(old(self).color(), 32u8)),
    {
        let ghost before = cells@;
        let mut i: usize = 0;
        while i < CELLS - COLS
            invariant
                cells@.len() == CELLS,
                before.len() == CELLS,
                i <= CELLS - COLS,
                forall|j: int| 0 <= j < i ==> #[trigger] cells@[j] == before[j + COLS],
                forall|j: int| i <= j < CELLS ==> #[trigger] cells@[j] == before[j],
            decreases CELLS - COLS - i,
        {
            let v = cells[i + COLS];
            cells[i] = v;
            i = i + 1;
        }
        let blank = make_cell(self.color, 32u8);
        while i < CELLS
            invariant
                cells@.len() == CELLS,
                before.len() == CELLS,
                CELLS - COLS <= i <= CELLS,
                blank == cell(self.color, 32u8),
                forall|j: int| 0 <= j < CELLS - COLS ==> #[trigger] cells@[j] == before[j + COLS],
                forall|j: int| CELLS - COLS <= j < i ==> #[trigger] cells@[j] == blank,
            decreases CELLS - i,
        {
            cells[i] = blank;
            i = i + 1;
        }
        self.row = ROWS - 1;
        assert(cells@ =~= scrolled(before, blank));
    }

    /// Blanks every cell and puts the cursor at the top left.
    pub fn clear(&mut self, cells: &mut [u16])
        requires
            old(cells)@.len() == CELLS,
        ensures
            final(self).wf(),
            final(self).col() == 0,
            final(self).row() == 0,
            final(self).color() == old(self).color(),
            final(cells)@ == Seq::new(CELLS as nat, |i: int| cell(old(self).color(), 32u8)),
    {
        let blank = make_cell(self.color, 32u8);
        let mut i: usize = 0;
        while i < CELLS
            invariant
                cells@.len() == CELLS,
                i <= CELLS,
                forall|j: int| 0 <= j < i ==> #[trigger] cells@[j] == blank,
            decreases CELLS - i,
        {
            cells[i] = blank;
            i = i + 1;
        }
        self.col = 0;
        self.row = 0;
        assert(cells@ =~= Seq::new(CELLS as nat, |i: int| cell(self.color, 32u8)));
    }
}

/// Clears the screen: see `Vga::clear`.
pub fn clear(vga: &mut Vga, cells: &mut [u16])
    requires
        old(cells)@.len() == CELLS,
    ensures
        final(vga).wf(),
        final(vga).col() == 0,
        final(vga).row() == 0,
        final(vga).color() == old(vga).color(),
        final(cells)@ == Seq::new(CELLS as nat, |i: int| cell(old(vga).color(), 32u8)),
{
    vga.clear(cells)
}

/// The cursor always names a cell of the screen, so every cell that `put_char`
/// writes lies on it.
pub proof fn law_cursor_on_screen(v: &Vga)
    requires
        v.wf(),
    ensures
        0 <= v.col() < COLS,
        0 <= v.row() < ROWS,
        0 <= v.row() * COLS + v.col() < CELLS,
{
}

/// The colours follow the standard VGA palette: blue, green and red are bits 0, 1
/// and 2 of the code and brightness is bit 3, so each mixed colour is the union of
/// its primaries and each bright colour is its dark one with bit 3 set; distinct
/// colours have distinct codes; and an attribute holds the background in its high
/// nibble and the foreground in its low one.
pub proof fn law_palette(fg: Color, bg: Color, c1: Color, c2: Color)
    ensures
        code_spec(Color::Black) == 0,
        code_spec(Color::Blue) == 1,
        code_spec(Color::Green) == 2,
        code_spec(Color::Red) == 4,
        code_spec(Color::Cyan) == code_spec(Color::Blue) | code_spec(Color::Green),
        code_spec(Color::Magenta) == code_spec(Color::Blue) | code_spec(Color::Red),
        code_spec(Color::Brown) == code_spec(Color::Green) | code_spec(Color::Red),
        code_spec(Color::White) == code_spec(Color::Blue) | code_spec(Color::Green) | code_spec(Color::Red),
        code_spec(Color::BrBlack) == code_spec(Color::Black) | 8,
        code_spec(Color::BrBlue) == code_spec(Color::Blue) | 8,
        code_spec(Color::BrGreen) == code_spec(Color::Green) | 8,
        code_spec(Color::BrCyan) == code_spec(Color::Cyan) | 8,
        code_spec(Color::BrRed) == code_spec(Color::Red) | 8,
        code_spec(Color::Pink) == code_spec(Color::Magenta) | 8,
        code_spec(Color::Yellow) == code_spec(Color::Brown) | 8,
        code_spec(Color::BrWhite) == code_spec(Color::White) | 8,
        code_spec(c1) == code_spec(c2) ==> c1 == c2,
        code_spec(fg) < 16,
        attr_spec(fg, bg) / 16 == code_spec(bg),
        attr_spec(fg, bg) % 16 == code_spec(fg),
{
    assert(1u8 | 2u8 == 3u8 && 1u8 | 4u8 == 5u8 && 2u8 | 4u8 == 6u8 && 1u8 | 2u8 | 4u8 == 7u8 && 0u8 | 8u8 == 8u8
        && 1u8 | 8u8 == 9u8 && 2u8 | 8u8 == 10u8 && 3u8 | 8u8 == 11u8 && 4u8 | 8u8 == 12u8 && 5u8 | 8u8 == 13u8
        && 6u8 | 8u8 == 14u8 && 7u8 | 8u8 == 15u8) by (bit_vector);
}

} // verus!
