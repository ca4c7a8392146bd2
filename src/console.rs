use vstd::prelude::*;
use vstd::string::StringSliceAdditionalSpecFns;

verus! {

/// Rows of the text screen.
pub const BUFFER_HEIGHT: usize = 25;

/// Columns of the text screen.
pub const BUFFER_WIDTH: usize = 80;

/// Physical address of the text frame buffer.
pub const VGA_BUFFER: usize = 0xb8000;

/// Glyph shown for a byte that is not printable ASCII.
pub const REPLACEMENT_GLYPH: u8 = 0xfe;

/// The sixteen text-mode colours.
#[derive(Debug, Clone, Copy, PartialEq, Eq, Structural)]
pub enum Color {
    Black,
    Blue,
    Green,
    Cyan,
    Red,
    Magenta,
    Brown,
    LightGray,
    DarkGray,
    LightBlue,
    LightGreen,
    LightCyan,
    LightRed,
    Pink,
    Yellow,
    White,
}

/// The 4-bit code of a colour.
pub open spec fn color_code(c: Color) -> u8 {
    match c {
        Color::Black => 0,
        Color::Blue => 1,
        Color::Green => 2,
        Color::Cyan => 3,
        Color::Red => 4,
        Color::Magenta => 5,
        Color::Brown => 6,
        Color::LightGray => 7,
        Color::DarkGray => 8,
        Color::LightBlue => 9,
        Color::LightGreen => 10,
        Color::LightCyan => 11,
        Color::LightRed => 12,
        Color::Pink => 13,
        Color::Yellow => 14,
        Color::White => 15,
    }
}

impl Color {
    /// The 4-bit code of the colour.
    pub fn code(self) -> (r: u8)
        ensures
            r == color_code(self),
    {
        match self {
            Color::Black => 0,
            Color::Blue => 1,
            Color::Green => 2,
            Color::Cyan => 3,
            Color::Red => 4,
            Color::Magenta => 5,
            Color::Brown => 6,
            Color::LightGray => 7,
            Color::DarkGray => 8,
            Color::LightBlue => 9,
            Color::LightGreen => 10,
            Color::LightCyan => 11,
            Color::LightRed => 12,
            Color::Pink => 13,
            Color::Yellow => 14,
            Color::White => 15,
        }
    }
}

/// A cell's attribute byte: background in the high nibble, foreground in
/// the low one.
#[derive(Debug, Clone, Copy, PartialEq, Eq, Structural)]
pub struct ColorCode(pub u8);

impl ColorCode {
    pub fn new(foreground: Color, background: Color) -> (r: ColorCode)
        ensures
            r.0 == color_code(background) * 16 + color_code(foreground),
    {
        let fg = foreground.code();
        let bg = background.code();
        assert((bg << 4u8) | fg == bg * 16 + fg) by (bit_vector)
            requires
                bg < 16,
                fg < 16,
        ;
        ColorCode((bg << 4u8) | fg)
    }
}

/// One cell of the screen: a glyph and its attribute byte.
#[derive(Debug, Clone, Copy, PartialEq, Eq, Structural)]
pub struct ScreenChar {
    pub ascii_character: u8,
    pub color_code: ColorCode,
}

/// White on black.
pub open spec fn default_color() -> ColorCode {
    ColorCode(0x0f)
}

/// A blank cell in the given colour.
pub open spec fn blank(color: ColorCode) -> ScreenChar {
    ScreenChar { ascii_character: 0x20, color_code: color }
}

/// The glyph a byte is shown with: printable ASCII and newline as they are,
/// anything else as the replacement glyph.
pub open spec fn glyph(b: u8) -> u8 {
    if (0x20 <= b && b <= 0x7e) || b == 0x0a {
        b
    } else {
        REPLACEMENT_GLYPH
    }
}

/// The screen: cells row by row, the cursor and the current colour.
pub struct ScreenView {
    pub cells: Seq<ScreenChar>,
    pub row: int,
    pub col: int,
    pub color: ColorCode,
}

impl ScreenView {
    pub open spec fn wf(&self) -> bool {
        &&& self.cells.len() == BUFFER_HEIGHT * BUFFER_WIDTH
        &&& 0 <= self.row < BUFFER_HEIGHT
        &&& 0 <= self.col <= BUFFER_WIDTH
    }

    /// Every row moved up one, the last row blank.
    pub open spec fn scrolled(&self) -> Seq<ScreenChar> {
        Seq::new(
            self.cells.len(),
            |i: int| if i < (BUFFER_HEIGHT - 1) * BUFFER_WIDTH { self.cells[i + BUFFER_WIDTH] } else { blank(self.color) },
        )
    }

    /// The cursor at the start of the next row, scrolling on the last.
    pub open spec fn new_line(&self) -> ScreenView {
        if self.row < BUFFER_HEIGHT - 1 {
            ScreenView { row: self.row + 1, col: 0, ..*self }
        } else {
            ScreenView { cells: self.scrolled(), col: 0, ..*self }
        }
    }

    /// The screen after a byte is written as it is.
    pub open spec fn put_byte(&self, b: u8) -> ScreenView {
        if b == 0x0a {
            self.new_line()
        } else {
            let s = if self.col >= BUFFER_WIDTH { self.new_line() } else { *self };
            ScreenView {
                cells: s.cells.update(s.row * BUFFER_WIDTH + s.col, ScreenChar { ascii_character: b, color_code: s.color }),
                col: s.col + 1,
                ..s
            }
        }
    }

    /// The screen after `bytes` are written, each shown by its glyph.
    pub open spec fn written(&self, bytes: Seq<u8>) -> ScreenView
        decreases bytes.len(),
    {
        if bytes.len() == 0 {
            *self
        } else {
            self.written(bytes.drop_last()).put_byte(glyph(bytes.last()))
        }
    }
}

/// The decimal digits of `n`, most significant first.
pub open spec fn digits(n: nat) -> Seq<u8>
    decreases n,
{
    if n < 10 {
        seq![(48 + n) as u8]
    } else {
        digits(n / 10).push((48 + n % 10) as u8)
    }
}

/// `n` in decimal, with a leading `-` when negative.
pub open spec fn decimal(n: int) -> Seq<u8> {
    if n < 0 {
        seq![45u8] + digits((-n) as nat)
    } else {
        digits(n as nat)
    }
}

/// Appends the decimal digits of `n`.
fn push_digits(v: &mut Vec<u8>, n: u64)
    ensures
        final(v)@ == old(v)@ + digits(n as nat),
    decreases n,
{
    if n >= 10 {
        push_digits(v, n / 10);
    }
    v.push(48 + (n % 10) as u8);
}

/// `n` in decimal.
pub fn decimal_bytes(n: i64) -> (r: Vec<u8>)
    ensures
        r@ == decimal(n as int),
{
    let mut v: Vec<u8> = Vec::new();
    if n < 0 {
        v.push(45u8);
        let m: u64 = (-(n as i128)) as u64;
        push_digits(&mut v, m);
    } else {
        push_digits(&mut v, n as u64);
    }
    v
}

/// `n` in decimal.
pub fn unsigned_decimal_bytes(n: u64) -> (r: Vec<u8>)
    ensures
        r@ == digits(n as nat),
{
    let mut v: Vec<u8> = Vec::new();
    push_digits(&mut v, n);
    v
}

/// The cell index of a row and column.
pub fn index(row: usize, col: usize) -> (r: usize)
    requires
        row < BUFFER_HEIGHT,
        col < BUFFER_WIDTH,
    ensures
        r == row * BUFFER_WIDTH + col,
{
    row * BUFFER_WIDTH + col
}

/// The text console: a model of the frame buffer that the caller copies to
/// the device.
pub struct Console {
    cells: Vec<ScreenChar>,
    row: usize,
    col: usize,
    color: ColorCode,
}

impl View for Console {
    type V = ScreenView;

    closed spec fn view(&self) -> ScreenView {
        ScreenView { cells: self.cells@, row: self.row as int, col: self.col as int, color: self.color }
    }
}

impl Console {
    pub open spec fn wf(&self) -> bool {
        self@.wf()
    }

    /// A blank screen, white on black, with the cursor at the top left.
    pub fn init() -> (r: Self)
        ensures
            r.wf(),
            r@.row == 0,
            r@.col == 0,
            r@.color == default_color(),
            forall|i: int| 0 <= i < r@.cells.len() ==> #[trigger] r@.cells[i] == blank(default_color()),
    {
        let color = ColorCode::new(Color::White, Color::Black);
        let mut cells: Vec<ScreenChar> = Vec::new();
        let mut i: usize = 0;
        while i < BUFFER_HEIGHT * BUFFER_WIDTH
            invariant
                i <= BUFFER_HEIGHT * BUFFER_WIDTH,
                color == default_color(),
                cells@.len() == i,
                forall|k: int| 0 <= k < i ==> #[trigger] cells@[k] == blank(default_color()),
            decreases BUFFER_HEIGHT * BUFFER_WIDTH - i,
        {
            cells.push(ScreenChar { ascii_character: 0x20, color_code: color });
            i = i + 1;
        }
        Console { cells, row: 0, col: 0, color }
    }

    /// The cell at a row and column.
    pub fn get_char(&self, row: usize, col: usize) -> (r: ScreenChar)
        requires
            self.wf(),
            row < BUFFER_HEIGHT,
            col < BUFFER_WIDTH,
        ensures
            r == self@.cells[row * BUFFER_WIDTH + col],
    {
        self.cells[index(row, col)]
    }

    /// Sets the cell at a row and column.
    pub fn put_char(&mut self, row: usize, col: usize, ch: ScreenChar)
        requires
            old(self).wf(),
            row < BUFFER_HEIGHT,
            col < BUFFER_WIDTH,
        ensures
            final(self)@ == (ScreenView { cells: old(self)@.cells.update(row * BUFFER_WIDTH + col, ch), ..old(self)@ }),
    {
        self.cells.set(index(row, col), ch);
    }

    /// The cells, row by row, for the device.
    pub fn cells(&self) -> (r: &Vec<ScreenChar>)
        ensures
            r@ == self@.cells,
    {
        &self.cells
    }

    /// Blanks a row in the current colour.
    pub fn clear_row(&mut self, row: usize)
        requires
            old(self).wf(),
            row < BUFFER_HEIGHT,
        ensures
            final(self)@ == (ScreenView {
                cells: Seq::new(
                    old(self)@.cells.len(),
                    |i: int| if row * BUFFER_WIDTH <= i < (row + 1) * BUFFER_WIDTH { blank(old(self)@.color) } else { old(self)@.cells[i] },
                ),
                ..old(self)@
            }),
    {
        let ghost before = self@.cells;
        let blank_char = ScreenChar { ascii_character: 0x20, color_code: self.color };
        let mut col: usize = 0;
        while col < BUFFER_WIDTH
            invariant
                self.wf(),
                row < BUFFER_HEIGHT,
                col <= BUFFER_WIDTH,
                self@.row == old(self)@.row,
                self@.col == old(self)@.col,
                self@.color == old(self)@.color,
                blank_char == blank(old(self)@.color),
                before == old(self)@.cells,
                self@.cells == Seq::new(
                    before.len(),
                    |i: int| if row * BUFFER_WIDTH <= i < row * BUFFER_WIDTH + col { blank(old(self)@.color) } else { before[i] },
                ),
            decreases BUFFER_WIDTH - col,
        {
            self.put_char(row, col, blank_char);
            col = col + 1;
        }
    }

    /// Moves every row up one and blanks the last.
    pub fn scroll_up(&mut self)
        requires
            old(self).wf(),
        ensures
            final(self)@ == (ScreenView { cells: old(self)@.scrolled(), ..old(self)@ }),
    {
        let ghost before = self@.cells;
        let mut i: usize = 0;
        while i < (BUFFER_HEIGHT - 1) * BUFFER_WIDTH
            invariant
                self.wf(),
                i <= (BUFFER_HEIGHT - 1) * BUFFER_WIDTH,
                self@.row == old(self)@.row,
                self@.col == old(self)@.col,
                self@.color == old(self)@.color,
                before == old(self)@.cells,
                self@.cells == Seq::new(before.len(), |k: int| if k < i { before[k + BUFFER_WIDTH] } else { before[k] }),
            decreases (BUFFER_HEIGHT - 1) * BUFFER_WIDTH - i,
        {
            let ch = self.cells[i + BUFFER_WIDTH];
            self.cells.set(i, ch);
            i = i + 1;
        }
        self.clear_row(BUFFER_HEIGHT - 1);
        assert(self@.cells == old(self)@.scrolled());
    }

    /// Moves the cursor to the start of the next row, scrolling on the last.
    pub fn new_line(&mut self)
        requires
            old(self).wf(),
        ensures
            final(self).wf(),
            final(self)@ == old(self)@.new_line(),
    {
        if self.row < BUFFER_HEIGHT - 1 {
            self.row = self.row + 1;
            self.col = 0;
        } else {
            self.scroll_up();
            self.col = 0;
        }
    }

    /// Writes a byte as it is: a newline moves to the next row; anything
    /// else goes at the cursor, after a newline if the row is full.
    pub fn write_byte(&mut self, byte: u8)
        requires
            old(self).wf(),
        ensures
            final(self).wf(),
            final(self)@ == old(self)@.put_byte(byte),
    {
        if byte == 0x0a {
            self.new_line();
        } else {
            if self.col >= BUFFER_WIDTH {
                self.new_line();
            }
            let ch = ScreenChar { ascii_character: byte, color_code: self.color };
            self.put_char(self.row, self.col, ch);
            self.col = self.col + 1;
        }
    }

    /// Writes bytes, each shown by its glyph.
    pub fn write_bytes(&mut self, bytes: &[u8])
        requires
            old(self).wf(),
        ensures
            final(self).wf(),
            final(self)@ == old(self)@.written(bytes@),
    {
        let mut i: usize = 0;
        while i < bytes.len()
            invariant
                self.wf(),
                i <= bytes@.len(),
                self@ == old(self)@.written(bytes@.subrange(0, i as int)),
            decreases bytes.len() - i,
        {
            let b = bytes[i];
            let g = if (0x20 <= b && b <= 0x7e) || b == 0x0a { b } else { REPLACEMENT_GLYPH };
            self.write_byte(g);
            assert(bytes@.subrange(0, i + 1).drop_last() == bytes@.subrange(0, i as int));
            i = i + 1;
        }
        assert(bytes@.subrange(0, bytes@.len() as int) == bytes@);
    }

    /// Writes the UTF-8 bytes of a string, each shown by its glyph.
    pub fn write_str(&mut self, s: &str)
        requires
            old(self).wf(),
        ensures
            final(self).wf(),
            final(self)@ == old(self)@.written(s.spec_bytes()),
    {
        self.write_bytes(s.as_bytes());
    }
}

} // verus!
