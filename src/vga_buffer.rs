use vstd::prelude::*;
use vstd::string::StringSliceAdditionalSpecFns;

verus! {

/// Number of rows of the text grid.
pub const BUFFER_HEIGHT: usize = 25;

/// Number of columns of the text grid.
pub const BUFFER_WIDTH: usize = 80;

/// The sixteen colors of the text mode palette.
#[derive(Clone, Copy, Debug, PartialEq, Eq, Structural)]
pub enum Color {
    Black,
    Blue,
    Green,
    Cyan,
    Red,
    Magenta,
    Brown,
    LightGray,
    DarkGray,
    LightBlue,
    LightGreen,
    LightCyan,
    LightRed,
    Pink,
    Yellow,
    White,
}

/// The palette index (0 to 15) of a color.
pub open spec fn color_index(c: Color) -> nat {
    match c {
        Color::Black => 0,
        Color::Blue => 1,
        Color::Green => 2,
        Color::Cyan => 3,
        Color::Red => 4,
        Color::Magenta => 5,
        Color::Brown => 6,
        Color::LightGray => 7,
        Color::DarkGray => 8,
        Color::LightBlue => 9,
        Color::LightGreen => 10,
        Color::LightCyan => 11,
        Color::LightRed => 12,
        Color::Pink => 13,
        Color::Yellow => 14,
        Color::White => 15,
    }
}

impl Color {
    /// The palette index of this color.
    pub fn index(self) -> (r: u8)
        ensures
            r as nat == color_index(self),
            r < 16,
    {
        match self {
            Color::Black => 0,
            Color::Blue => 1,
            Color::Green => 2,
            Color::Cyan => 3,
            Color::Red => 4,
            Color::Magenta => 5,
            Color::Brown => 6,
            Color::LightGray => 7,
            Color::DarkGray => 8,
            Color::LightBlue => 9,
            Color::LightGreen => 10,
            Color::LightCyan => 11,
            Color::LightRed => 12,
            Color::Pink => 13,
            Color::Yellow => 14,
            Color::White => 15,
        }
    }
}

/// A color attribute byte: background in the high nibble, foreground in the
/// low nibble.
#[derive(Clone, Copy, Debug, PartialEq, Eq, Structural)]
pub struct ColorCode(pub u8);

impl ColorCode {
    pub fn new(foreground: Color, background: Color) -> (r: ColorCode)
        ensures
            r.0 as nat == 16 * color_index(background) + color_index(foreground),
    {
        ColorCode(background.index() * 16 + foreground.index())
    }
}

/// One cell of the grid: a character byte and its color attribute.
#[derive(Clone, Copy, Debug, PartialEq, Eq, Structural)]
pub struct ScreenChar {
    pub byte: u8,
    pub color_code: ColorCode,
}

/// The character grid, row by row.
pub struct Buffer {
    pub chars: [[ScreenChar; BUFFER_WIDTH]; BUFFER_HEIGHT],
}

/// What a writer is, as a mathematical value: the cursor column on the
/// bottom row, the attribute of every glyph it writes, and the grid as a
/// sequence of rows.
pub struct WriterState {
    pub column: nat,
    pub color: ColorCode,
    pub grid: Seq<Seq<ScreenChar>>,
}

/// The byte of the space character, which blank cells hold.
pub const BLANK_BYTE: u8 = 0x20;

/// The byte of the newline control code.
pub const NEWLINE: u8 = 0x0a;

/// The glyph shown for a byte outside the printable range.
pub const PLACEHOLDER: u8 = 0xfe;

/// A blank cell: the space character in attribute `color`.
pub open spec fn blank(color: ColorCode) -> ScreenChar {
    ScreenChar { byte: BLANK_BYTE, color_code: color }
}

/// A row of blank cells.
pub open spec fn blank_row(color: ColorCode) -> Seq<ScreenChar> {
    Seq::new(BUFFER_WIDTH as nat, |c: int| blank(color))
}

impl WriterState {
    /// The cursor lies within the bottom row and the grid has its fixed size.
    pub open spec fn wf(self) -> bool {
        &&& self.column <= BUFFER_WIDTH
        &&& self.grid.len() == BUFFER_HEIGHT
        &&& forall|r: int| 0 <= r < BUFFER_HEIGHT ==> (#[trigger] self.grid[r]).len() == BUFFER_WIDTH
    }
}

/// Line advance: every row moves up by one, the top row is lost, the bottom
/// row becomes blank and the cursor returns to column 0.
pub open spec fn line_advance(s: WriterState) -> WriterState {
    WriterState { column: 0, color: s.color, grid: s.grid.drop_first().push(blank_row(s.color)) }
}

/// Writing one byte as it is: a newline advances the line; any other byte is
/// placed at the cursor on the bottom row, after a line advance if the row
/// is full.
pub open spec fn put_byte(s: WriterState, b: u8) -> WriterState {
    if b == NEWLINE {
        line_advance(s)
    } else {
        let t = if s.column >= BUFFER_WIDTH { line_advance(s) } else { s };
        let last = BUFFER_HEIGHT - 1;
        WriterState {
            column: t.column + 1,
            color: t.color,
            grid: t.grid.update(
                last,
                t.grid[last].update(t.column as int, ScreenChar { byte: b, color_code: t.color }),
            ),
        }
    }
}

/// Whether `b` is in the printable range, space through tilde.
pub open spec fn is_printable(b: u8) -> bool {
    0x20 <= b <= 0x7e
}

/// The byte that text byte `b` is written as: printable bytes and the
/// newline stay as they are, every other byte becomes the placeholder glyph.
pub open spec fn render(b: u8) -> u8 {
    if is_printable(b) || b == NEWLINE {
        b
    } else {
        PLACEHOLDER
    }
}

/// Writing a byte sequence as text: each byte, rendered, in order.
pub open spec fn put_text(s: WriterState, bytes: Seq<u8>) -> WriterState
    decreases bytes.len(),
{
    if bytes.len() == 0 {
        s
    } else {
        put_byte(put_text(s, bytes.drop_last()), render(bytes.last()))
    }
}

/// The display writer: cursor column, attribute, and the grid it renders
/// into. Every cell is reached through `write` and `read`.
pub struct Writer {
    column_position: usize,
    color_code: ColorCode,
    buffer: Buffer,
}

impl Writer {
    #[verifier::type_invariant]
    spec fn inv(&self) -> bool {
        self.column_position <= BUFFER_WIDTH
    }
}

impl View for Writer {
    type V = WriterState;

    closed spec fn view(&self) -> WriterState {
        WriterState {
            column: self.column_position as nat,
            color: self.color_code,
            grid: Seq::new(BUFFER_HEIGHT as nat, |r: int| self.buffer.chars[r]@),
        }
    }
}

impl Writer {
    /// A writer at column 0 over a blank grid, writing in `color_code`.
    pub fn new(color_code: ColorCode) -> (r: Writer)
        ensures
            r@.wf(),
            r@.column == 0,
            r@.color == color_code,
            r@.grid == Seq::new(BUFFER_HEIGHT as nat, |i: int| blank_row(color_code)),
    {
        let cell = ScreenChar { byte: BLANK_BYTE, color_code };
        let row = [cell; BUFFER_WIDTH];
        let w = Writer { column_position: 0, color_code, buffer: Buffer { chars: [row; BUFFER_HEIGHT] } };
        assert(row@ =~= blank_row(color_code));
        assert(w@.grid =~= Seq::new(BUFFER_HEIGHT as nat, |i: int| blank_row(color_code)));
        w
    }

    /// The column of the next glyph on the bottom row.
    pub fn column_position(&self) -> (r: usize)
        ensures
            r as nat == self@.column,
    {
        self.column_position
    }

    /// The attribute given to every glyph this writer places.
    pub fn color_code(&self) -> (r: ColorCode)
        ensures
            r == self@.color,
    {
        self.color_code
    }

    /// The grid of every writer has its fixed size.
    proof fn lemma_grid_shape(&self)
        ensures
            self@.grid.len() == BUFFER_HEIGHT,
            forall|r: int| 0 <= r < BUFFER_HEIGHT ==> (#[trigger] self@.grid[r]).len() == BUFFER_WIDTH,
    {
    }

    /// Places `c` at (`row`, `col`).
    pub fn write(&mut self, row: usize, col: usize, c: ScreenChar)
        requires
            row < BUFFER_HEIGHT,
            col < BUFFER_WIDTH,
        ensures
            final(self)@ == (WriterState {
                grid: old(self)@.grid.update(row as int, old(self)@.grid[row as int].update(col as int, c)),
                ..old(self)@
            }),
            final(self)@.wf(),
    {
        proof {
            use_type_invariant(&*self);
            self.lemma_grid_shape();
        }
        self.buffer.chars[row][col] = c;
        assert(self@.grid =~= old(self)@.grid.update(row as int, old(self)@.grid[row as int].update(col as int, c)));
    }

    /// Line advance: moves every row up by one, blanks the bottom row in the
    /// writer's attribute and returns the cursor to column 0.
    pub fn new_line(&mut self)
        ensures
            final(self)@ == line_advance(old(self)@),
            final(self)@.grid[BUFFER_HEIGHT - 1] == blank_row(old(self)@.color),
            final(self)@.wf(),
    {
        let ghost g0 = old(self)@.grid;
        let mut row: usize = 1;
        while row < BUFFER_HEIGHT
            invariant
                1 <= row <= BUFFER_HEIGHT,
                g0 == old(self)@.grid,
                self@.column == old(self)@.column,
                self@.color == old(self)@.color,
                forall|r: int, c: int|
                    0 <= r < row - 1 && 0 <= c < BUFFER_WIDTH ==> #[trigger] self@.grid[r][c] == g0[r + 1][c],
                forall|r: int, c: int|
                    row - 1 <= r < BUFFER_HEIGHT && 0 <= c < BUFFER_WIDTH ==> #[trigger] self@.grid[r][c] == g0[r][c],
            decreases BUFFER_HEIGHT - row,
        {
            let mut col: usize = 0;
            while col < BUFFER_WIDTH
                invariant
                    1 <= row < BUFFER_HEIGHT,
                    col <= BUFFER_WIDTH,
                    g0 == old(self)@.grid,
                    self@.column == old(self)@.column,
                    self@.color == old(self)@.color,
                    forall|r: int, c: int|
                        0 <= r < row - 1 && 0 <= c < BUFFER_WIDTH ==> #[trigger] self@.grid[r][c] == g0[r + 1][c],
                    forall|c: int| 0 <= c < col ==> #[trigger] self@.grid[row - 1][c] == g0[row as int][c],
                    forall|c: int|
                        col <= c < BUFFER_WIDTH ==> #[trigger] self@.grid[row - 1][c] == g0[row - 1][c],
                    forall|r: int, c: int|
                        row <= r < BUFFER_HEIGHT && 0 <= c < BUFFER_WIDTH ==> #[trigger] self@.grid[r][c] == g0[r][c],
                decreases BUFFER_WIDTH - col,
            {
                let ch = self.read(row, col);
                self.write(row - 1, col, ch);
                col += 1;
            }
            row += 1;
        }
        let ghost shifted = self@.grid;
        self.column_position = 0;
        assert(self@.grid == shifted);
        let blank_cell = ScreenChar { byte: BLANK_BYTE, color_code: self.color_code };
        let mut col: usize = 0;
        while col < BUFFER_WIDTH
            invariant
                col <= BUFFER_WIDTH,
                g0 == old(self)@.grid,
                self@.column == 0,
                self@.color == old(self)@.color,
                blank_cell == blank(self@.color),
                forall|r: int, c: int|
                    0 <= r < BUFFER_HEIGHT - 1 && 0 <= c < BUFFER_WIDTH ==> #[trigger] self@.grid[r][c] == g0[r + 1][c],
                forall|c: int| 0 <= c < col ==> #[trigger] self@.grid[BUFFER_HEIGHT - 1][c] == blank_cell,
            decreases BUFFER_WIDTH - col,
        {
            self.write(BUFFER_HEIGHT - 1, col, blank_cell);
            col += 1;
        }
        proof {
            let target = line_advance(old(self)@);
            self.lemma_grid_shape();
            old(self).lemma_grid_shape();
            assert forall|r: int| 0 <= r < BUFFER_HEIGHT implies #[trigger] self@.grid[r] =~= target.grid[r] by {
                if r < BUFFER_HEIGHT - 1 {
                    assert(target.grid[r] == g0[r + 1]);
                    assert(g0[r + 1].len() == BUFFER_WIDTH);
                    assert forall|c: int| 0 <= c < BUFFER_WIDTH implies #[trigger] self@.grid[r][c] == g0[r + 1][c] by {}
                } else {
                    assert(target.grid[r] == blank_row(self@.color));
                    assert forall|c: int| 0 <= c < BUFFER_WIDTH implies #[trigger] self@.grid[r][c] == blank(self@.color) by {}
                }
            }
            assert(self@.grid =~= target.grid);
        }
    }

    /// Writes `byte` as it is: a newline advances the line; any other byte
    /// goes to the cursor on the bottom row, after a line advance if the row
    /// is full, and the cursor moves right by one.
    pub fn write_byte(&mut self, byte: u8)
        ensures
            final(self)@ == put_byte(old(self)@, byte),
            final(self)@.wf(),
    {
        if byte == NEWLINE {
            self.new_line();
        } else {
            if self.column_position >= BUFFER_WIDTH {
                self.new_line();
            }
            let col = self.column_position;
            self.write(BUFFER_HEIGHT - 1, col, ScreenChar { byte, color_code: self.color_code });
            self.column_position = col + 1;
            proof {
                self.lemma_grid_shape();
            }
        }
    }

    /// Writes every byte of `s` in order, each rendered: printable bytes and
    /// newlines as they are, any other byte as the placeholder glyph.
    pub fn write_string(&mut self, s: &str)
        ensures
            final(self)@ == put_text(old(self)@, s.spec_bytes()),
            final(self)@.wf(),
    {
        proof {
            use_type_invariant(&*self);
            self.lemma_grid_shape();
        }
        let bytes = s.as_bytes();
        let mut i: usize = 0;
        while i < bytes.len()
            invariant
                i <= bytes@.len(),
                bytes@ == s.spec_bytes(),
                self@ == put_text(old(self)@, bytes@.subrange(0, i as int)),
                self@.wf(),
            decreases bytes@.len() - i,
        {
            let byte = bytes[i];
            let shown = if (0x20 <= byte && byte <= 0x7e) || byte == NEWLINE {
                byte
            } else {
                PLACEHOLDER
            };
            self.write_byte(shown);
            proof {
                let done = bytes@.subrange(0, i + 1);
                assert(done.drop_last() =~= bytes@.subrange(0, i as int));
                assert(done.last() == byte);
            }
            i += 1;
        }
        assert(bytes@.subrange(0, i as int) =~= bytes@);
    }

    /// The cell at (`row`, `col`).
    pub fn read(&self, row: usize, col: usize) -> (r: ScreenChar)
        requires
            row < BUFFER_HEIGHT,
            col < BUFFER_WIDTH,
        ensures
            r == self@.grid[row as int][col as int],
    {
        self.buffer.chars[row][col]
    }
}

/// The print facility: writes already formatted `text` to `writer`, then a
/// line advance when `newline` is set.
pub fn _print(writer: &mut Writer, text: &str, newline: bool)
    ensures
        final(writer)@ == (if newline {
            put_byte(put_text(old(writer)@, text.spec_bytes()), NEWLINE)
        } else {
            put_text(old(writer)@, text.spec_bytes())
        }),
        final(writer)@.wf(),
{
    writer.write_string(text);
    if newline {
        writer.write_byte(NEWLINE);
    }
}

} // verus!
