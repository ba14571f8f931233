//! The text console: a grid of coloured character cells with a cursor on the bottom row.
//!
//! The console always writes on the bottom row. A line feed turns the row just typed
//! into a green copy one row up and leaves a blank bottom row; a backspace rubs out
//! the cell before the cursor.

use vstd::prelude::*;
use vstd::string::StringSliceAdditionalSpecFns;

verus! {

/// Number of text rows on the screen.
pub const BUFFER_HEIGHT: usize = 25;

/// Number of cells in a row.
pub const BUFFER_WIDTH: usize = 80;

/// The line feed: it ends the line being typed.
pub const LINE_FEED: u8 = 0x0a;

/// The backspace: it rubs out the cell before the cursor.
pub const BACKSPACE: u8 = 0x08;

/// The shift-out byte, which the console shows as the letter `b`.
pub const SHIFT_OUT: u8 = 0x0e;

/// The space, which fills blank cells.
pub const SPACE: u8 = 0x20;

/// The letter `b`.
pub const LETTER_B: u8 = 0x62;

/// The sixteen colours of the text mode palette.
#[allow(dead_code)]
#[derive(Debug, Clone, Copy, PartialEq, Eq, Structural)]
pub enum Color {
    Black,
    Blue,
    Green,
    Cyan,
    Red,
    Magenta,
    Brown,
    LightGray,
    DarkGray,
    LightBlue,
    LightGreen,
    LightCyan,
    LightRed,
    Pink,
    Yellow,
    White,
}

impl Color {
    /// The palette index of the colour, 0 to 15.
    pub open spec fn code(self) -> u8 {
        match self {
            Color::Black => 0,
            Color::Blue => 1,
            Color::Green => 2,
            Color::Cyan => 3,
            Color::Red => 4,
            Color::Magenta => 5,
            Color::Brown => 6,
            Color::LightGray => 7,
            Color::DarkGray => 8,
            Color::LightBlue => 9,
            Color::LightGreen => 10,
            Color::LightCyan => 11,
            Color::LightRed => 12,
            Color::Pink => 13,
            Color::Yellow => 14,
            Color::White => 15,
        }
    }

    /// The palette index of the colour.
    pub fn index(self) -> (v: u8)
        ensures
            v == self.code(),
    {
        match self {
            Color::Black => 0,
            Color::Blue => 1,
            Color::Green => 2,
            Color::Cyan => 3,
            Color::Red => 4,
            Color::Magenta => 5,
            Color::Brown => 6,
            Color::LightGray => 7,
            Color::DarkGray => 8,
            Color::LightBlue => 9,
            Color::LightGreen => 10,
            Color::LightCyan => 11,
            Color::LightRed => 12,
            Color::Pink => 13,
            Color::Yellow => 14,
            Color::White => 15,
        }
    }
}

/// A foreground and a background colour packed into one attribute byte:
/// the background in the high four bits, the foreground in the low four.
#[derive(Debug, Clone, Copy, PartialEq, Eq, Structural)]
pub struct ColorCode(pub u8);

impl ColorCode {
    /// The attribute byte for a pair of colours.
    pub open spec fn of(foreground: Color, background: Color) -> ColorCode {
        ColorCode((background.code() * 16 + foreground.code()) as u8)
    }

    /// The attribute byte for a pair of colours.
    #[verifier::when_used_as_spec(of)]
    pub fn new(foreground: Color, background: Color) -> (code: ColorCode)
        ensures
            code == ColorCode::of(foreground, background),
    {
        let fg: u8 = foreground.index();
        let bg: u8 = background.index();
        assert((bg << 4 | fg) == bg * 16 + fg) by (bit_vector)
            requires
                bg < 16,
                fg < 16,
        ;
        ColorCode(bg << 4 | fg)
    }
}

/// The colour the console starts with and returns to: white on black.
pub open spec fn default_color_spec() -> ColorCode {
    ColorCode::of(Color::White, Color::Black)
}

/// The colour in which an entered line is shown again: green on black.
pub open spec fn echo_color() -> ColorCode {
    ColorCode::of(Color::Green, Color::Black)
}

/// The colour the console starts with and returns to: white on black.
#[verifier::when_used_as_spec(default_color_spec)]
pub fn default_color() -> (code: ColorCode)
    ensures
        code == default_color_spec(),
{
    ColorCode::new(Color::White, Color::Black)
}

/// One cell of the screen.
#[derive(Debug, Clone, Copy, PartialEq, Eq, Structural)]
pub struct ScreenChar {
    pub ascii_character: u8,
    pub color_code: ColorCode,
}

/// The cell that shows nothing: a space in the given colour.
pub open spec fn blank(color: ColorCode) -> ScreenChar {
    ScreenChar { ascii_character: SPACE, color_code: color }
}

/// A row of blanks in the given colour.
pub open spec fn blank_row(color: ColorCode) -> Seq<ScreenChar> {
    Seq::new(BUFFER_WIDTH as nat, |c: int| blank(color))
}

/// The bytes that steer the console and are never stored in a cell:
/// line feed, backspace and shift-out.
pub open spec fn is_control(byte: u8) -> bool {
    byte == LINE_FEED || byte == BACKSPACE || byte == SHIFT_OUT
}

/// Whether a byte shows ink: the printable ASCII characters without the space.
pub open spec fn is_visible(byte: u8) -> bool {
    0x21 <= byte <= 0x7e
}

/// The column just after the last visible character among the first `n` cells of
/// a row, 0 if there is none.
pub open spec fn text_end(row: Seq<ScreenChar>, n: int) -> int
    decreases n,
{
    if n <= 0 {
        0
    } else if is_visible(row[n - 1].ascii_character) {
        n
    } else {
        text_end(row, n - 1)
    }
}

/// `text_end` is the one column that has a visible character right before it,
/// unless it is 0, and none from it on.
pub proof fn lemma_text_end(row: Seq<ScreenChar>, n: int)
    requires
        0 <= n <= row.len(),
    ensures
        0 <= text_end(row, n) <= n,
        text_end(row, n) > 0 ==> is_visible(row[text_end(row, n) - 1].ascii_character),
        forall|c: int| text_end(row, n) <= c < n ==> !is_visible(#[trigger] row[c].ascii_character),
    decreases n,
{
    if n > 0 && !is_visible(row[n - 1].ascii_character) {
        lemma_text_end(row, n - 1);
    }
}

/// The bytes that stand for one cell when a row is read back as text: the cell's
/// byte taken as a character of Latin-1 and written in UTF-8, so one byte below
/// 0x80 and two from there on.
pub open spec fn utf8_of_byte(byte: u8) -> Seq<u8> {
    if byte < 0x80 {
        seq![byte]
    } else {
        seq![(0xC0 + byte / 64) as u8, (0x80 + byte % 64) as u8]
    }
}

/// The text of a run of cells: the bytes of each cell in turn.
pub open spec fn utf8_of_cells(cells: Seq<ScreenChar>) -> Seq<u8>
    decreases cells.len(),
{
    if cells.len() == 0 {
        Seq::empty()
    } else {
        utf8_of_cells(cells.drop_last()) + utf8_of_byte(cells.last().ascii_character)
    }
}

/// The text of cells that hold no steering byte holds none either, and is at most
/// twice as long as the run of cells.
pub proof fn lemma_utf8_of_cells(cells: Seq<ScreenChar>)
    requires
        forall|c: int| 0 <= c < cells.len() ==> !is_control(#[trigger] cells[c].ascii_character),
    ensures
        utf8_of_cells(cells).len() <= 2 * cells.len(),
        forall|i: int|
            0 <= i < utf8_of_cells(cells).len() ==> !is_control(#[trigger] utf8_of_cells(cells)[i]),
    decreases cells.len(),
{
    if cells.len() > 0 {
        lemma_utf8_of_cells(cells.drop_last());
    }
}

/// A row fit to show: `BUFFER_WIDTH` cells, none of them holding a steering byte.
pub open spec fn fit_row(row: Seq<ScreenChar>) -> bool {
    &&& row.len() == BUFFER_WIDTH
    &&& forall|c: int| 0 <= c < BUFFER_WIDTH ==> !is_control(#[trigger] row[c].ascii_character)
}

/// What the console shows and where it writes next.
pub struct Screen {
    /// The rows from top to bottom, each `BUFFER_WIDTH` cells.
    pub rows: Seq<Seq<ScreenChar>>,
    /// The cursor's column on the bottom row; `BUFFER_WIDTH` when the row is full.
    pub column: int,
    /// The colour of the cells written next.
    pub color: ColorCode,
}

impl Screen {
    /// The shape of every screen: a full grid of rows fit to show, and the cursor
    /// within or just past the bottom row.
    pub open spec fn wf(self) -> bool {
        &&& self.rows.len() == BUFFER_HEIGHT
        &&& forall|r: int| 0 <= r < BUFFER_HEIGHT ==> fit_row(#[trigger] self.rows[r])
        &&& 0 <= self.column <= BUFFER_WIDTH
    }

    /// The bottom row, on which the console writes.
    pub open spec fn bottom(self) -> Seq<ScreenChar> {
        self.rows[BUFFER_HEIGHT - 1]
    }

    /// The same screen with one cell replaced.
    pub open spec fn with_cell(self, row: int, col: int, cell: ScreenChar) -> Screen {
        Screen { rows: self.rows.update(row, self.rows[row].update(col, cell)), ..self }
    }

    /// Every row moves up by one; the top row is lost and the bottom row stays.
    pub open spec fn move_up(self) -> Screen {
        Screen { rows: self.rows.skip(1).push(self.bottom()), ..self }
    }

    /// Every row moves down by one; the bottom row is lost and the top row stays.
    pub open spec fn move_down(self) -> Screen {
        Screen { rows: seq![self.rows[0]] + self.rows.take(BUFFER_HEIGHT - 1), ..self }
    }

    /// The given row becomes blank in the current colour.
    pub open spec fn clear_row(self, row: int) -> Screen {
        Screen { rows: self.rows.update(row, blank_row(self.color)), ..self }
    }

    /// The byte goes into the cell under the cursor, in the current colour, and
    /// the cursor moves one cell to the right.
    pub open spec fn store(self, byte: u8) -> Screen {
        Screen {
            column: self.column + 1,
            ..self.with_cell(
                BUFFER_HEIGHT - 1,
                self.column,
                ScreenChar { ascii_character: byte, color_code: self.color },
            )
        }
    }

    /// The cells of the line being typed: the bottom row up to and with the cell
    /// under the cursor, the whole row when it is full.
    pub open spec fn typed(self) -> Seq<ScreenChar> {
        self.bottom().take(
            if self.column < BUFFER_WIDTH {
                self.column + 1
            } else {
                BUFFER_WIDTH as int
            },
        )
    }

    /// The text shown again when the line is entered: the text of the typed
    /// cells, cut to the width of a row.
    pub open spec fn echo(self) -> Seq<u8> {
        let text = utf8_of_cells(self.typed());
        if text.len() <= BUFFER_WIDTH {
            text
        } else {
            text.take(BUFFER_WIDTH as int)
        }
    }

    /// The row that shows the entered line: its text in the echo colour, then
    /// blanks in the colour that was current.
    pub open spec fn echo_row(self) -> Seq<ScreenChar> {
        Seq::new(
            BUFFER_WIDTH as nat,
            |c: int|
                if c < self.echo().len() {
                    ScreenChar { ascii_character: self.echo()[c], color_code: echo_color() }
                } else {
                    blank(self.color)
                },
        )
    }

    /// The line is entered: the screen moves up by two rows, the entered line is
    /// shown again on the row above the bottom, the bottom row is blank, and the
    /// cursor and the colour are back at their defaults.
    pub open spec fn new_line(self) -> Screen {
        Screen {
            rows: self.rows.skip(2).push(self.echo_row()).push(blank_row(default_color())),
            column: 0,
            color: default_color(),
        }
    }

    /// A byte is shown at the cursor; a full bottom row is entered first.
    pub open spec fn put(self, byte: u8) -> Screen {
        if self.column >= BUFFER_WIDTH {
            self.new_line().store(byte)
        } else {
            self.store(byte)
        }
    }

    /// The cell before the cursor is blanked and the cursor steps back. At the
    /// left edge the screen moves down instead and the cursor goes to the end of
    /// the text of the row that comes back.
    pub open spec fn remove_last(self) -> Screen {
        if self.column > 0 {
            Screen {
                column: self.column - 1,
                ..self.with_cell(BUFFER_HEIGHT - 1, self.column - 1, blank(self.color))
            }
        } else {
            Screen {
                column: text_end(self.move_down().bottom(), BUFFER_WIDTH as int),
                ..self.move_down()
            }
        }
    }

    /// What one byte does to the screen.
    pub open spec fn write_byte(self, byte: u8) -> Screen {
        if byte == LINE_FEED {
            self.new_line()
        } else if byte == SHIFT_OUT {
            self.put(LETTER_B)
        } else if byte == BACKSPACE {
            self.remove_last()
        } else {
            self.put(byte)
        }
    }

    /// What a run of bytes does to the screen, one byte after the other.
    pub open spec fn write_bytes(self, bytes: Seq<u8>) -> Screen {
        bytes.fold_left(self, |screen: Screen, byte: u8| screen.write_byte(byte))
    }
}

/// Entering a line keeps the screen well formed.
pub proof fn lemma_new_line_wf(screen: Screen)
    requires
        screen.wf(),
    ensures
        screen.new_line().wf(),
{
    lemma_utf8_of_cells(screen.typed());
}

/// Every byte keeps the screen well formed.
pub proof fn lemma_write_byte_wf(screen: Screen, byte: u8)
    requires
        screen.wf(),
    ensures
        screen.write_byte(byte).wf(),
{
    lemma_new_line_wf(screen);
    if byte == BACKSPACE && screen.column == 0 {
        lemma_text_end(screen.move_down().bottom(), BUFFER_WIDTH as int);
    }
}

/// Whether a byte shows ink.
fn shows_ink(byte: u8) -> (visible: bool)
    ensures
        visible == is_visible(byte),
{
    0x21 <= byte && byte <= 0x7e
}

/// Appends the text of one cell.
fn push_utf8(text: &mut Vec<u8>, byte: u8)
    ensures
        final(text)@ == old(text)@ + utf8_of_byte(byte),
{
    if byte < 0x80 {
        text.push(byte);
    } else {
        text.push(0xC0 + byte / 64);
        text.push(0x80 + byte % 64);
    }
    assert(text@ =~= old(text)@ + utf8_of_byte(byte));
}

/// The error type of `core::fmt`, which a formatting sink has to name in what
/// it returns. Nothing is claimed of its values; the console never makes one.
#[verifier::external_type_specification]
#[verifier::external_body]
pub struct ExFmtError(core::fmt::Error);

/// The grid of cells.
struct Buffer {
    chars: [[ScreenChar; BUFFER_WIDTH]; BUFFER_HEIGHT],
}

/// The console: a screen of its own, a cursor on the bottom row and a current colour.
pub struct Writer {
    column_position: usize,
    color_code: ColorCode,
    buffer: Buffer,
}

impl View for Writer {
    type V = Screen;

    closed spec fn view(&self) -> Screen {
        Screen {
            rows: Seq::new(BUFFER_HEIGHT as nat, |r: int| self.buffer.chars@[r]@),
            column: self.column_position as int,
            color: self.color_code,
        }
    }
}

impl Writer {
    #[verifier::type_invariant]
    spec fn inv(&self) -> bool {
        &&& self.column_position <= BUFFER_WIDTH
        &&& forall|r: int| 0 <= r < BUFFER_HEIGHT ==> fit_row((#[trigger] self.buffer.chars@[r])@)
    }

    /// A blank screen in the default colour with the cursor at the left.
    pub fn new() -> (writer: Writer)
        ensures
            writer@.wf(),
            writer@.rows == Seq::new(BUFFER_HEIGHT as nat, |r: int| blank_row(default_color())),
            writer@.column == 0,
            writer@.color == default_color(),
    {
        let color = default_color();
        let cell = ScreenChar { ascii_character: SPACE, color_code: color };
        let writer = Writer {
            column_position: 0,
            color_code: color,
            buffer: Buffer { chars: [[cell; BUFFER_WIDTH]; BUFFER_HEIGHT] },
        };
        assert(writer@.rows =~~= Seq::new(BUFFER_HEIGHT as nat, |r: int| blank_row(default_color())));
        writer
    }

    /// Shows one byte. A line feed enters the line, a backspace rubs out the cell
    /// before the cursor, a shift-out shows as the letter `b`, and every other byte
    /// goes into the cell under the cursor, after the line is entered if the row
    /// is full.
    pub fn write_byte(&mut self, byte: u8)
        ensures
            final(self)@ == old(self)@.write_byte(byte),
            final(self)@.wf(),
        decreases (if byte == SHIFT_OUT || byte == BACKSPACE { 2int } else { 0int }),
    {
        proof {
            use_type_invariant(&*self);
            lemma_write_byte_wf(self@, byte);
        }
        if byte == LINE_FEED {
            self.new_line();
        } else if byte == SHIFT_OUT {
            self.write_byte(LETTER_B);
        } else if byte == BACKSPACE {
            self.remove_last_byte();
        } else {
            if self.column_position >= BUFFER_WIDTH {
                self.new_line();
            }
            let ghost before = self@;
            let row: usize = BUFFER_HEIGHT - 1;
            let col: usize = self.column_position;
            let color_code = self.color_code;
            proof {
                use_type_invariant(&*self);
            }
            self.buffer.chars[row][col] = ScreenChar { ascii_character: byte, color_code };
            self.column_position += 1;
            assert(self@.rows =~~= before.store(byte).rows);
        }
    }

    /// Shows the bytes of a string, one after the other.
    pub fn write_string(&mut self, s: &str)
        ensures
            final(self)@ == old(self)@.write_bytes(s.spec_bytes()),
            final(self)@.wf(),
    {
        let bytes = s.as_bytes();
        proof {
            use_type_invariant(&*self);
        }
        for i in 0..bytes.len()
            invariant
                bytes@ == s.spec_bytes(),
                self@ == old(self)@.write_bytes(bytes@.take(i as int)),
                self@.wf(),
        {
            proof {
                assert(bytes@.take(i + 1).drop_last() =~= bytes@.take(i as int));
            }
            self.write_byte(bytes[i]);
        }
        assert(bytes@.take(bytes@.len() as int) =~= bytes@);
    }

    /// Rubs out the cell before the cursor, or brings the last row back if the
    /// cursor is at the left edge.
    fn remove_last_byte(&mut self)
        ensures
            final(self)@ == old(self)@.remove_last(),
        decreases 1int,
    {
        proof {
            use_type_invariant(&*self);
        }
        if self.column_position > 0 {
            self.column_position -= 1;
            self.write_byte(SPACE);
            proof {
                use_type_invariant(&*self);
            }
            self.column_position -= 1;
        } else {
            self.move_down();
            self.set_col_pos();
        }
    }

    /// Puts the cursor just after the last visible character of the bottom row.
    fn set_col_pos(&mut self)
        ensures
            final(self)@ == (Screen {
                column: text_end(old(self)@.bottom(), BUFFER_WIDTH as int),
                ..old(self)@
            }),
    {
        proof {
            use_type_invariant(&*self);
        }
        let mut col: usize = BUFFER_WIDTH;
        while col > 0 && !shows_ink(self.buffer.chars[BUFFER_HEIGHT - 1][col - 1].ascii_character)
            invariant
                col <= BUFFER_WIDTH,
                text_end(self@.bottom(), BUFFER_WIDTH as int) == text_end(self@.bottom(), col as int),
            decreases col,
        {
            col -= 1;
        }
        self.column_position = col;
    }

    /// Enters the line: reads the typed cells back as text, moves the screen up,
    /// shows the text in green on a fresh bottom row, and moves the screen up
    /// once more.
    fn new_line(&mut self)
        ensures
            final(self)@ == old(self)@.new_line(),
    {
        proof {
            use_type_invariant(&*self);
        }
        let last: usize = if self.column_position < BUFFER_WIDTH {
            self.column_position
        } else {
            BUFFER_WIDTH - 1
        };
        let mut command: Vec<u8> = Vec::new();
        for col in 0..last + 1
            invariant
                last < BUFFER_WIDTH,
                self == old(self),
                command@ == utf8_of_cells(self@.bottom().take(col as int)),
        {
            proof {
                assert(self@.bottom().take(col + 1).drop_last() =~= self@.bottom().take(col as int));
            }
            push_utf8(&mut command, self.buffer.chars[BUFFER_HEIGHT - 1][col].ascii_character);
        }
        proof {
            lemma_utf8_of_cells(old(self)@.typed());
        }
        let ghost was = old(self)@.color;
        self.move_up();
        self.clear_row(BUFFER_HEIGHT - 1);
        proof {
            use_type_invariant(&*self);
        }
        self.column_position = 0;

        self.color_code = ColorCode::new(Color::Green, Color::Black);
        let shown: usize = if command.len() <= BUFFER_WIDTH {
            command.len()
        } else {
            BUFFER_WIDTH
        };
        let ghost cleared = self.buffer.chars@;
        assert(cleared[BUFFER_HEIGHT - 1]@ == self@.rows[BUFFER_HEIGHT - 1]);
        assert forall|r: int| 0 <= r < BUFFER_HEIGHT - 1 implies (#[trigger] cleared[r])@
            == old(self)@.rows[r + 1] by {
            assert(cleared[r]@ == self@.rows[r]);
        }
        for col in 0..shown
            invariant
                shown <= BUFFER_WIDTH,
                shown <= command@.len(),
                cleared.len() == BUFFER_HEIGHT,
                forall|i: int| 0 <= i < command@.len() ==> !is_control(#[trigger] command@[i]),
                self.color_code == echo_color(),
                self.column_position == col,
                forall|r: int|
                    0 <= r < BUFFER_HEIGHT - 1 ==> (#[trigger] self.buffer.chars@[r]) == cleared[r],
                forall|c: int|
                    0 <= c < col ==> (#[trigger] self.buffer.chars@[BUFFER_HEIGHT - 1]@[c])
                        == (ScreenChar { ascii_character: command@[c], color_code: echo_color() }),
                forall|c: int|
                    col <= c < BUFFER_WIDTH ==> (#[trigger] self.buffer.chars@[BUFFER_HEIGHT - 1]@[c])
                        == blank(was),
        {
            proof {
                use_type_invariant(&*self);
            }
            let color_code = self.color_code;
            self.buffer.chars[BUFFER_HEIGHT - 1][col] = ScreenChar {
                ascii_character: command[col],
                color_code,
            };
            self.column_position += 1;
        }
        proof {
            use_type_invariant(&*self);
        }
        self.color_code = ColorCode::new(Color::White, Color::Black);
        self.move_up();
        self.clear_row(BUFFER_HEIGHT - 1);
        proof {
            use_type_invariant(&*self);
        }
        self.column_position = 0;
        assert(self@.rows =~~= old(self)@.new_line().rows);
    }

    /// The column at which the next byte is shown.
    pub fn column_position(&self) -> (column: usize)
        ensures
            column == self@.column,
            column <= BUFFER_WIDTH,
    {
        proof {
            use_type_invariant(self);
        }
        self.column_position
    }

    /// The colour in which the next byte is shown.
    pub fn color_code(&self) -> (code: ColorCode)
        ensures
            code == self@.color,
    {
        self.color_code
    }

    /// The cell at the given row and column of the screen.
    pub fn char_at(&self, row: usize, col: usize) -> (cell: ScreenChar)
        requires
            row < BUFFER_HEIGHT,
            col < BUFFER_WIDTH,
        ensures
            cell == self@.rows[row as int][col as int],
    {
        self.buffer.chars[row][col]
    }

    /// Moves every row up by one.
    fn move_up(&mut self)
        ensures
            final(self)@ == old(self)@.move_up(),
    {
        proof {
            use_type_invariant(&*self);
        }
        for row in 1..BUFFER_HEIGHT
            invariant
                self.column_position == old(self).column_position,
                self.color_code == old(self).color_code,
                forall|r: int| 0 <= r < row - 1 ==> self.buffer.chars@[r] == old(self).buffer.chars@[r + 1],
                forall|r: int| row - 1 <= r < BUFFER_HEIGHT ==> self.buffer.chars@[r] == old(self).buffer.chars@[r],
        {
            proof {
                use_type_invariant(&*self);
            }
            let line = self.buffer.chars[row];
            self.buffer.chars[row - 1] = line;
        }
        assert(self@.rows =~~= old(self)@.move_up().rows);
    }

    /// Moves every row down by one.
    fn move_down(&mut self)
        ensures
            final(self)@ == old(self)@.move_down(),
    {
        proof {
            use_type_invariant(&*self);
        }
        let mut row: usize = BUFFER_HEIGHT - 1;
        while row > 0
            invariant
                row < BUFFER_HEIGHT,
                self.column_position == old(self).column_position,
                self.color_code == old(self).color_code,
                forall|r: int| row < r < BUFFER_HEIGHT ==> self.buffer.chars@[r] == old(self).buffer.chars@[r - 1],
                forall|r: int| 0 <= r <= row ==> self.buffer.chars@[r] == old(self).buffer.chars@[r],
            decreases row,
        {
            row -= 1;
            proof {
                use_type_invariant(&*self);
            }
            let line = self.buffer.chars[row];
            self.buffer.chars[row + 1] = line;
        }
        assert(self@.rows =~~= old(self)@.move_down().rows);
    }

    /// Blanks a row in the current colour.
    fn clear_row(&mut self, row: usize)
        requires
            row < BUFFER_HEIGHT,
        ensures
            final(self)@ == old(self)@.clear_row(row as int),
    {
        proof {
            use_type_invariant(&*self);
        }
        let blank = ScreenChar { ascii_character: SPACE, color_code: self.color_code };
        self.buffer.chars[row] = [blank; BUFFER_WIDTH];
        assert(self@.rows =~~= old(self)@.clear_row(row as int).rows);
    }
}

impl core::fmt::Write for Writer {
    /// Shows the string; the console takes every string.
    fn write_str(&mut self, s: &str) -> (done: Result<(), core::fmt::Error>)
        ensures
            done is Ok,
            final(self)@ == old(self)@.write_bytes(s.spec_bytes()),
            final(self)@.wf(),
    {
        self.write_string(s);
        Ok(())
    }
}

/// Sets the colour in which the console shows what follows.
pub fn change_color(writer: &mut Writer, cc: ColorCode)
    ensures
        final(writer)@ == (Screen { color: cc, ..old(writer)@ }),
        final(writer)@.wf(),
{
    proof {
        use_type_invariant(&*writer);
    }
    writer.color_code = cc;
}

/// Sets the console's colour back to the default, white on black.
pub fn reset_color(writer: &mut Writer)
    ensures
        final(writer)@ == (Screen { color: default_color(), ..old(writer)@ }),
        final(writer)@.wf(),
{
    proof {
        use_type_invariant(&*writer);
    }
    writer.color_code = default_color();
}

} // verus!
