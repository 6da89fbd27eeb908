//! Model of the text-mode display writer.
//!
//! The writer keeps a screen of `BUFFER_HEIGHT` rows by `BUFFER_WIDTH`
//! columns and writes at the bottom row, scrolling the screen up one row
//! on every newline or overflowing line.  The kernel's writer puts these
//! cells in the memory-mapped text buffer through volatile writes; the
//! writer here owns its cells, and the thin display glue mirrors them to
//! the hardware buffer.

use vstd::prelude::*;
use vstd::string::StrSliceExecFns;

verus! {

/// Rows of the text buffer.
pub const BUFFER_HEIGHT: usize = 25;

/// Columns of the text buffer.
pub const BUFFER_WIDTH: usize = 80;

/// The sixteen standard text-mode colors.
#[derive(Clone, Copy, Debug, PartialEq, Eq, Structural)]
pub enum Color {
    Black,
    Blue,
    Green,
    Cyan,
    Red,
    Magenta,
    Brown,
    LightGray,
    DarkGray,
    LightBlue,
    LightGreen,
    LightCyan,
    LightRed,
    Pink,
    Yellow,
    White,
}

impl Color {
    /// The hardware code of the color.
    pub open spec fn spec_code(self) -> u8 {
        match self {
            Color::Black => 0,
            Color::Blue => 1,
            Color::Green => 2,
            Color::Cyan => 3,
            Color::Red => 4,
            Color::Magenta => 5,
            Color::Brown => 6,
            Color::LightGray => 7,
            Color::DarkGray => 8,
            Color::LightBlue => 9,
            Color::LightGreen => 10,
            Color::LightCyan => 11,
            Color::LightRed => 12,
            Color::Pink => 13,
            Color::Yellow => 14,
            Color::White => 15,
        }
    }

    /// The hardware code of the color.
    pub fn as_u8(self) -> (r: u8)
        ensures
            r == self.spec_code(),
            r < 16,
    {
        match self {
            Color::Black => 0,
            Color::Blue => 1,
            Color::Green => 2,
            Color::Cyan => 3,
            Color::Red => 4,
            Color::Magenta => 5,
            Color::Brown => 6,
            Color::LightGray => 7,
            Color::DarkGray => 8,
            Color::LightBlue => 9,
            Color::LightGreen => 10,
            Color::LightCyan => 11,
            Color::LightRed => 12,
            Color::Pink => 13,
            Color::Yellow => 14,
            Color::White => 15,
        }
    }
}

/// A foreground/background color pair packed into one byte: the
/// background in the high nibble, the foreground in the low one.
#[derive(Clone, Copy, Debug, PartialEq, Eq, Structural)]
pub struct ColorCode(pub u8);

impl ColorCode {
    /// Packs a foreground and a background color.
    pub fn new(foreground: Color, background: Color) -> (r: ColorCode)
        ensures
            r.0 == background.spec_code() * 16 + foreground.spec_code(),
    {
        let f = foreground.as_u8();
        let b = background.as_u8();
        proof {
            assert((b << 4) | f == b * 16 + f) by (bit_vector)
                requires
                    f < 16 && b < 16,
            ;
        }
        ColorCode((b << 4) | f)
    }
}

/// One cell of the text buffer: a character byte with its colors.
#[derive(Clone, Copy, Debug, PartialEq, Eq, Structural)]
pub struct VGAChar {
    pub ascii_character: u8,
    pub color_code: ColorCode,
}

/// The writer's state as mathematics: the screen cells, the cursor
/// column, and the current colors.
pub ghost struct ScreenState {
    pub screen: Seq<Seq<VGAChar>>,
    pub column: int,
    pub color: ColorCode,
}

/// The screen has full rows and the cursor is within the line.
pub open spec fn st_wf(st: ScreenState) -> bool {
    &&& st.screen.len() == BUFFER_HEIGHT
    &&& forall|r: int| 0 <= r < st.screen.len() ==> (#[trigger] st.screen[r]).len() == BUFFER_WIDTH
    &&& 0 <= st.column <= BUFFER_WIDTH
}

/// A blank cell in the given colors.
pub open spec fn spec_blank_char(color: ColorCode) -> VGAChar {
    VGAChar { ascii_character: 0x20u8, color_code: color }
}

/// A row of blank cells.
pub open spec fn spec_blank_row(color: ColorCode) -> Seq<VGAChar> {
    Seq::new(BUFFER_WIDTH as nat, |c: int| spec_blank_char(color))
}

/// A newline: every row moves up one, the bottom row is cleared in the
/// current colors, and the cursor returns to the left edge.
pub open spec fn spec_new_line(st: ScreenState) -> ScreenState {
    ScreenState {
        screen: Seq::new(
            st.screen.len(),
            |r: int|
                if r < st.screen.len() - 1 {
                    st.screen[r + 1]
                } else {
                    spec_blank_row(st.color)
                },
        ),
        column: 0,
        color: st.color,
    }
}

/// Writing one printable byte: a full line wraps first, then the byte
/// lands at the cursor on the bottom row and the cursor advances.
pub open spec fn spec_put_char(st: ScreenState, byte: u8) -> ScreenState {
    let base = if st.column >= BUFFER_WIDTH {
        spec_new_line(st)
    } else {
        st
    };
    ScreenState {
        screen: base.screen.update(
            BUFFER_HEIGHT - 1,
            base.screen[BUFFER_HEIGHT - 1].update(
                base.column,
                VGAChar { ascii_character: byte, color_code: st.color },
            ),
        ),
        column: base.column + 1,
        color: st.color,
    }
}

/// Writing one byte: a newline scrolls, anything else is put at the
/// cursor.
pub open spec fn spec_write_byte(st: ScreenState, byte: u8) -> ScreenState {
    if byte == 0x0au8 {
        spec_new_line(st)
    } else {
        spec_put_char(st, byte)
    }
}

/// The byte a character is displayed as: printable ASCII and newline
/// stand for themselves, everything else becomes the block glyph 0xfe.
pub open spec fn spec_char_byte(c: char) -> u8 {
    if c == '\n' {
        0x0au8
    } else if 0x20 <= c as u32 <= 0x7e {
        c as u8
    } else {
        0xfe
    }
}

/// Writing a string: its characters in order.
pub open spec fn spec_write_str(st: ScreenState, cs: Seq<char>) -> ScreenState
    decreases cs.len(),
{
    if cs.len() == 0 {
        st
    } else {
        spec_write_str(spec_write_byte(st, spec_char_byte(cs[0])), cs.skip(1))
    }
}

/// Writing one more character extends a written prefix by one step.
proof fn lemma_write_str_take_step(st: ScreenState, cs: Seq<char>, i: int)
    requires
        0 <= i < cs.len(),
    ensures
        spec_write_str(st, cs.take(i + 1)) == spec_write_byte(
            spec_write_str(st, cs.take(i)),
            spec_char_byte(cs[i]),
        ),
    decreases i,
{
    let st1 = spec_write_byte(st, spec_char_byte(cs[0]));
    if i == 0 {
        assert(cs.take(1)[0] == cs[0]);
        assert(spec_write_str(st, cs.take(1)) == spec_write_str(st1, cs.take(1).skip(1)));
        assert(cs.take(1).skip(1).len() == 0);
        assert(spec_write_str(st1, cs.take(1).skip(1)) == st1);
        assert(cs.take(0).len() == 0);
        assert(spec_write_str(st, cs.take(0)) == st);
    } else {
        lemma_write_str_take_step(st1, cs.skip(1), i - 1);
        assert(cs.take(i + 1)[0] == cs[0]);
        assert(cs.take(i)[0] == cs[0]);
        assert(cs.skip(1)[i - 1] == cs[i]);
        assert(cs.take(i + 1).skip(1) =~= cs.skip(1).take(i));
        assert(cs.take(i).skip(1) =~= cs.skip(1).take(i - 1));
        assert(spec_write_str(st, cs.take(i + 1)) == spec_write_str(st1, cs.skip(1).take(i)));
        assert(spec_write_str(st, cs.take(i)) == spec_write_str(st1, cs.skip(1).take(i - 1)));
    }
}

/// The text-mode writer.
pub struct VGAWriter {
    pub column_position: usize,
    pub color_code: ColorCode,
    pub buffer: Vec<Vec<VGAChar>>,
}

impl VGAWriter {
    /// The writer's state as mathematics.
    pub open spec fn state(self) -> ScreenState {
        ScreenState {
            screen: Seq::new(self.buffer@.len(), |r: int| self.buffer@[r]@),
            column: self.column_position as int,
            color: self.color_code,
        }
    }

    /// The buffer has full rows and the cursor is within the line.
    pub open spec fn wf(self) -> bool {
        &&& self.buffer@.len() == BUFFER_HEIGHT
        &&& forall|r: int|
            0 <= r < BUFFER_HEIGHT ==> (#[trigger] self.buffer@[r])@.len() == BUFFER_WIDTH
        &&& self.column_position <= BUFFER_WIDTH
    }

    /// Writes one byte at the cursor; a newline, or running off the end
    /// of the line, scrolls the screen up.
    pub fn write_byte(&mut self, byte: u8)
        requires
            old(self).wf(),
        ensures
            final(self).wf(),
            final(self).state() == spec_write_byte(old(self).state(), byte),
    {
        if byte == 0x0au8 {
            self.new_line();
        } else {
            if self.column_position >= BUFFER_WIDTH {
                self.new_line();
            }
            let ghost base = self.state();
            let row = BUFFER_HEIGHT - 1;
            let col = self.column_position;
            let color_code = self.color_code;
            self.buffer[row][col] = VGAChar { ascii_character: byte, color_code };
            self.column_position = col + 1;
            proof {
                assert(self.state().screen =~= base.screen.update(
                    BUFFER_HEIGHT - 1,
                    base.screen[BUFFER_HEIGHT - 1].update(
                        base.column,
                        VGAChar { ascii_character: byte, color_code },
                    ),
                ));
                assert(self.state() == spec_write_byte(old(self).state(), byte));
            }
        }
    }

    /// Writes a string byte by byte; characters outside printable ASCII
    /// appear as the block glyph.
    #[verifier::loop_isolation(false)]
    pub fn write_str(&mut self, s: &str)
        requires
            old(self).wf(),
        ensures
            final(self).wf(),
            final(self).state() == spec_write_str(old(self).state(), s@),
    {
        let ghost st0 = old(self).state();
        let len = s.unicode_len();
        let mut i: usize = 0;
        proof {
            assert(s@.take(0) =~= Seq::<char>::empty());
        }
        while i < len
            invariant
                i <= len,
                self.wf(),
                self.state() == spec_write_str(st0, s@.take(i as int)),
            decreases len - i,
        {
            let c = s.get_char(i);
            proof {
                lemma_write_str_take_step(st0, s@, i as int);
            }
            if c == '\n' {
                self.write_byte(0x0au8);
            } else {
                let n = c as u32;
                if 0x20 <= n && n <= 0x7e {
                    self.write_byte(c as u8);
                } else {
                    self.write_byte(0xfe);
                }
            }
            i = i + 1;
        }
        proof {
            assert(s@.take(len as int) =~= s@);
        }
    }

    /// Scrolls the screen up one row and clears the bottom row.
    #[verifier::loop_isolation(false)]
    fn new_line(&mut self)
        requires
            old(self).wf(),
        ensures
            final(self).wf(),
            final(self).state() == spec_new_line(old(self).state()),
    {
        let mut row: usize = 1;
        while row < BUFFER_HEIGHT
            invariant
                1 <= row <= BUFFER_HEIGHT,
                self.buffer@.len() == BUFFER_HEIGHT,
                forall|r: int|
                    0 <= r < BUFFER_HEIGHT ==> (#[trigger] self.buffer@[r])@.len() == BUFFER_WIDTH,
                forall|r: int|
                    row - 1 <= r < BUFFER_HEIGHT ==> (#[trigger] self.buffer@[r])@ == old(
                        self,
                    ).buffer@[r]@,
                forall|r: int|
                    0 <= r < row - 1 ==> (#[trigger] self.buffer@[r])@ == old(self).buffer@[r + 1]@,
                self.column_position == old(self).column_position,
                self.color_code == old(self).color_code,
            decreases BUFFER_HEIGHT - row,
        {
            let mut col: usize = 0;
            while col < BUFFER_WIDTH
                invariant
                    1 <= row < BUFFER_HEIGHT,
                    col <= BUFFER_WIDTH,
                    self.buffer@.len() == BUFFER_HEIGHT,
                    forall|r: int|
                        0 <= r < BUFFER_HEIGHT ==> (#[trigger] self.buffer@[r])@.len()
                            == BUFFER_WIDTH,
                    forall|r: int|
                        row <= r < BUFFER_HEIGHT ==> (#[trigger] self.buffer@[r])@ == old(
                            self,
                        ).buffer@[r]@,
                    forall|r: int|
                        0 <= r < row - 1 ==> (#[trigger] self.buffer@[r])@ == old(self).buffer@[r
                            + 1]@,
                    forall|c: int|
                        #![trigger self.buffer@[row - 1]@[c]]
                        0 <= c < col ==> self.buffer@[row - 1]@[c] == old(self).buffer@[row
                            as int]@[c],
                    forall|c: int|
                        #![trigger self.buffer@[row - 1]@[c]]
                        col <= c < BUFFER_WIDTH ==> self.buffer@[row - 1]@[c] == old(
                            self,
                        ).buffer@[row - 1]@[c],
                    self.column_position == old(self).column_position,
                    self.color_code == old(self).color_code,
                decreases BUFFER_WIDTH - col,
            {
                let character = self.buffer[row][col];
                self.buffer[row - 1][col] = character;
                col = col + 1;
            }
            proof {
                assert(self.buffer@[row - 1]@ =~= old(self).buffer@[row as int]@);
            }
            row = row + 1;
        }
        self.clear_row(BUFFER_HEIGHT - 1);
        self.column_position = 0;
        proof {
            assert(self.state().screen =~= spec_new_line(old(self).state()).screen);
        }
    }

    /// Erases the character before the cursor and steps the cursor back.
    pub fn delete(&mut self)
        requires
            old(self).wf(),
            old(self).column_position >= 1,
        ensures
            final(self).wf(),
            final(self).column_position == old(self).column_position - 1,
            final(self).color_code == old(self).color_code,
            final(self).state().screen == old(self).state().screen.update(
                BUFFER_HEIGHT - 1,
                old(self).state().screen[BUFFER_HEIGHT - 1].update(
                    old(self).column_position - 1,
                    spec_blank_char(old(self).color_code),
                ),
            ),
    {
        let row = BUFFER_HEIGHT - 1;
        let col = self.column_position;
        let color_code = self.color_code;
        self.buffer[row][col - 1] = VGAChar { ascii_character: 0x20u8, color_code };
        self.column_position = col - 1;
        proof {
            assert(self.state().screen =~= old(self).state().screen.update(
                BUFFER_HEIGHT - 1,
                old(self).state().screen[BUFFER_HEIGHT - 1].update(
                    old(self).column_position - 1,
                    spec_blank_char(old(self).color_code),
                ),
            ));
        }
    }

    /// Fills one row with blank cells in the current colors.
    #[verifier::loop_isolation(false)]
    fn clear_row(&mut self, row: usize)
        requires
            old(self).wf(),
            row < BUFFER_HEIGHT,
        ensures
            final(self).wf(),
            final(self).column_position == old(self).column_position,
            final(self).color_code == old(self).color_code,
            final(self).buffer@.len() == BUFFER_HEIGHT,
            final(self).buffer@[row as int]@ == spec_blank_row(old(self).color_code),
            forall|r: int|
                0 <= r < BUFFER_HEIGHT && r != row ==> (#[trigger] final(self).buffer@[r])@ == old(
                    self,
                ).buffer@[r]@,
    {
        let blank = VGAChar { ascii_character: 0x20u8, color_code: self.color_code };
        let mut col: usize = 0;
        while col < BUFFER_WIDTH
            invariant
                col <= BUFFER_WIDTH,
                row < BUFFER_HEIGHT,
                blank == spec_blank_char(old(self).color_code),
                self.buffer@.len() == BUFFER_HEIGHT,
                forall|r: int|
                    0 <= r < BUFFER_HEIGHT ==> (#[trigger] self.buffer@[r])@.len() == BUFFER_WIDTH,
                forall|r: int|
                    0 <= r < BUFFER_HEIGHT && r != row ==> (#[trigger] self.buffer@[r])@ == old(
                        self,
                    ).buffer@[r]@,
                forall|c: int| 0 <= c < col ==> self.buffer@[row as int]@[c] == blank,
                forall|c: int|
                    col <= c < BUFFER_WIDTH ==> self.buffer@[row as int]@[c] == old(
                        self,
                    ).buffer@[row as int]@[c],
                self.column_position == old(self).column_position,
                self.color_code == old(self).color_code,
            decreases BUFFER_WIDTH - col,
        {
            self.buffer[row][col] = blank;
            col = col + 1;
        }
        proof {
            assert(self.buffer@[row as int]@ =~= spec_blank_row(old(self).color_code));
        }
    }
}

impl Default for VGAWriter {
    /// A writer over a blank screen, writing white on black at the left
    /// edge.
    #[verifier::loop_isolation(false)]
    fn default() -> (r: VGAWriter)
        ensures
            r.wf(),
            r.column_position == 0,
            r.color_code.0 == 15,
            r.state().screen == Seq::new(
                BUFFER_HEIGHT as nat,
                |row: int| spec_blank_row(ColorCode(15)),
            ),
    {
        let color_code = ColorCode::new(Color::White, Color::Black);
        let blank = VGAChar { ascii_character: 0x20u8, color_code };
        let mut buffer: Vec<Vec<VGAChar>> = Vec::new();
        let mut row: usize = 0;
        while row < BUFFER_HEIGHT
            invariant
                row <= BUFFER_HEIGHT,
                buffer@.len() == row,
                blank == spec_blank_char(ColorCode(15)),
                forall|r: int|
                    0 <= r < row ==> (#[trigger] buffer@[r])@ == spec_blank_row(ColorCode(15)),
            decreases BUFFER_HEIGHT - row,
        {
            let mut line: Vec<VGAChar> = Vec::new();
            let mut col: usize = 0;
            while col < BUFFER_WIDTH
                invariant
                    col <= BUFFER_WIDTH,
                    line@.len() == col,
                    blank == spec_blank_char(ColorCode(15)),
                    forall|c: int| 0 <= c < col ==> line@[c] == blank,
                decreases BUFFER_WIDTH - col,
            {
                line.push(blank);
                col = col + 1;
            }
            proof {
                assert(line@ =~= spec_blank_row(ColorCode(15)));
            }
            buffer.push(line);
            row = row + 1;
        }
        let writer = VGAWriter { column_position: 0, color_code, buffer };
        proof {
            assert(writer.state().screen =~= Seq::new(
                BUFFER_HEIGHT as nat,
                |r: int| spec_blank_row(ColorCode(15)),
            ));
        }
        writer
    }
}

/// Runs a task with the writer's colors switched to the given pair, and
/// restores the previous colors afterwards, whatever the task did.  The
/// task draws through whatever channel it holds; the writer itself is
/// held exclusively here, so its cells and cursor are unchanged.
pub fn with_color<F: Fn()>(writer: &mut VGAWriter, fg: Color, bg: Color, task: F)
    requires
        old(writer).wf(),
        call_requires(task, ()),
    ensures
        final(writer).wf(),
        final(writer).color_code == old(writer).color_code,
        *final(writer) == *old(writer),
{
    let old_color_code = writer.color_code;
    writer.color_code = ColorCode::new(fg, bg);
    task();
    writer.color_code = old_color_code;
}

} // verus!
