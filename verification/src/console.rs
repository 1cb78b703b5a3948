use vstd::prelude::*;
use vstd::string::StringSliceAdditionalSpecFns;

verus! {

/// Physical address of the VGA text buffer that the cells are shown in.
pub const VGA_BUFFER: usize = 0xB8000;
pub const VGA_WIDTH: usize = 80;
pub const VGA_HEIGHT: usize = 25;
/// Cells on the screen.
pub const VGA_CELLS: usize = 2000;
/// White on black.
pub const DEFAULT_COLOR: u8 = 0x0F;
pub const NEWLINE: u8 = 0x0A;
pub const SPACE: u8 = 0x20;

/// A text console: the screen's cells (attribute in the high byte,
/// character in the low byte), the cursor, and the attribute for new text.
pub struct ConsoleWriter {
    pub col: usize,
    pub row: usize,
    pub color: u8,
    pub cells: Vec<u16>,
}

/// The cells and the cursor: row, then column.
pub type Screen = (Seq<u16>, int, int);

/// A character cell.
pub open spec fn cell(color: u8, ch: u8) -> u16 {
    ((color as u16) << 8u16) | (ch as u16)
}

/// The screen moved up a line, with a blank bottom line.
pub open spec fn scrolled(cells: Seq<u16>, color: u8) -> Seq<u16> {
    cells.subrange(VGA_WIDTH as int, VGA_CELLS as int) + Seq::new(VGA_WIDTH as nat, |i: int| cell(color, SPACE))
}

/// The screen after a line break: the cursor goes to the start of the
/// next line, scrolling when it would leave the screen.
pub open spec fn after_newline(s: Screen, color: u8) -> Screen {
    if s.1 + 1 >= VGA_HEIGHT {
        (scrolled(s.0, color), VGA_HEIGHT - 1, 0)
    } else {
        (s.0, s.1 + 1, 0)
    }
}

/// The screen after one byte: a newline breaks the line; any other byte
/// is put at the cursor (after a line break when the line is full) and
/// the cursor moves right.
pub open spec fn after_byte(s: Screen, color: u8, b: u8) -> Screen {
    if b == NEWLINE {
        after_newline(s, color)
    } else {
        let t = if s.2 >= VGA_WIDTH { after_newline(s, color) } else { s };
        (t.0.update(t.1 * VGA_WIDTH + t.2, cell(color, b)), t.1, t.2 + 1)
    }
}

/// The screen after the bytes, one by one.
pub open spec fn after_bytes(s: Screen, color: u8, bs: Seq<u8>) -> Screen
    decreases bs.len(),
{
    if bs.len() == 0 {
        s
    } else {
        after_byte(after_bytes(s, color, bs.drop_last()), color, bs.last())
    }
}

/// A blank screen in `color`.
pub open spec fn blank_screen(color: u8) -> Seq<u16> {
    Seq::new(VGA_CELLS as nat, |i: int| cell(color, SPACE))
}

/// The screen has its cells and the cursor is on it (the column may sit
/// just past the last one).
pub open spec fn screen_ok(s: Screen) -> bool {
    s.0.len() == VGA_CELLS && 0 <= s.1 < VGA_HEIGHT && 0 <= s.2 <= VGA_WIDTH
}

proof fn lemma_cell_index(row: int, col: int)
    requires
        0 <= row < 25,
        0 <= col < 80,
    ensures
        0 <= row * 80 + col < 2000,
{
    assert(row * 80 <= 24 * 80) by (nonlinear_arith)
        requires
            0 <= row < 25,
    ;
}

proof fn lemma_after_byte_ok(s: Screen, color: u8, b: u8)
    requires
        screen_ok(s),
    ensures
        screen_ok(after_byte(s, color, b)),
{
    let t = if s.2 >= VGA_WIDTH { after_newline(s, color) } else { s };
    if b != NEWLINE {
        lemma_cell_index(t.1, t.2);
    }
}

impl ConsoleWriter {
    pub open spec fn screen(&self) -> Screen {
        (self.cells@, self.row as int, self.col as int)
    }

    pub open spec fn wf(&self) -> bool {
        screen_ok(self.screen())
    }

    /// A console with white-on-black text, the cursor at the top left, and
    /// every cell zero until it is cleared.
    pub fn new() -> (c: Self)
        ensures
            c.wf(),
            c.color == DEFAULT_COLOR,
            c.screen() == (Seq::new(VGA_CELLS as nat, |i: int| 0u16), 0int, 0int),
    {
        let mut cells: Vec<u16> = Vec::new();
        let mut i: usize = 0;
        while i < VGA_CELLS
            invariant
                i <= VGA_CELLS,
                cells@ == Seq::new(i as nat, |k: int| 0u16),
            decreases VGA_CELLS - i,
        {
            cells.push(0);
            i += 1;
            proof {
                assert(cells@ =~= Seq::new(i as nat, |k: int| 0u16));
            }
        }
        ConsoleWriter { col: 0, row: 0, color: DEFAULT_COLOR, cells }
    }

    /// Moves every line up by one and blanks the bottom line.
    fn scroll(&mut self)
        requires
            old(self).cells@.len() == VGA_CELLS,
        ensures
            final(self).cells@ == scrolled(old(self).cells@, old(self).color),
            final(self).row == old(self).row,
            final(self).col == old(self).col,
            final(self).color == old(self).color,
    {
        let mut i: usize = VGA_WIDTH;
        while i < VGA_CELLS
            invariant
                VGA_WIDTH <= i <= VGA_CELLS,
                self.cells@.len() == VGA_CELLS,
                forall|p: int| 0 <= p < i - VGA_WIDTH ==> self.cells@[p] == old(self).cells@[p + VGA_WIDTH],
                forall|p: int| i - VGA_WIDTH <= p < VGA_CELLS ==> self.cells@[p] == old(self).cells@[p],
                self.row == old(self).row,
                self.col == old(self).col,
                self.color == old(self).color,
            decreases VGA_CELLS - i,
        {
            let c = self.cells[i];
            self.cells.set(i - VGA_WIDTH, c);
            i += 1;
        }
        let blank = ((self.color as u16) << 8) | SPACE as u16;
        let mut col: usize = 0;
        while col < VGA_WIDTH
            invariant
                col <= VGA_WIDTH,
                blank == cell(old(self).color, SPACE),
                self.cells@.len() == VGA_CELLS,
                forall|p: int| 0 <= p < VGA_CELLS - VGA_WIDTH ==> self.cells@[p] == old(self).cells@[p + VGA_WIDTH],
                forall|p: int| VGA_CELLS - VGA_WIDTH <= p < VGA_CELLS - VGA_WIDTH + col ==> self.cells@[p] == blank,
                self.row == old(self).row,
                self.col == old(self).col,
                self.color == old(self).color,
            decreases VGA_WIDTH - col,
        {
            self.cells.set((VGA_HEIGHT - 1) * VGA_WIDTH + col, blank);
            col += 1;
        }
        proof {
            assert(self.cells@ =~= scrolled(old(self).cells@, old(self).color));
        }
    }

    /// Breaks the line: the cursor goes to the start of the next line,
    /// and the screen scrolls when that is past the bottom.
    pub fn newline(&mut self)
        requires
            old(self).wf(),
        ensures
            final(self).wf(),
            final(self).screen() == after_newline(old(self).screen(), old(self).color),
            final(self).color == old(self).color,
    {
        self.col = 0;
        self.row = self.row + 1;
        if self.row >= VGA_HEIGHT {
            self.scroll();
            self.row = VGA_HEIGHT - 1;
        }
    }

    /// Writes one byte at the cursor (see `after_byte`).
    pub fn write_byte(&mut self, byte: u8)
        requires
            old(self).wf(),
        ensures
            final(self).wf(),
            final(self).screen() == after_byte(old(self).screen(), old(self).color, byte),
            final(self).color == old(self).color,
    {
        proof {
            lemma_after_byte_ok(self.screen(), self.color, byte);
        }
        if byte == NEWLINE {
            self.newline();
        } else {
            if self.col >= VGA_WIDTH {
                self.newline();
            }
            proof {
                lemma_cell_index(self.row as int, self.col as int);
            }
            let offset = self.row * VGA_WIDTH + self.col;
            self.cells.set(offset, ((self.color as u16) << 8) | byte as u16);
            self.col = self.col + 1;
        }
    }

    /// Writes the bytes of `s` one by one.
    pub fn write_str(&mut self, s: &str)
        requires
            old(self).wf(),
        ensures
            final(self).wf(),
            final(self).screen() == after_bytes(old(self).screen(), old(self).color, s.spec_bytes()),
            final(self).color == old(self).color,
    {
        let bytes = s.as_bytes();
        let mut i: usize = 0;
        while i < bytes.len()
            invariant
                bytes@ == s.spec_bytes(),
                i <= bytes@.len(),
                self.wf(),
                self.color == old(self).color,
                self.screen() == after_bytes(old(self).screen(), old(self).color, bytes@.take(i as int)),
            decreases bytes@.len() - i,
        {
            proof {
                let t = bytes@.take(i as int + 1);
                assert(t.drop_last() =~= bytes@.take(i as int));
            }
            self.write_byte(bytes[i]);
            i += 1;
        }
        proof {
            assert(bytes@.take(i as int) =~= bytes@);
        }
    }

    /// Blanks the screen in the current color and homes the cursor.
    pub fn clear(&mut self)
        requires
            old(self).wf(),
        ensures
            final(self).wf(),
            final(self).screen() == (blank_screen(old(self).color), 0int, 0int),
            final(self).color == old(self).color,
    {
        let blank = ((self.color as u16) << 8) | SPACE as u16;
        let mut i: usize = 0;
        while i < VGA_CELLS
            invariant
                i <= VGA_CELLS,
                blank == cell(old(self).color, SPACE),
                self.cells@.len() == VGA_CELLS,
                forall|p: int| 0 <= p < i ==> self.cells@[p] == blank,
                self.color == old(self).color,
            decreases VGA_CELLS - i,
        {
            self.cells.set(i, blank);
            i += 1;
        }
        self.col = 0;
        self.row = 0;
        proof {
            assert(self.cells@ =~= blank_screen(old(self).color));
        }
    }

    /// Sets the attribute of text written from now on.
    pub fn set_color(&mut self, color: u8)
        ensures
            final(self).color == color,
            final(self).screen() == old(self).screen(),
    {
        self.color = color;
    }
}

/// The console operations of the kernel, on its one console.
pub struct Console;

impl Console {
    /// Clears the screen.
    pub fn init(console: &mut ConsoleWriter)
        requires
            old(console).wf(),
        ensures
            final(console).wf(),
            final(console).screen() == (blank_screen(old(console).color), 0int, 0int),
            final(console).color == old(console).color,
    {
        console.clear();
    }

    /// Clears the screen.
    pub fn clear(console: &mut ConsoleWriter)
        requires
            old(console).wf(),
        ensures
            final(console).wf(),
            final(console).screen() == (blank_screen(old(console).color), 0int, 0int),
            final(console).color == old(console).color,
    {
        console.clear();
    }

    /// Writes a string.
    pub fn print(console: &mut ConsoleWriter, s: &str)
        requires
            old(console).wf(),
        ensures
            final(console).wf(),
            final(console).screen() == after_bytes(old(console).screen(), old(console).color, s.spec_bytes()),
            final(console).color == old(console).color,
    {
        console.write_str(s);
    }

    /// Writes a string and breaks the line.
    pub fn println(console: &mut ConsoleWriter, s: &str)
        requires
            old(console).wf(),
        ensures
            final(console).wf(),
            final(console).screen() == after_newline(
                after_bytes(old(console).screen(), old(console).color, s.spec_bytes()),
                old(console).color,
            ),
            final(console).color == old(console).color,
    {
        console.write_str(s);
        console.newline();
    }

    /// Sets the text attribute from a foreground and a background color;
    /// the background's high bits fall off the byte.
    pub fn set_color(console: &mut ConsoleWriter, fg: u8, bg: u8)
        ensures
            final(console).color == ((bg << 4u8) | fg),
            final(console).screen() == old(console).screen(),
    {
        console.set_color((bg << 4) | fg);
    }
}

/// Where a byte lands. A byte other than a newline goes in the cursor's
/// cell and moves the cursor one column right; on a full line (column 80)
/// it first goes to the start of the next line, so it lands in that
/// line's first cell, and on the bottom line the screen moves up a line,
/// its lines in order, with a blank line below. A newline moves the
/// cursor to the start of the next line the same way.
pub proof fn lemma_byte_placement(s: Screen, color: u8, b: u8)
    requires
        screen_ok(s),
    ensures
        ({
            let r = after_byte(s, color, b);
            &&& b != NEWLINE && s.2 < 80 ==> r.1 == s.1 && r.2 == s.2 + 1 && r.0 == s.0.update(s.1 * 80 + s.2, cell(color, b))
            &&& b != NEWLINE && s.2 == 80 && s.1 < 24 ==> r.1 == s.1 + 1 && r.2 == 1 && r.0 == s.0.update((s.1 + 1) * 80, cell(color, b))
            &&& b != NEWLINE && s.2 == 80 && s.1 == 24 ==> {
                &&& r.1 == 24 && r.2 == 1 && r.0.len() == 2000
                &&& forall|k: int| 0 <= k < 1920 ==> #[trigger] r.0[k] == s.0[k + 80]
                &&& r.0[1920] == cell(color, b)
                &&& forall|k: int| 1921 <= k < 2000 ==> #[trigger] r.0[k] == cell(color, SPACE)
            }
            &&& b == NEWLINE && s.1 < 24 ==> r.0 == s.0 && r.1 == s.1 + 1 && r.2 == 0
            &&& b == NEWLINE && s.1 == 24 ==> {
                &&& r.1 == 24 && r.2 == 0 && r.0.len() == 2000
                &&& forall|k: int| 0 <= k < 1920 ==> #[trigger] r.0[k] == s.0[k + 80]
                &&& forall|k: int| 1920 <= k < 2000 ==> #[trigger] r.0[k] == cell(color, SPACE)
            }
        }),
{
    let r = after_byte(s, color, b);
    if s.1 == 24 {
        let sc = scrolled(s.0, color);
        assert(sc.len() == 2000);
        assert forall|k: int| 0 <= k < 1920 implies #[trigger] sc[k] == s.0[k + 80] by {}
        assert forall|k: int| 1920 <= k < 2000 implies #[trigger] sc[k] == cell(color, SPACE) by {}
        if b != NEWLINE && s.2 == 80 {
            assert(r.0 == sc.update(1920, cell(color, b)));
            assert forall|k: int| 0 <= k < 1920 implies #[trigger] r.0[k] == s.0[k + 80] by {
                assert(r.0[k] == sc[k]);
            }
            assert forall|k: int| 1921 <= k < 2000 implies #[trigger] r.0[k] == cell(color, SPACE) by {
                assert(r.0[k] == sc[k]);
            }
        }
    }
}

} // verus!
