//! The console writer: it writes on the bottom row, wraps at the line's end,
//! and scrolls the grid up by one row on each line advance.

use crate::buffer::{is_grid, Buffer, ScreenChar, BUFFER_HEIGHT, BUFFER_WIDTH};
use crate::color::ColorCode;
use vstd::prelude::*;
use vstd::string::StringSliceAdditionalSpecFns;

verus! {

/// The glyph written in place of a byte that the screen cannot show.
pub const PLACEHOLDER: u8 = 0xfe;

/// The index of the bottom row, the only one written to.
pub open spec fn bottom_row() -> int {
    BUFFER_HEIGHT - 1
}

/// A cell that holds a space in `color`.
pub open spec fn blank(color: ColorCode) -> ScreenChar {
    ScreenChar { ascii_character: 0x20u8, color_code: color }
}

/// A full row of blanks in `color`.
pub open spec fn blank_row(color: ColorCode) -> Seq<ScreenChar> {
    Seq::new(BUFFER_WIDTH as nat, |c: int| blank(color))
}

/// The grid after a line advance: every row moves up by one, the top row is
/// lost and the bottom row is blank in `color`.
pub open spec fn scrolled(grid: Seq<Seq<ScreenChar>>, color: ColorCode) -> Seq<Seq<ScreenChar>> {
    Seq::new(
        BUFFER_HEIGHT as nat,
        |r: int|
            if r < bottom_row() {
                grid[r + 1]
            } else {
                blank_row(color)
            },
    )
}

/// `grid` with `ch` placed on the bottom row at `col`.
pub open spec fn put_bottom(grid: Seq<Seq<ScreenChar>>, col: int, ch: ScreenChar) -> Seq<
    Seq<ScreenChar>,
> {
    grid.update(bottom_row(), grid[bottom_row()].update(col, ch))
}

/// Whether writing `byte` at `column` first advances the line.
pub open spec fn advances(column: int, byte: u8) -> bool {
    byte == 0x0au8 || column >= BUFFER_WIDTH
}

/// The column after writing `byte` at `column`.
pub open spec fn next_column(column: int, byte: u8) -> int {
    if byte == 0x0au8 {
        0
    } else if column >= BUFFER_WIDTH {
        1
    } else {
        column + 1
    }
}

/// Column and grid after writing one byte at `column` in `color`: a newline
/// advances the line; any other byte is placed on the bottom row, after a
/// line advance when the row is full.
pub open spec fn step(column: int, color: ColorCode, grid: Seq<Seq<ScreenChar>>, byte: u8) -> (
    int,
    Seq<Seq<ScreenChar>>,
) {
    let ch = ScreenChar { ascii_character: byte, color_code: color };
    if byte == 0x0au8 {
        (0, scrolled(grid, color))
    } else if column >= BUFFER_WIDTH {
        (1, put_bottom(scrolled(grid, color), 0, ch))
    } else {
        (column + 1, put_bottom(grid, column, ch))
    }
}

/// Column and grid after writing `bytes` one by one.
pub open spec fn run(column: int, color: ColorCode, grid: Seq<Seq<ScreenChar>>, bytes: Seq<u8>) -> (
    int,
    Seq<Seq<ScreenChar>>,
)
    decreases bytes.len(),
{
    if bytes.len() == 0 {
        (column, grid)
    } else {
        let before = run(column, color, grid, bytes.drop_last());
        step(before.0, color, before.1, bytes.last())
    }
}

/// Printable ASCII, or the newline.
pub open spec fn is_supported(byte: u8) -> bool {
    (0x20u8 <= byte && byte <= 0x7eu8) || byte == 0x0au8
}

/// The byte handed on for `byte`: itself where the screen shows it, else the placeholder.
pub open spec fn substitute(byte: u8) -> u8 {
    if is_supported(byte) {
        byte
    } else {
        PLACEHOLDER
    }
}

/// `bytes` with each byte replaced by what is handed on for it.
pub open spec fn substituted(bytes: Seq<u8>) -> Seq<u8> {
    bytes.map_values(|b: u8| substitute(b))
}

/// The column after writing `bytes` from `column`.
pub open spec fn column_after(column: int, bytes: Seq<u8>) -> int
    decreases bytes.len(),
{
    if bytes.len() == 0 {
        column
    } else {
        next_column(column_after(column, bytes.drop_last()), bytes.last())
    }
}

/// How many of the writes of `bytes` from `column` advance the line.
pub open spec fn line_advances(column: int, bytes: Seq<u8>) -> nat
    decreases bytes.len(),
{
    if bytes.len() == 0 {
        0
    } else {
        line_advances(column, bytes.drop_last()) + if advances(
            column_after(column, bytes.drop_last()),
            bytes.last(),
        ) {
            1nat
        } else {
            0nat
        }
    }
}

/// A console that writes on the bottom row of a screen buffer it holds.
pub struct Writer {
    column_position: usize,
    color_code: ColorCode,
    buffer: &'static mut Buffer,
}

impl Writer {
    /// The column where the next byte goes, in `0..=80`.
    pub closed spec fn column(&self) -> int {
        self.column_position as int
    }

    /// The colour stamped on what is written and on blanked rows.
    pub closed spec fn color(&self) -> ColorCode {
        self.color_code
    }

    /// The cells of the screen.
    pub closed spec fn grid(&self) -> Seq<Seq<ScreenChar>> {
        (*self.buffer)@
    }

    /// The column never passes the end of the row.
    pub closed spec fn wf(&self) -> bool {
        self.column_position <= BUFFER_WIDTH
    }

    /// The grid always has the screen's shape, and the column is in `0..=80`.
    pub proof fn lemma_wf(&self)
        requires
            self.wf(),
        ensures
            is_grid(self.grid()),
            0 <= self.column() <= BUFFER_WIDTH,
    {
        self.buffer.lemma_shape();
    }

    /// A writer at column 0 over `buffer`, writing in `color_code`.
    pub fn new(color_code: ColorCode, buffer: &'static mut Buffer) -> (r: Writer)
        ensures
            r.wf(),
            r.column() == 0,
            r.color() == color_code,
            r.grid() == old(buffer)@,
    {
        Writer { column_position: 0, color_code, buffer }
    }

    pub fn column_position(&self) -> (r: usize)
        ensures
            r == self.column(),
    {
        self.column_position
    }

    pub fn color_code(&self) -> (r: ColorCode)
        ensures
            r == self.color(),
    {
        self.color_code
    }

    /// The cell at `row`, `col`.
    pub fn read_char(&self, row: usize, col: usize) -> (r: ScreenChar)
        requires
            row < BUFFER_HEIGHT,
            col < BUFFER_WIDTH,
        ensures
            r == self.grid()[row as int][col as int],
    {
        self.buffer.read_char(row, col)
    }

    /// Writes one byte. A newline advances the line and writes no cell; any
    /// other byte goes on the bottom row at the current column, after a line
    /// advance when the row is full, and the column moves on by one.
    pub fn write_byte(&mut self, byte: u8)
        requires
            old(self).wf(),
        ensures
            final(self).wf(),
            final(self).color() == old(self).color(),
            (final(self).column(), final(self).grid()) == step(
                old(self).column(),
                old(self).color(),
                old(self).grid(),
                byte,
            ),
            byte == 0x0au8 ==> final(self).column() == 0,
    {
        if byte == 0x0au8 {
            self.new_line();
        } else {
            if self.column_position >= BUFFER_WIDTH {
                self.new_line();
            }
            let row = BUFFER_HEIGHT - 1;
            let col = self.column_position;
            let color_code = self.color_code;
            self.buffer.write_char(row, col, ScreenChar { ascii_character: byte, color_code });
            self.column_position = self.column_position + 1;
        }
    }

    /// Writes the bytes of `s` in order: printable ASCII (0x20 to 0x7e) and the
    /// newline as they are, every other byte as the placeholder glyph.
    pub fn write_string(&mut self, s: &str)
        requires
            old(self).wf(),
        ensures
            final(self).wf(),
            final(self).color() == old(self).color(),
            (final(self).column(), final(self).grid()) == run(
                old(self).column(),
                old(self).color(),
                old(self).grid(),
                substituted(s.spec_bytes()),
            ),
    {
        let bytes = s.as_bytes();
        let mut i: usize = 0;
        while i < bytes.len()
            invariant
                i <= bytes@.len(),
                bytes@ == s.spec_bytes(),
                self.wf(),
                self.color() == old(self).color(),
                (self.column(), self.grid()) == run(
                    old(self).column(),
                    old(self).color(),
                    old(self).grid(),
                    substituted(bytes@.subrange(0, i as int)),
                ),
            decreases bytes@.len() - i,
        {
            let byte = bytes[i];
            if (0x20u8 <= byte && byte <= 0x7eu8) || byte == 0x0au8 {
                self.write_byte(byte);
            } else {
                self.write_byte(PLACEHOLDER);
            }
            proof {
                let next = substituted(bytes@.subrange(0, i + 1));
                assert(next.drop_last() =~= substituted(bytes@.subrange(0, i as int)));
                assert(next.last() == substitute(byte));
            }
            i = i + 1;
        }
        proof {
            assert(bytes@.subrange(0, i as int) =~= bytes@);
        }
    }

    /// Moves every row up by one, blanks the bottom row and returns to column 0.
    fn new_line(&mut self)
        ensures
            final(self).wf(),
            final(self).column() == 0,
            final(self).color() == old(self).color(),
            final(self).grid() == scrolled(old(self).grid(), old(self).color()),
    {
        let ghost g0 = self.grid();
        proof {
            self.buffer.lemma_shape();
        }
        let mut row: usize = 1;
        while row < BUFFER_HEIGHT
            invariant
                1 <= row <= BUFFER_HEIGHT,
                self.color_code == old(self).color_code,
                is_grid(g0),
                is_grid(self.grid()),
                forall|r: int, c: int|
                    0 <= r < BUFFER_HEIGHT && 0 <= c < BUFFER_WIDTH ==> #[trigger] self.grid()[r][c]
                        == if r < row - 1 {
                        g0[r + 1][c]
                    } else {
                        g0[r][c]
                    },
            decreases BUFFER_HEIGHT - row,
        {
            let mut col: usize = 0;
            while col < BUFFER_WIDTH
                invariant
                    1 <= row < BUFFER_HEIGHT,
                    col <= BUFFER_WIDTH,
                    self.color_code == old(self).color_code,
                    is_grid(g0),
                    is_grid(self.grid()),
                    forall|r: int, c: int|
                        0 <= r < BUFFER_HEIGHT && 0 <= c < BUFFER_WIDTH ==> #[trigger] self.grid()[r][c]
                            == if r < row - 1 || (r == row - 1 && c < col) {
                            g0[r + 1][c]
                        } else {
                            g0[r][c]
                        },
                decreases BUFFER_WIDTH - col,
            {
                let character = self.buffer.read_char(row, col);
                self.buffer.write_char(row - 1, col, character);
                proof {
                    self.buffer.lemma_shape();
                }
                col = col + 1;
            }
            row = row + 1;
        }
        self.clear_row(BUFFER_HEIGHT - 1);
        self.column_position = 0;
        proof {
            self.buffer.lemma_shape();
            let s = scrolled(g0, self.color_code);
            assert forall|r: int| 0 <= r < BUFFER_HEIGHT implies #[trigger] self.grid()[r] == s[r] by {
                assert(self.grid()[r] =~= s[r]);
            }
            assert(self.grid() =~= s);
        }
    }

    /// Fills `row` with blanks in the current colour.
    fn clear_row(&mut self, row: usize)
        requires
            row < BUFFER_HEIGHT,
        ensures
            final(self).column_position == old(self).column_position,
            final(self).color() == old(self).color(),
            final(self).grid() == old(self).grid().update(row as int, blank_row(old(self).color())),
    {
        let ghost g0 = self.grid();
        proof {
            self.buffer.lemma_shape();
        }
        let blank = ScreenChar { ascii_character: 0x20u8, color_code: self.color_code };
        let mut col: usize = 0;
        while col < BUFFER_WIDTH
            invariant
                row < BUFFER_HEIGHT,
                col <= BUFFER_WIDTH,
                self.color_code == old(self).color_code,
                self.column_position == old(self).column_position,
                blank == crate::writer::blank(self.color_code),
                is_grid(g0),
                is_grid(self.grid()),
                forall|r: int, c: int|
                    0 <= r < BUFFER_HEIGHT && 0 <= c < BUFFER_WIDTH ==> #[trigger] self.grid()[r][c]
                        == if r == row && c < col {
                        blank
                    } else {
                        g0[r][c]
                    },
            decreases BUFFER_WIDTH - col,
        {
            self.buffer.write_char(row, col, blank);
            proof {
                self.buffer.lemma_shape();
            }
            col = col + 1;
        }
        proof {
            let s = g0.update(row as int, blank_row(self.color_code));
            assert forall|r: int| 0 <= r < BUFFER_HEIGHT implies #[trigger] self.grid()[r] == s[r] by {
                assert(self.grid()[r] =~= s[r]);
            }
            assert(self.grid() =~= s);
        }
    }
}

/// Writing a one-byte string whose byte is printable ASCII or the newline has
/// the same effect as writing that byte directly.
pub proof fn lemma_supported_byte_passes_through(
    column: int,
    color: ColorCode,
    grid: Seq<Seq<ScreenChar>>,
    byte: u8,
)
    requires
        is_supported(byte),
    ensures
        run(column, color, grid, substituted(seq![byte])) == step(column, color, grid, byte),
{
    let s = substituted(seq![byte]);
    assert(s.drop_last() =~= Seq::<u8>::empty());
    assert(run(column, color, grid, s.drop_last()) == (column, grid));
    assert(s.last() == substitute(byte));
}

/// Writing a one-byte string whose byte is neither printable ASCII nor the
/// newline writes the placeholder glyph, in the current colour, where the
/// byte would have gone.
pub proof fn lemma_unsupported_byte_is_replaced(
    column: int,
    color: ColorCode,
    grid: Seq<Seq<ScreenChar>>,
    byte: u8,
)
    requires
        !is_supported(byte),
        0 <= column <= BUFFER_WIDTH,
        is_grid(grid),
    ensures
        run(column, color, grid, substituted(seq![byte])) == step(column, color, grid, PLACEHOLDER),
        run(column, color, grid, substituted(seq![byte])).1[bottom_row()][if column
            >= BUFFER_WIDTH {
            0
        } else {
            column
        }] == (ScreenChar { ascii_character: PLACEHOLDER, color_code: color }),
{
    let s = substituted(seq![byte]);
    assert(s.drop_last() =~= Seq::<u8>::empty());
    assert(run(column, color, grid, s.drop_last()) == (column, grid));
    assert(s.last() == substitute(byte));
    assert(s.last() == PLACEHOLDER);
    lemma_scroll_rows(grid, color);
}

/// After a line advance each row holds what the row below it held, the top
/// row's old content is gone, and the bottom row is blank in the current colour.
pub proof fn lemma_scroll_rows(grid: Seq<Seq<ScreenChar>>, color: ColorCode)
    requires
        is_grid(grid),
    ensures
        is_grid(scrolled(grid, color)),
        forall|r: int| 0 <= r < bottom_row() ==> #[trigger] scrolled(grid, color)[r] == grid[r + 1],
        forall|c: int|
            0 <= c < BUFFER_WIDTH ==> #[trigger] scrolled(grid, color)[bottom_row()][c] == blank(color),
{
}

proof fn lemma_run_column(column: int, color: ColorCode, grid: Seq<Seq<ScreenChar>>, bytes: Seq<u8>)
    ensures
        run(column, color, grid, bytes).0 == column_after(column, bytes),
    decreases bytes.len(),
{
    if bytes.len() > 0 {
        lemma_run_column(column, color, grid, bytes.drop_last());
    }
}

proof fn lemma_count_without_newlines(bytes: Seq<u8>)
    requires
        bytes.len() > 0,
        forall|i: int| 0 <= i < bytes.len() ==> bytes[i] != 0x0au8,
    ensures
        column_after(0, bytes) == (bytes.len() - 1) % 80 + 1,
        line_advances(0, bytes) == (bytes.len() - 1) / 80,
    decreases bytes.len(),
{
    let n = bytes.len() as int;
    if n > 1 {
        let prefix = bytes.drop_last();
        assert forall|i: int| 0 <= i < prefix.len() implies prefix[i] != 0x0au8 by {
            assert(prefix[i] == bytes[i]);
        }
        lemma_count_without_newlines(prefix);
        assert(bytes.last() == bytes[n - 1]);
        assert(bytes.last() != 0x0au8);
        let k = n - 2;
        assert(k >= 0);
        assert(column_after(0, prefix) == k % 80 + 1);
        assert(line_advances(0, prefix) == k / 80);
        assert(column_after(0, bytes) == next_column(k % 80 + 1, bytes.last()));
        assert(line_advances(0, bytes) == k / 80 + if advances(k % 80 + 1, bytes.last()) {
            1nat
        } else {
            0nat
        });
        if k % 80 == 79 {
            assert((k + 1) % 80 == 0 && (k + 1) / 80 == k / 80 + 1) by (nonlinear_arith)
                requires
                    k >= 0,
                    k % 80 == 79,
            ;
        } else {
            assert((k + 1) % 80 == k % 80 + 1 && (k + 1) / 80 == k / 80) by (nonlinear_arith)
                requires
                    k >= 0,
                    k % 80 != 79,
            ;
        }
    } else {
        assert(bytes.drop_last() =~= Seq::<u8>::empty());
        assert(column_after(0, bytes.drop_last()) == 0);
        assert(line_advances(0, bytes.drop_last()) == 0);
        assert(bytes.last() == bytes[0]);
    }
}

/// Writing `n` bytes without a newline from column 0 leaves the column at
/// `n mod 80` after `n / 80` line advances. When `n` is a positive multiple of
/// 80 the last row is full and no advance for it has happened yet, so those
/// lengths are left out.
pub proof fn lemma_column_count(color: ColorCode, grid: Seq<Seq<ScreenChar>>, bytes: Seq<u8>)
    requires
        forall|i: int| 0 <= i < bytes.len() ==> bytes[i] != 0x0au8,
        bytes.len() % 80 != 0 || bytes.len() == 0,
    ensures
        run(0, color, grid, bytes).0 == bytes.len() % 80,
        line_advances(0, bytes) == bytes.len() / 80,
{
    lemma_run_column(0, color, grid, bytes);
    if bytes.len() > 0 {
        lemma_count_without_newlines(bytes);
        let n = bytes.len() as int;
        assert((n - 1) % 80 + 1 == n % 80 && (n - 1) / 80 == n / 80) by (nonlinear_arith)
            requires
                n > 0,
                n % 80 != 0,
        ;
    }
}

/// The bottom row after writing the first `k` of `bytes` from column 0.
pub open spec fn filled_bottom(
    color: ColorCode,
    grid: Seq<Seq<ScreenChar>>,
    bytes: Seq<u8>,
    k: int,
) -> Seq<ScreenChar> {
    Seq::new(
        BUFFER_WIDTH as nat,
        |c: int|
            if c < k {
                ScreenChar { ascii_character: bytes[c], color_code: color }
            } else {
                grid[bottom_row()][c]
            },
    )
}

proof fn lemma_fill_prefix(color: ColorCode, grid: Seq<Seq<ScreenChar>>, bytes: Seq<u8>, k: int)
    requires
        is_grid(grid),
        0 <= k <= bytes.len() <= BUFFER_WIDTH,
        forall|i: int| 0 <= i < bytes.len() ==> bytes[i] != 0x0au8,
    ensures
        run(0, color, grid, bytes.subrange(0, k)) == (
        k,
        grid.update(bottom_row(), filled_bottom(color, grid, bytes, k)),
    ),
    decreases k,
{
    if k == 0 {
        assert(grid.update(bottom_row(), filled_bottom(color, grid, bytes, 0)) =~= grid) by {
            assert(filled_bottom(color, grid, bytes, 0) =~= grid[bottom_row()]);
        }
    } else {
        lemma_fill_prefix(color, grid, bytes, k - 1);
        let pre = bytes.subrange(0, k);
        assert(pre.drop_last() =~= bytes.subrange(0, k - 1));
        let g1 = grid.update(bottom_row(), filled_bottom(color, grid, bytes, k - 1));
        let ch = ScreenChar { ascii_character: bytes[k - 1], color_code: color };
        assert(put_bottom(g1, k - 1, ch) =~= grid.update(
            bottom_row(),
            filled_bottom(color, grid, bytes, k),
        )) by {
            assert(g1[bottom_row()].update(k - 1, ch) =~= filled_bottom(color, grid, bytes, k));
        }
    }
}

/// Writing exactly 80 bytes without a newline from column 0 fills the bottom
/// row with them in the current colour, leaves every other row as it was and
/// leaves the column at 80: no line advance has happened yet.
pub proof fn lemma_full_row_without_advance(
    color: ColorCode,
    grid: Seq<Seq<ScreenChar>>,
    bytes: Seq<u8>,
)
    requires
        is_grid(grid),
        bytes.len() == BUFFER_WIDTH,
        forall|i: int| 0 <= i < bytes.len() ==> bytes[i] != 0x0au8,
    ensures
        run(0, color, grid, bytes) == (
        BUFFER_WIDTH as int,
        grid.update(
            bottom_row(),
            Seq::new(
                BUFFER_WIDTH as nat,
                |c: int| ScreenChar { ascii_character: bytes[c], color_code: color },
            ),
        ),
    ),
        line_advances(0, bytes) == 0,
{
    lemma_fill_prefix(color, grid, bytes, BUFFER_WIDTH as int);
    assert(bytes.subrange(0, BUFFER_WIDTH as int) =~= bytes);
    assert(filled_bottom(color, grid, bytes, BUFFER_WIDTH as int) =~= Seq::new(
        BUFFER_WIDTH as nat,
        |c: int| ScreenChar { ascii_character: bytes[c], color_code: color },
    ));
    lemma_count_without_newlines(bytes);
}

} // verus!
