//! The character grid: 25 rows of 80 cells, each a volatile two-byte record
//! `[glyph, colour]`, in the row-major layout of the VGA text buffer.

use crate::color::ColorCode;
use volatile::Volatile;
use vstd::prelude::*;

verus! {

pub const BUFFER_HEIGHT: usize = 25;

pub const BUFFER_WIDTH: usize = 80;

/// One cell of the screen: a glyph byte and its colour byte.
#[derive(Debug, Clone, Copy, PartialEq, Eq, Structural)]
pub struct ScreenChar {
    pub ascii_character: u8,
    pub color_code: ColorCode,
}

#[verifier::external_type_specification]
#[verifier::external_body]
#[verifier::reject_recursive_types(T)]
pub struct ExVolatile<T: Copy>(Volatile<T>);

/// The two bytes that a volatile cell holds.
pub uninterp spec fn volatile_bytes(v: Volatile<[u8; 2]>) -> Seq<u8>;

/// Relies on `volatile::Volatile::new`: the cell holds the value it was made with.
#[verifier::external_body]
fn new_cell(bytes: [u8; 2]) -> (r: Volatile<[u8; 2]>)
    ensures
        volatile_bytes(r) == bytes@,
{
    Volatile::new(bytes)
}

/// Relies on `volatile::Volatile::read`: a volatile load of the value the cell holds.
#[verifier::external_body]
fn load_cell(v: &Volatile<[u8; 2]>) -> (r: [u8; 2])
    ensures
        r@ == volatile_bytes(*v),
{
    v.read()
}

/// Relies on `volatile::Volatile::write`: a volatile store, after which the cell
/// holds the value written.
#[verifier::external_body]
fn store_cell(v: &mut Volatile<[u8; 2]>, bytes: [u8; 2])
    ensures
        volatile_bytes(*final(v)) == bytes@,
{
    v.write(bytes)
}

/// Relies on std's `TryFrom<Vec<T>> for [T; N]`, which succeeds when the
/// vector has exactly `N` elements and keeps their order.
#[verifier::external_body]
fn array_from_vec<T, const N: usize>(v: Vec<T>) -> (r: [T; N])
    requires
        v@.len() == N,
    ensures
        r@ == v@,
{
    <[T; N]>::try_from(v).ok().unwrap()
}

/// The cell that a volatile value holds, read as glyph then colour.
pub open spec fn cell_of(bytes: Seq<u8>) -> ScreenChar {
    ScreenChar { ascii_character: bytes[0], color_code: ColorCode(bytes[1]) }
}

/// The screen memory. Its view is the grid of cells, row by row.
pub struct Buffer {
    chars: [[Volatile<[u8; 2]>; BUFFER_WIDTH]; BUFFER_HEIGHT],
}

/// A grid of the screen's shape.
pub open spec fn is_grid(g: Seq<Seq<ScreenChar>>) -> bool {
    &&& g.len() == BUFFER_HEIGHT
    &&& forall|r: int| 0 <= r < BUFFER_HEIGHT ==> #[trigger] g[r].len() == BUFFER_WIDTH
}

impl View for Buffer {
    type V = Seq<Seq<ScreenChar>>;

    closed spec fn view(&self) -> Seq<Seq<ScreenChar>> {
        Seq::new(
            BUFFER_HEIGHT as nat,
            |r: int|
                Seq::new(
                    BUFFER_WIDTH as nat,
                    |c: int| cell_of(volatile_bytes(self.chars[r][c])),
                ),
        )
    }
}

impl Buffer {
    /// The view always has the screen's shape.
    pub proof fn lemma_shape(&self)
        ensures
            is_grid(self@),
    {
    }

    /// A buffer whose every cell holds `fill`.
    pub fn new(fill: ScreenChar) -> (r: Buffer)
        ensures
            is_grid(r@),
            forall|row: int, col: int|
                0 <= row < BUFFER_HEIGHT && 0 <= col < BUFFER_WIDTH ==> #[trigger] r@[row][col]
                    == fill,
    {
        let bytes: [u8; 2] = [fill.ascii_character, fill.color_code.0];
        let mut rows: Vec<[Volatile<[u8; 2]>; BUFFER_WIDTH]> = Vec::new();
        let mut i: usize = 0;
        while i < BUFFER_HEIGHT
            invariant
                i <= BUFFER_HEIGHT,
                rows@.len() == i,
                forall|row: int, col: int|
                    0 <= row < i && 0 <= col < BUFFER_WIDTH ==> volatile_bytes(
                        #[trigger] rows@[row][col],
                    ) == bytes@,
            decreases BUFFER_HEIGHT - i,
        {
            let mut cells: Vec<Volatile<[u8; 2]>> = Vec::new();
            let mut j: usize = 0;
            while j < BUFFER_WIDTH
                invariant
                    j <= BUFFER_WIDTH,
                    cells@.len() == j,
                    forall|col: int| 0 <= col < j ==> volatile_bytes(#[trigger] cells@[col]) == bytes@,
                decreases BUFFER_WIDTH - j,
            {
                cells.push(new_cell(bytes));
                j = j + 1;
            }
            let row: [Volatile<[u8; 2]>; BUFFER_WIDTH] = array_from_vec(cells);
            rows.push(row);
            i = i + 1;
        }
        let chars: [[Volatile<[u8; 2]>; BUFFER_WIDTH]; BUFFER_HEIGHT] = array_from_vec(rows);
        let r = Buffer { chars };
        assert forall|row: int, col: int|
            0 <= row < BUFFER_HEIGHT && 0 <= col < BUFFER_WIDTH implies #[trigger] r@[row][col]
                == fill by {
            assert(r.chars[row][col] == rows@[row][col]);
            assert(bytes@ =~= seq![fill.ascii_character, fill.color_code.0]);
        }
        r
    }

    /// The cell at `row`, `col`.
    pub fn read_char(&self, row: usize, col: usize) -> (r: ScreenChar)
        requires
            row < BUFFER_HEIGHT,
            col < BUFFER_WIDTH,
        ensures
            r == self@[row as int][col as int],
    {
        let bytes = load_cell(&self.chars[row][col]);
        ScreenChar { ascii_character: bytes[0], color_code: ColorCode(bytes[1]) }
    }

    /// Stores `ch` at `row`, `col`; every other cell keeps its content.
    pub fn write_char(&mut self, row: usize, col: usize, ch: ScreenChar)
        requires
            row < BUFFER_HEIGHT,
            col < BUFFER_WIDTH,
        ensures
            final(self)@ == old(self)@.update(
                row as int,
                old(self)@[row as int].update(col as int, ch),
            ),
    {
        let ghost before = self@;
        store_cell(&mut self.chars[row][col], [ch.ascii_character, ch.color_code.0]);
        proof {
            let bytes: [u8; 2] = [ch.ascii_character, ch.color_code.0];
            assert(bytes@ =~= seq![ch.ascii_character, ch.color_code.0]);
            assert(self@ =~~= before.update(row as int, before[row as int].update(col as int, ch)));
        }
    }
}

} // verus!
