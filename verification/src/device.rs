//! Display memory and the access path to it. The display reads this memory
//! on its own, so every load and store is a volatile one: none is dropped,
//! and none is moved across another.

use crate::vga_buffer::{ScreenChar, BUFFER_HEIGHT, BUFFER_WIDTH};
use volatile::Volatile;
use vstd::prelude::*;

verus! {

/// `volatile::Volatile<T>`, the wrapper that makes every access to the value
/// inside it a volatile one. Nothing is known of a value of this type but what
/// [`stored`] names.
#[verifier::external_type_specification]
#[verifier::external_body]
#[verifier::reject_recursive_types(T)]
pub struct ExVolatile<T: Copy>(Volatile<T>);

/// The 16-bit value that a slot holds: what `Volatile::write` stored in it
/// last, and what `Volatile::read` loads from it.
pub uninterp spec fn stored(slot: Volatile<u16>) -> u16;

/// `Volatile::read`: a volatile load of the value that the slot holds. The
/// slot is left as it was.
#[verifier::external_body]
fn read_slot(slot: &Volatile<u16>) -> (value: u16)
    ensures
        value == stored(*slot),
{
    slot.read()
}

/// `Volatile::write`: a volatile store, after which the slot holds `value`.
/// The store does not panic.
#[verifier::external_body]
fn write_slot(slot: &mut Volatile<u16>, value: u16)
    ensures
        stored(*final(slot)) == value,
    no_unwind
{
    slot.write(value)
}

/// Display memory as the device lays it out: the rows from top to bottom,
/// each row its cells from left to right, each cell one 16-bit slot.
pub type Slots = [[Volatile<u16>; BUFFER_WIDTH]; BUFFER_HEIGHT];

/// The cells that display memory holds, row by row.
pub open spec fn cells(slots: Slots) -> Seq<Seq<ScreenChar>> {
    Seq::new(
        BUFFER_HEIGHT as nat,
        |r: int| Seq::new(BUFFER_WIDTH as nat, |c: int| ScreenChar::spec_decode(stored(slots[r][c]))),
    )
}

/// The handle to display memory. Cells are read and written through it and
/// in no other way, and there is one handle for one display: it holds the
/// only reference to the memory.
pub struct Buffer {
    chars: &'static mut Slots,
}

impl View for Buffer {
    type V = Seq<Seq<ScreenChar>>;

    /// The grid: `self@[r][c]` is the cell in row `r`, column `c`.
    closed spec fn view(&self) -> Seq<Seq<ScreenChar>> {
        cells(*self.chars)
    }
}

impl Buffer {
    /// The handle to the display whose memory is `chars`. The display keeps
    /// what it shows.
    pub fn new(chars: &'static mut Slots) -> (buffer: Buffer)
        ensures
            buffer@ == cells(*old(chars)),
    {
        Buffer { chars }
    }

    /// The grid has its fixed size.
    pub proof fn lemma_dimensions(&self)
        ensures
            self@.len() == BUFFER_HEIGHT,
            forall|r: int| 0 <= r < BUFFER_HEIGHT ==> (#[trigger] self@[r]).len() == BUFFER_WIDTH,
    {
    }

    /// The cell at `row` and `col`, by one volatile load.
    pub fn read(&self, row: usize, col: usize) -> (cell: ScreenChar)
        requires
            row < BUFFER_HEIGHT,
            col < BUFFER_WIDTH,
        ensures
            cell == self@[row as int][col as int],
    {
        ScreenChar::decode(read_slot(&self.chars[row][col]))
    }

    /// Replaces the cell at `row` and `col`, by one volatile store of the
    /// whole cell. No other cell changes.
    pub fn write(&mut self, row: usize, col: usize, cell: ScreenChar)
        requires
            row < BUFFER_HEIGHT,
            col < BUFFER_WIDTH,
        ensures
            final(self)@ == old(self)@.update(row as int, old(self)@[row as int].update(col as int, cell)),
        no_unwind
    {
        write_slot(&mut self.chars[row][col], cell.encode());
        assert(self@ =~~= old(self)@.update(row as int, old(self)@[row as int].update(col as int, cell)));
    }
}

} // verus!
