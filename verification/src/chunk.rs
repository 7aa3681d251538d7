//! A chunk: a cube of `CHUNK` cells along each axis, and columns read from it.

use crate::point::{cell_index, ChunkPoint};
use vstd::prelude::*;

verus! {

/// The cells of a chunk, stored so that a column's cells are contiguous.
pub struct Chunk<T> {
    cells: Vec<T>,
}

impl<T> View for Chunk<T> {
    type V = Seq<T>;

    closed spec fn view(&self) -> Seq<T> {
        self.cells@
    }
}

impl<T> Chunk<T> {
    /// A chunk has `CHUNK_CELLS` cells.
    pub open spec fn wf(self) -> bool {
        self@.len() == 32768
    }
}

impl<T: Copy> Chunk<T> {
    /// A chunk whose every cell holds `value`.
    pub fn filled(value: T) -> (r: Chunk<T>)
        ensures
            r@ == Seq::new(32768, |i: int| value),
    {
        let mut cells: Vec<T> = Vec::new();
        let mut i: usize = 0;
        while i < 32768
            invariant
                i <= 32768,
                cells@ == Seq::new(i as nat, |j: int| value),
            decreases 32768 - i,
        {
            cells.push(value);
            i += 1;
        }
        Chunk { cells }
    }

    /// The value at cell `ch`.
    pub fn get(&self, ch: ChunkPoint) -> (r: T)
        requires
            self.wf(),
        ensures
            r == self@[cell_index(ch@)],
    {
        self.cells[ch.index()]
    }

    /// Puts `value` at cell `ch`.
    pub fn set(&mut self, ch: ChunkPoint, value: T)
        requires
            old(self).wf(),
        ensures
            final(self)@ == old(self)@.update(cell_index(ch@), value),
    {
        let i = ch.index();
        self.cells.set(i, value);
    }

    /// The `n` cells of the column that starts at `ch` and goes up.
    pub fn column(&self, ch: ChunkPoint, n: usize) -> (r: &[T])
        requires
            self.wf(),
            ch@.1 + n <= 32,
        ensures
            r@ == self@.subrange(cell_index(ch@), cell_index(ch@) + n),
    {
        let i = ch.index();
        &self.cells.as_slice()[i..i + n]
    }
}

/// The cells of a column: those in the chunk of its bottom, then those
/// that reach into the chunk above.
pub struct Column<'a, T>(pub &'a [T], pub &'a [T]);

impl<'a, T: Copy> Column<'a, T> {
    /// All cells of the column, from the bottom up.
    pub open spec fn cells(self) -> Seq<T> {
        self.0@ + self.1@
    }

    /// The number of cells of the column.
    pub fn len(&self) -> (r: usize)
        requires
            self.0@.len() + self.1@.len() <= usize::MAX,
        ensures
            r == self.cells().len(),
    {
        self.0.len() + self.1.len()
    }

    /// The cell `i` levels above the bottom.
    pub fn get(&self, i: usize) -> (r: T)
        requires
            i < self.cells().len(),
        ensures
            r == self.cells()[i as int],
    {
        if i < self.0.len() {
            self.0[i]
        } else {
            self.1[i - self.0.len()]
        }
    }
}

} // verus!
