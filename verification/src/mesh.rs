//! Drawing a run of vertices.

use std::marker::PhantomData;
use vstd::prelude::*;

verus! {

/// Draws the first `len` vertices of a mesh in primitive mode `M`.
pub struct DrawArrays<M> {
    len: usize,
    mode: PhantomData<M>,
}

impl<M> DrawArrays<M> {
    /// The number of vertices drawn.
    pub closed spec fn spec_len(&self) -> usize {
        self.len
    }

    /// Draws `len` vertices.
    pub fn new(len: usize) -> (r: DrawArrays<M>)
        ensures
            r.spec_len() == len,
    {
        DrawArrays { len, mode: PhantomData }
    }
}

} // verus!
