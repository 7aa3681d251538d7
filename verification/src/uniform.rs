//! Texture samplers as shader uniforms.

use crate::declare::{int_text, put, Declare};
use vstd::prelude::*;

verus! {

/// The largest texture unit a sampler may name.
pub const MAX_UNIT: i32 = 0x8B4C;

/// A sampler bound to a texture unit, from 0 to `MAX_UNIT`.
#[derive(Clone, Copy, Debug, PartialEq, Eq, Structural)]
pub struct Sampler2d(i32);

impl View for Sampler2d {
    type V = i32;

    closed spec fn view(&self) -> i32 {
        self.0
    }
}

impl Sampler2d {
    /// A sampler names a unit from 0 to `MAX_UNIT`.
    #[verifier::type_invariant]
    pub open spec fn in_range(self) -> bool {
        0 <= self@ <= MAX_UNIT
    }

    /// The sampler of unit 0.
    pub fn zero() -> (r: Sampler2d)
        ensures
            r@ == 0,
    {
        Sampler2d(0)
    }

    /// The sampler of `unit`; `None` exactly when it is not in `0..=MAX_UNIT`.
    pub fn new(unit: i32) -> (r: Option<Sampler2d>)
        ensures
            r is Some <==> 0 <= unit <= MAX_UNIT,
            r matches Some(s) ==> s@ == unit,
    {
        if 0 <= unit && unit <= MAX_UNIT {
            Some(Sampler2d(unit))
        } else {
            None
        }
    }

    /// The unit.
    pub fn get(self) -> (r: i32)
        ensures
            r == self@,
            0 <= r <= MAX_UNIT,
    {
        proof {
            use_type_invariant(&self);
        }
        self.0
    }
}

impl Declare for Sampler2d {
    open spec fn glsl_type() -> Seq<char> {
        seq!['s', 'a', 'm', 'p', 'l', 'e', 'r', '2', 'D']
    }

    /// A sampler is written as its unit.
    open spec fn glsl_literal(&self) -> Seq<char> {
        int_text(self@ as int)
    }

    fn declare_type(out: &mut String) {
        proof { reveal_strlit("sampler2D"); }
        put(out, "sampler2D");
    }

    fn literal(&self, out: &mut String) {
        self.get().literal(out)
    }
}

} // verus!
