//! The stages of a frame's rendering, as types.

use vstd::prelude::*;

verus! {

/// A stage of rendering, with what a pass of it holds.
pub trait Stage<'a> {
    type Inner;
}

/// A pass of stage `S`.
pub struct Pass<'a, S: Stage<'a>>(pub S::Inner);

/// The stage that draws solid meshes.
pub struct Solid;

/// The stage that draws skinned meshes.
pub struct Skin;

/// The stage that draws colored lines.
pub struct Color;

/// The stage that draws the interface.
pub struct Interface;

/// What an interface pass holds: nothing.
#[derive(Clone, Copy)]
pub struct InterfaceInner(pub ());

impl<'a> Stage<'a> for Interface {
    type Inner = InterfaceInner;
}

} // verus!
