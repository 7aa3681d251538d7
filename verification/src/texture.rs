//! The kinds of textures and their sampling parameters.

use crate::vector::UVec2;
use vstd::prelude::*;

verus! {

/// A plain texture, or a multisample one with a number of samples.
#[derive(Clone, Copy, Debug, PartialEq, Eq, Structural)]
pub enum Type {
    Common,
    Multisample(u8),
}

impl Type {
    /// The type of a texture drawn with `samples` samples per pixel: a plain
    /// texture for 0, a multisample one otherwise.
    pub fn with_samples(samples: u8) -> (r: Type)
        ensures
            r == (if samples == 0 {
                Type::Common
            } else {
                Type::Multisample(samples)
            }),
    {
        if samples == 0 {
            Type::Common
        } else {
            Type::Multisample(samples)
        }
    }
}

/// The channels of a texel.
#[derive(Clone, Copy, Debug, PartialEq, Eq, Structural)]
pub enum Format {
    R,
    Rg,
    Rgb,
    Rgba,
}

impl Format {
    /// The number of channels of the format.
    pub open spec fn spec_n_components(self) -> usize {
        match self {
            Format::R => 1,
            Format::Rg => 2,
            Format::Rgb => 3,
            Format::Rgba => 4,
        }
    }

    /// The number of channels of the format.
    pub fn n_components(self) -> (r: usize)
        ensures
            r == self.spec_n_components(),
    {
        match self {
            Format::R => 1,
            Format::Rg => 2,
            Format::Rgb => 3,
            Format::Rgba => 4,
        }
    }
}

/// Whether `len` bytes of pixel data suit a texture of `size` texels in
/// `format`: no data at all (the texture is left blank), or one byte per
/// channel of every texel.
pub fn data_fits(len: usize, size: UVec2, format: Format) -> (r: bool)
    ensures
        r == (len == 0 || len == size.x * size.y * format.spec_n_components()),
{
    if len == 0 {
        return true;
    }
    let w = size.x as u128;
    let h = size.y as u128;
    let n = format.n_components() as u128;
    proof {
        assert(w * h <= 0xffff_ffffu128 * 0xffff_ffffu128) by (nonlinear_arith)
            requires w <= 0xffff_ffffu128, h <= 0xffff_ffffu128;
        assert(w * h * n <= 0xffff_ffffu128 * 0xffff_ffffu128 * 4) by (nonlinear_arith)
            requires w * h <= 0xffff_ffffu128 * 0xffff_ffffu128, n <= 4;
    }
    len as u128 == w * h * n
}

/// How texels are filtered when sampled.
#[derive(Clone, Copy, Debug, PartialEq, Eq, Structural)]
pub enum Filter {
    Nearest,
    Linear,
}

/// How coordinates outside the texture wrap.
#[derive(Clone, Copy, Debug, PartialEq, Eq, Structural)]
pub enum Wrap {
    Repeat,
    ClampToEdge,
    ClampToBorder,
    MirroredRepeat,
    MirrorClampToEdge,
}

/// The parameters a texture is made with.
#[derive(Clone, Copy, Debug, PartialEq, Eq, Structural)]
pub struct Parameters {
    pub typ: Type,
    pub format: Format,
    pub filter: Filter,
    pub wrap: Wrap,
}

impl Default for Parameters {
    /// A plain RGBA texture, filtered to the nearest texel and repeated.
    fn default() -> (r: Parameters)
        ensures
            r == (Parameters {
                typ: Type::Common,
                format: Format::Rgba,
                filter: Filter::Nearest,
                wrap: Wrap::Repeat,
            }),
    {
        Parameters { typ: Type::Common, format: Format::Rgba, filter: Filter::Nearest, wrap: Wrap::Repeat }
    }
}

} // verus!
