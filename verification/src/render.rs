//! Blend modes for surface composition.

use vstd::prelude::*;

verus! {

/// How blits composite source pixels onto a destination surface.
///
/// `Opaque` performs no blending (a plain copy); `Blend` is alpha
/// blending, `Add` additive blending and `Mod` color modulation.  All
/// four modes are supported by every surface.
#[derive(Clone, Copy, Debug, PartialEq, Eq, Structural)]
pub enum BlendMode {
    Opaque,
    Blend,
    Add,
    Mod,
}

} // verus!
