//! A verified in-memory pixel-surface library.
//!
//! A [`surface::Surface`] is an owned two-dimensional pixel buffer with an
//! associated pixel format, row stride ("pitch"), clip rectangle, color key,
//! modulation state and blend mode.  Surfaces can be created blank, from
//! explicit pixel masks, from a caller-supplied backing buffer, or decoded
//! from a bitmap byte stream; they support solid fills, format conversion
//! and clipped or unclipped blitting between surfaces.

pub mod bmp;
pub mod pixels;
pub mod rect;
pub mod render;
pub mod rwops;
pub mod surface;

use vstd::prelude::*;

verus! {

/// The result type of every fallible surface operation; the error text
/// describes what went wrong.
pub type SdlResult<T> = Result<T, String>;

} // verus!
