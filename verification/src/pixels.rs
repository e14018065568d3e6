//! Pixel formats, pixel masks, colors and palettes.
//!
//! A pixel value is carried as a `u32` whose byte layout is fixed by a
//! [`PixelFormatEnum`]; [`Color`] converts between channel tuples and such
//! packed values, and the conversion round-trips exactly.

use vstd::prelude::*;

verus! {

/// The pixel formats a surface can use.
///
/// `Index8` is palette-indexed and carries no channel masks, so it cannot
/// back a mask-constructed surface; `RGB24` packs three bytes per pixel in
/// red, green, blue order; `RGBA8888` packs four bytes per pixel in red,
/// green, blue, alpha order.
#[derive(Clone, Copy, Debug, PartialEq, Eq, Structural)]
pub enum PixelFormatEnum {
    Index8,
    RGB24,
    RGBA8888,
}

/// Explicit channel masks together with bits per pixel.
#[derive(Clone, Copy, Debug, PartialEq, Eq, Structural)]
pub struct PixelMasks {
    pub bpp: u8,
    pub rmask: u32,
    pub gmask: u32,
    pub bmask: u32,
    pub amask: u32,
}

impl PixelFormatEnum {
    /// Bytes each pixel of this format occupies.
    pub open spec fn spec_byte_size(self) -> nat {
        match self {
            PixelFormatEnum::Index8 => 1,
            PixelFormatEnum::RGB24 => 3,
            PixelFormatEnum::RGBA8888 => 4,
        }
    }

    /// Bits each pixel of this format occupies.
    pub open spec fn spec_bit_size(self) -> nat {
        self.spec_byte_size() * 8
    }

    /// Formats that carry their channels in masks; `Index8` does not.
    pub open spec fn has_masks(self) -> bool {
        self != PixelFormatEnum::Index8
    }

    /// The masks this format resolves to, for formats that have them.
    pub open spec fn spec_masks(self) -> PixelMasks {
        match self {
            PixelFormatEnum::RGBA8888 => PixelMasks {
                bpp: 32,
                rmask: 0xFF00_0000,
                gmask: 0x00FF_0000,
                bmask: 0x0000_FF00,
                amask: 0x0000_00FF,
            },
            _ => PixelMasks {
                bpp: 24,
                rmask: 0x00FF_0000,
                gmask: 0x0000_FF00,
                bmask: 0x0000_00FF,
                amask: 0,
            },
        }
    }

    pub fn byte_size(&self) -> (r: usize)
        ensures
            r == self.spec_byte_size(),
    {
        match self {
            PixelFormatEnum::Index8 => 1,
            PixelFormatEnum::RGB24 => 3,
            PixelFormatEnum::RGBA8888 => 4,
        }
    }

    pub fn bit_size(&self) -> (r: usize)
        ensures
            r == self.spec_bit_size(),
    {
        match self {
            PixelFormatEnum::Index8 => 8,
            PixelFormatEnum::RGB24 => 24,
            PixelFormatEnum::RGBA8888 => 32,
        }
    }

    /// Resolves the format to explicit channel masks.
    ///
    /// Fails exactly on `Index8`, which has no masks; the failure text is
    /// passed through to the surface constructors unchanged.
    pub fn into_masks(self) -> (r: Result<PixelMasks, String>)
        ensures
            match r {
                Ok(masks) => self.has_masks() && masks == self.spec_masks(),
                Err(e) => !self.has_masks() && e@ == "Indexed pixel formats have no masks"@,
            },
    {
        match self {
            PixelFormatEnum::Index8 => Err("Indexed pixel formats have no masks".to_string()),
            PixelFormatEnum::RGB24 => Ok(PixelMasks {
                bpp: 24,
                rmask: 0x00FF_0000,
                gmask: 0x0000_FF00,
                bmask: 0x0000_00FF,
                amask: 0,
            }),
            PixelFormatEnum::RGBA8888 => Ok(PixelMasks {
                bpp: 32,
                rmask: 0xFF00_0000,
                gmask: 0x00FF_0000,
                bmask: 0x0000_FF00,
                amask: 0x0000_00FF,
            }),
        }
    }

    /// The format a set of masks denotes, if it is one this library knows.
    pub open spec fn spec_from_masks(masks: PixelMasks) -> Option<PixelFormatEnum> {
        if masks == PixelFormatEnum::RGB24.spec_masks() {
            Some(PixelFormatEnum::RGB24)
        } else if masks == PixelFormatEnum::RGBA8888.spec_masks() {
            Some(PixelFormatEnum::RGBA8888)
        } else {
            None
        }
    }

    /// Resolves explicit masks back to a format; unknown mask combinations
    /// are rejected.
    pub fn from_masks(masks: PixelMasks) -> (r: Result<PixelFormatEnum, String>)
        ensures
            match r {
                Ok(f) => Self::spec_from_masks(masks) == Some(f),
                Err(e) => Self::spec_from_masks(masks) is None
                    && e@ == "Unknown pixel format"@,
            },
    {
        if masks.bpp == 24 && masks.rmask == 0x00FF_0000 && masks.gmask == 0x0000_FF00
            && masks.bmask == 0x0000_00FF && masks.amask == 0 {
            Ok(PixelFormatEnum::RGB24)
        } else if masks.bpp == 32 && masks.rmask == 0xFF00_0000 && masks.gmask == 0x00FF_0000
            && masks.bmask == 0x0000_FF00 && masks.amask == 0x0000_00FF {
            Ok(PixelFormatEnum::RGBA8888)
        } else {
            Err("Unknown pixel format".to_string())
        }
    }
}

/// A color as channel bytes, with or without an alpha channel.
#[derive(Clone, Copy, Debug, PartialEq, Eq, Structural)]
pub enum Color {
    RGB(u8, u8, u8),
    RGBA(u8, u8, u8, u8),
}

impl Color {
    pub open spec fn spec_r(self) -> u8 {
        match self {
            Color::RGB(r, _, _) => r,
            Color::RGBA(r, _, _, _) => r,
        }
    }

    pub open spec fn spec_g(self) -> u8 {
        match self {
            Color::RGB(_, g, _) => g,
            Color::RGBA(_, g, _, _) => g,
        }
    }

    pub open spec fn spec_b(self) -> u8 {
        match self {
            Color::RGB(_, _, b) => b,
            Color::RGBA(_, _, b, _) => b,
        }
    }

    /// The alpha channel; a color without one is fully opaque.
    pub open spec fn spec_a(self) -> u8 {
        match self {
            Color::RGB(_, _, _) => 255,
            Color::RGBA(_, _, _, a) => a,
        }
    }

    /// The packed pixel value of a color in a mask-bearing format.
    ///
    /// `RGB24` packs `r`, `g`, `b` into the low three bytes; `RGBA8888`
    /// packs `r`, `g`, `b`, `a` from the high byte down.
    pub open spec fn spec_to_u32(self, format: PixelFormatEnum) -> u32 {
        match format {
            PixelFormatEnum::RGBA8888 => (self.spec_r() * 0x0100_0000 + self.spec_g() * 0x0001_0000
                + self.spec_b() * 0x100 + self.spec_a()) as u32,
            _ => (self.spec_r() * 0x0001_0000 + self.spec_g() * 0x100 + self.spec_b()) as u32,
        }
    }

    /// The color a packed pixel value denotes in a mask-bearing format.
    pub open spec fn spec_from_u32(format: PixelFormatEnum, value: u32) -> Color {
        match format {
            PixelFormatEnum::RGBA8888 => Color::RGBA(
                ((value / 0x0100_0000) % 0x100) as u8,
                ((value / 0x0001_0000) % 0x100) as u8,
                ((value / 0x100) % 0x100) as u8,
                (value % 0x100) as u8,
            ),
            _ => Color::RGB(
                ((value / 0x0001_0000) % 0x100) as u8,
                ((value / 0x100) % 0x100) as u8,
                (value % 0x100) as u8,
            ),
        }
    }

    /// Packs the color into a pixel value of the given format.
    pub fn to_u32(&self, format: PixelFormatEnum) -> (r: u32)
        requires
            format.has_masks(),
        ensures
            r == self.spec_to_u32(format),
    {
        let (cr, cg, cb, ca): (u8, u8, u8, u8) = match *self {
            Color::RGB(r, g, b) => (r, g, b, 255),
            Color::RGBA(r, g, b, a) => (r, g, b, a),
        };
        match format {
            PixelFormatEnum::RGBA8888 => (cr as u32) * 0x0100_0000 + (cg as u32) * 0x0001_0000
                + (cb as u32) * 0x100 + (ca as u32),
            _ => (cr as u32) * 0x0001_0000 + (cg as u32) * 0x100 + (cb as u32),
        }
    }

    /// Unpacks a pixel value of the given format into a color.
    pub fn from_u32(format: PixelFormatEnum, value: u32) -> (r: Color)
        requires
            format.has_masks(),
        ensures
            r == Self::spec_from_u32(format, value),
    {
        match format {
            PixelFormatEnum::RGBA8888 => Color::RGBA(
                ((value / 0x0100_0000) % 0x100) as u8,
                ((value / 0x0001_0000) % 0x100) as u8,
                ((value / 0x100) % 0x100) as u8,
                (value % 0x100) as u8,
            ),
            _ => Color::RGB(
                ((value / 0x0001_0000) % 0x100) as u8,
                ((value / 0x100) % 0x100) as u8,
                (value % 0x100) as u8,
            ),
        }
    }
}

/// Packing a color and unpacking it again loses nothing but a missing
/// alpha channel, which comes back fully opaque: unpacking yields the
/// channel values the color went in with.
pub proof fn lemma_color_u32_round_trip(c: Color, format: PixelFormatEnum)
    requires
        format.has_masks(),
    ensures
        Color::spec_from_u32(format, c.spec_to_u32(format)) == (match format {
            PixelFormatEnum::RGBA8888 => Color::RGBA(c.spec_r(), c.spec_g(), c.spec_b(), c.spec_a()),
            _ => Color::RGB(c.spec_r(), c.spec_g(), c.spec_b()),
        }),
{
    let r = c.spec_r() as int;
    let g = c.spec_g() as int;
    let b = c.spec_b() as int;
    let a = c.spec_a() as int;
    match format {
        PixelFormatEnum::RGBA8888 => {
            let v = r * 0x0100_0000 + g * 0x0001_0000 + b * 0x100 + a;
            assert((v / 0x0100_0000) % 0x100 == r && (v / 0x0001_0000) % 0x100 == g
                && (v / 0x100) % 0x100 == b && v % 0x100 == a) by (nonlinear_arith)
                requires
                    0 <= r < 256 && 0 <= g < 256 && 0 <= b < 256 && 0 <= a < 256
                        && v == r * 0x0100_0000 + g * 0x0001_0000 + b * 0x100 + a;
        },
        _ => {
            let v = r * 0x0001_0000 + g * 0x100 + b;
            assert((v / 0x0001_0000) % 0x100 == r && (v / 0x100) % 0x100 == g
                && v % 0x100 == b) by (nonlinear_arith)
                requires
                    0 <= r < 256 && 0 <= g < 256 && 0 <= b < 256
                        && v == r * 0x0001_0000 + g * 0x100 + b;
        },
    }
}

/// A palette: up to 256 colors for indexed formats.
#[derive(Debug)]
pub struct Palette {
    pub colors: Vec<Color>,
}

impl Palette {
    pub open spec fn wf(&self) -> bool {
        1 <= self.colors@.len() <= 256
    }

    /// Builds a palette; rejects an empty or oversized color list.
    pub fn new(colors: Vec<Color>) -> (r: Result<Palette, String>)
        ensures
            match r {
                Ok(p) => p.colors@ == colors@ && p.wf(),
                Err(e) => {
                    &&& colors@.len() == 0 || colors@.len() > 256
                    &&& e@ == "Palette must hold between 1 and 256 colors"@
                },
            },
    {
        if colors.len() == 0 || colors.len() > 256 {
            Err("Palette must hold between 1 and 256 colors".to_string())
        } else {
            Ok(Palette { colors })
        }
    }
}

} // verus!
