//! Surfaces: owned two-dimensional pixel buffers.
//!
//! A [`Surface`] owns its pixel storage and hands out [`SurfaceRef`]
//! borrows through [`Surface::as_ref`] and [`Surface::as_mut`]; every
//! operation lives on `SurfaceRef`, so it applies uniformly to owned and
//! borrowed surfaces.  All state a surface carries — dimensions, pitch,
//! pixel format, flags, color key, modulation, blend mode, clip
//! rectangle — is explicit and every operation's effect on it is stated
//! in its contract.

use vstd::prelude::*;
use crate::pixels::{Color, PixelFormatEnum, PixelMasks, Palette};
use crate::rect::{Rect, DIMENSION_LIMIT};
use crate::render::BlendMode;
use crate::SdlResult;

verus! {

/// Flag bit recording that the surface is run-length-encoded; such a
/// surface must be locked before its raw bytes can be addressed.
pub const RLEACCEL: u32 = 0x0000_0002u32;

/// A borrowed surface: the full surface state without ownership of it.
#[derive(Debug)]
pub struct SurfaceRef {
    pub width: u32,
    pub height: u32,
    pub pitch: u32,
    pub format: PixelFormatEnum,
    pub flags: u32,
    pub pixels: Vec<u8>,
    pub color_key: Option<u32>,
    pub mod_r: u8,
    pub mod_g: u8,
    pub mod_b: u8,
    pub alpha_mod: u8,
    pub blend: BlendMode,
    pub clip: Option<Rect>,
    pub locked: bool,
}

/// An owned surface; releases its pixel storage when dropped.
#[derive(Debug)]
pub struct Surface {
    pub inner: SurfaceRef,
}

impl SurfaceRef {
    /// Well-formedness: 31-bit dimensions and pitch, a mask-bearing
    /// format, rows wide enough for the pixels, a buffer of exactly
    /// `pitch * height` bytes totalling at most `i32::MAX`, a clip
    /// rectangle inside the bounds, and no lock outstanding.
    pub open spec fn wf(&self) -> bool {
        &&& self.width < DIMENSION_LIMIT
        &&& self.height < DIMENSION_LIMIT
        &&& self.pitch < DIMENSION_LIMIT
        &&& self.format.has_masks()
        &&& self.pitch >= self.width * self.format.spec_byte_size()
        &&& self.pitch * self.height <= 0x7FFF_FFFF
        &&& self.pixels@.len() == self.pitch * self.height
        &&& match self.clip {
            Some(c) => {
                &&& c.wf()
                &&& 0 <= c.x
                &&& 0 <= c.y
                &&& c.x + c.width <= self.width
                &&& c.y + c.height <= self.height
            },
            None => true,
        }
        &&& !self.locked
    }

    /// The whole surface as a rectangle, or `None` when the surface is
    /// empty.
    pub open spec fn spec_full_rect(&self) -> Option<Rect> {
        if self.width >= 1 && self.height >= 1 {
            Some(Rect { x: 0, y: 0, width: self.width, height: self.height })
        } else {
            None
        }
    }

    pub fn get_width(&self) -> (r: u32)
        ensures
            r == self.width,
    {
        self.width
    }

    pub fn get_height(&self) -> (r: u32)
        ensures
            r == self.height,
    {
        self.height
    }

    pub fn get_pitch(&self) -> (r: u32)
        ensures
            r == self.pitch,
    {
        self.pitch
    }

    pub fn get_size(&self) -> (r: (u32, u32))
        ensures
            r == (self.width, self.height),
    {
        (self.width, self.height)
    }

    /// The surface's bounding rectangle; an empty surface has none,
    /// so one is required here.
    pub fn get_rect(&self) -> (r: Rect)
        requires
            self.wf(),
            self.width >= 1,
            self.height >= 1,
        ensures
            Some(r) == self.spec_full_rect(),
    {
        Rect::new_unchecked(0, 0, self.width, self.height)
    }

    pub fn get_pixel_format(&self) -> (r: PixelFormatEnum)
        ensures
            r == self.format,
    {
        self.format
    }

    /// Whether raw byte access requires a lock first: exactly when the
    /// run-length-encoding flag is set.
    pub open spec fn spec_must_lock(&self) -> bool {
        self.flags & RLEACCEL != 0
    }

    /// Returns true if the surface needs to be locked before its pixel
    /// bytes can be accessed.
    pub fn must_lock(&self) -> (r: bool)
        ensures
            r == self.spec_must_lock(),
    {
        (self.flags & RLEACCEL) != 0
    }

    /// The surface's pixel bytes, directly and without locking — but only
    /// when no locking is required; the view is exactly
    /// `pitch * height` bytes long.
    pub fn without_lock(&self) -> (r: Option<&[u8]>)
        requires
            self.wf(),
        ensures
            match r {
                Some(view) => !self.spec_must_lock() && view@ == self.pixels@
                    && view@.len() == self.pitch * self.height,
                None => self.spec_must_lock(),
            },
    {
        if self.must_lock() {
            None
        } else {
            Some(self.pixels.as_slice())
        }
    }

    /// Mutable variant of [`Self::without_lock`]: the pixel bytes for
    /// writing, when no locking is required.  Writes through the view
    /// become the surface's pixels; the view cannot change their number.
    pub fn without_lock_mut(&mut self) -> (r: Option<&mut Vec<u8>>)
        requires
            old(self).wf(),
        ensures
            match r {
                Some(view) => {
                    &&& !old(self).spec_must_lock()
                    &&& *view == old(self).pixels
                    &&& view@.len() == old(self).pitch * old(self).height
                    &&& *final(self) == (SurfaceRef { pixels: *final(view), ..*old(self) })
                },
                None => old(self).spec_must_lock() && *final(self) == *old(self),
            },
    {
        if self.must_lock() {
            None
        } else {
            Some(&mut self.pixels)
        }
    }

    /// Turns run-length-encoding acceleration on; raw access then
    /// requires locking.  This cannot fail on a well-formed surface.
    #[allow(non_snake_case)]
    pub fn enable_RLE(&mut self)
        requires
            old(self).wf(),
        ensures
            *final(self) == (SurfaceRef { flags: old(self).flags | RLEACCEL, ..*old(self) }),
            final(self).spec_must_lock(),
            final(self).wf(),
    {
        let prior: u32 = self.flags;
        self.flags = self.flags | RLEACCEL;
        proof {
            assert((prior | RLEACCEL) & RLEACCEL != 0) by (bit_vector);
        }
    }

    /// Turns run-length-encoding acceleration off; raw access then needs
    /// no lock.  This cannot fail on a well-formed surface.
    #[allow(non_snake_case)]
    pub fn disable_RLE(&mut self)
        requires
            old(self).wf(),
        ensures
            *final(self) == (SurfaceRef { flags: old(self).flags & !RLEACCEL, ..*old(self) }),
            !final(self).spec_must_lock(),
            final(self).wf(),
    {
        let prior: u32 = self.flags;
        self.flags = self.flags & !RLEACCEL;
        proof {
            assert((prior & !RLEACCEL) & RLEACCEL == 0) by (bit_vector);
        }
    }

    /// The surface after a color-key update.
    pub open spec fn spec_with_color_key(self, enable: bool, color: Color) -> SurfaceRef {
        SurfaceRef {
            color_key: if enable {
                Some(color.spec_to_u32(self.format))
            } else {
                None
            },
            ..self
        }
    }

    /// Enables or disables the color key: the pixel value treated as
    /// transparent during blits.  This cannot fail on a well-formed
    /// surface.
    pub fn set_color_key(&mut self, enable: bool, color: Color) -> (r: SdlResult<()>)
        requires
            old(self).wf(),
        ensures
            r is Ok,
            *final(self) == old(self).spec_with_color_key(enable, color),
            final(self).wf(),
    {
        let key = color.to_u32(self.format);
        self.color_key = if enable {
            Some(key)
        } else {
            None
        };
        Ok(())
    }

    /// The color the stored color key denotes, when one is set.
    pub open spec fn spec_color_key(&self) -> Option<Color> {
        match self.color_key {
            Some(key) => Some(Color::spec_from_u32(self.format, key)),
            None => None,
        }
    }

    /// Reads the color key back; fails — recoverably — if and only if no
    /// color key is set.
    pub fn get_color_key(&self) -> (r: SdlResult<Color>)
        requires
            self.wf(),
        ensures
            match r {
                Ok(c) => self.color_key is Some && Some(c) == self.spec_color_key(),
                Err(e) => self.color_key is None
                    && e@ == "Surface doesn't have a color key"@,
            },
    {
        match self.color_key {
            Some(key) => Ok(Color::from_u32(self.format, key)),
            None => Err("Surface doesn't have a color key".to_string()),
        }
    }

    /// The surface after a color-modulation update; a missing alpha
    /// channel in `color` is irrelevant here.
    pub open spec fn spec_with_color_mod(self, color: Color) -> SurfaceRef {
        SurfaceRef {
            mod_r: color.spec_r(),
            mod_g: color.spec_g(),
            mod_b: color.spec_b(),
            ..self
        }
    }

    /// Sets the per-surface color modulation.  This cannot fail on a
    /// well-formed surface.
    pub fn set_color_mod(&mut self, color: Color)
        requires
            old(self).wf(),
        ensures
            *final(self) == old(self).spec_with_color_mod(color),
            final(self).wf(),
    {
        let (r, g, b): (u8, u8, u8) = match color {
            Color::RGB(r, g, b) => (r, g, b),
            Color::RGBA(r, g, b, _) => (r, g, b),
        };
        self.mod_r = r;
        self.mod_g = g;
        self.mod_b = b;
    }

    /// The current color modulation as a color.
    pub open spec fn spec_color_mod(&self) -> Color {
        Color::RGB(self.mod_r, self.mod_g, self.mod_b)
    }

    /// Reads the per-surface color modulation back.  This cannot fail on
    /// a well-formed surface.
    pub fn get_color_mod(&self) -> (r: Color)
        requires
            self.wf(),
        ensures
            r == self.spec_color_mod(),
    {
        Color::RGB(self.mod_r, self.mod_g, self.mod_b)
    }

    /// Sets the per-surface alpha modulation.  This cannot fail on a
    /// well-formed surface.
    pub fn set_alpha_mod(&mut self, alpha: u8)
        requires
            old(self).wf(),
        ensures
            *final(self) == (SurfaceRef { alpha_mod: alpha, ..*old(self) }),
            final(self).wf(),
    {
        self.alpha_mod = alpha;
    }

    /// Reads the per-surface alpha modulation back.  This cannot fail on
    /// a well-formed surface.
    pub fn get_alpha_mod(&self) -> (r: u8)
        requires
            self.wf(),
        ensures
            r == self.alpha_mod,
    {
        self.alpha_mod
    }

    /// Sets the blend mode used for blits from this surface.  Every
    /// [`BlendMode`] is supported, so this always succeeds; an
    /// unsupported mode would be reported as a recoverable error.
    pub fn set_blend_mode(&mut self, mode: BlendMode) -> (r: SdlResult<()>)
        requires
            old(self).wf(),
        ensures
            r is Ok,
            *final(self) == (SurfaceRef { blend: mode, ..*old(self) }),
            final(self).wf(),
    {
        self.blend = mode;
        Ok(())
    }

    /// Reads the blend mode back.  This cannot fail on a well-formed
    /// surface.
    pub fn get_blend_mode(&self) -> (r: BlendMode)
        requires
            self.wf(),
        ensures
            r == self.blend,
    {
        self.blend
    }

    /// Assigns a palette.  Only palette-indexed surfaces can take one,
    /// and no well-formed surface is palette-indexed, so this fails —
    /// recoverably — on every well-formed surface.
    pub fn set_palette(&mut self, palette: &Palette) -> (r: SdlResult<()>)
        requires
            old(self).wf(),
            palette.wf(),
        ensures
            *final(self) == *old(self),
            r matches Err(e) && e@ == "Palette does not match the surface format"@,
    {
        Err("Palette does not match the surface format".to_string())
    }

    /// The effective clip area after a clip update: the given rectangle
    /// intersected with the surface bounds, the full surface when `None`
    /// is given, and `None` whenever the result is empty.
    pub open spec fn spec_clip_after_set(self, rect: Option<Rect>) -> Option<Rect> {
        match rect {
            None => self.spec_full_rect(),
            Some(rc) => match self.spec_full_rect() {
                None => None,
                Some(full) => Rect::spec_intersection(rc, full),
            },
        }
    }

    /// Sets the clip rectangle; `None` disables clipping, restoring the
    /// full surface.  Returns whether the resulting clip area is
    /// non-empty.
    pub fn set_clip_rect(&mut self, rect: Option<Rect>) -> (r: bool)
        requires
            old(self).wf(),
            rect matches Some(rc) ==> rc.wf(),
        ensures
            *final(self) == (SurfaceRef { clip: old(self).spec_clip_after_set(rect), ..*old(self) }),
            r == (final(self).clip is Some),
            final(self).wf(),
    {
        let new_clip: Option<Rect> = match rect {
            None => {
                if self.width >= 1 && self.height >= 1 {
                    Some(Rect::new_unchecked(0, 0, self.width, self.height))
                } else {
                    None
                }
            },
            Some(rc) => {
                if self.width >= 1 && self.height >= 1 {
                    let full = Rect::new_unchecked(0, 0, self.width, self.height);
                    rc.intersection(&full)
                } else {
                    None
                }
            },
        };
        self.clip = new_clip;
        self.clip.is_some()
    }

    /// Reads the clip rectangle back; `None` means the clip area is
    /// empty.
    pub fn get_clip_rect(&self) -> (r: Option<Rect>)
        requires
            self.wf(),
        ensures
            r == self.clip,
    {
        self.clip
    }
}

/// Reading the color key back returns the very channels that were set:
/// enabling a key with any color and then looking it up yields that
/// color again, up to the surface format's missing alpha channel.
pub proof fn lemma_color_key_round_trip(s: SurfaceRef, c: Color)
    requires
        s.wf(),
    ensures
        s.spec_with_color_key(true, c).spec_color_key() == Some(
            match s.format {
                PixelFormatEnum::RGBA8888 => Color::RGBA(c.spec_r(), c.spec_g(), c.spec_b(), c.spec_a()),
                _ => Color::RGB(c.spec_r(), c.spec_g(), c.spec_b()),
            },
        ),
        s.spec_with_color_key(false, c).spec_color_key() is None,
{
    crate::pixels::lemma_color_u32_round_trip(c, s.format);
}

/// Color modulation round-trips: setting it to any color and reading it
/// back yields exactly that color's red, green and blue channels.
pub proof fn lemma_color_mod_round_trip(s: SurfaceRef, c: Color)
    ensures
        s.spec_with_color_mod(c).spec_color_mod() == Color::RGB(c.spec_r(), c.spec_g(), c.spec_b()),
{
}

/// Alpha modulation round-trips: setting it to any value and reading it
/// back yields exactly that value.
pub proof fn lemma_alpha_mod_round_trip(s: SurfaceRef, alpha: u8)
    ensures
        (SurfaceRef { alpha_mod: alpha, ..s }).alpha_mod == alpha,
{
}

/// The blend mode round-trips: setting any representable mode and
/// reading it back yields exactly that mode.
pub proof fn lemma_blend_mode_round_trip(s: SurfaceRef, mode: BlendMode)
    ensures
        (SurfaceRef { blend: mode, ..s }).blend == mode,
{
}

impl Surface {
    /// The state a freshly created surface carries around the given
    /// pixel buffer: no flags, no color key, neutral modulation, alpha
    /// blending for a format with an alpha channel and plain copying
    /// otherwise, and the full surface as clip area.
    pub open spec fn spec_blank(width: u32, height: u32, format: PixelFormatEnum, pitch: u32, pixels: Vec<u8>) -> SurfaceRef {
        SurfaceRef {
            width,
            height,
            pitch,
            format,
            flags: 0,
            pixels,
            color_key: None,
            mod_r: 255,
            mod_g: 255,
            mod_b: 255,
            alpha_mod: 255,
            blend: if format == PixelFormatEnum::RGBA8888 {
                BlendMode::Blend
            } else {
                BlendMode::Opaque
            },
            clip: if width >= 1 && height >= 1 {
                Some(Rect { x: 0, y: 0, width, height })
            } else {
                None
            },
            locked: false,
        }
    }

    /// Borrows the surface immutably.
    pub fn as_ref(&self) -> (r: &SurfaceRef)
        ensures
            r == &self.inner,
    {
        &self.inner
    }

    /// Borrows the surface mutably.
    pub fn as_mut(&mut self) -> (r: &mut SurfaceRef)
        ensures
            *r == old(self).inner,
            final(self).inner == *final(r),
    {
        &mut self.inner
    }

    /// The borrowed view of this surface, for contracts.
    pub open spec fn view_ref(&self) -> SurfaceRef {
        self.inner
    }

    /// Creates a new blank surface from a pixel format.
    ///
    /// Mask resolution failure propagates as-is; oversized dimensions are
    /// rejected with a size error before anything is allocated.
    pub fn new(width: u32, height: u32, format: PixelFormatEnum) -> (r: SdlResult<Surface>)
        ensures
            match r {
                Ok(s) => {
                    &&& format.has_masks()
                    &&& width < DIMENSION_LIMIT && height < DIMENSION_LIMIT
                    &&& s.view_ref().wf()
                    &&& s.view_ref() == Surface::spec_blank(width, height, format,
                        s.view_ref().pitch, s.view_ref().pixels)
                    &&& s.view_ref().pitch == width * format.spec_byte_size()
                    &&& forall|i: int| 0 <= i < s.view_ref().pixels@.len()
                        ==> s.view_ref().pixels@[i] == 0u8
                },
                Err(e) => {
                    ||| !format.has_masks() && e@ == "Indexed pixel formats have no masks"@
                    ||| format.has_masks() && (width >= DIMENSION_LIMIT || height >= DIMENSION_LIMIT)
                        && e@ == "Image is too large."@
                    ||| format.has_masks() && width < DIMENSION_LIMIT && height < DIMENSION_LIMIT
                        && (width * format.spec_byte_size() > 0x7FFF_FFFF
                            || width * format.spec_byte_size() * height > 0x7FFF_FFFF)
                        && e@ == "Out of memory"@
                },
            },
    {
        let masks = match format.into_masks() {
            Ok(m) => m,
            Err(e) => {
                return Err(e);
            },
        };
        Surface::from_pixelmasks(width, height, masks)
    }

    /// Creates a new blank surface from explicit pixel masks.
    ///
    /// Dimensions of `2^31` or more are rejected with a size error before
    /// anything else; unknown mask combinations and a total size beyond
    /// `i32::MAX` bytes are rejected after that.
    pub fn from_pixelmasks(width: u32, height: u32, masks: PixelMasks) -> (r: SdlResult<Surface>)
        ensures
            match r {
                Ok(s) => {
                    &&& width < DIMENSION_LIMIT && height < DIMENSION_LIMIT
                    &&& PixelFormatEnum::spec_from_masks(masks) is Some
                    &&& s.view_ref().wf()
                    &&& s.view_ref().format == PixelFormatEnum::spec_from_masks(masks).unwrap()
                    &&& s.view_ref() == Surface::spec_blank(width, height,
                        s.view_ref().format, s.view_ref().pitch, s.view_ref().pixels)
                    &&& s.view_ref().pitch == width * s.view_ref().format.spec_byte_size()
                    &&& forall|i: int| 0 <= i < s.view_ref().pixels@.len()
                        ==> s.view_ref().pixels@[i] == 0u8
                },
                Err(e) => {
                    ||| (width >= DIMENSION_LIMIT || height >= DIMENSION_LIMIT)
                        && e@ == "Image is too large."@
                    ||| width < DIMENSION_LIMIT && height < DIMENSION_LIMIT
                        && PixelFormatEnum::spec_from_masks(masks) is None
                        && e@ == "Unknown pixel format"@
                    ||| width < DIMENSION_LIMIT && height < DIMENSION_LIMIT
                        && (PixelFormatEnum::spec_from_masks(masks) matches Some(f)
                            && (width * f.spec_byte_size() > 0x7FFF_FFFF
                                || width * f.spec_byte_size() * height > 0x7FFF_FFFF))
                        && e@ == "Out of memory"@
                },
            },
    {
        if width >= DIMENSION_LIMIT || height >= DIMENSION_LIMIT {
            return Err("Image is too large.".to_string());
        }
        let format = match PixelFormatEnum::from_masks(masks) {
            Ok(f) => f,
            Err(e) => {
                return Err(e);
            },
        };
        let bpp = format.byte_size();
        let w64: u64 = width as u64;
        let b64: u64 = bpp as u64;
        let h64: u64 = height as u64;
        proof {
            assert(w64 * b64 < 0x4_0000_0000) by (nonlinear_arith)
                requires
                    w64 < 0x8000_0000,
                    b64 <= 4,
            ;
        }
        let pitch64: u64 = w64 * b64;
        if pitch64 > 0x7FFF_FFFFu64 {
            return Err("Out of memory".to_string());
        }
        proof {
            assert(pitch64 * h64 < 0x4000_0000_0000_0000) by (nonlinear_arith)
                requires
                    pitch64 <= 0x7FFF_FFFF,
                    h64 < 0x8000_0000,
            ;
        }
        let total: u64 = pitch64 * h64;
        if total > 0x7FFF_FFFFu64 {
            return Err("Out of memory".to_string());
        }
        let pixels: Vec<u8> = vec![0u8; total as usize];
        let pitch: u32 = pitch64 as u32;
        let inner = SurfaceRef {
            width,
            height,
            pitch,
            format,
            flags: 0,
            pixels,
            color_key: None,
            mod_r: 255,
            mod_g: 255,
            mod_b: 255,
            alpha_mod: 255,
            blend: if matches!(format, PixelFormatEnum::RGBA8888) {
                BlendMode::Blend
            } else {
                BlendMode::Opaque
            },
            clip: if width >= 1 && height >= 1 {
                Some(Rect::new_unchecked(0, 0, width, height))
            } else {
                None
            },
            locked: false,
        };
        Ok(Surface { inner })
    }

    /// Creates a surface over a caller-supplied backing buffer, using a
    /// pixel format; the surface takes ownership of the buffer.
    pub fn from_data(data: Vec<u8>, width: u32, height: u32, pitch: u32, format: PixelFormatEnum) -> (r: SdlResult<Surface>)
        ensures
            match r {
                Ok(s) => {
                    &&& format.has_masks()
                    &&& width < DIMENSION_LIMIT && height < DIMENSION_LIMIT
                        && pitch < DIMENSION_LIMIT
                    &&& s.view_ref().wf()
                    &&& s.view_ref() == Surface::spec_blank(width, height, format, pitch,
                        s.view_ref().pixels)
                    &&& s.view_ref().pixels@ == data@
                },
                Err(e) => {
                    ||| !format.has_masks() && e@ == "Indexed pixel formats have no masks"@
                    ||| format.has_masks() && (width >= DIMENSION_LIMIT || height >= DIMENSION_LIMIT)
                        && e@ == "Image is too large."@
                    ||| format.has_masks() && width < DIMENSION_LIMIT && height < DIMENSION_LIMIT
                        && pitch >= DIMENSION_LIMIT && e@ == "Pitch is too large."@
                    ||| format.has_masks() && width < DIMENSION_LIMIT && height < DIMENSION_LIMIT
                        && pitch < DIMENSION_LIMIT
                        && (pitch < width * format.spec_byte_size()
                            || pitch * height > 0x7FFF_FFFF
                            || data@.len() != pitch * height)
                        && e@ == "Buffer does not match the given dimensions"@
                },
            },
    {
        let masks = match format.into_masks() {
            Ok(m) => m,
            Err(e) => {
                return Err(e);
            },
        };
        Surface::from_data_pixelmasks(data, width, height, pitch, masks)
    }

    /// Creates a surface over a caller-supplied backing buffer, using
    /// explicit pixel masks and an explicit row pitch; the surface takes
    /// ownership of the buffer.
    ///
    /// Dimensions or pitch of `2^31` or more are rejected with a size
    /// error; a buffer whose length is not exactly `pitch * height`, a
    /// pitch too small for a row, or a total size beyond `i32::MAX`
    /// bytes are rejected after that.
    pub fn from_data_pixelmasks(data: Vec<u8>, width: u32, height: u32, pitch: u32, masks: PixelMasks) -> (r: SdlResult<Surface>)
        ensures
            match r {
                Ok(s) => {
                    &&& width < DIMENSION_LIMIT && height < DIMENSION_LIMIT
                        && pitch < DIMENSION_LIMIT
                    &&& PixelFormatEnum::spec_from_masks(masks) is Some
                    &&& s.view_ref().wf()
                    &&& s.view_ref().format == PixelFormatEnum::spec_from_masks(masks).unwrap()
                    &&& s.view_ref() == Surface::spec_blank(width, height,
                        s.view_ref().format, pitch, s.view_ref().pixels)
                    &&& s.view_ref().pixels@ == data@
                },
                Err(e) => {
                    ||| (width >= DIMENSION_LIMIT || height >= DIMENSION_LIMIT)
                        && e@ == "Image is too large."@
                    ||| width < DIMENSION_LIMIT && height < DIMENSION_LIMIT
                        && pitch >= DIMENSION_LIMIT && e@ == "Pitch is too large."@
                    ||| width < DIMENSION_LIMIT && height < DIMENSION_LIMIT
                        && pitch < DIMENSION_LIMIT
                        && PixelFormatEnum::spec_from_masks(masks) is None
                        && e@ == "Unknown pixel format"@
                    ||| width < DIMENSION_LIMIT && height < DIMENSION_LIMIT
                        && pitch < DIMENSION_LIMIT
                        && (PixelFormatEnum::spec_from_masks(masks) matches Some(f)
                            && (pitch < width * f.spec_byte_size()
                                || pitch * height > 0x7FFF_FFFF
                                || data@.len() != pitch * height))
                        && e@ == "Buffer does not match the given dimensions"@
                },
            },
    {
        if width >= DIMENSION_LIMIT || height >= DIMENSION_LIMIT {
            return Err("Image is too large.".to_string());
        }
        if pitch >= DIMENSION_LIMIT {
            return Err("Pitch is too large.".to_string());
        }
        let format = match PixelFormatEnum::from_masks(masks) {
            Ok(f) => f,
            Err(e) => {
                return Err(e);
            },
        };
        let bpp = format.byte_size();
        let w64: u64 = width as u64;
        let b64: u64 = bpp as u64;
        let p64: u64 = pitch as u64;
        let h64: u64 = height as u64;
        proof {
            assert(w64 * b64 < 0x4_0000_0000) by (nonlinear_arith)
                requires
                    w64 < 0x8000_0000,
                    b64 <= 4,
            ;
            assert(p64 * h64 < 0x4000_0000_0000_0000) by (nonlinear_arith)
                requires
                    p64 < 0x8000_0000,
                    h64 < 0x8000_0000,
            ;
        }
        let row_bytes: u64 = w64 * b64;
        let total: u64 = p64 * h64;
        if p64 < row_bytes || total > 0x7FFF_FFFFu64 || data.len() as u64 != total {
            return Err("Buffer does not match the given dimensions".to_string());
        }
        let inner = SurfaceRef {
            width,
            height,
            pitch,
            format,
            flags: 0,
            pixels: data,
            color_key: None,
            mod_r: 255,
            mod_g: 255,
            mod_b: 255,
            alpha_mod: 255,
            blend: if matches!(format, PixelFormatEnum::RGBA8888) {
                BlendMode::Blend
            } else {
                BlendMode::Opaque
            },
            clip: if width >= 1 && height >= 1 {
                Some(Rect::new_unchecked(0, 0, width, height))
            } else {
                None
            },
            locked: false,
        };
        Ok(Surface { inner })
    }
}

} // verus!

verus! {

/// Byte `j` (counting from the most significant end) of the packed pixel
/// value `v` laid out in the given format.
pub open spec fn spec_pixel_byte(format: PixelFormatEnum, v: u32, j: int) -> u8 {
    match format {
        PixelFormatEnum::RGBA8888 => if j == 0 {
            (v / 0x0100_0000 % 0x100) as u8
        } else if j == 1 {
            (v / 0x0001_0000 % 0x100) as u8
        } else if j == 2 {
            (v / 0x100 % 0x100) as u8
        } else {
            (v % 0x100) as u8
        },
        _ => if j == 0 {
            (v / 0x0001_0000 % 0x100) as u8
        } else if j == 1 {
            (v / 0x100 % 0x100) as u8
        } else {
            (v % 0x100) as u8
        },
    }
}

/// Whether byte `i` of a pixel buffer with the given row pitch belongs to
/// a pixel whose coordinates lie in `t` (`bpp` bytes per pixel).
pub open spec fn spec_byte_in_rect(pitch: int, bpp: int, i: int, t: Rect) -> bool {
    &&& t.y <= i / pitch < t.y + t.height
    &&& t.x * bpp <= i % pitch < (t.x + t.width) * bpp
}

/// The pixel bytes after painting value `v` into every pixel of `t`.
pub open spec fn spec_fill_bytes(pixels: Seq<u8>, pitch: int, format: PixelFormatEnum, t: Rect, v: u32) -> Seq<u8> {
    Seq::new(pixels.len(), |i: int|
        if spec_byte_in_rect(pitch, format.spec_byte_size() as int, i, t) {
            spec_pixel_byte(format, v, (i % pitch) % (format.spec_byte_size() as int))
        } else {
            pixels[i]
        })
}

/// The pixel bytes after one fill request `rect` (with `None` meaning the
/// whole surface) against clip area `clip`.
pub open spec fn spec_fill_once(pixels: Seq<u8>, pitch: int, format: PixelFormatEnum, clip: Option<Rect>, rect: Option<Rect>, v: u32) -> Seq<u8> {
    match clip {
        None => pixels,
        Some(c) => match rect {
            None => spec_fill_bytes(pixels, pitch, format, c, v),
            Some(rc) => match Rect::spec_intersection(rc, c) {
                None => pixels,
                Some(t) => spec_fill_bytes(pixels, pitch, format, t, v),
            },
        },
    }
}

/// The pixel bytes after a sequence of fill requests, applied in order.
pub open spec fn spec_fill_many(pixels: Seq<u8>, pitch: int, format: PixelFormatEnum, clip: Option<Rect>, rects: Seq<Option<Rect>>, v: u32) -> Seq<u8>
    decreases rects.len(),
{
    if rects.len() == 0 {
        pixels
    } else {
        spec_fill_once(
            spec_fill_many(pixels, pitch, format, clip, rects.drop_last(), v),
            pitch,
            format,
            clip,
            rects.last(),
            v,
        )
    }
}

/// A fill request whose rectangle sticks out of the 31-bit coordinate
/// space; such a request is rejected.
pub open spec fn spec_bad_fill_rect(rect: Option<Rect>) -> bool {
    rect matches Some(rc) && !rc.fits()
}

/// The index of the first rejected request in a fill list; the list's
/// length when every request is accepted.
pub open spec fn spec_first_bad_fill(rects: Seq<Option<Rect>>) -> int
    decreases rects.len(),
{
    if rects.len() == 0 {
        0
    } else if spec_bad_fill_rect(rects[0]) {
        0
    } else {
        1 + spec_first_bad_fill(rects.drop_first())
    }
}

/// A bad request preceded only by good ones is the first bad one.
proof fn lemma_first_bad_fill(rects: Seq<Option<Rect>>, j: int)
    requires
        0 <= j < rects.len(),
        spec_bad_fill_rect(rects[j]),
        forall|k: int| 0 <= k < j ==> !spec_bad_fill_rect(#[trigger] rects[k]),
    ensures
        spec_first_bad_fill(rects) == j,
    decreases j,
{
    if j == 0 {
    } else {
        assert(!spec_bad_fill_rect(rects[0]));
        let rest = rects.drop_first();
        assert forall|k: int| 0 <= k < j - 1 implies !spec_bad_fill_rect(#[trigger] rest[k]) by {
            assert(rest[k] == rects[k + 1]);
        }
        assert(rest[j - 1] == rects[j]);
        lemma_first_bad_fill(rest, j - 1);
    }
}

/// A list with no bad request has its length as first bad index.
proof fn lemma_no_bad_fill(rects: Seq<Option<Rect>>)
    requires
        forall|k: int| 0 <= k < rects.len() ==> !spec_bad_fill_rect(#[trigger] rects[k]),
    ensures
        spec_first_bad_fill(rects) == rects.len(),
    decreases rects.len(),
{
    if rects.len() > 0 {
        let rest = rects.drop_first();
        assert forall|k: int| 0 <= k < rest.len() implies !spec_bad_fill_rect(
            #[trigger] rest[k],
        ) by {
            assert(rest[k] == rects[k + 1]);
        }
        lemma_no_bad_fill(rest);
    }
}

/// For `y * pitch <= i < (y + 1) * pitch`, byte `i` lies in row `y`.
pub(crate) proof fn lemma_byte_of_row(pitch: int, i: int, y: int)
    requires
        pitch > 0,
        y * pitch <= i < (y + 1) * pitch,
    ensures
        i / pitch == y,
        i % pitch == i - y * pitch,
{
    assert(i / pitch == y && i % pitch == i - y * pitch) by (nonlinear_arith)
        requires
            pitch > 0,
            y * pitch <= i < (y + 1) * pitch,
    ;
}

/// Every byte index lies in the row its quotient names.
pub(crate) proof fn lemma_row_of_byte(pitch: int, i: int)
    requires
        pitch > 0,
        0 <= i,
    ensures
        (i / pitch) * pitch <= i < (i / pitch + 1) * pitch,
        i % pitch == i - (i / pitch) * pitch,
        0 <= i / pitch,
{
    assert((i / pitch) * pitch <= i < (i / pitch + 1) * pitch && i % pitch == i - (i / pitch)
        * pitch && 0 <= i / pitch) by (nonlinear_arith)
        requires
            pitch > 0,
            0 <= i,
    ;
}

/// Writes the packed pixel value `v` at pixel coordinates `(x, y)` of a
/// byte buffer with the given pitch, most significant byte first.
fn write_pixel(pixels: &mut Vec<u8>, pitch: u32, format: PixelFormatEnum, x: u32, y: u32, v: u32)
    requires
        format.has_masks(),
        (x + 1) * format.spec_byte_size() <= pitch,
        (y + 1) * pitch <= old(pixels)@.len(),
    ensures
        final(pixels)@.len() == old(pixels)@.len(),
        forall|i: int| 0 <= i < old(pixels)@.len() ==> final(pixels)@[i] == (
            if y * pitch + x * format.spec_byte_size() <= i
                < y * pitch + (x + 1) * format.spec_byte_size() {
                spec_pixel_byte(format, v, i - (y * pitch + x * format.spec_byte_size()))
            } else {
                old(pixels)@[i]
            }),
{
    let bpp: usize = format.byte_size();
    let n: usize = pixels.len();
    let ghost len: int = old(pixels)@.len() as int;
    let ghost sbpp: int = format.spec_byte_size() as int;
    proof {
        assert(y * pitch + (x + 1) * sbpp <= len && 0 <= y * pitch && 0 <= x * sbpp && x * sbpp
            + sbpp == (x + 1) * sbpp) by (nonlinear_arith)
            requires
                (x + 1) * sbpp <= pitch,
                (y + 1) * pitch <= len,
                0 <= y,
                0 <= x,
                0 <= sbpp,
                0 <= pitch,
        ;
    }
    let base: usize = y as usize * pitch as usize + x as usize * bpp;
    match format {
        PixelFormatEnum::RGBA8888 => {
            pixels[base] = (v / 0x0100_0000 % 0x100) as u8;
            pixels[base + 1] = (v / 0x0001_0000 % 0x100) as u8;
            pixels[base + 2] = (v / 0x100 % 0x100) as u8;
            pixels[base + 3] = (v % 0x100) as u8;
        },
        _ => {
            pixels[base] = (v / 0x0001_0000 % 0x100) as u8;
            pixels[base + 1] = (v / 0x100 % 0x100) as u8;
            pixels[base + 2] = (v % 0x100) as u8;
        },
    }
}

/// Paints pixels `x0 .. x1` of row `y` with the packed value `v`.
fn fill_row(pixels: &mut Vec<u8>, pitch: u32, format: PixelFormatEnum, y: u32, x0: u32, x1: u32, v: u32)
    requires
        format.has_masks(),
        x0 <= x1,
        x1 * format.spec_byte_size() <= pitch,
        (y + 1) * pitch <= old(pixels)@.len(),
    ensures
        final(pixels)@.len() == old(pixels)@.len(),
        forall|i: int| 0 <= i < old(pixels)@.len() ==> final(pixels)@[i] == (
            if y * pitch + x0 * format.spec_byte_size() <= i
                < y * pitch + x1 * format.spec_byte_size() {
                spec_pixel_byte(format, v, (i - y * pitch) % (format.spec_byte_size() as int))
            } else {
                old(pixels)@[i]
            }),
{
    let ghost bpp: int = format.spec_byte_size() as int;
    let mut x: u32 = x0;
    while x < x1
        invariant
            format.has_masks(),
            bpp == format.spec_byte_size(),
            x0 <= x <= x1,
            x1 * bpp <= pitch,
            (y + 1) * pitch <= old(pixels)@.len(),
            pixels@.len() == old(pixels)@.len(),
            forall|i: int| 0 <= i < old(pixels)@.len() ==> pixels@[i] == (
                if y * pitch + x0 * bpp <= i < y * pitch + x * bpp {
                    spec_pixel_byte(format, v, (i - y * pitch) % bpp)
                } else {
                    old(pixels)@[i]
                }),
        decreases x1 - x,
    {
        let ghost prev = pixels@;
        proof {
            assert((x + 1) * bpp <= x1 * bpp) by (nonlinear_arith)
                requires
                    x + 1 <= x1,
                    bpp >= 0,
            ;
        }
        write_pixel(pixels, pitch, format, x, y, v);
        proof {
            let base: int = y * pitch + x * bpp;
            assert forall|i: int| 0 <= i < old(pixels)@.len() implies pixels@[i] == (
                if y * pitch + x0 * bpp <= i < y * pitch + (x + 1) * bpp {
                    spec_pixel_byte(format, v, (i - y * pitch) % bpp)
                } else {
                    old(pixels)@[i]
                }) by {
                if base <= i < base + bpp {
                    let j: int = i - base;
                    assert((x * bpp + j) % bpp == j) by (nonlinear_arith)
                        requires
                            0 <= j < bpp,
                            0 <= x,
                    ;
                    assert((i - y * pitch) % bpp == j);
                } else {
                    if y * pitch + x0 * bpp <= i < y * pitch + x * bpp {
                        assert(pixels@[i] == prev[i]);
                    }
                    assert(x0 * bpp <= x * bpp <= (x + 1) * bpp) by (nonlinear_arith)
                        requires
                            x0 <= x,
                            bpp >= 0,
                    ;
                }
            }
        }
        x = x + 1;
    }
    proof {
        assert(x0 * bpp <= x1 * bpp) by (nonlinear_arith)
            requires
                x0 <= x1,
                bpp >= 0,
        ;
    }
}

} // verus!

verus! {

impl SurfaceRef {
    /// The surface's pixel bytes after one fill request: the requested
    /// rectangle (`None` meaning the whole surface) is clipped to the
    /// clip area and every pixel inside is set to the packed value `v`.
    pub open spec fn spec_filled(&self, rect: Option<Rect>, v: u32) -> Seq<u8> {
        spec_fill_once(self.pixels@, self.pitch as int, self.format, self.clip, rect, v)
    }

    /// Paints a solid color into a rectangular region, or into the whole
    /// surface when `rect` is `None`; the region is clipped to the clip
    /// area.  A rectangle reaching outside the 31-bit coordinate space
    /// is rejected and nothing is painted.
    pub fn fill_rect(&mut self, rect: Option<Rect>, color: Color) -> (r: SdlResult<()>)
        requires
            old(self).wf(),
            rect matches Some(rc) ==> rc.wf(),
        ensures
            final(self).wf(),
            match r {
                Ok(()) => {
                    &&& (rect matches Some(rc) ==> rc.fits())
                    &&& *final(self) == (SurfaceRef { pixels: final(self).pixels, ..*old(self) })
                    &&& final(self).pixels@ == old(self).spec_filled(
                        rect,
                        color.spec_to_u32(old(self).format),
                    )
                },
                Err(e) => {
                    &&& (rect matches Some(rc) && !rc.fits())
                    &&& e@ == "Fill rectangle is out of range"@
                    &&& *final(self) == *old(self)
                },
            },
    {
        if let Some(rc) = rect {
            if rc.x() as i64 + rc.width() as i64 > 0x8000_0000i64
                || rc.y() as i64 + rc.height() as i64 > 0x8000_0000i64 {
                return Err("Fill rectangle is out of range".to_string());
            }
        }
        let region: Option<Rect> = match self.clip {
            None => None,
            Some(c) => match rect {
                None => Some(c),
                Some(rc) => rc.intersection(&c),
            },
        };
        match region {
            None => Ok(()),
            Some(t) => {
                let v: u32 = color.to_u32(self.format);
                let pitch: u32 = self.pitch;
                let format: PixelFormatEnum = self.format;
                let bpp_exec: usize = format.byte_size();
                let ghost bpp: int = format.spec_byte_size() as int;
                let ghost old_pix: Seq<u8> = old(self).pixels@;
                let width: u32 = self.width;
                let height: u32 = self.height;
                let x0: u32 = t.x() as u32;
                let y0: u32 = t.y() as u32;
                let x1: u32 = x0 + t.width();
                let y1: u32 = y0 + t.height();
                proof {
                    assert(x1 * bpp <= width * bpp && width * bpp <= pitch
                        && (x0 as int) * bpp == t.x * bpp && (x1 as int) * bpp == (t.x
                        + t.width) * bpp) by (nonlinear_arith)
                        requires
                            x1 <= width,
                            width * bpp <= pitch,
                            0 <= bpp,
                            x0 == t.x,
                            x1 == t.x + t.width,
                    ;
                }
                let mut y: u32 = y0;
                while y < y1
                    invariant
                        format.has_masks(),
                        bpp == format.spec_byte_size(),
                        pitch == old(self).pitch,
                        format == old(self).format,
                        old(self).wf(),
                        t.wf(),
                        0 <= t.x,
                        0 <= t.y,
                        x0 == t.x,
                        y0 == t.y,
                        x1 == t.x + t.width,
                        y1 == t.y + t.height,
                        width == old(self).width,
                        height == old(self).height,
                        x1 <= width,
                        y1 <= height,
                        x1 * bpp <= pitch,
                        y0 <= y <= y1,
                        *self == (SurfaceRef { pixels: self.pixels, ..*old(self) }),
                        self.pixels@.len() == old_pix.len(),
                        old_pix.len() == pitch * old(self).height,
                        forall|i: int| 0 <= i < old_pix.len() ==> self.pixels@[i] == (
                            if t.y <= i / (pitch as int) < y && t.x * bpp <= i % (pitch as int)
                                < (t.x + t.width) * bpp {
                                spec_pixel_byte(format, v, (i % (pitch as int)) % bpp)
                            } else {
                                old_pix[i]
                            }),
                    decreases y1 - y,
                {
                    let ghost prev: Seq<u8> = self.pixels@;
                    proof {
                        assert((y + 1) * pitch <= height * pitch && (y as int) * pitch
                            + pitch == (y + 1) * pitch && 0 <= y * pitch && x0 * bpp >= 0)
                            by (nonlinear_arith)
                            requires
                                y + 1 <= height,
                                0 <= y,
                                0 <= pitch,
                                0 <= x0,
                                0 <= bpp,
                        ;
                        assert(height * pitch == pitch * height) by (nonlinear_arith);
                    }
                    fill_row(&mut self.pixels, pitch, format, y, x0, x1, v);
                    proof {
                        let p: int = pitch as int;
                        assert forall|i: int| 0 <= i < old_pix.len() implies self.pixels@[i] == (
                            if t.y <= i / p < y + 1 && t.x * bpp <= i % p < (t.x + t.width)
                                * bpp {
                                spec_pixel_byte(format, v, (i % p) % bpp)
                            } else {
                                old_pix[i]
                            }) by {
                            lemma_row_of_byte(p, i);
                            let row: int = i / p;
                            let k: int = i % p;
                            if y * p + x0 * bpp <= i < y * p + x1 * bpp {
                                lemma_byte_of_row(p, i, y as int);
                            } else {
                                if row == y {
                                    assert(i == y * p + k);
                                    assert(!(x0 * bpp <= k < x1 * bpp) ==> !(t.x * bpp <= k
                                        < (t.x + t.width) * bpp));
                                }
                            }
                        }
                    }
                    y = y + 1;
                }
                proof {
                    let p: int = pitch as int;
                    assert(self.pixels@ =~= old(self).spec_filled(
                        rect,
                        color.spec_to_u32(old(self).format),
                    ));
                }
                Ok(())
            },
        }
    }

    /// Paints a solid color into each listed region in order, stopping at
    /// the first rejected rectangle: regions before it are painted,
    /// regions from it on are not, and its error is returned.
    pub fn fill_rects(&mut self, rects: &[Option<Rect>], color: Color) -> (r: SdlResult<()>)
        requires
            old(self).wf(),
            forall|j: int| 0 <= j < rects@.len() ==> ((#[trigger] rects@[j]) matches Some(rc) ==> rc.wf()),
        ensures
            final(self).wf(),
            *final(self) == (SurfaceRef { pixels: final(self).pixels, ..*old(self) }),
            match r {
                Ok(()) => {
                    &&& spec_first_bad_fill(rects@) == rects@.len()
                    &&& final(self).pixels@ == spec_fill_many(
                        old(self).pixels@,
                        old(self).pitch as int,
                        old(self).format,
                        old(self).clip,
                        rects@,
                        color.spec_to_u32(old(self).format),
                    )
                },
                Err(e) => {
                    &&& e@ == "Fill rectangle is out of range"@
                    &&& spec_first_bad_fill(rects@) < rects@.len()
                    &&& spec_bad_fill_rect(rects@[spec_first_bad_fill(rects@)])
                    &&& final(self).pixels@ == spec_fill_many(
                        old(self).pixels@,
                        old(self).pitch as int,
                        old(self).format,
                        old(self).clip,
                        rects@.take(spec_first_bad_fill(rects@)),
                        color.spec_to_u32(old(self).format),
                    )
                },
            },
    {
        let ghost old_pix: Seq<u8> = old(self).pixels@;
        let ghost v: u32 = color.spec_to_u32(old(self).format);
        let n: usize = rects.len();
        let mut idx: usize = 0;
        while idx < n
            invariant
                old(self).wf(),
                self.wf(),
                n == rects@.len(),
                0 <= idx <= n,
                forall|j: int| 0 <= j < rects@.len() ==> ((#[trigger] rects@[j]) matches Some(rc)
                    ==> rc.wf()),
                *self == (SurfaceRef { pixels: self.pixels, ..*old(self) }),
                old_pix == old(self).pixels@,
                v == color.spec_to_u32(old(self).format),
                forall|k: int| 0 <= k < idx ==> !spec_bad_fill_rect(rects@[k]),
                self.pixels@ == spec_fill_many(
                    old_pix,
                    old(self).pitch as int,
                    old(self).format,
                    old(self).clip,
                    rects@.take(idx as int),
                    v,
                ),
            decreases n - idx,
        {
            let rc: Option<Rect> = rects[idx];
            let ghost before: Seq<u8> = self.pixels@;
            let result = self.fill_rect(rc, color);
            proof {
                assert(rects@.take(idx as int + 1).drop_last() =~= rects@.take(idx as int));
                assert(rects@.take(idx as int + 1).last() == rects@[idx as int]);
            }
            match result {
                Ok(()) => {},
                Err(e) => {
                    proof {
                        lemma_first_bad_fill(rects@, idx as int);
                    }
                    return Err(e);
                },
            }
            idx = idx + 1;
        }
        proof {
            assert(rects@.take(n as int) =~= rects@);
            lemma_no_bad_fill(rects@);
        }
        Ok(())
    }
}

/// Filling with no rectangle on a surface whose clipping is disabled
/// paints the entire surface: every byte of every pixel takes the packed
/// color value, and only row padding keeps its old contents.
pub proof fn lemma_fill_none_paints_all(s: SurfaceRef, v: u32)
    requires
        s.wf(),
        s.width >= 1,
        s.height >= 1,
        s.clip == s.spec_full_rect(),
    ensures
        forall|i: int| 0 <= i < s.pixels@.len() && i % (s.pitch as int) < s.width
            * s.format.spec_byte_size() ==> s.spec_filled(None, v)[i] == spec_pixel_byte(
                s.format,
                v,
                (i % (s.pitch as int)) % (s.format.spec_byte_size() as int),
            ),
        forall|i: int| 0 <= i < s.pixels@.len() && i % (s.pitch as int) >= s.width
            * s.format.spec_byte_size() ==> s.spec_filled(None, v)[i] == s.pixels@[i],
{
    let p: int = s.pitch as int;
    let bpp: int = s.format.spec_byte_size() as int;
    let full: Rect = Rect { x: 0, y: 0, width: s.width, height: s.height };
    assert forall|i: int| 0 <= i < s.pixels@.len() implies (0 <= i / p < s.height && 0 <= i % p
        && spec_byte_in_rect(p, bpp, i, full) == (i % p < s.width * bpp)) by {
        lemma_row_of_byte(p, i);
        assert(i / p < s.height) by (nonlinear_arith)
            requires
                p > 0,
                0 <= i,
                i < p * s.height,
                (i / p) * p <= i,
        ;
        assert(full.x * bpp == 0 && (full.x + full.width) * bpp == s.width * bpp);
    }
}

} // verus!

verus! {

/// The packed value of the pixel at `(x, y)` in a byte buffer with the
/// given pitch, most significant byte first.
pub open spec fn spec_pixel_value(pixels: Seq<u8>, pitch: int, format: PixelFormatEnum, x: int, y: int) -> u32 {
    let base = y * pitch + x * format.spec_byte_size();
    match format {
        PixelFormatEnum::RGBA8888 => (pixels[base] * 0x0100_0000 + pixels[base + 1] * 0x0001_0000
            + pixels[base + 2] * 0x100 + pixels[base + 3]) as u32,
        _ => (pixels[base] * 0x0001_0000 + pixels[base + 1] * 0x100 + pixels[base + 2]) as u32,
    }
}

/// The packed value a source pixel takes on in the destination format:
/// unpack in the source format, repack in the destination format.
pub open spec fn spec_convert_value(src_format: PixelFormatEnum, dst_format: PixelFormatEnum, v: u32) -> u32 {
    Color::spec_from_u32(src_format, v).spec_to_u32(dst_format)
}

/// The destination bytes after copying the source rectangle `s` onto the
/// destination rectangle `d` (equal sizes), converting each pixel.
pub open spec fn spec_blit_bytes(src_pixels: Seq<u8>, src_pitch: int, src_format: PixelFormatEnum, dst_pixels: Seq<u8>, dst_pitch: int, dst_format: PixelFormatEnum, s: Rect, d: Rect) -> Seq<u8> {
    let bpp = dst_format.spec_byte_size() as int;
    Seq::new(dst_pixels.len(), |i: int|
        if spec_byte_in_rect(dst_pitch, bpp, i, d) {
            let x = (i % dst_pitch) / bpp;
            let y = i / dst_pitch;
            spec_pixel_byte(dst_format, spec_convert_value(src_format, dst_format,
                spec_pixel_value(src_pixels, src_pitch, src_format,
                    s.x + (x - d.x), s.y + (y - d.y))), (i % dst_pitch) % bpp)
        } else {
            dst_pixels[i]
        })
}

/// Reads the packed pixel value at pixel coordinates `(x, y)`.
fn read_pixel(pixels: &Vec<u8>, pitch: u32, format: PixelFormatEnum, x: u32, y: u32) -> (v: u32)
    requires
        format.has_masks(),
        (x + 1) * format.spec_byte_size() <= pitch,
        (y + 1) * pitch <= pixels@.len(),
    ensures
        v == spec_pixel_value(pixels@, pitch as int, format, x as int, y as int),
{
    let bpp: usize = format.byte_size();
    let n: usize = pixels.len();
    let ghost len: int = pixels@.len() as int;
    let ghost sbpp: int = format.spec_byte_size() as int;
    proof {
        assert(y * pitch + (x + 1) * sbpp <= len && 0 <= y * pitch && 0 <= x * sbpp && x * sbpp
            + sbpp == (x + 1) * sbpp) by (nonlinear_arith)
            requires
                (x + 1) * sbpp <= pitch,
                (y + 1) * pitch <= len,
                0 <= y,
                0 <= x,
                0 <= sbpp,
                0 <= pitch,
        ;
    }
    let base: usize = y as usize * pitch as usize + x as usize * bpp;
    match format {
        PixelFormatEnum::RGBA8888 => {
            let b0: u32 = pixels[base] as u32;
            let b1: u32 = pixels[base + 1] as u32;
            let b2: u32 = pixels[base + 2] as u32;
            let b3: u32 = pixels[base + 3] as u32;
            b0 * 0x0100_0000 + b1 * 0x0001_0000 + b2 * 0x100 + b3
        },
        _ => {
            let b0: u32 = pixels[base] as u32;
            let b1: u32 = pixels[base + 1] as u32;
            let b2: u32 = pixels[base + 2] as u32;
            b0 * 0x0001_0000 + b1 * 0x100 + b2
        },
    }
}

/// The rectangles a blit request resolves to: the requested source
/// rectangle (`None` meaning the whole source) is clipped to the source
/// bounds, the destination position shifts along, and the result is
/// clipped to the destination's clip area, shifting the source in turn;
/// `None` when nothing is left.  The destination rectangle's own size is
/// ignored: a plain blit copies at the source rectangle's size.
pub open spec fn spec_blit_geometry(src_w: int, src_h: int, src_rect: Option<Rect>, dst_clip: Option<Rect>, dst_rect: Option<Rect>) -> Option<(Rect, Rect)> {
    let sx0 = match src_rect { Some(r) => r.x as int, None => 0 };
    let sy0 = match src_rect { Some(r) => r.y as int, None => 0 };
    let w0 = match src_rect { Some(r) => r.width as int, None => src_w };
    let h0 = match src_rect { Some(r) => r.height as int, None => src_h };
    let dx0 = match dst_rect { Some(r) => r.x as int, None => 0 };
    let dy0 = match dst_rect { Some(r) => r.y as int, None => 0 };
    let sx1 = if sx0 < 0 { 0 } else { sx0 };
    let dx1 = if sx0 < 0 { dx0 - sx0 } else { dx0 };
    let w1 = if sx0 < 0 { w0 + sx0 } else { w0 };
    let sy1 = if sy0 < 0 { 0 } else { sy0 };
    let dy1 = if sy0 < 0 { dy0 - sy0 } else { dy0 };
    let h1 = if sy0 < 0 { h0 + sy0 } else { h0 };
    let w2 = if sx1 + w1 > src_w { src_w - sx1 } else { w1 };
    let h2 = if sy1 + h1 > src_h { src_h - sy1 } else { h1 };
    match dst_clip {
        None => None,
        Some(c) => {
            let dl = c.x - dx1;
            let sx2 = if dl > 0 { sx1 + dl } else { sx1 };
            let dx2 = if dl > 0 { dx1 + dl } else { dx1 };
            let w3 = if dl > 0 { w2 - dl } else { w2 };
            let w4 = if dx2 + w3 > c.x + c.width { c.x + c.width - dx2 } else { w3 };
            let dt = c.y - dy1;
            let sy2 = if dt > 0 { sy1 + dt } else { sy1 };
            let dy2 = if dt > 0 { dy1 + dt } else { dy1 };
            let h3 = if dt > 0 { h2 - dt } else { h2 };
            let h4 = if dy2 + h3 > c.y + c.height { c.y + c.height - dy2 } else { h3 };
            if w4 >= 1 && h4 >= 1 {
                Some((
                    Rect { x: sx2 as i32, y: sy2 as i32, width: w4 as u32, height: h4 as u32 },
                    Rect { x: dx2 as i32, y: dy2 as i32, width: w4 as u32, height: h4 as u32 },
                ))
            } else {
                None
            }
        },
    }
}

/// When a blit request resolves to a rectangle pair, the source
/// rectangle lies inside the source bounds, the destination rectangle
/// lies inside the clip area, and the two have equal sizes.
pub proof fn lemma_blit_geometry_bounds(src_w: int, src_h: int, src_rect: Option<Rect>, dst_clip: Option<Rect>, dst_rect: Option<Rect>)
    requires
        0 <= src_w < DIMENSION_LIMIT,
        0 <= src_h < DIMENSION_LIMIT,
        src_rect matches Some(rc) ==> rc.wf() && rc.fits(),
        dst_rect matches Some(rc) ==> rc.wf() && rc.fits(),
        dst_clip matches Some(c) ==> c.wf() && 0 <= c.x && 0 <= c.y && c.fits(),
    ensures
        match spec_blit_geometry(src_w, src_h, src_rect, dst_clip, dst_rect) {
            Some(pair) => {
                &&& pair.0.wf() && pair.1.wf()
                &&& pair.0.width == pair.1.width && pair.0.height == pair.1.height
                &&& 0 <= pair.0.x && 0 <= pair.0.y
                &&& pair.0.x + pair.0.width <= src_w && pair.0.y + pair.0.height <= src_h
                &&& (dst_clip matches Some(c) ==> c.x <= pair.1.x && c.y <= pair.1.y
                    && pair.1.x + pair.1.width <= c.x + c.width
                    && pair.1.y + pair.1.height <= c.y + c.height)
            },
            None => true,
        },
{
}

} // verus!

verus! {

/// Copies the source rectangle `s` onto the destination rectangle `d`
/// (equal sizes), converting every pixel from the source format to the
/// destination format.
fn blit_copy(src_pixels: &Vec<u8>, src_pitch: u32, src_format: PixelFormatEnum, dst_pixels: &mut Vec<u8>, dst_pitch: u32, dst_format: PixelFormatEnum, s: Rect, d: Rect)
    requires
        src_format.has_masks(),
        dst_format.has_masks(),
        s.wf(),
        d.wf(),
        s.fits(),
        d.fits(),
        s.width == d.width,
        s.height == d.height,
        0 <= s.x,
        0 <= s.y,
        0 <= d.x,
        0 <= d.y,
        (s.x + s.width) * src_format.spec_byte_size() <= src_pitch,
        (s.y + s.height) * src_pitch <= src_pixels@.len(),
        (d.x + d.width) * dst_format.spec_byte_size() <= dst_pitch,
        (d.y + d.height) * dst_pitch <= old(dst_pixels)@.len(),
    ensures
        final(dst_pixels)@.len() == old(dst_pixels)@.len(),
        final(dst_pixels)@ == spec_blit_bytes(
            src_pixels@,
            src_pitch as int,
            src_format,
            old(dst_pixels)@,
            dst_pitch as int,
            dst_format,
            s,
            d,
        ),
{
    let w: u32 = s.width();
    let h: u32 = s.height();
    let sx: u32 = s.x() as u32;
    let sy: u32 = s.y() as u32;
    let dx: u32 = d.x() as u32;
    let dy: u32 = d.y() as u32;
    let ghost dp: int = dst_pitch as int;
    let ghost bpp: int = dst_format.spec_byte_size() as int;
    let ghost sbpp: int = src_format.spec_byte_size() as int;
    let ghost old_dst: Seq<u8> = old(dst_pixels)@;
    let ghost target: Seq<u8> = spec_blit_bytes(src_pixels@, src_pitch as int, src_format,
        old_dst, dst_pitch as int, dst_format, s, d);
    let mut yy: u32 = 0;
    while yy < h
        invariant
            src_format.has_masks(),
            dst_format.has_masks(),
            s.wf(),
            d.wf(),
            s.fits(),
            d.fits(),
            s.width == d.width,
            s.height == d.height,
            0 <= s.x,
            0 <= s.y,
            0 <= d.x,
            0 <= d.y,
            w == s.width,
            h == s.height,
            sx == s.x,
            sy == s.y,
            dx == d.x,
            dy == d.y,
            dp == dst_pitch as int,
            bpp == dst_format.spec_byte_size(),
            sbpp == src_format.spec_byte_size(),
            old_dst == old(dst_pixels)@,
            target == spec_blit_bytes(src_pixels@, src_pitch as int, src_format, old_dst,
                dst_pitch as int, dst_format, s, d),
            (s.x + s.width) * sbpp <= src_pitch,
            (s.y + s.height) * src_pitch <= src_pixels@.len(),
            (d.x + d.width) * bpp <= dst_pitch,
            (d.y + d.height) * dp <= old_dst.len(),
            0 <= yy <= h,
            dst_pixels@.len() == old_dst.len(),
            forall|i: int| 0 <= i < old_dst.len() ==> dst_pixels@[i] == (
                if d.y <= i / dp < d.y + yy && d.x * bpp <= i % dp < (d.x + d.width) * bpp {
                    target[i]
                } else {
                    old_dst[i]
                }),
        decreases h - yy,
    {
        let mut xx: u32 = 0;
        while xx < w
            invariant
                src_format.has_masks(),
                dst_format.has_masks(),
                s.wf(),
                d.wf(),
                s.fits(),
                d.fits(),
                s.width == d.width,
                s.height == d.height,
                0 <= s.x,
                0 <= s.y,
                0 <= d.x,
                0 <= d.y,
                w == s.width,
                h == s.height,
                sx == s.x,
                sy == s.y,
                dx == d.x,
                dy == d.y,
                dp == dst_pitch as int,
                bpp == dst_format.spec_byte_size(),
                sbpp == src_format.spec_byte_size(),
                old_dst == old(dst_pixels)@,
                target == spec_blit_bytes(src_pixels@, src_pitch as int, src_format, old_dst,
                    dst_pitch as int, dst_format, s, d),
                (s.x + s.width) * sbpp <= src_pitch,
                (s.y + s.height) * src_pitch <= src_pixels@.len(),
                (d.x + d.width) * bpp <= dst_pitch,
                (d.y + d.height) * dp <= old_dst.len(),
                0 <= yy < h,
                0 <= xx <= w,
                dst_pixels@.len() == old_dst.len(),
                forall|i: int| 0 <= i < old_dst.len() ==> dst_pixels@[i] == (
                    if (d.y <= i / dp < d.y + yy && d.x * bpp <= i % dp < (d.x + d.width)
                        * bpp) || (i / dp == d.y + yy && d.x * bpp <= i % dp < (d.x + xx)
                        * bpp) {
                        target[i]
                    } else {
                        old_dst[i]
                    }),
            decreases w - xx,
        {
            proof {
                assert((sx + xx + 1) * sbpp <= (s.x + s.width) * sbpp && (sy + yy + 1)
                    * src_pitch <= (s.y + s.height) * src_pitch && (dx + xx + 1) * bpp <= (d.x
                    + d.width) * bpp && (dy + yy + 1) * dp <= (d.y + d.height) * dp)
                    by (nonlinear_arith)
                    requires
                        sx == s.x && sy == s.y && dx == d.x && dy == d.y,
                        xx + 1 <= s.width && yy + 1 <= s.height,
                        s.width == d.width && s.height == d.height,
                        0 <= sbpp && 0 <= src_pitch && 0 <= bpp && 0 <= dp,
                ;
            }
            let v: u32 = read_pixel(src_pixels, src_pitch, src_format, sx + xx, sy + yy);
            let cv: u32 = Color::from_u32(src_format, v).to_u32(dst_format);
            let ghost prev: Seq<u8> = dst_pixels@;
            write_pixel(dst_pixels, dst_pitch, dst_format, dx + xx, dy + yy, cv);
            proof {
                let px: int = dx + xx;
                let py: int = dy + yy;
                let base: int = py * dp + px * bpp;
                assert forall|i: int| 0 <= i < old_dst.len() implies dst_pixels@[i] == (
                    if (d.y <= i / dp < d.y + yy && d.x * bpp <= i % dp < (d.x + d.width)
                        * bpp) || (i / dp == d.y + yy && d.x * bpp <= i % dp < (d.x + xx + 1)
                        * bpp) {
                        target[i]
                    } else {
                        old_dst[i]
                    }) by {
                    assert(1 <= bpp);
                    assert(1 <= (d.x + d.width) * bpp && 0 <= px * bpp && px * bpp + bpp == (px
                        + 1) * bpp && (px + 1) * bpp <= (d.x + d.width) * bpp && (py + 1) * dp
                        == py * dp + dp) by (nonlinear_arith)
                        requires
                            1 <= d.x + d.width,
                            1 <= bpp,
                            0 <= px,
                            px + 1 <= d.x + d.width,
                            0 <= dp,
                    ;
                    lemma_row_of_byte(dp, i);
                    let row: int = i / dp;
                    let k: int = i % dp;
                    if base <= i < base + bpp {
                        let j: int = i - base;
                        lemma_byte_of_row(dp, i, py);
                        assert(k == i - py * dp);
                        assert(px * bpp <= k < (px + 1) * bpp && k / bpp == px && k % bpp == j
                            && (d.x + xx) * bpp <= k < (d.x + xx + 1) * bpp && d.x * bpp <= k)
                            by (nonlinear_arith)
                            requires
                                k == px * bpp + j,
                                0 <= j < bpp,
                                0 <= px,
                                px == d.x + xx,
                                0 <= d.x,
                                0 <= xx,
                        ;
                        assert(spec_byte_in_rect(dp, bpp, i, d)) by {
                            assert((d.x + d.width) * bpp >= (px + 1) * bpp) by (nonlinear_arith)
                                requires
                                    px + 1 <= d.x + d.width,
                                    0 <= bpp,
                            ;
                        }
                        assert(row == py && k / bpp - d.x == xx && row - d.y == yy);
                        assert(target[i] == spec_pixel_byte(dst_format, cv, j));
                    } else {
                        assert(dst_pixels@[i] == prev[i]);
                        assert((d.x + xx) * bpp == px * bpp && (d.x + xx + 1) * bpp == px * bpp
                            + bpp) by (nonlinear_arith)
                            requires
                                px == d.x + xx,
                        ;
                        if row == d.y + yy && d.x * bpp <= k < (d.x + xx + 1) * bpp {
                            assert(i == row * dp + k);
                            assert(!(px * bpp <= k < px * bpp + bpp) ==> k < (d.x + xx) * bpp);
                        }
                    }
                }
            }
            xx = xx + 1;
        }
        proof {
            assert forall|i: int| 0 <= i < old_dst.len() implies dst_pixels@[i] == (
                if d.y <= i / dp < d.y + yy + 1 && d.x * bpp <= i % dp < (d.x + d.width)
                    * bpp {
                    target[i]
                } else {
                    old_dst[i]
                }) by {
            }
        }
        yy = yy + 1;
    }
    proof {
        assert(dst_pixels@ =~= target);
    }
}

} // verus!

verus! {

/// Resolves an optional rectangle against a whole surface of the given
/// size: `None` means the full surface.
pub open spec fn spec_resolved_rect(rect: Option<Rect>, w: u32, h: u32) -> Rect {
    match rect {
        Some(r) => r,
        None => Rect { x: 0, y: 0, width: w, height: h },
    }
}

/// Computes the rectangles a blit request resolves to; see
/// [`spec_blit_geometry`].
#[verifier::rlimit(100)]
fn blit_geometry(src_w: u32, src_h: u32, src_rect: Option<Rect>, dst_clip: Option<Rect>, dst_rect: Option<Rect>) -> (r: Option<(Rect, Rect)>)
    requires
        src_w < DIMENSION_LIMIT,
        src_h < DIMENSION_LIMIT,
        src_rect matches Some(rc) ==> rc.wf() && rc.fits(),
        dst_rect matches Some(rc) ==> rc.wf() && rc.fits(),
        dst_clip matches Some(c) ==> c.wf() && 0 <= c.x && 0 <= c.y && c.fits(),
    ensures
        r == spec_blit_geometry(src_w as int, src_h as int, src_rect, dst_clip, dst_rect),
{
    proof {
        lemma_blit_geometry_bounds(src_w as int, src_h as int, src_rect, dst_clip, dst_rect);
    }
    let (sx0, sy0, w0, h0): (i64, i64, i64, i64) = match src_rect {
        Some(r) => (r.x() as i64, r.y() as i64, r.width() as i64, r.height() as i64),
        None => (0, 0, src_w as i64, src_h as i64),
    };
    let (dx0, dy0): (i64, i64) = match dst_rect {
        Some(r) => (r.x() as i64, r.y() as i64),
        None => (0, 0),
    };
    let (sx1, dx1, w1): (i64, i64, i64) = if sx0 < 0 {
        (0, dx0 - sx0, w0 + sx0)
    } else {
        (sx0, dx0, w0)
    };
    let (sy1, dy1, h1): (i64, i64, i64) = if sy0 < 0 {
        (0, dy0 - sy0, h0 + sy0)
    } else {
        (sy0, dy0, h0)
    };
    let w2: i64 = if sx1 + w1 > src_w as i64 {
        src_w as i64 - sx1
    } else {
        w1
    };
    let h2: i64 = if sy1 + h1 > src_h as i64 {
        src_h as i64 - sy1
    } else {
        h1
    };
    match dst_clip {
        None => None,
        Some(c) => {
            let dl: i64 = c.x() as i64 - dx1;
            let (sx2, dx2, w3): (i64, i64, i64) = if dl > 0 {
                (sx1 + dl, dx1 + dl, w2 - dl)
            } else {
                (sx1, dx1, w2)
            };
            let cr: i64 = c.x() as i64 + c.width() as i64;
            let w4: i64 = if dx2 + w3 > cr {
                cr - dx2
            } else {
                w3
            };
            let dt: i64 = c.y() as i64 - dy1;
            let (sy2, dy2, h3): (i64, i64, i64) = if dt > 0 {
                (sy1 + dt, dy1 + dt, h2 - dt)
            } else {
                (sy1, dy1, h2)
            };
            let cb: i64 = c.y() as i64 + c.height() as i64;
            let h4: i64 = if dy2 + h3 > cb {
                cb - dy2
            } else {
                h3
            };
            if w4 >= 1 && h4 >= 1 {
                Some((
                    Rect { x: sx2 as i32, y: sy2 as i32, width: w4 as u32, height: h4 as u32 },
                    Rect { x: dx2 as i32, y: dy2 as i32, width: w4 as u32, height: h4 as u32 },
                ))
            } else {
                None
            }
        },
    }
}

impl SurfaceRef {
    /// Clipped blit: copies this surface (or the given source rectangle
    /// of it) onto the destination at the given position, clipping to
    /// both surfaces' bounds and the destination's clip area, converting
    /// pixel formats as needed.  When a destination rectangle was given
    /// and pixels were copied, returns the actual destination rectangle
    /// used, which always lies inside the destination bounds.  A
    /// rectangle reaching outside the 31-bit coordinate space is
    /// rejected and nothing is copied.
    pub fn blit(&self, src_rect: Option<Rect>, dst: &mut SurfaceRef, dst_rect: Option<Rect>) -> (r: SdlResult<Option<Rect>>)
        requires
            self.wf(),
            old(dst).wf(),
            src_rect matches Some(rc) ==> rc.wf(),
            dst_rect matches Some(rc) ==> rc.wf(),
        ensures
            final(dst).wf(),
            *final(dst) == (SurfaceRef { pixels: final(dst).pixels, ..*old(dst) }),
            match r {
                Ok(res) => {
                    &&& (src_rect matches Some(rc) ==> rc.fits())
                    &&& (dst_rect matches Some(rc) ==> rc.fits())
                    &&& match spec_blit_geometry(self.width as int, self.height as int,
                        src_rect, old(dst).clip, dst_rect) {
                        Some(pair) => {
                            &&& final(dst).pixels@ == spec_blit_bytes(
                                self.pixels@,
                                self.pitch as int,
                                self.format,
                                old(dst).pixels@,
                                old(dst).pitch as int,
                                old(dst).format,
                                pair.0,
                                pair.1,
                            )
                            &&& res == (if dst_rect is Some {
                                Some(pair.1)
                            } else {
                                None::<Rect>
                            })
                            &&& (res matches Some(fr) ==> fr.wf() && 0 <= fr.x && 0 <= fr.y
                                && fr.x + fr.width <= old(dst).width
                                && fr.y + fr.height <= old(dst).height)
                        },
                        None => final(dst).pixels@ == old(dst).pixels@ && res is None,
                    }
                },
                Err(e) => {
                    &&& !((src_rect matches Some(rc) ==> rc.fits()) && (dst_rect
                        matches Some(rc) ==> rc.fits()))
                    &&& e@ == "Blit rectangle is out of range"@
                    &&& *final(dst) == *old(dst)
                },
            },
    {
        if let Some(rc) = src_rect {
            if rc.x() as i64 + rc.width() as i64 > 0x8000_0000i64
                || rc.y() as i64 + rc.height() as i64 > 0x8000_0000i64 {
                return Err("Blit rectangle is out of range".to_string());
            }
        }
        if let Some(rc) = dst_rect {
            if rc.x() as i64 + rc.width() as i64 > 0x8000_0000i64
                || rc.y() as i64 + rc.height() as i64 > 0x8000_0000i64 {
                return Err("Blit rectangle is out of range".to_string());
            }
        }
        let clip: Option<Rect> = dst.clip;
        let geom = blit_geometry(self.width, self.height, src_rect, clip, dst_rect);
        match geom {
            None => Ok(None),
            Some((s, d)) => {
                let dst_pitch: u32 = dst.pitch;
                let dst_format: PixelFormatEnum = dst.format;
                let dst_w: u32 = dst.width;
                let dst_h: u32 = dst.height;
                proof {
                    lemma_blit_geometry_bounds(self.width as int, self.height as int, src_rect,
                        old(dst).clip, dst_rect);
                    let sbpp: int = self.format.spec_byte_size() as int;
                    let bpp: int = dst_format.spec_byte_size() as int;
                    assert((s.x + s.width) * sbpp <= self.width * sbpp && (s.y + s.height)
                        * self.pitch <= self.height * self.pitch && self.height * self.pitch
                        == self.pitch * self.height) by (nonlinear_arith)
                        requires
                            s.x + s.width <= self.width,
                            s.y + s.height <= self.height,
                            0 <= sbpp,
                            0 <= self.pitch,
                    ;
                    assert((d.x + d.width) * bpp <= dst_w * bpp && (d.y + d.height)
                        * dst_pitch <= dst_h * dst_pitch && dst_h
                        * dst_pitch == dst_pitch * dst_h) by (nonlinear_arith)
                        requires
                            d.x + d.width <= dst_w,
                            d.y + d.height <= dst_h,
                            0 <= bpp,
                            0 <= dst_pitch,
                    ;
                }
                blit_copy(&self.pixels, self.pitch, self.format, &mut dst.pixels, dst_pitch,
                    dst_format, s, d);
                if dst_rect.is_some() {
                    Ok(Some(d))
                } else {
                    Ok(None)
                }
            },
        }
    }

    /// Low-level unclipped blit: copies the resolved source rectangle
    /// onto the resolved destination rectangle without any clipping.
    /// The caller must have validated that both rectangles lie inside
    /// their surfaces and have equal sizes — exactly what the
    /// preconditions demand; `blit` does this validation instead.
    pub fn lower_blit(&self, src_rect: Option<Rect>, dst: &mut SurfaceRef, dst_rect: Option<Rect>) -> (r: SdlResult<()>)
        requires
            self.wf(),
            old(dst).wf(),
            spec_resolved_rect(src_rect, self.width, self.height).wf(),
            spec_resolved_rect(dst_rect, old(dst).width, old(dst).height).wf(),
            spec_resolved_rect(src_rect, self.width, self.height).fits(),
            spec_resolved_rect(dst_rect, old(dst).width, old(dst).height).fits(),
            0 <= spec_resolved_rect(src_rect, self.width, self.height).x,
            0 <= spec_resolved_rect(src_rect, self.width, self.height).y,
            0 <= spec_resolved_rect(dst_rect, old(dst).width, old(dst).height).x,
            0 <= spec_resolved_rect(dst_rect, old(dst).width, old(dst).height).y,
            spec_resolved_rect(src_rect, self.width, self.height).x
                + spec_resolved_rect(src_rect, self.width, self.height).width <= self.width,
            spec_resolved_rect(src_rect, self.width, self.height).y
                + spec_resolved_rect(src_rect, self.width, self.height).height <= self.height,
            spec_resolved_rect(dst_rect, old(dst).width, old(dst).height).x
                + spec_resolved_rect(dst_rect, old(dst).width, old(dst).height).width
                <= old(dst).width,
            spec_resolved_rect(dst_rect, old(dst).width, old(dst).height).y
                + spec_resolved_rect(dst_rect, old(dst).width, old(dst).height).height
                <= old(dst).height,
            spec_resolved_rect(src_rect, self.width, self.height).width
                == spec_resolved_rect(dst_rect, old(dst).width, old(dst).height).width,
            spec_resolved_rect(src_rect, self.width, self.height).height
                == spec_resolved_rect(dst_rect, old(dst).width, old(dst).height).height,
        ensures
            final(dst).wf(),
            *final(dst) == (SurfaceRef { pixels: final(dst).pixels, ..*old(dst) }),
            r is Ok,
            final(dst).pixels@ == spec_blit_bytes(
                self.pixels@,
                self.pitch as int,
                self.format,
                old(dst).pixels@,
                old(dst).pitch as int,
                old(dst).format,
                spec_resolved_rect(src_rect, self.width, self.height),
                spec_resolved_rect(dst_rect, old(dst).width, old(dst).height),
            ),
    {
        let s: Rect = match src_rect {
            Some(r) => r,
            None => Rect { x: 0, y: 0, width: self.width, height: self.height },
        };
        let dst_w: u32 = dst.width;
        let dst_h: u32 = dst.height;
        let d: Rect = match dst_rect {
            Some(r) => r,
            None => Rect { x: 0, y: 0, width: dst_w, height: dst_h },
        };
        let dst_pitch: u32 = dst.pitch;
        let dst_format: PixelFormatEnum = dst.format;
        proof {
            let sbpp: int = self.format.spec_byte_size() as int;
            let bpp: int = dst_format.spec_byte_size() as int;
            assert((s.x + s.width) * sbpp <= self.width * sbpp && (s.y + s.height) * self.pitch
                <= self.height * self.pitch && self.height * self.pitch == self.pitch
                * self.height) by (nonlinear_arith)
                requires
                    s.x + s.width <= self.width,
                    s.y + s.height <= self.height,
                    0 <= sbpp,
                    0 <= self.pitch,
            ;
            assert((d.x + d.width) * bpp <= dst_w * bpp && (d.y + d.height) * dst_pitch
                <= dst_h * dst_pitch && dst_h * dst_pitch == dst_pitch
                * dst_h) by (nonlinear_arith)
                requires
                    d.x + d.width <= dst_w,
                    d.y + d.height <= dst_h,
                    0 <= bpp,
                    0 <= dst_pitch,
            ;
        }
        blit_copy(&self.pixels, self.pitch, self.format, &mut dst.pixels, dst_pitch, dst_format,
            s, d);
        Ok(())
    }

    /// Produces a new surface with this surface's pixels converted to
    /// the target format; the new surface starts with fresh default
    /// state, like a blank surface.
    pub fn convert(&self, format: PixelFormatEnum) -> (r: SdlResult<Surface>)
        requires
            self.wf(),
        ensures
            match r {
                Ok(s) => {
                    &&& format.has_masks()
                    &&& s.view_ref().wf()
                    &&& s.view_ref().width == self.width
                    &&& s.view_ref().height == self.height
                    &&& s.view_ref().format == format
                    &&& s.view_ref().pitch == self.width * format.spec_byte_size()
                    &&& s.view_ref() == Surface::spec_blank(self.width, self.height, format,
                        s.view_ref().pitch, s.view_ref().pixels)
                    &&& (self.width >= 1 && self.height >= 1 ==> s.view_ref().pixels@
                        == spec_blit_bytes(
                            self.pixels@,
                            self.pitch as int,
                            self.format,
                            Seq::new((s.view_ref().pitch * self.height) as nat, |i: int| 0u8),
                            s.view_ref().pitch as int,
                            format,
                            (Rect { x: 0, y: 0, width: self.width, height: self.height }),
                            (Rect { x: 0, y: 0, width: self.width, height: self.height }),
                        ))
                },
                Err(e) => {
                    ||| !format.has_masks() && e@ == "Indexed pixel formats have no masks"@
                    ||| format.has_masks() && (self.width * format.spec_byte_size()
                        > 0x7FFF_FFFF || self.width * format.spec_byte_size() * self.height
                        > 0x7FFF_FFFF) && e@ == "Out of memory"@
                },
            },
    {
        let mut out: Surface = match Surface::new(self.width, self.height, format) {
            Ok(s) => s,
            Err(e) => {
                return Err(e);
            },
        };
        if self.width >= 1 && self.height >= 1 {
            let full_src: Rect = Rect { x: 0, y: 0, width: self.width, height: self.height };
            let out_pitch: u32 = out.inner.pitch;
            let out_format: PixelFormatEnum = out.inner.format;
            proof {
                assert(out.inner.pixels@ =~= Seq::new((out.inner.pitch * self.height) as nat,
                    |i: int| 0u8));
                let sbpp: int = self.format.spec_byte_size() as int;
                let bpp: int = out_format.spec_byte_size() as int;
                assert(self.width * sbpp <= self.pitch ==> (0 + self.width) * sbpp
                    <= self.pitch);
                assert((0 + self.height) * self.pitch <= self.height * self.pitch
                    && self.height * self.pitch == self.pitch * self.height)
                    by (nonlinear_arith);
                assert((0 + self.height) * out_pitch <= self.height * out_pitch
                    && self.height * out_pitch == out_pitch * self.height)
                    by (nonlinear_arith);
            }
            blit_copy(&self.pixels, self.pitch, self.format, &mut out.inner.pixels, out_pitch,
                out_format, full_src, full_src);
        }
        Ok(out)
    }
}

} // verus!

verus! {

impl SurfaceRef {
    /// Scoped locked read access: acquires the pixel lock, hands the
    /// caller-supplied function a byte view of exactly `pitch * height`
    /// bytes, and releases the lock on every path — whatever value,
    /// error included, the function returns.  The surface is unchanged
    /// and unlocked afterwards, so a subsequent lock attempt succeeds.
    pub fn with_lock<R, F: FnOnce(&[u8]) -> R>(&mut self, f: F) -> (r: R)
        requires
            old(self).wf(),
            forall|v: &[u8]| v@ == old(self).pixels@ ==> call_requires(f, (v,)),
        ensures
            *final(self) == *old(self),
            !final(self).locked,
            final(self).wf(),
            exists|v: &[u8]| v@ == old(self).pixels@ && call_ensures(f, (v,), r),
    {
        self.locked = true;
        let view: &[u8] = self.pixels.as_slice();
        let out: R = f(view);
        self.locked = false;
        out
    }

    /// Scoped locked write access: acquires the pixel lock, hands the
    /// caller-supplied function the pixel bytes, stores the buffer the
    /// function returns, and releases the lock on every path — whatever
    /// second value, error included, the function returns.  The function
    /// must return a buffer of the same length, so the surface stays
    /// well formed; everything but the pixels is unchanged and the
    /// surface is unlocked afterwards, so a subsequent lock attempt
    /// succeeds.
    pub fn with_lock_mut<R, F: FnOnce(Vec<u8>) -> (Vec<u8>, R)>(&mut self, f: F) -> (r: R)
        requires
            old(self).wf(),
            forall|v: Vec<u8>| v@ == old(self).pixels@ ==> call_requires(f, (v,)),
            forall|v: Vec<u8>, out: (Vec<u8>, R)| #[trigger] call_ensures(f, (v,), out)
                ==> out.0@.len() == v@.len(),
        ensures
            *final(self) == (SurfaceRef { pixels: final(self).pixels, ..*old(self) }),
            !final(self).locked,
            final(self).wf(),
            exists|v: Vec<u8>| v@ == old(self).pixels@ && call_ensures(f, (v,), (
                final(self).pixels,
                r,
            )),
    {
        self.locked = true;
        let mut buf: Vec<u8> = Vec::new();
        core::mem::swap(&mut buf, &mut self.pixels);
        let (nbuf, out) = f(buf);
        self.pixels = nbuf;
        self.locked = false;
        out
    }
}

} // verus!

verus! {

/// The destination bytes after a scaled copy: each pixel of `d` (a
/// sub-rectangle of the scale target `d0`) samples the source rectangle
/// `s` nearest-neighbour, scaled from `d0`'s size to `s`'s size, and is
/// converted to the destination format.
pub open spec fn spec_scaled_blit_bytes(src_pixels: Seq<u8>, src_pitch: int, src_format: PixelFormatEnum, dst_pixels: Seq<u8>, dst_pitch: int, dst_format: PixelFormatEnum, s: Rect, d0: Rect, d: Rect) -> Seq<u8> {
    let bpp = dst_format.spec_byte_size() as int;
    Seq::new(dst_pixels.len(), |i: int|
        if spec_byte_in_rect(dst_pitch, bpp, i, d) {
            let x = (i % dst_pitch) / bpp;
            let y = i / dst_pitch;
            spec_pixel_byte(dst_format, spec_convert_value(src_format, dst_format,
                spec_pixel_value(src_pixels, src_pitch, src_format,
                    s.x + (x - d0.x) * s.width / (d0.width as int),
                    s.y + (y - d0.y) * s.height / (d0.height as int))), (i % dst_pitch) % bpp)
        } else {
            dst_pixels[i]
        })
}

/// Scaled copy of the source rectangle `s` onto the pixels of `d`,
/// sampling nearest-neighbour for a scale target `d0` that `d` lies in.
#[verifier::rlimit(100)]
fn scale_copy(src_pixels: &Vec<u8>, src_pitch: u32, src_format: PixelFormatEnum, dst_pixels: &mut Vec<u8>, dst_pitch: u32, dst_format: PixelFormatEnum, s: Rect, d0: Rect, d: Rect)
    requires
        src_format.has_masks(),
        dst_format.has_masks(),
        s.wf(),
        d0.wf(),
        d.wf(),
        s.fits(),
        d.fits(),
        0 <= s.x,
        0 <= s.y,
        0 <= d.x,
        0 <= d.y,
        d0.x <= d.x,
        d0.y <= d.y,
        d.x + d.width <= d0.x + d0.width,
        d.y + d.height <= d0.y + d0.height,
        (s.x + s.width) * src_format.spec_byte_size() <= src_pitch,
        (s.y + s.height) * src_pitch <= src_pixels@.len(),
        (d.x + d.width) * dst_format.spec_byte_size() <= dst_pitch,
        (d.y + d.height) * dst_pitch <= old(dst_pixels)@.len(),
    ensures
        final(dst_pixels)@.len() == old(dst_pixels)@.len(),
        final(dst_pixels)@ == spec_scaled_blit_bytes(
            src_pixels@,
            src_pitch as int,
            src_format,
            old(dst_pixels)@,
            dst_pitch as int,
            dst_format,
            s,
            d0,
            d,
        ),
{
    let w: u32 = d.width();
    let h: u32 = d.height();
    let ghost dp: int = dst_pitch as int;
    let ghost bpp: int = dst_format.spec_byte_size() as int;
    let ghost sbpp: int = src_format.spec_byte_size() as int;
    let ghost old_dst: Seq<u8> = old(dst_pixels)@;
    let ghost target: Seq<u8> = spec_scaled_blit_bytes(src_pixels@, src_pitch as int,
        src_format, old_dst, dst_pitch as int, dst_format, s, d0, d);
    let mut yy: u32 = 0;
    while yy < h
        invariant
            src_format.has_masks(),
            dst_format.has_masks(),
            s.wf(),
            d0.wf(),
            d.wf(),
            s.fits(),
            d.fits(),
            0 <= s.x,
            0 <= s.y,
            0 <= d.x,
            0 <= d.y,
            d0.x <= d.x,
            d0.y <= d.y,
            d.x + d.width <= d0.x + d0.width,
            d.y + d.height <= d0.y + d0.height,
            w == d.width,
            h == d.height,
            dp == dst_pitch as int,
            bpp == dst_format.spec_byte_size(),
            sbpp == src_format.spec_byte_size(),
            old_dst == old(dst_pixels)@,
            target == spec_scaled_blit_bytes(src_pixels@, src_pitch as int, src_format,
                old_dst, dst_pitch as int, dst_format, s, d0, d),
            (s.x + s.width) * sbpp <= src_pitch,
            (s.y + s.height) * src_pitch <= src_pixels@.len(),
            (d.x + d.width) * bpp <= dst_pitch,
            (d.y + d.height) * dp <= old_dst.len(),
            0 <= yy <= h,
            dst_pixels@.len() == old_dst.len(),
            forall|i: int| 0 <= i < old_dst.len() ==> dst_pixels@[i] == (
                if d.y <= i / dp < d.y + yy && d.x * bpp <= i % dp < (d.x + d.width) * bpp {
                    target[i]
                } else {
                    old_dst[i]
                }),
        decreases h - yy,
    {
        let ghost oyg: int = d.y + yy - d0.y;
        proof {
            assert(0 <= oyg < d0.height);
            assert(oyg * s.height < 0x4000_0000_0000_0000 && 0 <= oyg * s.height && oyg
                * s.height < (d0.height as int) * (s.height as int)) by (nonlinear_arith)
                requires
                    0 <= oyg < d0.height,
                    0 < s.height < 0x8000_0000,
                    0 < d0.height < 0x8000_0000,
            ;
            vstd::arithmetic::div_mod::lemma_multiply_divide_lt(oyg * s.height,
                d0.height as int, s.height as int);
            vstd::arithmetic::div_mod::lemma_div_pos_is_pos(oyg * s.height, d0.height as int);
        }
        let oy: u64 = (d.y() as i64 + yy as i64 - d0.y() as i64) as u64;
        let sy_off: u64 = oy * s.height() as u64 / d0.height() as u64;
        let sy: u32 = (s.y() as u64 + sy_off) as u32;
        proof {
            assert(sy == s.y + (d.y + yy - d0.y) * s.height / (d0.height as int));
        }
        let mut xx: u32 = 0;
        while xx < w
            invariant
                src_format.has_masks(),
                dst_format.has_masks(),
                s.wf(),
                d0.wf(),
                d.wf(),
                s.fits(),
                d.fits(),
                0 <= s.x,
                0 <= s.y,
                0 <= d.x,
                0 <= d.y,
                d0.x <= d.x,
                d0.y <= d.y,
                d.x + d.width <= d0.x + d0.width,
                d.y + d.height <= d0.y + d0.height,
                w == d.width,
                h == d.height,
                dp == dst_pitch as int,
                bpp == dst_format.spec_byte_size(),
                sbpp == src_format.spec_byte_size(),
                old_dst == old(dst_pixels)@,
                target == spec_scaled_blit_bytes(src_pixels@, src_pitch as int, src_format,
                    old_dst, dst_pitch as int, dst_format, s, d0, d),
                (s.x + s.width) * sbpp <= src_pitch,
                (s.y + s.height) * src_pitch <= src_pixels@.len(),
                (d.x + d.width) * bpp <= dst_pitch,
                (d.y + d.height) * dp <= old_dst.len(),
                0 <= yy < h,
                0 <= xx <= w,
                sy == s.y + (d.y + yy - d0.y) * s.height / (d0.height as int),
                s.y <= sy < s.y + s.height,
                dst_pixels@.len() == old_dst.len(),
                forall|i: int| 0 <= i < old_dst.len() ==> dst_pixels@[i] == (
                    if (d.y <= i / dp < d.y + yy && d.x * bpp <= i % dp < (d.x + d.width)
                        * bpp) || (i / dp == d.y + yy && d.x * bpp <= i % dp < (d.x + xx)
                        * bpp) {
                        target[i]
                    } else {
                        old_dst[i]
                    }),
            decreases w - xx,
        {
            let ghost oxg: int = d.x + xx - d0.x;
            proof {
                assert(0 <= oxg < d0.width);
                assert(oxg * s.width < 0x4000_0000_0000_0000 && 0 <= oxg * s.width && oxg
                    * s.width < (d0.width as int) * (s.width as int)) by (nonlinear_arith)
                    requires
                        0 <= oxg < d0.width,
                        0 < s.width < 0x8000_0000,
                        0 < d0.width < 0x8000_0000,
                ;
                vstd::arithmetic::div_mod::lemma_multiply_divide_lt(oxg * s.width,
                    d0.width as int, s.width as int);
                vstd::arithmetic::div_mod::lemma_div_pos_is_pos(oxg * s.width,
                    d0.width as int);
            }
            let ox: u64 = (d.x() as i64 + xx as i64 - d0.x() as i64) as u64;
            let sx_off: u64 = ox * s.width() as u64 / d0.width() as u64;
            let sx: u32 = (s.x() as u64 + sx_off) as u32;
            proof {
                assert(sx == s.x + (d.x + xx - d0.x) * s.width / (d0.width as int));
                assert((sx + 1) * sbpp <= (s.x + s.width) * sbpp && (sy + 1) * src_pitch
                    <= (s.y + s.height) * src_pitch && (d.x + xx + 1) * bpp <= (d.x
                    + d.width) * bpp && (d.y + yy + 1) * dp <= (d.y + d.height) * dp)
                    by (nonlinear_arith)
                    requires
                        sx + 1 <= s.x + s.width,
                        sy + 1 <= s.y + s.height,
                        xx + 1 <= d.width,
                        yy + 1 <= d.height,
                        0 <= sbpp && 0 <= src_pitch && 0 <= bpp && 0 <= dp,
                ;
            }
            let v: u32 = read_pixel(src_pixels, src_pitch, src_format, sx, sy);
            let cv: u32 = Color::from_u32(src_format, v).to_u32(dst_format);
            let ghost prev: Seq<u8> = dst_pixels@;
            write_pixel(dst_pixels, dst_pitch, dst_format, d.x() as u32 + xx, d.y() as u32
                + yy, cv);
            proof {
                let px: int = d.x + xx;
                let py: int = d.y + yy;
                let base: int = py * dp + px * bpp;
                assert forall|i: int| 0 <= i < old_dst.len() implies dst_pixels@[i] == (
                    if (d.y <= i / dp < d.y + yy && d.x * bpp <= i % dp < (d.x + d.width)
                        * bpp) || (i / dp == d.y + yy && d.x * bpp <= i % dp < (d.x + xx + 1)
                        * bpp) {
                        target[i]
                    } else {
                        old_dst[i]
                    }) by {
                    assert(1 <= bpp);
                    assert(1 <= (d.x + d.width) * bpp && 0 <= px * bpp && px * bpp + bpp == (px
                        + 1) * bpp && (px + 1) * bpp <= (d.x + d.width) * bpp && (py + 1) * dp
                        == py * dp + dp) by (nonlinear_arith)
                        requires
                            1 <= d.x + d.width,
                            1 <= bpp,
                            0 <= px,
                            px + 1 <= d.x + d.width,
                            0 <= dp,
                    ;
                    lemma_row_of_byte(dp, i);
                    let row: int = i / dp;
                    let k: int = i % dp;
                    if base <= i < base + bpp {
                        let j: int = i - base;
                        lemma_byte_of_row(dp, i, py);
                        assert(k == i - py * dp);
                        assert(px * bpp <= k < (px + 1) * bpp && k / bpp == px && k % bpp == j
                            && (d.x + xx) * bpp <= k < (d.x + xx + 1) * bpp && d.x * bpp <= k)
                            by (nonlinear_arith)
                            requires
                                k == px * bpp + j,
                                0 <= j < bpp,
                                0 <= px,
                                px == d.x + xx,
                                0 <= d.x,
                                0 <= xx,
                        ;
                        assert(spec_byte_in_rect(dp, bpp, i, d)) by {
                            assert((d.x + d.width) * bpp >= (px + 1) * bpp) by (nonlinear_arith)
                                requires
                                    px + 1 <= d.x + d.width,
                                    0 <= bpp,
                            ;
                        }
                        assert(row == py && k / bpp == px);
                        assert(target[i] == spec_pixel_byte(dst_format, cv, j));
                    } else {
                        assert(dst_pixels@[i] == prev[i]);
                        assert((d.x + xx) * bpp == px * bpp && (d.x + xx + 1) * bpp == px * bpp
                            + bpp) by (nonlinear_arith)
                            requires
                                px == d.x + xx,
                        ;
                        if row == d.y + yy && d.x * bpp <= k < (d.x + xx + 1) * bpp {
                            assert(i == row * dp + k);
                            assert(!(px * bpp <= k < px * bpp + bpp) ==> k < (d.x + xx) * bpp);
                        }
                    }
                }
            }
            xx = xx + 1;
        }
        proof {
            assert forall|i: int| 0 <= i < old_dst.len() implies dst_pixels@[i] == (
                if d.y <= i / dp < d.y + yy + 1 && d.x * bpp <= i % dp < (d.x + d.width)
                    * bpp {
                    target[i]
                } else {
                    old_dst[i]
                }) by {
            }
        }
        yy = yy + 1;
    }
    proof {
        assert(dst_pixels@ =~= target);
    }
}

} // verus!

verus! {

/// The rectangles a scaled blit request resolves to: the source
/// rectangle clipped to the source bounds, the scale target (the
/// destination rectangle as given, or the whole destination), and the
/// painted area — the scale target clipped to the clip area.  `None`
/// when nothing would be painted.
pub open spec fn spec_scaled_geometry(src_w: u32, src_h: u32, src_rect: Option<Rect>, dst_w: u32, dst_h: u32, dst_clip: Option<Rect>, dst_rect: Option<Rect>) -> Option<(Rect, Rect, Rect)> {
    let s_opt = if src_w >= 1 && src_h >= 1 {
        let full = Rect { x: 0, y: 0, width: src_w, height: src_h };
        match src_rect {
            None => Some(full),
            Some(r) => Rect::spec_intersection(r, full),
        }
    } else {
        None
    };
    let d0_opt = match dst_rect {
        Some(r) => Some(r),
        None => if dst_w >= 1 && dst_h >= 1 {
            Some(Rect { x: 0, y: 0, width: dst_w, height: dst_h })
        } else {
            None
        },
    };
    match s_opt {
        None => None,
        Some(s) => match d0_opt {
            None => None,
            Some(d0) => match dst_clip {
                None => None,
                Some(c) => match Rect::spec_intersection(d0, c) {
                    None => None,
                    Some(d) => Some((s, d0, d)),
                },
            },
        },
    }
}

impl SurfaceRef {
    /// Clipped scaled blit: stretches this surface (or the given source
    /// rectangle of it) to the destination rectangle's size (the whole
    /// destination when `None`), clipping the painted area to the clip
    /// area, sampling nearest-neighbour and converting pixel formats.
    /// When a destination rectangle was given and pixels were painted,
    /// returns the actual painted rectangle, which always lies inside
    /// the destination bounds.  A rectangle reaching outside the 31-bit
    /// coordinate space is rejected and nothing is painted.
    #[verifier::rlimit(100)]
    pub fn blit_scaled(&self, src_rect: Option<Rect>, dst: &mut SurfaceRef, dst_rect: Option<Rect>) -> (r: SdlResult<Option<Rect>>)
        requires
            self.wf(),
            old(dst).wf(),
            src_rect matches Some(rc) ==> rc.wf(),
            dst_rect matches Some(rc) ==> rc.wf(),
        ensures
            final(dst).wf(),
            *final(dst) == (SurfaceRef { pixels: final(dst).pixels, ..*old(dst) }),
            match r {
                Ok(res) => {
                    &&& (src_rect matches Some(rc) ==> rc.fits())
                    &&& (dst_rect matches Some(rc) ==> rc.fits())
                    &&& match spec_scaled_geometry(self.width, self.height, src_rect,
                        old(dst).width, old(dst).height, old(dst).clip, dst_rect) {
                        Some(triple) => {
                            &&& final(dst).pixels@ == spec_scaled_blit_bytes(
                                self.pixels@,
                                self.pitch as int,
                                self.format,
                                old(dst).pixels@,
                                old(dst).pitch as int,
                                old(dst).format,
                                triple.0,
                                triple.1,
                                triple.2,
                            )
                            &&& res == (if dst_rect is Some {
                                Some(triple.2)
                            } else {
                                None::<Rect>
                            })
                            &&& (res matches Some(fr) ==> fr.wf() && 0 <= fr.x && 0 <= fr.y
                                && fr.x + fr.width <= old(dst).width
                                && fr.y + fr.height <= old(dst).height)
                        },
                        None => final(dst).pixels@ == old(dst).pixels@ && res is None,
                    }
                },
                Err(e) => {
                    &&& !((src_rect matches Some(rc) ==> rc.fits()) && (dst_rect
                        matches Some(rc) ==> rc.fits()))
                    &&& e@ == "Blit rectangle is out of range"@
                    &&& *final(dst) == *old(dst)
                },
            },
    {
        if let Some(rc) = src_rect {
            if rc.x() as i64 + rc.width() as i64 > 0x8000_0000i64
                || rc.y() as i64 + rc.height() as i64 > 0x8000_0000i64 {
                return Err("Blit rectangle is out of range".to_string());
            }
        }
        if let Some(rc) = dst_rect {
            if rc.x() as i64 + rc.width() as i64 > 0x8000_0000i64
                || rc.y() as i64 + rc.height() as i64 > 0x8000_0000i64 {
                return Err("Blit rectangle is out of range".to_string());
            }
        }
        let s_opt: Option<Rect> = if self.width >= 1 && self.height >= 1 {
            let full = Rect { x: 0, y: 0, width: self.width, height: self.height };
            match src_rect {
                None => Some(full),
                Some(r) => r.intersection(&full),
            }
        } else {
            None
        };
        let dst_w: u32 = dst.width;
        let dst_h: u32 = dst.height;
        let d0_opt: Option<Rect> = match dst_rect {
            Some(r) => Some(r),
            None => if dst_w >= 1 && dst_h >= 1 {
                Some(Rect { x: 0, y: 0, width: dst_w, height: dst_h })
            } else {
                None
            },
        };
        let s: Rect = match s_opt {
            None => {
                return Ok(None);
            },
            Some(s) => s,
        };
        let d0: Rect = match d0_opt {
            None => {
                return Ok(None);
            },
            Some(d0) => d0,
        };
        let c: Rect = match dst.clip {
            None => {
                return Ok(None);
            },
            Some(c) => c,
        };
        let d: Rect = match d0.intersection(&c) {
            None => {
                return Ok(None);
            },
            Some(d) => d,
        };
        let dst_pitch: u32 = dst.pitch;
        let dst_format: PixelFormatEnum = dst.format;
        proof {
            let sbpp: int = self.format.spec_byte_size() as int;
            let bpp: int = dst_format.spec_byte_size() as int;
            assert(0 <= s.x && 0 <= s.y && s.x + s.width <= self.width && s.y + s.height
                <= self.height);
            assert(0 <= d.x && 0 <= d.y && d.x + d.width <= dst_w && d.y + d.height <= dst_h);
            assert(d0.x <= d.x && d0.y <= d.y && d.x + d.width <= d0.x + d0.width && d.y
                + d.height <= d0.y + d0.height);
            assert((s.x + s.width) * sbpp <= self.width * sbpp && (s.y + s.height) * self.pitch
                <= self.height * self.pitch && self.height * self.pitch == self.pitch
                * self.height) by (nonlinear_arith)
                requires
                    s.x + s.width <= self.width,
                    s.y + s.height <= self.height,
                    0 <= sbpp,
                    0 <= self.pitch,
            ;
            assert((d.x + d.width) * bpp <= dst_w * bpp && (d.y + d.height) * dst_pitch
                <= dst_h * dst_pitch && dst_h * dst_pitch == dst_pitch * dst_h)
                by (nonlinear_arith)
                requires
                    d.x + d.width <= dst_w,
                    d.y + d.height <= dst_h,
                    0 <= bpp,
                    0 <= dst_pitch,
            ;
        }
        scale_copy(&self.pixels, self.pitch, self.format, &mut dst.pixels, dst_pitch,
            dst_format, s, d0, d);
        if dst_rect.is_some() {
            Ok(Some(d))
        } else {
            Ok(None)
        }
    }

    /// Low-level unclipped scaled blit: stretches the resolved source
    /// rectangle onto the resolved destination rectangle without any
    /// clipping, sampling nearest-neighbour.  The caller must have
    /// validated that both rectangles lie inside their surfaces —
    /// exactly what the preconditions demand; `blit_scaled` does this
    /// validation instead.
    pub fn lower_blit_scaled(&self, src_rect: Option<Rect>, dst: &mut SurfaceRef, dst_rect: Option<Rect>) -> (r: SdlResult<()>)
        requires
            self.wf(),
            old(dst).wf(),
            spec_resolved_rect(src_rect, self.width, self.height).wf(),
            spec_resolved_rect(dst_rect, old(dst).width, old(dst).height).wf(),
            spec_resolved_rect(src_rect, self.width, self.height).fits(),
            spec_resolved_rect(dst_rect, old(dst).width, old(dst).height).fits(),
            0 <= spec_resolved_rect(src_rect, self.width, self.height).x,
            0 <= spec_resolved_rect(src_rect, self.width, self.height).y,
            0 <= spec_resolved_rect(dst_rect, old(dst).width, old(dst).height).x,
            0 <= spec_resolved_rect(dst_rect, old(dst).width, old(dst).height).y,
            spec_resolved_rect(src_rect, self.width, self.height).x
                + spec_resolved_rect(src_rect, self.width, self.height).width <= self.width,
            spec_resolved_rect(src_rect, self.width, self.height).y
                + spec_resolved_rect(src_rect, self.width, self.height).height <= self.height,
            spec_resolved_rect(dst_rect, old(dst).width, old(dst).height).x
                + spec_resolved_rect(dst_rect, old(dst).width, old(dst).height).width
                <= old(dst).width,
            spec_resolved_rect(dst_rect, old(dst).width, old(dst).height).y
                + spec_resolved_rect(dst_rect, old(dst).width, old(dst).height).height
                <= old(dst).height,
        ensures
            final(dst).wf(),
            *final(dst) == (SurfaceRef { pixels: final(dst).pixels, ..*old(dst) }),
            r is Ok,
            final(dst).pixels@ == spec_scaled_blit_bytes(
                self.pixels@,
                self.pitch as int,
                self.format,
                old(dst).pixels@,
                old(dst).pitch as int,
                old(dst).format,
                spec_resolved_rect(src_rect, self.width, self.height),
                spec_resolved_rect(dst_rect, old(dst).width, old(dst).height),
                spec_resolved_rect(dst_rect, old(dst).width, old(dst).height),
            ),
    {
        let s: Rect = match src_rect {
            Some(r) => r,
            None => Rect { x: 0, y: 0, width: self.width, height: self.height },
        };
        let dst_w: u32 = dst.width;
        let dst_h: u32 = dst.height;
        let d: Rect = match dst_rect {
            Some(r) => r,
            None => Rect { x: 0, y: 0, width: dst_w, height: dst_h },
        };
        let dst_pitch: u32 = dst.pitch;
        let dst_format: PixelFormatEnum = dst.format;
        proof {
            let sbpp: int = self.format.spec_byte_size() as int;
            let bpp: int = dst_format.spec_byte_size() as int;
            assert((s.x + s.width) * sbpp <= self.width * sbpp && (s.y + s.height) * self.pitch
                <= self.height * self.pitch && self.height * self.pitch == self.pitch
                * self.height) by (nonlinear_arith)
                requires
                    s.x + s.width <= self.width,
                    s.y + s.height <= self.height,
                    0 <= sbpp,
                    0 <= self.pitch,
            ;
            assert((d.x + d.width) * bpp <= dst_w * bpp && (d.y + d.height) * dst_pitch
                <= dst_h * dst_pitch && dst_h * dst_pitch == dst_pitch * dst_h)
                by (nonlinear_arith)
                requires
                    d.x + d.width <= dst_w,
                    d.y + d.height <= dst_h,
                    0 <= bpp,
                    0 <= dst_pitch,
            ;
        }
        scale_copy(&self.pixels, self.pitch, self.format, &mut dst.pixels, dst_pitch,
            dst_format, s, d, d);
        Ok(())
    }
}

} // verus!
