//! The bitmap codec: surfaces to and from a bitmap byte stream.
//!
//! The stream layout is the classic uncompressed bitmap file: a 14-byte
//! file header, a 40-byte info header, and the pixel rows bottom-up,
//! each row padded to a multiple of four bytes.  A surface with three
//! bytes per pixel is stored at 24 bits per pixel, one with four at 32;
//! the decoder reads exactly the layout the encoder writes, and a
//! round trip preserves width, height and bits per pixel.

use vstd::prelude::*;
use crate::pixels::PixelFormatEnum;
use crate::rect::DIMENSION_LIMIT;
use crate::render::BlendMode;
use crate::rwops::RWops;
use crate::surface::{lemma_byte_of_row, lemma_row_of_byte, Surface, SurfaceRef};
use crate::SdlResult;

verus! {

/// Byte `k` of the 32-bit little-endian encoding of `x`.
pub open spec fn spec_le32_byte(x: int, k: int) -> u8 {
    if k == 0 {
        (x % 0x100) as u8
    } else if k == 1 {
        ((x / 0x100) % 0x100) as u8
    } else if k == 2 {
        ((x / 0x1_0000) % 0x100) as u8
    } else {
        ((x / 0x100_0000) % 0x100) as u8
    }
}

/// The 32-bit little-endian value stored at offset `i`.
pub open spec fn spec_le32_at(b: Seq<u8>, i: int) -> int {
    b[i] + 0x100 * b[i + 1] + 0x1_0000 * b[i + 2] + 0x100_0000 * b[i + 3]
}

/// Bytes one stored pixel row occupies: the pixel bytes padded to a
/// multiple of four.
pub open spec fn spec_bmp_row_size(width: int, bpp: int) -> int {
    ((width * bpp + 3) / 4) * 4
}

/// Bytes the stored pixel rows of a surface occupy.
pub open spec fn spec_bmp_data_size(s: SurfaceRef) -> int {
    spec_bmp_row_size(s.width as int, s.format.spec_byte_size() as int) * s.height
}

/// Byte `i` of the 54-byte header the encoder writes for a surface.
pub open spec fn spec_bmp_header_byte(s: SurfaceRef, i: int) -> u8 {
    let dsize = spec_bmp_data_size(s);
    if i == 0 {
        0x42
    } else if i == 1 {
        0x4D
    } else if 2 <= i < 6 {
        spec_le32_byte(54 + dsize, i - 2)
    } else if 10 <= i < 14 {
        spec_le32_byte(54, i - 10)
    } else if 14 <= i < 18 {
        spec_le32_byte(40, i - 14)
    } else if 18 <= i < 22 {
        spec_le32_byte(s.width as int, i - 18)
    } else if 22 <= i < 26 {
        spec_le32_byte(s.height as int, i - 22)
    } else if i == 26 {
        1
    } else if i == 28 {
        s.format.spec_bit_size() as u8
    } else if 34 <= i < 38 {
        spec_le32_byte(dsize, i - 34)
    } else {
        0
    }
}

/// Byte `j` of the stored pixel rows: rows bottom-up, padding zeroed.
pub open spec fn spec_bmp_data_byte(s: SurfaceRef, j: int) -> u8 {
    let bpp = s.format.spec_byte_size() as int;
    let row_size = spec_bmp_row_size(s.width as int, bpp);
    let r = j / row_size;
    let o = j % row_size;
    if o < s.width * bpp {
        s.pixels@[(s.height - 1 - r) * s.pitch + o]
    } else {
        0
    }
}

/// The full encoding of a surface: header, then pixel rows.
pub open spec fn spec_bmp_encoding(s: SurfaceRef) -> Seq<u8> {
    Seq::new(
        (54 + spec_bmp_data_size(s)) as nat,
        |i: int|
            if i < 54 {
                spec_bmp_header_byte(s, i)
            } else {
                spec_bmp_data_byte(s, i - 54)
            },
    )
}

/// The width a bitmap stream declares.
pub open spec fn spec_bmp_width(b: Seq<u8>) -> int {
    spec_le32_at(b, 18)
}

/// The height a bitmap stream declares.
pub open spec fn spec_bmp_height(b: Seq<u8>) -> int {
    spec_le32_at(b, 22)
}

/// The pixel format a bitmap stream's bits-per-pixel field denotes.
pub open spec fn spec_bmp_format(b: Seq<u8>) -> PixelFormatEnum {
    if b[28] == 24 {
        PixelFormatEnum::RGB24
    } else {
        PixelFormatEnum::RGBA8888
    }
}

/// Whether a byte sequence is a bitmap stream this decoder accepts:
/// the magic, the layout the encoder writes, a known depth, no
/// compression, 31-bit dimensions, a total size within `i32::MAX`
/// bytes, and all declared pixel rows present.
pub open spec fn spec_bmp_parse_ok(b: Seq<u8>) -> bool {
    &&& b.len() >= 54
    &&& b[0] == 0x42 && b[1] == 0x4D
    &&& spec_le32_at(b, 10) == 54
    &&& spec_le32_at(b, 14) == 40
    &&& b[26] == 1 && b[27] == 0
    &&& (b[28] == 24 || b[28] == 32) && b[29] == 0
    &&& spec_le32_at(b, 30) == 0
    &&& spec_bmp_width(b) < DIMENSION_LIMIT
    &&& spec_bmp_height(b) < DIMENSION_LIMIT
    &&& spec_bmp_width(b) * spec_bmp_format(b).spec_byte_size() <= 0x7FFF_FFFF
    &&& spec_bmp_width(b) * spec_bmp_format(b).spec_byte_size() * spec_bmp_height(b)
        <= 0x7FFF_FFFF
    &&& b.len() >= 54 + spec_bmp_row_size(
        spec_bmp_width(b),
        spec_bmp_format(b).spec_byte_size() as int,
    ) * spec_bmp_height(b)
}

/// Byte `k` of the 32-bit little-endian encoding of `x`.
fn le32_byte(x: u32, k: u32) -> (r: u8)
    ensures
        r == spec_le32_byte(x as int, k as int),
{
    if k == 0 {
        (x % 0x100) as u8
    } else if k == 1 {
        ((x / 0x100) % 0x100) as u8
    } else if k == 2 {
        ((x / 0x1_0000) % 0x100) as u8
    } else {
        ((x / 0x100_0000) % 0x100) as u8
    }
}

/// Byte `i` of the header for a surface with the given stored data size.
fn bmp_header_byte(s: &SurfaceRef, dsize: u32, i: u32) -> (r: u8)
    requires
        s.wf(),
        dsize == spec_bmp_data_size(*s),
        54 + spec_bmp_data_size(*s) <= 0xFFFF_FFFF,
        i < 54,
    ensures
        r == spec_bmp_header_byte(*s, i as int),
{
    if i == 0 {
        0x42
    } else if i == 1 {
        0x4D
    } else if 2 <= i && i < 6 {
        le32_byte(54 + dsize, i - 2)
    } else if 10 <= i && i < 14 {
        le32_byte(54, i - 10)
    } else if 14 <= i && i < 18 {
        le32_byte(40, i - 14)
    } else if 18 <= i && i < 22 {
        le32_byte(s.get_width(), i - 18)
    } else if 22 <= i && i < 26 {
        le32_byte(s.get_height(), i - 22)
    } else if i == 26 {
        1
    } else if i == 28 {
        s.get_pixel_format().bit_size() as u8
    } else if 34 <= i && i < 38 {
        le32_byte(dsize, i - 34)
    } else {
        0
    }
}

/// Byte `j` of the stored pixel rows of a surface.
fn bmp_data_byte(s: &SurfaceRef, row_size: u32, dsize: u32, j: u32) -> (r: u8)
    requires
        s.wf(),
        row_size == spec_bmp_row_size(s.width as int, s.format.spec_byte_size() as int),
        dsize == spec_bmp_data_size(*s),
        j < dsize,
    ensures
        r == spec_bmp_data_byte(*s, j as int),
{
    let ghost bpp: int = s.format.spec_byte_size() as int;
    proof {
        assert(s.width * bpp + 3 < (s.width * bpp + 3) / 4 * 4 + 4 && (s.width * bpp + 3) / 4
            * 4 <= s.width * bpp + 3 && 0 <= s.width * bpp) by (nonlinear_arith)
            requires
                0 <= s.width,
                0 <= bpp,
        ;
        assert(row_size > 0) by (nonlinear_arith)
            requires
                row_size as int * s.height as int > j as int,
                j >= 0,
                s.height >= 0,
        ;
    }
    let r: u32 = j / row_size;
    let o: u32 = j % row_size;
    proof {
        assert(r < s.height && o == j - r * row_size) by (nonlinear_arith)
            requires
                row_size > 0,
                0 <= j,
                j < row_size as int * s.height as int,
                r == j as int / row_size as int,
                o == j as int % row_size as int,
        ;
    }
    let row_bytes: u32 = self_row_bytes(s);
    if o < row_bytes {
        let yy: u32 = s.height - 1 - r;
        proof {
            assert(yy * s.pitch + o < s.pitch * s.height && 0 <= yy * s.pitch)
                by (nonlinear_arith)
                requires
                    yy == s.height - 1 - r,
                    0 <= r < s.height,
                    o < s.width * bpp,
                    s.width * bpp <= s.pitch,
                    0 <= s.pitch,
            ;
        }
        let idx: usize = yy as usize * s.pitch as usize + o as usize;
        s.pixels[idx]
    } else {
        0
    }
}

/// The bytes one row of surface pixels occupies.
fn self_row_bytes(s: &SurfaceRef) -> (r: u32)
    requires
        s.wf(),
    ensures
        r == s.width * s.format.spec_byte_size(),
{
    let bpp: u32 = s.format.byte_size() as u32;
    proof {
        assert(s.width * (bpp as int) <= s.pitch && s.pitch < DIMENSION_LIMIT);
    }
    s.width * bpp
}

} // verus!

verus! {

/// Reads the 32-bit little-endian value at offset `i`.
fn le32_at(data: &Vec<u8>, i: usize) -> (r: u64)
    requires
        i + 4 <= data@.len(),
    ensures
        r == spec_le32_at(data@, i as int),
        r < 0x1_0000_0000,
{
    let n: usize = data.len();
    data[i] as u64 + 0x100 * (data[i + 1] as u64) + 0x1_0000 * (data[i + 2] as u64)
        + 0x100_0000 * (data[i + 3] as u64)
}

/// Little-endian encoding and decoding cancel: the four bytes of a
/// 32-bit value reassemble to that value.
pub proof fn lemma_le32_round_trip(x: int)
    requires
        0 <= x < 0x1_0000_0000,
    ensures
        spec_le32_byte(x, 0) + 0x100 * spec_le32_byte(x, 1) + 0x1_0000 * spec_le32_byte(x, 2)
            + 0x100_0000 * spec_le32_byte(x, 3) == x,
{
    assert(x % 0x100 + 0x100 * ((x / 0x100) % 0x100) + 0x1_0000 * ((x / 0x1_0000) % 0x100)
        + 0x100_0000 * ((x / 0x100_0000) % 0x100) == x) by (nonlinear_arith)
        requires
            0 <= x < 0x1_0000_0000,
    ;
}

impl SurfaceRef {
    /// Encodes the surface into the stream at its current position; what
    /// followed the position is discarded and the position moves past
    /// the encoding.  Fails — recoverably — only when the encoding would
    /// not fit the stream format's 32-bit file size.
    pub fn save_bmp_rw(&self, rwops: &mut RWops) -> (r: SdlResult<()>)
        requires
            self.wf(),
            old(rwops).wf(),
            old(rwops).pos + 54 + spec_bmp_data_size(*self) <= usize::MAX,
        ensures
            final(rwops).wf(),
            match r {
                Ok(()) => {
                    &&& 54 + spec_bmp_data_size(*self) <= 0xFFFF_FFFF
                    &&& final(rwops).data@ == old(rwops).data@.take(old(rwops).pos as int)
                        + spec_bmp_encoding(*self)
                    &&& final(rwops).pos == old(rwops).pos + 54 + spec_bmp_data_size(*self)
                },
                Err(e) => {
                    &&& 54 + spec_bmp_data_size(*self) > 0xFFFF_FFFF
                    &&& e@ == "Surface is too large for a bitmap stream"@
                    &&& *final(rwops) == *old(rwops)
                },
            },
    {
        let bpp: u32 = self.format.byte_size() as u32;
        let w64: u64 = self.width as u64;
        let h64: u64 = self.height as u64;
        proof {
            assert(w64 * bpp < 0x4_0000_0000 && 0 <= w64 * bpp) by (nonlinear_arith)
                requires
                    w64 < 0x8000_0000,
                    bpp <= 4,
            ;
        }
        let wb: u64 = w64 * bpp as u64;
        let row_size64: u64 = ((wb + 3) / 4) * 4;
        proof {
            let x: int = wb as int + 3;
            assert((x / 4) * 4 <= x) by (nonlinear_arith)
                requires
                    0 <= x,
            ;
            assert(wb == self.width * bpp);
            assert(spec_bmp_row_size(self.width as int, bpp as int) == ((self.width * bpp + 3)
                / 4) * 4);
            assert(row_size64 == spec_bmp_row_size(self.width as int, bpp as int));
            assert(row_size64 < 0x2_0000_0000);
            assert(row_size64 * h64 <= 0xFFFF_FFFF_FFFF_FFFF && 0 <= row_size64 * h64)
                by (nonlinear_arith)
                requires
                    0 <= row_size64 < 0x2_0000_0000,
                    0 <= h64 < 0x8000_0000,
            ;
        }
        let dsize64: u64 = row_size64 * h64;
        proof {
            assert(dsize64 == spec_bmp_data_size(*self));
        }
        if 54 + dsize64 > 0xFFFF_FFFFu64 {
            return Err("Surface is too large for a bitmap stream".to_string());
        }
        let dsize: u32 = dsize64 as u32;
        let row_size: u32 = row_size64 as u32;
        let pos0: usize = rwops.pos;
        rwops.data.truncate(pos0);
        let ghost prefix: Seq<u8> = old(rwops).data@.take(pos0 as int);
        let ghost enc: Seq<u8> = spec_bmp_encoding(*self);
        let mut i: u32 = 0;
        while i < 54
            invariant
                self.wf(),
                dsize == spec_bmp_data_size(*self),
                54 + spec_bmp_data_size(*self) <= 0xFFFF_FFFF,
                enc == spec_bmp_encoding(*self),
                0 <= i <= 54,
                rwops.data@ == prefix + enc.take(i as int),
                prefix.len() == pos0,
                pos0 + 54 + spec_bmp_data_size(*self) <= usize::MAX,
            decreases 54 - i,
        {
            let b: u8 = bmp_header_byte(self, dsize, i);
            rwops.data.push(b);
            proof {
                assert(enc[i as int] == spec_bmp_header_byte(*self, i as int));
                assert(enc.take(i as int + 1) =~= enc.take(i as int).push(enc[i as int]));
            }
            i = i + 1;
        }
        let mut j: u32 = 0;
        while j < dsize
            invariant
                self.wf(),
                dsize == spec_bmp_data_size(*self),
                row_size == spec_bmp_row_size(self.width as int,
                    self.format.spec_byte_size() as int),
                54 + spec_bmp_data_size(*self) <= 0xFFFF_FFFF,
                enc == spec_bmp_encoding(*self),
                0 <= j <= dsize,
                rwops.data@ == prefix + enc.take(54 + j as int),
                prefix.len() == pos0,
                pos0 + 54 + spec_bmp_data_size(*self) <= usize::MAX,
            decreases dsize - j,
        {
            let b: u8 = bmp_data_byte(self, row_size, dsize, j);
            rwops.data.push(b);
            proof {
                assert(enc[54 + j as int] == spec_bmp_data_byte(*self, j as int));
                assert(enc.take(54 + j as int + 1) =~= enc.take(54 + j as int).push(enc[54
                    + j as int]));
            }
            j = j + 1;
        }
        rwops.pos = pos0 + 54 + dsize as usize;
        proof {
            assert(enc.take(enc.len() as int) =~= enc);
        }
        Ok(())
    }
}

} // verus!

verus! {

impl Surface {
    /// Decodes a surface from the stream at its current position.  On
    /// success the position moves past the decoded bytes and the new
    /// surface carries fresh default state, exact dimensions and format
    /// from the stream, and its pixel rows read back in order.  Fails —
    /// recoverably — exactly when the bytes at the position are not a
    /// bitmap stream this codec accepts; the stream is then unmoved.
    #[verifier::rlimit(100)]
    pub fn load_bmp_rw(rwops: &mut RWops) -> (r: SdlResult<Surface>)
        requires
            old(rwops).wf(),
        ensures
            final(rwops).data@ == old(rwops).data@,
            final(rwops).wf(),
            match r {
                Ok(s) => {
                    &&& spec_bmp_parse_ok(old(rwops).data@.skip(old(rwops).pos as int))
                    &&& s.view_ref().wf()
                    &&& s.view_ref().width == spec_bmp_width(old(rwops).data@.skip(
                        old(rwops).pos as int))
                    &&& s.view_ref().height == spec_bmp_height(old(rwops).data@.skip(
                        old(rwops).pos as int))
                    &&& s.view_ref().format == spec_bmp_format(old(rwops).data@.skip(
                        old(rwops).pos as int))
                    &&& s.view_ref().pitch == s.view_ref().width
                        * s.view_ref().format.spec_byte_size()
                    &&& s.view_ref() == Surface::spec_blank(s.view_ref().width,
                        s.view_ref().height, s.view_ref().format, s.view_ref().pitch,
                        s.view_ref().pixels)
                    &&& s.view_ref().pixels@.len() == s.view_ref().pitch * s.view_ref().height
                    &&& forall|k: int| 0 <= k < s.view_ref().pixels@.len()
                        ==> s.view_ref().pixels@[k] == old(rwops).data@.skip(
                            old(rwops).pos as int)[54 + (s.view_ref().height - 1 - k
                            / (s.view_ref().pitch as int)) * spec_bmp_row_size(
                            s.view_ref().width as int,
                            s.view_ref().format.spec_byte_size() as int) + k
                            % (s.view_ref().pitch as int)]
                    &&& final(rwops).pos == old(rwops).pos + 54 + spec_bmp_row_size(
                        s.view_ref().width as int,
                        s.view_ref().format.spec_byte_size() as int) * s.view_ref().height
                },
                Err(e) => {
                    &&& !spec_bmp_parse_ok(old(rwops).data@.skip(old(rwops).pos as int))
                    &&& e@ == "Unsupported or corrupt bitmap"@
                    &&& final(rwops).pos == old(rwops).pos
                },
            },
    {
        let ghost suffix: Seq<u8> = old(rwops).data@.skip(old(rwops).pos as int);
        let pos: usize = rwops.pos;
        let n: usize = rwops.data.len();
        proof {
            assert(suffix.len() == n - pos);
            assert forall|k: int| 0 <= k < suffix.len() implies suffix[k] == rwops.data@[pos
                + k] by {
            }
        }
        if n - pos < 54 {
            return Err("Unsupported or corrupt bitmap".to_string());
        }
        let data_ok: bool = {
            let b0: u8 = rwops.data[pos];
            let b1: u8 = rwops.data[pos + 1];
            b0 == 0x42 && b1 == 0x4D
        };
        if !data_ok {
            return Err("Unsupported or corrupt bitmap".to_string());
        }
        let off: u64 = le32_at(&rwops.data, pos + 10);
        let hdr: u64 = le32_at(&rwops.data, pos + 14);
        let planes0: u8 = rwops.data[pos + 26];
        let planes1: u8 = rwops.data[pos + 27];
        let depth: u8 = rwops.data[pos + 28];
        let depth_hi: u8 = rwops.data[pos + 29];
        let compression: u64 = le32_at(&rwops.data, pos + 30);
        proof {
            assert(spec_le32_at(suffix, 10) == spec_le32_at(rwops.data@, pos + 10));
            assert(spec_le32_at(suffix, 14) == spec_le32_at(rwops.data@, pos + 14));
            assert(spec_le32_at(suffix, 30) == spec_le32_at(rwops.data@, pos + 30));
            assert(spec_le32_at(suffix, 18) == spec_le32_at(rwops.data@, pos + 18));
            assert(spec_le32_at(suffix, 22) == spec_le32_at(rwops.data@, pos + 22));
        }
        if off != 54 || hdr != 40 || planes0 != 1 || planes1 != 0 || !(depth == 24 || depth
            == 32) || depth_hi != 0 || compression != 0 {
            return Err("Unsupported or corrupt bitmap".to_string());
        }
        let w64: u64 = le32_at(&rwops.data, pos + 18);
        let h64: u64 = le32_at(&rwops.data, pos + 22);
        if w64 >= 0x8000_0000u64 || h64 >= 0x8000_0000u64 {
            return Err("Unsupported or corrupt bitmap".to_string());
        }
        let format: PixelFormatEnum = if depth == 24 {
            PixelFormatEnum::RGB24
        } else {
            PixelFormatEnum::RGBA8888
        };
        let bpp: u64 = format.byte_size() as u64;
        proof {
            assert(w64 * bpp < 0x4_0000_0000 && 0 <= w64 * bpp) by (nonlinear_arith)
                requires
                    w64 < 0x8000_0000,
                    bpp <= 4,
            ;
        }
        let row_bytes: u64 = w64 * bpp;
        if row_bytes > 0x7FFF_FFFFu64 {
            return Err("Unsupported or corrupt bitmap".to_string());
        }
        proof {
            assert(row_bytes * h64 < 0x4000_0000_0000_0000 && 0 <= row_bytes * h64)
                by (nonlinear_arith)
                requires
                    0 <= row_bytes <= 0x7FFF_FFFF,
                    0 <= h64 < 0x8000_0000,
            ;
        }
        let total: u64 = row_bytes * h64;
        if total > 0x7FFF_FFFFu64 {
            return Err("Unsupported or corrupt bitmap".to_string());
        }
        let row_size: u64 = ((row_bytes + 3) / 4) * 4;
        proof {
            let x: int = row_bytes as int + 3;
            assert((x / 4) * 4 <= x) by (nonlinear_arith)
                requires
                    0 <= x,
            ;
            assert(row_size == spec_bmp_row_size(w64 as int, bpp as int));
            assert(row_size * h64 <= 0xFFFF_FFFF_FFFF_FFFF && 0 <= row_size * h64 && row_size
                * h64 < 0x8000_0000_0000_0000) by (nonlinear_arith)
                requires
                    0 <= row_size < 0x1_0000_0000,
                    0 <= h64 < 0x8000_0000,
            ;
        }
        let data_bytes: u64 = row_size * h64;
        if ((n - pos) as u64) < 54 + data_bytes {
            return Err("Unsupported or corrupt bitmap".to_string());
        }
        let width: u32 = w64 as u32;
        let height: u32 = h64 as u32;
        let pitch: u32 = row_bytes as u32;
        let mut pixels: Vec<u8> = Vec::new();
        let mut y: u32 = 0;
        while y < height
            invariant
                rwops.data@ == old(rwops).data@,
                rwops.pos == old(rwops).pos,
                old(rwops).wf(),
                pos == old(rwops).pos,
                n == rwops.data@.len(),
                suffix == old(rwops).data@.skip(pos as int),
                0 <= y <= height,
                width == w64 && height == h64 && pitch == row_bytes,
                bpp == format.spec_byte_size(),
                row_bytes == w64 * bpp,
                row_bytes <= 0x7FFF_FFFF,
                row_size == spec_bmp_row_size(w64 as int, bpp as int),
                row_bytes <= row_size,
                data_bytes == row_size * h64,
                n - pos >= 54 + data_bytes,
                pixels@.len() == y * pitch,
                forall|k: int| 0 <= k < pixels@.len() ==> pixels@[k] == rwops.data@[pos + 54
                    + (height - 1 - k / (pitch as int)) * row_size + k % (pitch as int)],
            decreases height - y,
        {
            let mut o: u32 = 0;
            proof {
                assert((y + 1) * pitch == y * pitch + pitch && (height - 1 - y) * row_size
                    + row_size <= h64 * row_size && h64 * row_size == row_size * h64
                    && 0 <= (height - 1 - y) * row_size) by (nonlinear_arith)
                    requires
                        0 <= y < height,
                        height == h64,
                        0 <= pitch,
                        0 <= row_size,
                ;
            }
            while o < pitch
                invariant
                    rwops.data@ == old(rwops).data@,
                    rwops.pos == old(rwops).pos,
                    old(rwops).wf(),
                    pos == old(rwops).pos,
                    n == rwops.data@.len(),
                    suffix == old(rwops).data@.skip(pos as int),
                    0 <= y < height,
                    0 <= o <= pitch,
                    width == w64 && height == h64 && pitch == row_bytes,
                    bpp == format.spec_byte_size(),
                    row_bytes == w64 * bpp,
                    row_bytes <= 0x7FFF_FFFF,
                    row_size == spec_bmp_row_size(w64 as int, bpp as int),
                    row_bytes <= row_size,
                    data_bytes == row_size * h64,
                    n - pos >= 54 + data_bytes,
                    (height - 1 - y) * row_size + row_size <= data_bytes,
                    0 <= (height - 1 - y) * row_size,
                    pixels@.len() == y * pitch + o,
                    forall|k: int| 0 <= k < pixels@.len() ==> pixels@[k] == rwops.data@[pos
                        + 54 + (height - 1 - k / (pitch as int)) * row_size + k
                        % (pitch as int)],
                decreases pitch - o,
            {
                let src_idx: usize = pos + 54 + (height - 1 - y) as usize * row_size as usize
                    + o as usize;
                let b: u8 = rwops.data[src_idx];
                pixels.push(b);
                proof {
                    let k: int = y * pitch + o;
                    assert((y + 1) * pitch == y * pitch + pitch && 0 <= y * pitch)
                        by (nonlinear_arith)
                        requires
                            0 <= y,
                            0 <= pitch,
                    ;
                    lemma_byte_of_row(pitch as int, k, y as int);
                }
                o = o + 1;
            }
            y = y + 1;
        }
        let inner = SurfaceRef {
            width,
            height,
            pitch,
            format,
            flags: 0,
            pixels,
            color_key: None,
            mod_r: 255,
            mod_g: 255,
            mod_b: 255,
            alpha_mod: 255,
            blend: if matches!(format, PixelFormatEnum::RGBA8888) {
                BlendMode::Blend
            } else {
                BlendMode::Opaque
            },
            clip: if width >= 1 && height >= 1 {
                Some(crate::rect::Rect { x: 0, y: 0, width, height })
            } else {
                None
            },
            locked: false,
        };
        rwops.pos = pos + 54 + data_bytes as usize;
        proof {
            assert(inner.pitch * inner.height == width * bpp * height) by (nonlinear_arith)
                requires
                    inner.pitch == width * bpp,
                    inner.height == height,
            ;
            assert(inner.height as int * inner.pitch as int == inner.pitch as int
                * inner.height as int) by (nonlinear_arith);
            assert(inner.pixels@.len() == inner.pitch * inner.height);
            assert(inner.pitch * inner.height == row_bytes * h64);
            assert forall|k: int| 0 <= k < inner.pixels@.len() implies inner.pixels@[k]
                == suffix[54 + (inner.height - 1 - k / (inner.pitch as int))
                * spec_bmp_row_size(inner.width as int, inner.format.spec_byte_size() as int)
                + k % (inner.pitch as int)] by {
                let p: int = inner.pitch as int;
                assert(inner.pixels@.len() == inner.height as int * inner.pitch as int);
                assert(p > 0 && k / p < inner.height) by (nonlinear_arith)
                    requires
                        0 <= k,
                        k < inner.height as int * inner.pitch as int,
                        p == inner.pitch as int,
                        0 <= inner.height,
                ;
                lemma_row_of_byte(p, k);
                assert((inner.height - 1 - k / p) * row_size + k % p < data_bytes
                    && 0 <= (inner.height - 1 - k / p) * row_size) by (nonlinear_arith)
                    requires
                        0 <= k / p < inner.height,
                        0 <= k % p < p,
                        p <= row_size,
                        data_bytes == row_size * inner.height as int,
                        0 <= row_size,
                ;
            }
        }
        Ok(Surface { inner })
    }
}

/// The encoder's output always decodes: a well-formed surface's bitmap
/// encoding is accepted by the decoder, and it declares exactly the
/// surface's width, height and pixel format — so a surface saved to a
/// bitmap stream and reloaded has identical width, height and bits per
/// pixel.
pub proof fn lemma_bmp_round_trip(s: SurfaceRef)
    requires
        s.wf(),
        54 + spec_bmp_data_size(s) <= 0xFFFF_FFFF,
    ensures
        spec_bmp_parse_ok(spec_bmp_encoding(s)),
        spec_bmp_width(spec_bmp_encoding(s)) == s.width,
        spec_bmp_height(spec_bmp_encoding(s)) == s.height,
        spec_bmp_format(spec_bmp_encoding(s)) == s.format,
{
    let enc = spec_bmp_encoding(s);
    let dsize = spec_bmp_data_size(s);
    let bpp: int = s.format.spec_byte_size() as int;
    assert(0 <= dsize);
    assert(enc.len() == 54 + dsize);
    lemma_le32_round_trip(54);
    lemma_le32_round_trip(40);
    lemma_le32_round_trip(s.width as int);
    lemma_le32_round_trip(s.height as int);
    assert(spec_le32_at(enc, 10) == 54);
    assert(spec_le32_at(enc, 14) == 40);
    assert(spec_le32_at(enc, 18) == s.width);
    assert(spec_le32_at(enc, 22) == s.height);
    assert(spec_le32_at(enc, 30) == 0);
    assert(s.width * bpp <= s.pitch);
    assert(s.width * bpp * s.height <= s.pitch * s.height) by (nonlinear_arith)
        requires
            s.width * bpp <= s.pitch,
            0 <= s.height,
    ;
}

} // verus!
