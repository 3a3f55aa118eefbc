//! The mathematical model of the BMP container: header fields, the
//! validation cascade, and the meaning of every stored pixel.

use vstd::prelude::*;
use crate::utils::{le16, le32, le32_byte, sign32};

verus! {

/// Why a BMP buffer, or an RGBA buffer handed to the encoder, is rejected.
#[derive(Clone, Copy, Debug, PartialEq, Eq, Structural)]
pub enum BmpError {
    /// The buffer is shorter than the two fixed headers (54 bytes).
    TooSmall,
    /// The first two bytes are not `'B','M'`.
    BadSignature,
    /// The DIB header declares a size under 40 bytes; the value is carried.
    UnsupportedDibSize(u32),
    /// The compression method is neither uncompressed nor bit-mask; the value is carried.
    UnsupportedCompression(u32),
    /// Width or height is zero after taking absolute values; both are carried.
    InvalidDimensions(u32, u32),
    /// The buffer ends before the declared color table does.
    TooSmallForColorTable,
    /// The buffer ends before the channel bit-masks do.
    TooSmallForMasks,
    /// The bit depth is not one of 1, 4, 8, 16, 24, 32; the value is carried.
    UnsupportedBitDepth(u16),
    /// The buffer ends before the pixel array does.
    TooSmallForPixels,
    /// The RGBA buffer handed to the encoder does not hold exactly
    /// `width * height * 4` bytes; expected and actual lengths are carried.
    LengthMismatch(usize, usize),
}

/// Two to the power `k` (1 for `k <= 0`).
pub open spec fn twopow(k: int) -> int
    decreases k,
{
    if k <= 0 {
        1
    } else {
        2 * twopow(k - 1)
    }
}

pub proof fn lemma_twopow_pos(k: int)
    ensures
        twopow(k) >= 1,
    decreases k,
{
    if k > 0 {
        lemma_twopow_pos(k - 1);
    }
}

pub proof fn lemma_twopow_mono(a: int, b: int)
    requires
        a <= b,
    ensures
        twopow(a) <= twopow(b),
    decreases b - a,
{
    if a < b {
        lemma_twopow_mono(a, b - 1);
        lemma_twopow_pos(b - 1);
    }
}

/// The number of trailing zero bits of a 32-bit word (32 for zero).
pub open spec fn tz32(m: u32) -> int
    decreases m,
{
    if m == 0 {
        32
    } else if m % 2 == 1 {
        0
    } else {
        1 + tz32((m / 2) as u32)
    }
}

/// The number of set bits of a 32-bit word.
pub open spec fn ones32(m: u32) -> int
    decreases m,
{
    if m == 0 {
        0
    } else {
        m % 2 + ones32((m / 2) as u32)
    }
}

proof fn lemma_tz32_bound_rec(m: u32, k: int)
    requires
        m != 0,
        m < twopow(k),
    ensures
        tz32(m) <= k - 1,
    decreases k,
{
    lemma_twopow_pos(k);
    if m % 2 == 0 {
        lemma_tz32_bound_rec((m / 2) as u32, k - 1);
    }
}

proof fn lemma_ones32_bound_rec(m: u32, k: int)
    requires
        0 <= k,
        m < twopow(k),
    ensures
        ones32(m) <= k,
    decreases k,
{
    if m != 0 {
        lemma_ones32_bound_rec((m / 2) as u32, k - 1);
    }
}

/// Trailing zeros lie in `[0, 32]`, strictly under 32 for a non-zero word;
/// the bit count lies in `[0, 32]`, at least 1 for a non-zero word.
pub proof fn lemma_mask_shape(m: u32)
    ensures
        0 <= tz32(m) <= 32,
        m != 0 ==> tz32(m) <= 31,
        0 <= ones32(m) <= 32,
        m != 0 ==> ones32(m) >= 1,
    decreases m,
{
    assert(twopow(32) == 0x1_0000_0000) by {
        reveal_with_fuel(twopow, 33);
    }
    if m != 0 {
        lemma_tz32_bound_rec(m, 32);
        lemma_mask_shape((m / 2) as u32);
    }
    lemma_ones32_bound_rec(m, 32);
}

/// The value a channel mask extracts from a pixel word, normalized to 8 bits:
/// the masked bits are shifted down to the mask's least significant bit, then
/// widened or narrowed to a full byte.
pub open spec fn apply_mask_spec(value: u32, mask: u32) -> u8 {
    if mask == 0 {
        0
    } else {
        let shift = tz32(mask) as u32;
        let bits = ones32(mask);
        let extracted = (value & mask) >> shift;
        if bits >= 8 {
            (extracted >> ((bits - 8) as u32)) as u8
        } else {
            (extracted << ((8 - bits) as u32)) as u8
        }
    }
}

/// The byte offset of the pixel array, from the file header.
pub open spec fn bmp_data_offset(d: Seq<u8>) -> int {
    le32(d, 10)
}

/// The declared size of the DIB header.
pub open spec fn bmp_dib_size(d: Seq<u8>) -> int {
    le32(d, 14)
}

/// The raw signed width field.
pub open spec fn bmp_width_raw(d: Seq<u8>) -> int {
    sign32(le32(d, 18))
}

/// The raw signed height field; its sign encodes the row order.
pub open spec fn bmp_height_raw(d: Seq<u8>) -> int {
    sign32(le32(d, 22))
}

/// The image width: the width field's absolute value.
pub open spec fn bmp_width(d: Seq<u8>) -> int {
    if bmp_width_raw(d) < 0 {
        -bmp_width_raw(d)
    } else {
        bmp_width_raw(d)
    }
}

/// The image height: the height field's absolute value.
pub open spec fn bmp_height(d: Seq<u8>) -> int {
    if bmp_height_raw(d) < 0 {
        -bmp_height_raw(d)
    } else {
        bmp_height_raw(d)
    }
}

/// A negative height field means rows are stored top-down.
pub open spec fn bmp_top_down(d: Seq<u8>) -> bool {
    bmp_height_raw(d) < 0
}

/// Bits per pixel.
pub open spec fn bmp_bpp(d: Seq<u8>) -> int {
    le16(d, 28)
}

/// The compression method field (0 = uncompressed, 3 = bit-mask).
pub open spec fn bmp_compression(d: Seq<u8>) -> int {
    le32(d, 30)
}

/// Bytes per stored row, padded to a multiple of 4.
pub open spec fn bmp_row_stride(d: Seq<u8>) -> int {
    ((bmp_bpp(d) * bmp_width(d) + 31) / 32) * 4
}

/// Whether explicit channel masks are present in the header.
pub open spec fn bmp_has_masks(d: Seq<u8>) -> bool {
    bmp_compression(d) == 3 && bmp_dib_size(d) >= 52
}

/// One past the last byte the mask fields occupy (0 when none are read).
pub open spec fn bmp_masks_end(d: Seq<u8>) -> int {
    if bmp_has_masks(d) {
        if bmp_dib_size(d) >= 56 {
            70
        } else {
            66
        }
    } else {
        0
    }
}

/// The red channel mask (the fixed default when none is stored).
pub open spec fn bmp_r_mask(d: Seq<u8>) -> u32 {
    if bmp_has_masks(d) {
        le32(d, 54) as u32
    } else {
        0x00ff_0000
    }
}

/// The green channel mask.
pub open spec fn bmp_g_mask(d: Seq<u8>) -> u32 {
    if bmp_has_masks(d) {
        le32(d, 58) as u32
    } else {
        0x0000_ff00
    }
}

/// The blue channel mask.
pub open spec fn bmp_b_mask(d: Seq<u8>) -> u32 {
    if bmp_has_masks(d) {
        le32(d, 62) as u32
    } else {
        0x0000_00ff
    }
}

/// The alpha channel mask; absent in a 52-byte header, it defaults to the
/// top byte.
pub open spec fn bmp_a_mask(d: Seq<u8>) -> u32 {
    if bmp_has_masks(d) && bmp_dib_size(d) >= 56 {
        le32(d, 66) as u32
    } else {
        0xff00_0000
    }
}

/// The first byte of the color table, right after the two headers.
pub open spec fn bmp_table_base(d: Seq<u8>) -> int {
    14 + bmp_dib_size(d)
}

/// Whether the bit depth is one the decoder supports.
pub open spec fn valid_bpp(bpp: int) -> bool {
    bpp == 1 || bpp == 4 || bpp == 8 || bpp == 16 || bpp == 24 || bpp == 32
}

/// The stored row that feeds output row `y`: top-down files map rows
/// directly, bottom-up files are flipped.
pub open spec fn bmp_src_row(d: Seq<u8>, y: int) -> int {
    if bmp_top_down(d) {
        y
    } else {
        bmp_height(d) - 1 - y
    }
}

/// The byte offset of the stored row that feeds output row `y`.
pub open spec fn bmp_row_offset(d: Seq<u8>, y: int) -> int {
    bmp_data_offset(d) + bmp_src_row(d, y) * bmp_row_stride(d)
}

/// The `(R, G, B, 255)` color of entry `idx` of the color table, which
/// stores `(B, G, R, reserved)`.
pub open spec fn table_color(d: Seq<u8>, idx: int) -> (u8, u8, u8, u8) {
    let t = bmp_table_base(d) + idx * 4;
    (d[t + 2], d[t + 1], d[t], 255u8)
}

/// The `(R, G, B, A)` color of the pixel that lands at output position
/// `(x, y)`, for each supported bit depth.
pub open spec fn decoded_pixel(d: Seq<u8>, x: int, y: int) -> (u8, u8, u8, u8) {
    let o = bmp_row_offset(d, y);
    let bpp = bmp_bpp(d);
    if bpp == 1 {
        let byte = d[o + x / 8];
        let bit = (7 - x % 8) as u32;
        table_color(d, (((byte as u32) >> bit) & 1) as int)
    } else if bpp == 4 {
        let byte = d[o + x / 2];
        let nibble = if x % 2 == 0 {
            (byte >> 4) & 0x0f
        } else {
            byte & 0x0f
        };
        table_color(d, nibble as int)
    } else if bpp == 8 {
        table_color(d, d[o + x] as int)
    } else if bpp == 16 {
        let p = le16(d, o + x * 2) as u16;
        ((((p >> 10) & 0x1f) << 3) as u8, (((p >> 5) & 0x1f) << 3) as u8, ((p & 0x1f) << 3) as u8, 255u8)
    } else if bpp == 24 {
        let po = o + x * 3;
        (d[po + 2], d[po + 1], d[po], 255u8)
    } else {
        let po = o + x * 4;
        if bmp_compression(d) == 3 {
            let p = le32(d, po) as u32;
            (
                apply_mask_spec(p, bmp_r_mask(d)),
                apply_mask_spec(p, bmp_g_mask(d)),
                apply_mask_spec(p, bmp_b_mask(d)),
                if bmp_a_mask(d) != 0 {
                    apply_mask_spec(p, bmp_a_mask(d))
                } else {
                    255u8
                },
            )
        } else {
            (d[po + 2], d[po + 1], d[po], d[po + 3])
        }
    }
}

/// The first validation failure of the decoder's cascade, or `None` when the
/// buffer decodes.
pub open spec fn decode_check(d: Seq<u8>) -> Option<BmpError> {
    if d.len() < 54 {
        Some(BmpError::TooSmall)
    } else if !(d[0] == 0x42 && d[1] == 0x4d) {
        Some(BmpError::BadSignature)
    } else if bmp_dib_size(d) < 40 {
        Some(BmpError::UnsupportedDibSize(bmp_dib_size(d) as u32))
    } else if bmp_compression(d) != 0 && bmp_compression(d) != 3 {
        Some(BmpError::UnsupportedCompression(bmp_compression(d) as u32))
    } else if bmp_width(d) == 0 || bmp_height(d) == 0 {
        Some(BmpError::InvalidDimensions(bmp_width(d) as u32, bmp_height(d) as u32))
    } else if bmp_bpp(d) <= 8 && d.len() < bmp_table_base(d) + 4 * twopow(bmp_bpp(d)) {
        Some(BmpError::TooSmallForColorTable)
    } else if d.len() < bmp_masks_end(d) {
        Some(BmpError::TooSmallForMasks)
    } else if !valid_bpp(bmp_bpp(d)) {
        Some(BmpError::UnsupportedBitDepth(bmp_bpp(d) as u16))
    } else if d.len() < bmp_data_offset(d) + bmp_height(d) * bmp_row_stride(d) {
        Some(BmpError::TooSmallForPixels)
    } else {
        None
    }
}

/// Channel `c` of a pixel, in `(R, G, B, A)` order.
pub open spec fn pixel_channel(p: (u8, u8, u8, u8), c: int) -> u8 {
    if c == 0 {
        p.0
    } else if c == 1 {
        p.1
    } else if c == 2 {
        p.2
    } else {
        p.3
    }
}

/// Byte `i` of the decoder's output: the little-endian dimensions, then the
/// canonical RGBA image, row-major and top-down.
pub open spec fn decode_byte(d: Seq<u8>, i: int) -> u8 {
    if i < 4 {
        le32_byte(bmp_width(d), i)
    } else if i < 8 {
        le32_byte(bmp_height(d), i - 4)
    } else {
        let pix = (i - 8) / 4;
        let c = (i - 8) % 4;
        pixel_channel(decoded_pixel(d, pix % bmp_width(d), pix / bmp_width(d)), c)
    }
}

/// The decoder's whole output for a buffer that passes the cascade.
pub open spec fn decode_bytes(d: Seq<u8>) -> Seq<u8> {
    Seq::new((8 + bmp_width(d) * bmp_height(d) * 4) as nat, |i: int| decode_byte(d, i))
}

/// Byte `i` of the 122 header bytes the encoder writes: file header,
/// BITMAPV4-style DIB header with the four fixed channel masks and an sRGB
/// tag, and the zeroed color-endpoint and gamma fields.
pub open spec fn encode_header_byte(w: int, h: int, i: int) -> u8 {
    if i == 0 {
        0x42u8
    } else if i == 1 {
        0x4du8
    } else if i < 6 {
        le32_byte(122 + w * h * 4, i - 2)
    } else if i < 10 {
        0u8
    } else if i < 14 {
        le32_byte(122, i - 10)
    } else if i < 18 {
        le32_byte(108, i - 14)
    } else if i < 22 {
        le32_byte(w, i - 18)
    } else if i < 26 {
        le32_byte(h, i - 22)
    } else if i < 28 {
        le32_byte(1, i - 26)
    } else if i < 30 {
        le32_byte(32, i - 28)
    } else if i < 34 {
        le32_byte(3, i - 30)
    } else if i < 38 {
        le32_byte(w * h * 4, i - 34)
    } else if i < 42 {
        le32_byte(2835, i - 38)
    } else if i < 46 {
        le32_byte(2835, i - 42)
    } else if i < 54 {
        0u8
    } else if i < 58 {
        le32_byte(0x00ff_0000, i - 54)
    } else if i < 62 {
        le32_byte(0x0000_ff00, i - 58)
    } else if i < 66 {
        le32_byte(0x0000_00ff, i - 62)
    } else if i < 70 {
        le32_byte(0xff00_0000, i - 66)
    } else if i < 74 {
        le32_byte(0x7352_4742, i - 70)
    } else {
        0u8
    }
}

/// Byte `i` of the encoder's output: the header, then the pixel array,
/// bottom-up with channels stored as `(B, G, R, A)`.
pub open spec fn encode_byte(w: int, h: int, d: Seq<u8>, i: int) -> u8 {
    if i < 122 {
        encode_header_byte(w, h, i)
    } else {
        let pix = (i - 122) / 4;
        let c = (i - 122) % 4;
        let x = pix % w;
        let y = pix / w;
        let src = ((h - 1 - y) * w + x) * 4;
        if c == 0 {
            d[src + 2]
        } else if c == 1 {
            d[src + 1]
        } else if c == 2 {
            d[src]
        } else {
            d[src + 3]
        }
    }
}

/// The encoder's whole output.
pub open spec fn encode_bytes(w: int, h: int, d: Seq<u8>) -> Seq<u8> {
    Seq::new((122 + w * h * 4) as nat, |i: int| encode_byte(w, h, d, i))
}

} // verus!
