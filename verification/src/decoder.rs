//! The BMP decoder: a validated parse of a BMP byte buffer into the
//! canonical RGBA form, dimensions first.

use vstd::prelude::*;
use crate::format::{
    apply_mask_spec, bmp_a_mask, bmp_b_mask, bmp_bpp, bmp_compression, bmp_data_offset,
    bmp_g_mask, bmp_height, bmp_r_mask, bmp_row_offset, bmp_row_stride, bmp_src_row,
    bmp_table_base, bmp_top_down, bmp_width, decode_byte, decode_bytes, decode_check,
    decoded_pixel, lemma_mask_shape, lemma_twopow_mono, ones32, pixel_channel, twopow, tz32,
    BmpError,
};
use crate::utils::{read_i32_le, read_u16_le, read_u32_le};
use vstd::arithmetic::div_mod::{lemma_div_is_ordered, lemma_fundamental_div_mod, lemma_mod_bound};

verus! {

/// The number of trailing zero bits of `m`, 32 when `m` is zero.
fn trailing_zeros_u32(m: u32) -> (r: u32)
    ensures
        r as int == tz32(m),
{
    if m == 0 {
        return 32;
    }
    let mut v: u32 = m;
    let mut c: u32 = 0;
    proof {
        lemma_mask_shape(m);
    }
    while v % 2 == 0
        invariant
            v >= 1,
            c + tz32(v) == tz32(m),
            tz32(m) <= 32,
        decreases v,
    {
        proof {
            lemma_mask_shape(v);
            lemma_mask_shape((v / 2) as u32);
        }
        v = v / 2;
        c = c + 1;
    }
    c
}

/// The number of set bits of `m`.
fn count_ones_u32(m: u32) -> (r: u32)
    ensures
        r as int == ones32(m),
{
    let mut v: u32 = m;
    let mut c: u32 = 0;
    proof {
        lemma_mask_shape(m);
    }
    while v != 0
        invariant
            c + ones32(v) == ones32(m),
            ones32(v) >= 0,
            ones32(m) <= 32,
        decreases v,
    {
        proof {
            lemma_mask_shape(v);
            lemma_mask_shape((v / 2) as u32);
        }
        c = c + v % 2;
        v = v / 2;
    }
    c
}

/// Extract the channel that `mask` selects from a pixel word and normalize
/// it to 8 bits: masks of 8 or more bits keep their top 8, narrower masks
/// are shifted up to fill the byte.
pub fn apply_mask(value: u32, mask: u32) -> (r: u8)
    ensures
        r == apply_mask_spec(value, mask),
{
    if mask == 0 {
        return 0;
    }
    let shift = trailing_zeros_u32(mask);
    let bits = count_ones_u32(mask);
    proof {
        lemma_mask_shape(mask);
    }
    let extracted = (value & mask) >> shift;
    if bits >= 8 {
        #[verifier::truncate] ((extracted >> (bits - 8)) as u8)
    } else {
        #[verifier::truncate] ((extracted << (8 - bits)) as u8)
    }
}

/// The absolute value of `v`, exact also at the minimum.
fn abs_i32(v: i32) -> (r: u32)
    ensures
        r as int == if v < 0 {
            -(v as int)
        } else {
            v as int
        },
{
    if v >= 0 {
        v as u32
    } else if v == i32::MIN {
        0x8000_0000
    } else {
        (-v) as u32
    }
}

/// A row that passed the cascade lies inside the buffer.
proof fn lemma_row_in_bounds(d: Seq<u8>, y: int)
    requires
        decode_check(d) is None,
        0 <= y < bmp_height(d),
    ensures
        0 <= bmp_row_offset(d, y),
        bmp_row_offset(d, y) + bmp_row_stride(d) <= d.len(),
        bmp_row_stride(d) >= 0,
{
    let s = bmp_row_stride(d);
    let h = bmp_height(d);
    let sy = bmp_src_row(d, y);
    assert(s >= 0) by (nonlinear_arith)
        requires
            s == ((bmp_bpp(d) * bmp_width(d) + 31) / 32) * 4,
            bmp_bpp(d) >= 0,
            bmp_width(d) >= 0,
    ;
    assert(0 <= sy < h);
    assert(sy * s + s <= h * s) by (nonlinear_arith)
        requires
            0 <= sy < h,
            s >= 0,
    ;
    assert(sy * s >= 0) by (nonlinear_arith)
        requires
            sy >= 0,
            s >= 0,
    ;
}

/// Within one row, the last byte each bit depth touches lies before the
/// padded row stride ends.
proof fn lemma_row_bytes_fit(d: Seq<u8>)
    requires
        decode_check(d) is None,
    ensures
        bmp_bpp(d) == 1 ==> (bmp_width(d) - 1) / 8 < bmp_row_stride(d),
        bmp_bpp(d) == 4 ==> (bmp_width(d) - 1) / 2 < bmp_row_stride(d),
        bmp_bpp(d) == 8 ==> bmp_width(d) - 1 < bmp_row_stride(d),
        bmp_bpp(d) == 16 ==> (bmp_width(d) - 1) * 2 + 2 <= bmp_row_stride(d),
        bmp_bpp(d) == 24 ==> (bmp_width(d) - 1) * 3 + 3 <= bmp_row_stride(d),
        bmp_bpp(d) == 32 ==> (bmp_width(d) - 1) * 4 + 4 <= bmp_row_stride(d),
{
    let bpp = bmp_bpp(d);
    let w = bmp_width(d);
    let s = bmp_row_stride(d);
    let pr = bpp * w;
    lemma_fundamental_div_mod(pr + 31, 32);
    lemma_mod_bound(pr + 31, 32);
    assert(8 * s >= pr);
    if bpp == 1 {
        assert(pr == w) by (nonlinear_arith)
            requires
                pr == bpp * w && bpp == 1,
        ;
        lemma_fundamental_div_mod(w - 1, 8);
        lemma_mod_bound(w - 1, 8);
    }
    if bpp == 4 {
        assert(pr == 4 * w) by (nonlinear_arith)
            requires
                pr == bpp * w && bpp == 4,
        ;
        lemma_fundamental_div_mod(w - 1, 2);
        lemma_mod_bound(w - 1, 2);
    }
    if bpp == 8 {
        assert(pr == 8 * w) by (nonlinear_arith)
            requires
                pr == bpp * w && bpp == 8,
        ;
    }
    if bpp == 16 {
        assert(pr == 16 * w) by (nonlinear_arith)
            requires
                pr == bpp * w && bpp == 16,
        ;
    }
    if bpp == 24 {
        assert(pr == 24 * w) by (nonlinear_arith)
            requires
                pr == bpp * w && bpp == 24,
        ;
    }
    if bpp == 32 {
        assert(pr == 32 * w) by (nonlinear_arith)
            requires
                pr == bpp * w && bpp == 32,
        ;
    }
}

/// Channel `c` of pixel `(x, y)` sits at output byte `8 + (y*w + x)*4 + c`.
proof fn lemma_decode_byte_pixel(d: Seq<u8>, x: int, y: int, c: int)
    requires
        0 <= c < 4,
        0 <= x < bmp_width(d),
        0 <= y,
    ensures
        decode_byte(d, 8 + (y * bmp_width(d) + x) * 4 + c) == pixel_channel(
            decoded_pixel(d, x, y),
            c,
        ),
{
    let w = bmp_width(d);
    let pix = y * w + x;
    assert(pix >= 0 && pix % w == x && pix / w == y) by (nonlinear_arith)
        requires
            0 <= x < w,
            0 <= y,
            pix == y * w + x,
    ;
    assert((pix * 4 + c) / 4 == pix && (pix * 4 + c) % 4 == c) by (nonlinear_arith)
        requires
            0 <= c < 4,
            pix >= 0,
    ;
}

/// Read the pixel that lands at output position `(x, y)`.
///
/// The caller hands in the header fields it already parsed; their values are
/// pinned to the header spec functions, so the result is the specified pixel.
fn read_pixel(
    data: &[u8],
    x: usize,
    y: usize,
    bpp: u16,
    row_off: usize,
    table_base: usize,
    compression: u32,
    r_mask: u32,
    g_mask: u32,
    b_mask: u32,
    a_mask: u32,
) -> (p: (u8, u8, u8, u8))
    requires
        decode_check(data@) is None,
        x < bmp_width(data@),
        y < bmp_height(data@),
        bpp == bmp_bpp(data@),
        row_off == bmp_row_offset(data@, y as int),
        bmp_bpp(data@) <= 8 ==> table_base == bmp_table_base(data@),
        compression == bmp_compression(data@),
        r_mask == bmp_r_mask(data@),
        g_mask == bmp_g_mask(data@),
        b_mask == bmp_b_mask(data@),
        a_mask == bmp_a_mask(data@),
    ensures
        p == decoded_pixel(data@, x as int, y as int),
{
    let _n: usize = data.len();
    proof {
        lemma_row_in_bounds(data@, y as int);
        lemma_row_bytes_fit(data@);
        if bmp_bpp(data@) == 1 {
            lemma_div_is_ordered(x as int, bmp_width(data@) - 1, 8);
        }
        if bmp_bpp(data@) == 4 {
            lemma_div_is_ordered(x as int, bmp_width(data@) - 1, 2);
        }
    }
    if bpp == 1 {
        let byte_idx = row_off + x / 8;
        let bit: u32 = (7 - (x % 8)) as u32;
        let color_idx = ((data[byte_idx] as u32) >> bit) & 1;
        proof {
            let b = data@[byte_idx as int];
            assert(((b as u32) >> bit) & 1 < 2) by (bit_vector);
            assert(twopow(1) == 2) by {
                reveal_with_fuel(twopow, 2);
            }
        }
        let ti = table_base + (color_idx as usize) * 4;
        (data[ti + 2], data[ti + 1], data[ti], 255)
    } else if bpp == 4 {
        let byte_idx = row_off + x / 2;
        let byte = data[byte_idx];
        let nibble: u8 = if x % 2 == 0 {
            (byte >> 4) & 0x0f
        } else {
            byte & 0x0f
        };
        proof {
            let b = data@[byte_idx as int];
            assert((b >> 4) & 0x0f < 16 && b & 0x0f < 16) by (bit_vector);
            assert(twopow(4) == 16) by {
                reveal_with_fuel(twopow, 5);
            }
        }
        let ti = table_base + (nibble as usize) * 4;
        (data[ti + 2], data[ti + 1], data[ti], 255)
    } else if bpp == 8 {
        let color_idx = data[row_off + x];
        proof {
            assert(twopow(8) == 256) by {
                reveal_with_fuel(twopow, 9);
            }
        }
        let ti = table_base + (color_idx as usize) * 4;
        (data[ti + 2], data[ti + 1], data[ti], 255)
    } else if bpp == 16 {
        let p = read_u16_le(data, row_off + x * 2);
        (
            #[verifier::truncate] ((((p >> 10) & 0x1f) << 3) as u8),
            #[verifier::truncate] ((((p >> 5) & 0x1f) << 3) as u8),
            #[verifier::truncate] (((p & 0x1f) << 3) as u8),
            255,
        )
    } else if bpp == 24 {
        let po = row_off + x * 3;
        (data[po + 2], data[po + 1], data[po], 255)
    } else {
        let po = row_off + x * 4;
        if compression == 3 {
            let p = read_u32_le(data, po);
            (
                apply_mask(p, r_mask),
                apply_mask(p, g_mask),
                apply_mask(p, b_mask),
                if a_mask != 0 {
                    apply_mask(p, a_mask)
                } else {
                    255
                },
            )
        } else {
            (data[po + 2], data[po + 1], data[po], data[po + 3])
        }
    }
}

/// Read the absolute width and height straight from the DIB header fields,
/// without a full decode: only the length and the signature are checked.
pub fn get_bmp_dimensions(data: &[u8]) -> (r: Result<Vec<u32>, BmpError>)
    ensures
        match r {
            Ok(dims) => data@.len() >= 26 && data@[0] == 0x42 && data@[1] == 0x4d && dims@ == seq![
                bmp_width(data@) as u32,
                bmp_height(data@) as u32,
            ],
            Err(e) => {
                ||| (data@.len() < 26 && e == BmpError::TooSmall)
                ||| (data@.len() >= 26 && !(data@[0] == 0x42 && data@[1] == 0x4d) && e
                    == BmpError::BadSignature)
            },
        },
{
    let n = data.len();
    if n < 26 {
        return Err(BmpError::TooSmall);
    }
    if !(data[0] == 0x42 && data[1] == 0x4d) {
        return Err(BmpError::BadSignature);
    }
    let w = abs_i32(read_i32_le(data, 18));
    let h = abs_i32(read_i32_le(data, 22));
    let mut out: Vec<u32> = Vec::new();
    out.push(w);
    out.push(h);
    proof {
        assert(out@ =~= seq![bmp_width(data@) as u32, bmp_height(data@) as u32]);
    }
    Ok(out)
}

/// Decode a BMP byte buffer into `[width, height, RGBA bytes...]`: the
/// little-endian 32-bit dimensions, then the canonical top-down image.
///
/// The result is `Ok` exactly when the validation cascade passes, and the
/// error is the cascade's first failure otherwise.
pub fn decode_bmp(data: &[u8]) -> (r: Result<Vec<u8>, BmpError>)
    ensures
        match r {
            Ok(out) => decode_check(data@) is None && out@ == decode_bytes(data@),
            Err(e) => decode_check(data@) == Some(e),
        },
{
    let n = data.len();
    if n < 54 {
        return Err(BmpError::TooSmall);
    }
    if !(data[0] == 0x42 && data[1] == 0x4d) {
        return Err(BmpError::BadSignature);
    }
    let data_offset = read_u32_le(data, 10);
    let dib_size = read_u32_le(data, 14);
    if dib_size < 40 {
        return Err(BmpError::UnsupportedDibSize(dib_size));
    }
    let width_raw = read_i32_le(data, 18);
    let height_raw = read_i32_le(data, 22);
    let bpp = read_u16_le(data, 28);
    let compression = read_u32_le(data, 30);
    if compression != 0 && compression != 3 {
        return Err(BmpError::UnsupportedCompression(compression));
    }
    let top_down = height_raw < 0;
    let w = abs_i32(width_raw);
    let h = abs_i32(height_raw);
    if w == 0 || h == 0 {
        return Err(BmpError::InvalidDimensions(w, h));
    }
    let table_base64: u64 = 14 + dib_size as u64;
    if bpp <= 8 {
        let mut count: u64 = 1;
        let mut i: u16 = 0;
        while i < bpp
            invariant
                i <= bpp,
                bpp <= 8,
                count == twopow(i as int),
                count <= 256,
            decreases bpp - i,
        {
            proof {
                lemma_twopow_mono(i as int, 7);
                assert(twopow(7) == 128) by {
                    reveal_with_fuel(twopow, 8);
                }
            }
            count = count * 2;
            i = i + 1;
        }
        if (n as u64) < table_base64 + count * 4 {
            return Err(BmpError::TooSmallForColorTable);
        }
    }
    let masks_end: usize = if compression == 3 && dib_size >= 52 {
        if dib_size >= 56 {
            70
        } else {
            66
        }
    } else {
        0
    };
    if n < masks_end {
        return Err(BmpError::TooSmallForMasks);
    }
    let (r_mask, g_mask, b_mask, a_mask): (u32, u32, u32, u32) = if compression == 3 && dib_size
        >= 52 {
        (
            read_u32_le(data, 54),
            read_u32_le(data, 58),
            read_u32_le(data, 62),
            if dib_size >= 56 {
                read_u32_le(data, 66)
            } else {
                0xff00_0000
            },
        )
    } else {
        (0x00ff_0000, 0x0000_ff00, 0x0000_00ff, 0xff00_0000)
    };
    if !(bpp == 1 || bpp == 4 || bpp == 8 || bpp == 16 || bpp == 24 || bpp == 32) {
        return Err(BmpError::UnsupportedBitDepth(bpp));
    }
    let bpp64: u64 = bpp as u64;
    let w64: u64 = w as u64;
    proof {
        assert(bpp64 * w64 <= 32 * 0x8000_0000) by (nonlinear_arith)
            requires
                bpp64 <= 32,
                w64 <= 0x8000_0000,
        ;
        lemma_fundamental_div_mod(bpp64 * w64 + 31, 32);
        lemma_mod_bound(bpp64 * w64 + 31, 32);
    }
    let stride64: u64 = ((bpp64 * w64 + 31) / 32) * 4;
    proof {
        assert((h as int) * (stride64 as int) <= 0x8000_0000 * 0xffff_ffff_ffff_ffff)
            by (nonlinear_arith)
            requires
                h <= 0x8000_0000,
                stride64 <= 0xffff_ffff_ffff_ffff,
        ;
    }
    if (n as u128) < data_offset as u128 + (h as u128) * (stride64 as u128) {
        return Err(BmpError::TooSmallForPixels);
    }
    proof {
        assert(stride64 <= (h as u64) * stride64) by (nonlinear_arith)
            requires
                h >= 1,
        ;
    }
    let ghost d = data@;
    assert(decode_check(d) is None);
    let w_us = w as usize;
    let h_us = h as usize;
    let stride_us = stride64 as usize;
    let data_offset_us = data_offset as usize;
    let table_base_us: usize = if bpp <= 8 {
        table_base64 as usize
    } else {
        0
    };

    let mut output: Vec<u8> = Vec::new();
    output.push((w % 0x100) as u8);
    output.push(((w / 0x100) % 0x100) as u8);
    output.push(((w / 0x1_0000) % 0x100) as u8);
    output.push(((w / 0x100_0000) % 0x100) as u8);
    output.push((h % 0x100) as u8);
    output.push(((h / 0x100) % 0x100) as u8);
    output.push(((h / 0x1_0000) % 0x100) as u8);
    output.push(((h / 0x100_0000) % 0x100) as u8);
    assert(forall|i: int| 0 <= i < 8 ==> output@[i] == decode_byte(d, i));

    let mut y: usize = 0;
    while y < h_us
        invariant
            decode_check(d) is None,
            d == data@,
            y <= h_us,
            w_us == bmp_width(d),
            h_us == bmp_height(d),
            bpp == bmp_bpp(d),
            top_down == bmp_top_down(d),
            data_offset_us == bmp_data_offset(d),
            stride_us == bmp_row_stride(d),
            bmp_bpp(d) <= 8 ==> table_base_us == bmp_table_base(d),
            n == data@.len(),
            data_offset_us + h_us * stride_us <= n,
            compression == bmp_compression(d),
            r_mask == bmp_r_mask(d),
            g_mask == bmp_g_mask(d),
            b_mask == bmp_b_mask(d),
            a_mask == bmp_a_mask(d),
            output@.len() == 8 + y * w_us * 4,
            forall|i: int| 0 <= i < output@.len() ==> output@[i] == decode_byte(d, i),
        decreases h_us - y,
    {
        let src_y = if top_down {
            y
        } else {
            h_us - 1 - y
        };
        proof {
            lemma_row_in_bounds(d, y as int);
            assert(src_y * stride_us <= (h_us - 1) * stride_us) by (nonlinear_arith)
                requires
                    0 <= src_y <= h_us - 1,
                    stride_us >= 0,
            ;
            assert((h_us - 1) * stride_us + stride_us == h_us * stride_us) by (nonlinear_arith);
        }
        let row_off = data_offset_us + src_y * stride_us;
        let mut x: usize = 0;
        while x < w_us
            invariant
                decode_check(d) is None,
                d == data@,
                y < h_us,
                x <= w_us,
                w_us == bmp_width(d),
                h_us == bmp_height(d),
                bpp == bmp_bpp(d),
                row_off == bmp_row_offset(d, y as int),
                bmp_bpp(d) <= 8 ==> table_base_us == bmp_table_base(d),
                compression == bmp_compression(d),
                r_mask == bmp_r_mask(d),
                g_mask == bmp_g_mask(d),
                b_mask == bmp_b_mask(d),
                a_mask == bmp_a_mask(d),
                output@.len() == 8 + (y * w_us + x) * 4,
                forall|i: int| 0 <= i < output@.len() ==> output@[i] == decode_byte(d, i),
            decreases w_us - x,
        {
            let p = read_pixel(
                data,
                x,
                y,
                bpp,
                row_off,
                table_base_us,
                compression,
                r_mask,
                g_mask,
                b_mask,
                a_mask,
            );
            output.push(p.0);
            output.push(p.1);
            output.push(p.2);
            output.push(p.3);
            proof {
                lemma_decode_byte_pixel(d, x as int, y as int, 0);
                lemma_decode_byte_pixel(d, x as int, y as int, 1);
                lemma_decode_byte_pixel(d, x as int, y as int, 2);
                lemma_decode_byte_pixel(d, x as int, y as int, 3);
            }
            x = x + 1;
        }
        y = y + 1;
        proof {
            assert((y - 1) * w_us + w_us == y * w_us) by (nonlinear_arith);
        }
    }
    proof {
        assert(output@ =~= decode_bytes(d)) by {
            assert(output@.len() == 8 + bmp_width(d) * bmp_height(d) * 4) by (nonlinear_arith)
                requires
                    output@.len() == 8 + h_us * w_us * 4,
                    w_us == bmp_width(d),
                    h_us == bmp_height(d),
            ;
        }
    }
    Ok(output)
}

} // verus!
