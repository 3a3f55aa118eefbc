//! The library's global guarantees, proved once and for all: the
//! encode/decode round trip, the dimension-query agreement, and the
//! identity and constant-preservation of the nearest-neighbor kernel.

use vstd::prelude::*;
use vstd::arithmetic::div_mod::{
    lemma_fundamental_div_mod, lemma_fundamental_div_mod_converse, lemma_mod_bound,
};
use crate::format::{
    apply_mask_spec, bmp_a_mask, bmp_b_mask, bmp_bpp, bmp_compression, bmp_data_offset,
    bmp_dib_size, bmp_g_mask, bmp_height, bmp_height_raw, bmp_r_mask, bmp_row_offset,
    bmp_row_stride, bmp_src_row, bmp_top_down, bmp_width, bmp_width_raw, decode_byte,
    decode_bytes, decode_check, decoded_pixel, encode_byte, encode_bytes, ones32, tz32,
};
use crate::resize::{lemma_sample_in_range, nearest_bytes};
use crate::utils::{le32, le32_byte, lemma_le16_of_bytes, lemma_le32_of_bytes, sign32};

verus! {

/// The 8 bytes that head every decoded buffer: width and height,
/// little-endian.
pub open spec fn dims_prefix(w: int, h: int) -> Seq<u8> {
    seq![
        le32_byte(w, 0),
        le32_byte(w, 1),
        le32_byte(w, 2),
        le32_byte(w, 3),
        le32_byte(h, 0),
        le32_byte(h, 1),
        le32_byte(h, 2),
        le32_byte(h, 3),
    ]
}

/// Extracting each of the four fixed channel masks from a `(B,G,R,A)`
/// little-endian pixel word gives back the corresponding byte.
proof fn lemma_extract_channels(word: u32, b: u8, g: u8, r: u8, a: u8)
    requires
        word == (b as int) + 0x100 * (g as int) + 0x1_0000 * (r as int) + 0x100_0000 * (a as int),
    ensures
        apply_mask_spec(word, 0x00ff_0000) == r,
        apply_mask_spec(word, 0x0000_ff00) == g,
        apply_mask_spec(word, 0x0000_00ff) == b,
        apply_mask_spec(word, 0xff00_0000) == a,
{
    assert(tz32(0x00ff_0000u32) == 16) by {
        reveal_with_fuel(tz32, 18);
    }
    assert(ones32(0x00ff_0000u32) == 8) by {
        reveal_with_fuel(ones32, 26);
    }
    assert(tz32(0x0000_ff00u32) == 8) by {
        reveal_with_fuel(tz32, 10);
    }
    assert(ones32(0x0000_ff00u32) == 8) by {
        reveal_with_fuel(ones32, 18);
    }
    assert(tz32(0x0000_00ffu32) == 0) by {
        reveal_with_fuel(tz32, 2);
    }
    assert(ones32(0x0000_00ffu32) == 8) by {
        reveal_with_fuel(ones32, 10);
    }
    assert(tz32(0xff00_0000u32) == 24) by {
        reveal_with_fuel(tz32, 26);
    }
    assert(ones32(0xff00_0000u32) == 8) by {
        reveal_with_fuel(ones32, 34);
    }
    assert(((word & 0x00ff_0000) >> 16) >> 0 == r && ((word & 0x0000_ff00) >> 8) >> 0 == g && ((
    word & 0x0000_00ff) >> 0) >> 0 == b && ((word & 0xff00_0000) >> 24) >> 0 == a)
        by (bit_vector)
        requires
            word == (b as int) + 0x100 * (g as int) + 0x1_0000 * (r as int) + 0x100_0000 * (
            a as int),
    ;
}

/// What every header field of an encoded buffer reads back as, and that the
/// decoder's cascade accepts it.
proof fn lemma_encode_header_fields(w: int, h: int, d: Seq<u8>)
    requires
        1 <= w,
        1 <= h,
        d.len() == w * h * 4,
        122 + w * h * 4 <= u32::MAX,
    ensures
        ({
            let e = encode_bytes(w, h, d);
            &&& e.len() == 122 + w * h * 4
            &&& w < 0x8000_0000
            &&& h < 0x8000_0000
            &&& bmp_data_offset(e) == 122
            &&& bmp_dib_size(e) == 108
            &&& bmp_width(e) == w
            &&& bmp_height(e) == h
            &&& !bmp_top_down(e)
            &&& bmp_bpp(e) == 32
            &&& bmp_compression(e) == 3
            &&& bmp_row_stride(e) == 4 * w
            &&& bmp_r_mask(e) == 0x00ff_0000u32
            &&& bmp_g_mask(e) == 0x0000_ff00u32
            &&& bmp_b_mask(e) == 0x0000_00ffu32
            &&& bmp_a_mask(e) == 0xff00_0000u32
            &&& decode_check(e) is None
        }),
{
    let e = encode_bytes(w, h, d);
    assert(w <= w * h && h <= w * h && 4 <= w * h * 4) by (nonlinear_arith)
        requires
            1 <= w,
            1 <= h,
    ;
    lemma_le32_of_bytes(e, 2, 122 + w * h * 4);
    lemma_le32_of_bytes(e, 10, 122);
    lemma_le32_of_bytes(e, 14, 108);
    lemma_le32_of_bytes(e, 18, w);
    lemma_le32_of_bytes(e, 22, h);
    lemma_le16_of_bytes(e, 26, 1);
    lemma_le16_of_bytes(e, 28, 32);
    lemma_le32_of_bytes(e, 30, 3);
    lemma_le32_of_bytes(e, 54, 0x00ff_0000);
    lemma_le32_of_bytes(e, 58, 0x0000_ff00);
    lemma_le32_of_bytes(e, 62, 0x0000_00ff);
    lemma_le32_of_bytes(e, 66, 0xff00_0000);
    assert(bmp_width_raw(e) == sign32(w) && sign32(w) == w);
    assert(bmp_height_raw(e) == sign32(h) && sign32(h) == h);
    lemma_fundamental_div_mod_converse(32 * w + 31, 32, w, 31);
    assert(bmp_row_stride(e) == ((32 * w + 31) / 32) * 4);
    assert(h * (4 * w) == w * h * 4) by (nonlinear_arith);
    assert(decode_check(e) is None);
}

/// One pixel byte of a decoded encoding is the source buffer's byte.
proof fn lemma_roundtrip_pixel_byte(w: int, h: int, d: Seq<u8>, i: int)
    requires
        1 <= w,
        1 <= h,
        d.len() == w * h * 4,
        122 + w * h * 4 <= u32::MAX,
        8 <= i < 8 + w * h * 4,
    ensures
        decode_byte(encode_bytes(w, h, d), i) == d[i - 8],
{
    let e = encode_bytes(w, h, d);
    lemma_encode_header_fields(w, h, d);
    let pix = (i - 8) / 4;
    let c = (i - 8) % 4;
    lemma_fundamental_div_mod(i - 8, 4);
    lemma_mod_bound(i - 8, 4);
    assert(pix < w * h) by (nonlinear_arith)
        requires
            4 * pix + c == i - 8,
            i - 8 < w * h * 4,
            0 <= c < 4,
    ;
    let x = pix % w;
    let y = pix / w;
    lemma_fundamental_div_mod(pix, w);
    lemma_mod_bound(pix, w);
    assert(y < h) by (nonlinear_arith)
        requires
            w * y + x == pix,
            0 <= x < w,
            0 <= pix < w * h,
    ;
    assert(y >= 0) by (nonlinear_arith)
        requires
            w * y + x == pix,
            0 <= x < w,
            pix >= 0,
            w >= 1,
    ;
    // the stored word for output pixel (x, y)
    let sy = h - 1 - y;
    assert(bmp_src_row(e, y) == sy);
    let o = bmp_row_offset(e, y);
    assert(o == 122 + sy * (4 * w));
    let po = o + x * 4;
    assert(sy * (4 * w) + x * 4 == ((sy * w) + x) * 4) by (nonlinear_arith);
    assert(po == 122 + (sy * w + x) * 4);
    lemma_encode_byte_pixels(w, h, d, x, sy);
    assert(0 <= sy < h);
    assert((sy * w + x) * 4 + 4 <= w * h * 4) by (nonlinear_arith)
        requires
            0 <= x < w,
            0 <= sy < h,
    ;
    assert(e[po] == encode_byte(w, h, d, po));
    assert(e[po + 1] == encode_byte(w, h, d, po + 1));
    assert(e[po + 2] == encode_byte(w, h, d, po + 2));
    assert(e[po + 3] == encode_byte(w, h, d, po + 3));
    let src = ((h - 1 - sy) * w + x) * 4;
    assert(h - 1 - sy == y);
    assert(src == (y * w + x) * 4);
    assert(0 <= src && src + 3 < w * h * 4) by (nonlinear_arith)
        requires
            src == (y * w + x) * 4,
            0 <= x < w,
            0 <= y < h,
    ;
    let bb = d[src + 2];
    let gg = d[src + 1];
    let rr = d[src];
    let aa = d[src + 3];
    assert(le32(e, po) == (bb as int) + 0x100 * (gg as int) + 0x1_0000 * (rr as int) + 0x100_0000
        * (aa as int));
    let word = le32(e, po) as u32;
    lemma_extract_channels(word, bb, gg, rr, aa);
    assert(decoded_pixel(e, x, y) == (rr, gg, bb, aa));
    assert(src + c == i - 8) by (nonlinear_arith)
        requires
            src == (y * w + x) * 4,
            pix == y * w + x,
            4 * pix + c == i - 8,
    ;
}

/// The four stored bytes of one encoded pixel, in `(B, G, R, A)` order.
proof fn lemma_encode_byte_pixels(w: int, h: int, d: Seq<u8>, x: int, y: int)
    requires
        0 <= x < w,
        0 <= y < h,
    ensures
        ({
            let src = ((h - 1 - y) * w + x) * 4;
            &&& encode_byte(w, h, d, 122 + (y * w + x) * 4 + 0) == d[src + 2]
            &&& encode_byte(w, h, d, 122 + (y * w + x) * 4 + 1) == d[src + 1]
            &&& encode_byte(w, h, d, 122 + (y * w + x) * 4 + 2) == d[src]
            &&& encode_byte(w, h, d, 122 + (y * w + x) * 4 + 3) == d[src + 3]
        }),
{
    let pix = y * w + x;
    assert(pix >= 0 && pix % w == x && pix / w == y) by (nonlinear_arith)
        requires
            0 <= x < w,
            0 <= y,
            pix == y * w + x,
    ;
    assert((pix * 4 + 0) / 4 == pix && (pix * 4 + 0) % 4 == 0 && (pix * 4 + 1) / 4 == pix && (pix
        * 4 + 1) % 4 == 1 && (pix * 4 + 2) / 4 == pix && (pix * 4 + 2) % 4 == 2 && (pix * 4 + 3)
        / 4 == pix && (pix * 4 + 3) % 4 == 3) by (nonlinear_arith)
        requires
            pix >= 0,
    ;
}

/// Round trip: decoding an encoded image gives back the dimensions and the
/// RGBA buffer unchanged, because the encoder emits the one layout the
/// decoder supports in full.
pub proof fn lemma_encode_decode_round_trip(w: int, h: int, d: Seq<u8>)
    requires
        1 <= w,
        1 <= h,
        d.len() == w * h * 4,
        122 + w * h * 4 <= u32::MAX,
    ensures
        decode_check(encode_bytes(w, h, d)) is None,
        decode_bytes(encode_bytes(w, h, d)) == dims_prefix(w, h) + d,
{
    let e = encode_bytes(w, h, d);
    lemma_encode_header_fields(w, h, d);
    assert forall|i: int| 8 <= i < 8 + w * h * 4 implies decode_bytes(e)[i] == d[i - 8] by {
        lemma_roundtrip_pixel_byte(w, h, d, i);
    }
    assert(decode_bytes(e) =~= dims_prefix(w, h) + d);
}

/// Dimension query agreement: on any buffer the decoder accepts, the
/// header-only width and height equal the first eight bytes of the full
/// decode, read back as little-endian values.
pub proof fn lemma_dimensions_match_decode(d: Seq<u8>)
    requires
        decode_check(d) is None,
    ensures
        d.len() >= 26 && d[0] == 0x42 && d[1] == 0x4d,
        le32(decode_bytes(d), 0) == bmp_width(d),
        le32(decode_bytes(d), 4) == bmp_height(d),
{
    assert(4 <= bmp_width(d) * bmp_height(d) * 4) by (nonlinear_arith)
        requires
            1 <= bmp_width(d),
            1 <= bmp_height(d),
    ;
    lemma_le32_of_bytes(decode_bytes(d), 0, bmp_width(d));
    lemma_le32_of_bytes(decode_bytes(d), 4, bmp_height(d));
}

/// Nearest-neighbor identity: resampling to the source dimensions copies
/// the buffer unchanged.
pub proof fn lemma_nearest_identity(d: Seq<u8>, w: int, h: int)
    requires
        1 <= w,
        1 <= h,
        d.len() == w * h * 4,
    ensures
        nearest_bytes(d, w, h, w, h) == d,
{
    assert forall|i: int| 0 <= i < w * h * 4 implies nearest_bytes(d, w, h, w, h)[i] == d[i] by {
        let pix = i / 4;
        let c = i % 4;
        lemma_fundamental_div_mod(i, 4);
        lemma_mod_bound(i, 4);
        let x = pix % w;
        let y = pix / w;
        lemma_fundamental_div_mod(pix, w);
        lemma_mod_bound(pix, w);
        assert(y >= 0) by (nonlinear_arith)
            requires
                w * y + x == pix,
                0 <= x < w,
                pix >= 0,
                w >= 1,
        ;
        assert((x * w) / w == x && (y * h) / h == y) by (nonlinear_arith)
            requires
                x >= 0,
                y >= 0,
                w >= 1,
                h >= 1,
        ;
        assert((y * w + x) * 4 + c == i) by (nonlinear_arith)
            requires
                w * y + x == pix,
                4 * pix + c == i,
        ;
    }
    assert(nearest_bytes(d, w, h, w, h) =~= d);
}

/// Constant-signal preservation: a uniform source stays that same uniform
/// color at every destination pixel under the nearest kernel.
pub proof fn lemma_nearest_preserves_uniform(
    d: Seq<u8>,
    sw: int,
    sh: int,
    dw: int,
    dh: int,
    p: Seq<u8>,
)
    requires
        1 <= sw,
        1 <= sh,
        1 <= dw,
        1 <= dh,
        p.len() == 4,
        d.len() == sw * sh * 4,
        forall|i: int| 0 <= i < d.len() ==> d[i] == p[i % 4],
    ensures
        forall|i: int|
            0 <= i < dw * dh * 4 ==> nearest_bytes(d, sw, sh, dw, dh)[i] == p[i % 4],
{
    assert forall|i: int| 0 <= i < dw * dh * 4 implies nearest_bytes(d, sw, sh, dw, dh)[i] == p[i
        % 4] by {
        let pix = i / 4;
        let c = i % 4;
        lemma_fundamental_div_mod(i, 4);
        lemma_mod_bound(i, 4);
        let x = pix % dw;
        let y = pix / dw;
        lemma_fundamental_div_mod(pix, dw);
        lemma_mod_bound(pix, dw);
        assert(y >= 0) by (nonlinear_arith)
            requires
                dw * y + x == pix,
                0 <= x < dw,
                pix >= 0,
                dw >= 1,
        ;
        assert(pix < dw * dh) by (nonlinear_arith)
            requires
                4 * pix + c == i,
                i < dw * dh * 4,
                0 <= c < 4,
        ;
        assert(y < dh) by (nonlinear_arith)
            requires
                dw * y + x == pix,
                0 <= x < dw,
                pix < dw * dh,
                dw >= 1,
        ;
        lemma_sample_in_range(x, sw, dw);
        lemma_sample_in_range(y, sh, dh);
        let sx = (x * sw) / dw;
        let sy = (y * sh) / dh;
        let si = (sy * sw + sx) * 4 + c;
        assert(0 <= sy * sw + sx < sw * sh) by (nonlinear_arith)
            requires
                0 <= sx < sw,
                0 <= sy < sh,
                sw >= 1,
        ;
        assert(si % 4 == c && si < sw * sh * 4) by (nonlinear_arith)
            requires
                si == (sy * sw + sx) * 4 + c,
                0 <= c < 4,
                0 <= sy * sw + sx < sw * sh,
        ;
    }
}

} // verus!
