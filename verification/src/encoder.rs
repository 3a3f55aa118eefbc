//! The BMP encoder: the canonical RGBA form serialized as a 32-bit
//! bit-mask BMP with an alpha channel.

use vstd::prelude::*;
use crate::format::{encode_byte, encode_bytes, encode_header_byte, BmpError};
use crate::utils::{write_u16_le, write_u32_le};

verus! {

/// Channel `c` of pixel `(x, y)` lands at output byte `122 + (y*w + x)*4 + c`,
/// taken from the flipped source row with red and blue swapped.
proof fn lemma_encode_byte_pixel(w: int, h: int, d: Seq<u8>, x: int, y: int, c: int)
    requires
        0 <= c < 4,
        0 <= x < w,
        0 <= y < h,
    ensures
        ({
            let src = ((h - 1 - y) * w + x) * 4;
            encode_byte(w, h, d, 122 + (y * w + x) * 4 + c) == if c == 0 {
                d[src + 2]
            } else if c == 1 {
                d[src + 1]
            } else if c == 2 {
                d[src]
            } else {
                d[src + 3]
            }
        }),
{
    let pix = y * w + x;
    assert(pix >= 0 && pix % w == x && pix / w == y) by (nonlinear_arith)
        requires
            0 <= x < w,
            0 <= y,
            pix == y * w + x,
    ;
    assert((pix * 4 + c) / 4 == pix && (pix * 4 + c) % 4 == c) by (nonlinear_arith)
        requires
            0 <= c < 4,
            pix >= 0,
    ;
}

/// Fill the first 122 bytes with the file header and the extended DIB
/// header, leaving everything past them untouched.
#[verifier::rlimit(100)]
fn write_header(output: &mut Vec<u8>, width: u32, height: u32, pixel_size: u32)
    requires
        old(output)@.len() >= 122,
        pixel_size == width * height * 4,
        122 + pixel_size <= u32::MAX,
        forall|i: int| 74 <= i < 122 ==> old(output)@[i] == 0u8,
    ensures
        final(output)@.len() == old(output)@.len(),
        forall|i: int|
            122 <= i < old(output)@.len() ==> final(output)@[i] == old(output)@[i],
        forall|i: int|
            0 <= i < 122 ==> final(output)@[i] == encode_header_byte(
                width as int,
                height as int,
                i,
            ),
{
    let file_size: u32 = 122 + pixel_size;
    output[0] = 0x42;
    output[1] = 0x4d;
    write_u32_le(output, 2, file_size);
    write_u16_le(output, 6, 0);
    write_u16_le(output, 8, 0);
    write_u32_le(output, 10, 122);
    write_u32_le(output, 14, 108);
    write_u32_le(output, 18, width);
    write_u32_le(output, 22, height);
    write_u16_le(output, 26, 1);
    write_u16_le(output, 28, 32);
    write_u32_le(output, 30, 3);
    write_u32_le(output, 34, pixel_size);
    write_u32_le(output, 38, 2835);
    write_u32_le(output, 42, 2835);
    write_u32_le(output, 46, 0);
    write_u32_le(output, 50, 0);
    write_u32_le(output, 54, 0x00ff_0000);
    write_u32_le(output, 58, 0x0000_ff00);
    write_u32_le(output, 62, 0x0000_00ff);
    write_u32_le(output, 66, 0xff00_0000);
    write_u32_le(output, 70, 0x7352_4742);
    assert(forall|i: int|
        0 <= i < 34 ==> output@[i] == encode_header_byte(width as int, height as int, i));
    assert(forall|i: int|
        34 <= i < 74 ==> output@[i] == encode_header_byte(width as int, height as int, i));
    assert(forall|i: int|
        74 <= i < 122 ==> output@[i] == encode_header_byte(width as int, height as int, i));
}

/// Encode an RGBA buffer as a BMP byte stream: a 14-byte file header, a
/// 108-byte DIB header carrying the four fixed channel masks and an sRGB
/// tag, then the pixel rows bottom-up as `(B, G, R, A)`.
///
/// The result is `Ok` exactly when the buffer holds `width * height * 4`
/// bytes; the output is then pinned byte for byte.
#[verifier::rlimit(100)]
pub fn encode_bmp(width: u32, height: u32, data: &[u8]) -> (r: Result<Vec<u8>, BmpError>)
    requires
        122 + (width as int) * (height as int) * 4 <= u32::MAX,
    ensures
        match r {
            Ok(out) => data@.len() == width * height * 4 && out@ == encode_bytes(
                width as int,
                height as int,
                data@,
            ),
            Err(e) => data@.len() != width * height * 4 && e == BmpError::LengthMismatch(
                (width * height * 4) as usize,
                data@.len() as usize,
            ),
        },
{
    let n = data.len();
    proof {
        assert((width as int) * (height as int) >= 0) by (nonlinear_arith);
    }
    let expected: usize = ((width as u64) * (height as u64) * 4) as usize;
    if n != expected {
        return Err(BmpError::LengthMismatch(expected, n));
    }
    let ghost w = width as int;
    let ghost h = height as int;
    let ghost d = data@;
    let mut output: Vec<u8> = vec![0u8; 122 + expected];
    assert(forall|i: int| 0 <= i < output@.len() ==> output@[i] == 0u8);
    write_header(&mut output, width, height, expected as u32);

    let w_us = width as usize;
    let h_us = height as usize;
    let mut y: usize = 0;
    while y < h_us
        invariant
            y <= h_us,
            w_us == w,
            h_us == h,
            d == data@,
            d.len() == w * h * 4,
            122 + w * h * 4 <= u32::MAX,
            output@.len() == 122 + w * h * 4,
            forall|i: int| 0 <= i < 122 ==> output@[i] == encode_header_byte(w, h, i),
            forall|i: int|
                122 <= i < 122 + y * w * 4 ==> output@[i] == encode_byte(w, h, d, i),
        decreases h_us - y,
    {
        let src_y = h_us - 1 - y;
        proof {
            assert(y * w + w <= h * w && (h - 1 - y) * w + w <= h * w && y * w >= 0 && (h - 1
                - y) * w >= 0) by (nonlinear_arith)
                requires
                    0 <= y < h,
                    w >= 0,
            ;
            assert(h * w == w * h) by (nonlinear_arith);
        }
        let src_row = src_y * w_us * 4;
        let dst_row = 122 + y * w_us * 4;
        let mut x: usize = 0;
        while x < w_us
            invariant
                y < h_us,
                x <= w_us,
                w_us == w,
                h_us == h,
                d == data@,
                d.len() == w * h * 4,
                122 + w * h * 4 <= u32::MAX,
                src_y == h_us - 1 - y,
                src_row == src_y * w * 4,
                dst_row == 122 + y * w * 4,
                y * w + w <= h * w,
                (h - 1 - y) * w + w <= h * w,
                y * w >= 0,
                (h - 1 - y) * w >= 0,
                h * w == w * h,
                output@.len() == 122 + w * h * 4,
                forall|i: int| 0 <= i < 122 ==> output@[i] == encode_header_byte(w, h, i),
                forall|i: int|
                    122 <= i < 122 + (y * w + x) * 4 ==> output@[i] == encode_byte(w, h, d, i),
            decreases w_us - x,
        {
            let si = src_row + x * 4;
            let di = dst_row + x * 4;
            output[di] = data[si + 2];
            output[di + 1] = data[si + 1];
            output[di + 2] = data[si];
            output[di + 3] = data[si + 3];
            proof {
                lemma_encode_byte_pixel(w, h, d, x as int, y as int, 0);
                lemma_encode_byte_pixel(w, h, d, x as int, y as int, 1);
                lemma_encode_byte_pixel(w, h, d, x as int, y as int, 2);
                lemma_encode_byte_pixel(w, h, d, x as int, y as int, 3);
            }
            x = x + 1;
        }
        proof {
            assert((y + 1) * w == y * w + w) by (nonlinear_arith);
        }
        y = y + 1;
    }
    proof {
        assert(h * w == w * h) by (nonlinear_arith);
        assert(output@ =~= encode_bytes(w, h, d));
    }
    Ok(output)
}

} // verus!
