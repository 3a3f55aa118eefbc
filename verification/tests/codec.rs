use mconv::decoder::{apply_mask, decode_bmp, get_bmp_dimensions};
use mconv::encoder::encode_bmp;
use mconv::format::BmpError;

fn put_u16(buf: &mut Vec<u8>, off: usize, val: u16) {
    let b = val.to_le_bytes();
    buf[off] = b[0];
    buf[off + 1] = b[1];
}

fn put_u32(buf: &mut Vec<u8>, off: usize, val: u32) {
    let b = val.to_le_bytes();
    for k in 0..4 {
        buf[off + k] = b[k];
    }
}

/// A BMP with a 40-byte DIB header, the given geometry, and `body` bytes
/// (color table, then pixel rows) following the headers.
fn make_bmp(width: i32, height: i32, bpp: u16, compression: u32, body: &[u8]) -> Vec<u8> {
    let data_offset = 54u32;
    let mut buf = vec![0u8; 54 + body.len()];
    buf[0] = 0x42;
    buf[1] = 0x4d;
    let total = buf.len() as u32;
    put_u32(&mut buf, 2, total);
    put_u32(&mut buf, 10, data_offset);
    put_u32(&mut buf, 14, 40);
    put_u32(&mut buf, 18, width as u32);
    put_u32(&mut buf, 22, height as u32);
    put_u16(&mut buf, 26, 1);
    put_u16(&mut buf, 28, bpp);
    put_u32(&mut buf, 30, compression);
    for (k, v) in body.iter().enumerate() {
        buf[54 + k] = *v;
    }
    buf
}

/// Like `make_bmp`, but the first `table_len` bytes of `body` are the color
/// table and the pixel data starts after them.
fn make_bmp_with_table(
    width: i32,
    height: i32,
    bpp: u16,
    table_len: usize,
    body: &[u8],
) -> Vec<u8> {
    let mut buf = make_bmp(width, height, bpp, 0, body);
    let data_offset = 54 + table_len as u32;
    put_u32(&mut buf, 10, data_offset);
    buf
}

#[test]
fn test_apply_mask() {
    assert_eq!(apply_mask(0x00ff0000, 0x00ff0000), 255);
    assert_eq!(apply_mask(0x00800000, 0x00ff0000), 128);
    assert_eq!(apply_mask(0x00000000, 0x00ff0000), 0);
}

#[test]
fn test_roundtrip() {
    let width = 2u32;
    let height = 2u32;
    let data = vec![
        255, 0, 0, 255, // Red
        0, 255, 0, 255, // Green
        0, 0, 255, 255, // Blue
        255, 255, 255, 255, // White
    ];

    let encoded = encode_bmp(width, height, &data).unwrap();

    // Check signature
    assert_eq!(encoded[0], 0x42);
    assert_eq!(encoded[1], 0x4D);

    let decoded = decode_bmp(&encoded).unwrap();

    // First 8 bytes are dimensions
    let dec_width = u32::from_le_bytes([decoded[0], decoded[1], decoded[2], decoded[3]]);
    let dec_height = u32::from_le_bytes([decoded[4], decoded[5], decoded[6], decoded[7]]);

    assert_eq!(dec_width, width);
    assert_eq!(dec_height, height);
    assert_eq!(&decoded[8..], &data[..]);
}

#[test]
fn test_roundtrip_single_pixel() {
    let data = vec![12, 34, 56, 78];
    let encoded = encode_bmp(1, 1, &data).unwrap();
    assert_eq!(encoded.len(), 122 + 4);
    let decoded = decode_bmp(&encoded).unwrap();
    assert_eq!(&decoded[..8], &[1, 0, 0, 0, 1, 0, 0, 0]);
    assert_eq!(&decoded[8..], &data[..]);
}

#[test]
fn test_apply_mask_narrow() {
    // a 4-bit mask widens to the byte's top bits without replication
    assert_eq!(apply_mask(0x0000f000, 0x0000f000), 0xf0);
    // a 16-bit mask keeps its top 8 bits
    assert_eq!(apply_mask(0x00ffff00, 0x00ffff00), 0xff);
    assert_eq!(apply_mask(0x00120300, 0x00ffff00), 0x12);
    // a zero mask extracts nothing
    assert_eq!(apply_mask(0xffffffff, 0), 0);
}

#[test]
fn test_encode_length_mismatch() {
    let r = encode_bmp(2, 2, &[0u8; 3]);
    assert_eq!(r.unwrap_err(), BmpError::LengthMismatch(16, 3));
}

#[test]
fn test_decode_too_small() {
    assert_eq!(decode_bmp(&[0u8; 53]).unwrap_err(), BmpError::TooSmall);
}

#[test]
fn test_decode_bad_signature() {
    let mut buf = vec![0u8; 54];
    buf[0] = b'X';
    buf[1] = b'Y';
    assert_eq!(decode_bmp(&buf).unwrap_err(), BmpError::BadSignature);
}

#[test]
fn test_decode_unsupported_dib() {
    let mut bmp = make_bmp(1, 1, 24, 0, &[0, 0, 0, 0]);
    put_u32(&mut bmp, 14, 12);
    assert_eq!(decode_bmp(&bmp).unwrap_err(), BmpError::UnsupportedDibSize(12));
}

#[test]
fn test_decode_unsupported_compression() {
    let bmp = make_bmp(1, 1, 8, 1, &[0, 0, 0, 0]);
    assert_eq!(decode_bmp(&bmp).unwrap_err(), BmpError::UnsupportedCompression(1));
}

#[test]
fn test_decode_zero_dimensions() {
    let bmp = make_bmp(0, 3, 24, 0, &[]);
    assert_eq!(decode_bmp(&bmp).unwrap_err(), BmpError::InvalidDimensions(0, 3));
}

#[test]
fn test_decode_color_table_too_small() {
    // 8 bpp needs a 1024-byte color table that is not there
    let bmp = make_bmp(1, 1, 8, 0, &[0, 0, 0, 0]);
    assert_eq!(decode_bmp(&bmp).unwrap_err(), BmpError::TooSmallForColorTable);
}

#[test]
fn test_decode_unsupported_bit_depth() {
    // bit depth 2 carries a 4-entry color table but is still rejected
    let mut body = vec![0u8; 16];
    body.extend_from_slice(&[0, 0, 0, 0]);
    let bmp = make_bmp_with_table(1, 1, 2, 16, &body);
    assert_eq!(decode_bmp(&bmp).unwrap_err(), BmpError::UnsupportedBitDepth(2));
}

#[test]
fn test_decode_pixels_truncated() {
    let bmp = make_bmp(1, 1, 24, 0, &[]);
    assert_eq!(decode_bmp(&bmp).unwrap_err(), BmpError::TooSmallForPixels);
}

#[test]
fn test_decode_24bpp_bottom_up() {
    // two rows of two pixels, stored (B,G,R) bottom-up, stride padded to 8
    let body = [
        30, 20, 10, 60, 50, 40, 0, 0, // bottom row: pixels (10,20,30), (40,50,60)
        90, 80, 70, 120, 110, 100, 0, 0, // top row: pixels (70,80,90), (100,110,120)
    ];
    let bmp = make_bmp(2, 2, 24, 0, &body);
    let out = decode_bmp(&bmp).unwrap();
    assert_eq!(&out[..8], &[2, 0, 0, 0, 2, 0, 0, 0]);
    assert_eq!(
        &out[8..],
        &[
            70, 80, 90, 255, 100, 110, 120, 255, // top row first
            10, 20, 30, 255, 40, 50, 60, 255,
        ]
    );
}

#[test]
fn test_decode_24bpp_top_down() {
    // width 1: the 24-bit row pads to a 4-byte stride; two rows
    let body = [30, 20, 10, 0, 90, 80, 70, 0];
    let bmp = make_bmp(1, -2, 24, 0, &body);
    let out = decode_bmp(&bmp).unwrap();
    assert_eq!(&out[..8], &[1, 0, 0, 0, 2, 0, 0, 0]);
    // top-down: stored order is already top first
    assert_eq!(&out[8..], &[10, 20, 30, 255, 70, 80, 90, 255]);
}

#[test]
fn test_decode_8bpp_palette() {
    let mut body = vec![0u8; 1024];
    // entry 1: (B,G,R) = (1,2,3); entry 7: (B,G,R) = (40,50,60)
    body[4] = 1;
    body[5] = 2;
    body[6] = 3;
    body[28] = 40;
    body[29] = 50;
    body[30] = 60;
    // one row, two pixels: indices 1 and 7, padded to 4
    body.extend_from_slice(&[1, 7, 0, 0]);
    let bmp = make_bmp_with_table(2, 1, 8, 1024, &body);
    let out = decode_bmp(&bmp).unwrap();
    assert_eq!(&out[8..], &[3, 2, 1, 255, 60, 50, 40, 255]);
}

#[test]
fn test_decode_4bpp_palette() {
    let mut body = vec![0u8; 64];
    // entry 0x0: red; entry 0xf: blue
    body[0] = 0;
    body[1] = 0;
    body[2] = 200;
    body[60] = 210;
    body[61] = 0;
    body[62] = 0;
    // one row, two pixels packed high nibble first: 0x0f, padded to 4
    body.extend_from_slice(&[0x0f, 0, 0, 0]);
    let bmp = make_bmp_with_table(2, 1, 4, 64, &body);
    let out = decode_bmp(&bmp).unwrap();
    assert_eq!(&out[8..], &[200, 0, 0, 255, 0, 0, 210, 255]);
}

#[test]
fn test_decode_1bpp_palette() {
    let mut body = vec![0u8; 8];
    // entry 0: white; entry 1: black
    body[0] = 255;
    body[1] = 255;
    body[2] = 255;
    // one row, three pixels: bits 0,1,0 -> byte 0b0100_0000, padded to 4
    body.extend_from_slice(&[0b0100_0000, 0, 0, 0]);
    let bmp = make_bmp_with_table(3, 1, 1, 8, &body);
    let out = decode_bmp(&bmp).unwrap();
    assert_eq!(
        &out[8..],
        &[255, 255, 255, 255, 0, 0, 0, 255, 255, 255, 255, 255]
    );
}

#[test]
fn test_decode_16bpp() {
    // 5-5-5 words: 0x7fff -> (248,248,248); 0x0421 -> (8,8,8)
    let body = [0xff, 0x7f, 0x21, 0x04];
    let bmp = make_bmp(2, 1, 16, 0, &body);
    let out = decode_bmp(&bmp).unwrap();
    assert_eq!(&out[8..], &[248, 248, 248, 255, 8, 8, 8, 255]);
}

#[test]
fn test_decode_32bpp_uncompressed() {
    // stored (B,G,R,A)
    let body = [1, 2, 3, 4];
    let bmp = make_bmp(1, 1, 32, 0, &body);
    let out = decode_bmp(&bmp).unwrap();
    assert_eq!(&out[8..], &[3, 2, 1, 4]);
}

#[test]
fn test_decode_32bpp_bitfields_zero_alpha_mask() {
    // a 56-byte DIB stores the four masks right after the 40 fixed bytes;
    // a zero alpha mask means alpha is forced to 255
    let mut buf = vec![0u8; 14 + 56 + 4];
    buf[0] = 0x42;
    buf[1] = 0x4d;
    let total = buf.len() as u32;
    put_u32(&mut buf, 2, total);
    put_u32(&mut buf, 10, 70);
    put_u32(&mut buf, 14, 56);
    put_u32(&mut buf, 18, 1);
    put_u32(&mut buf, 22, 1);
    put_u16(&mut buf, 26, 1);
    put_u16(&mut buf, 28, 32);
    put_u32(&mut buf, 30, 3);
    put_u32(&mut buf, 54, 0x0000f000); // red: 4 bits
    put_u32(&mut buf, 58, 0x00000f00); // green: 4 bits
    put_u32(&mut buf, 62, 0x000000f0); // blue: 4 bits
    put_u32(&mut buf, 66, 0); // alpha absent
    put_u32(&mut buf, 70, 0x0000c530); // pixel word
    let out = decode_bmp(&buf).unwrap();
    // red 0xc -> 0xc0, green 0x5 -> 0x50, blue 0x3 -> 0x30, alpha forced
    assert_eq!(&out[8..], &[0xc0, 0x50, 0x30, 255]);
}

#[test]
fn test_dimensions_query() {
    let data = vec![0u8; 3 * 2 * 4];
    let encoded = encode_bmp(3, 2, &data).unwrap();
    let dims = get_bmp_dimensions(&encoded).unwrap();
    assert_eq!(dims, vec![3, 2]);
    // and it agrees with the full decode's prefix
    let decoded = decode_bmp(&encoded).unwrap();
    let w = u32::from_le_bytes([decoded[0], decoded[1], decoded[2], decoded[3]]);
    let h = u32::from_le_bytes([decoded[4], decoded[5], decoded[6], decoded[7]]);
    assert_eq!(dims, vec![w, h]);
}

#[test]
fn test_dimensions_query_negative_height() {
    let body = [30, 20, 10, 0, 90, 80, 70, 0];
    let bmp = make_bmp(1, -2, 24, 0, &body);
    assert_eq!(get_bmp_dimensions(&bmp).unwrap(), vec![1, 2]);
}

#[test]
fn test_dimensions_query_errors() {
    assert_eq!(get_bmp_dimensions(&[0u8; 25]).unwrap_err(), BmpError::TooSmall);
    let mut buf = vec![0u8; 26];
    buf[0] = b'P';
    assert_eq!(get_bmp_dimensions(&buf).unwrap_err(), BmpError::BadSignature);
}
