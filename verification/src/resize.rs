//! The nearest-neighbor resampler over canonical RGBA buffers, and the
//! kernel selector shared with the floating-point kernels of the host layer.

use vstd::prelude::*;
use vstd::arithmetic::div_mod::lemma_div_is_ordered;

verus! {

/// The four interpolation kernels a resize may use.
#[derive(Clone, Copy, Debug, PartialEq, Eq, Structural)]
pub enum ResizeAlgorithm {
    Nearest,
    Bilinear,
    Bicubic,
    Lanczos,
}

/// Byte `i` of the nearest-neighbor result: destination pixel `(x, y)`
/// copies source pixel `(x*sw/dw, y*sh/dh)` verbatim.
pub open spec fn nearest_byte(d: Seq<u8>, sw: int, sh: int, dw: int, dh: int, i: int) -> u8 {
    let pix = i / 4;
    let c = i % 4;
    let x = pix % dw;
    let y = pix / dw;
    let sx = (x * sw) / dw;
    let sy = (y * sh) / dh;
    d[(sy * sw + sx) * 4 + c]
}

/// The whole nearest-neighbor result.
pub open spec fn nearest_bytes(d: Seq<u8>, sw: int, sh: int, dw: int, dh: int) -> Seq<u8> {
    Seq::new((dw * dh * 4) as nat, |i: int| nearest_byte(d, sw, sh, dw, dh, i))
}

/// The sampled source column stays inside the source width.
pub(crate) proof fn lemma_sample_in_range(x: int, s: int, t: int)
    requires
        0 <= x < t,
        s >= 1,
    ensures
        0 <= (x * s) / t < s,
{
    assert(x * s >= 0 && x * s <= (t - 1) * s) by (nonlinear_arith)
        requires
            0 <= x <= t - 1,
            s >= 1,
    ;
    lemma_div_is_ordered(0, x * s, t);
    lemma_div_is_ordered(x * s, (t - 1) * s, t);
    assert(((t - 1) * s) / t < s) by (nonlinear_arith)
        requires
            s >= 1,
            t >= 1,
    ;
}

/// Channel `c` of destination pixel `(x, y)` sits at output byte
/// `(y*dw + x)*4 + c` and is the sampled source byte.
proof fn lemma_nearest_byte_pixel(
    d: Seq<u8>,
    sw: int,
    sh: int,
    dw: int,
    dh: int,
    x: int,
    y: int,
    c: int,
)
    requires
        0 <= c < 4,
        0 <= x < dw,
        0 <= y,
    ensures
        nearest_byte(d, sw, sh, dw, dh, (y * dw + x) * 4 + c) == d[(((y * sh) / dh) * sw + (x * sw)
            / dw) * 4 + c],
{
    let pix = y * dw + x;
    assert(pix >= 0 && pix % dw == x && pix / dw == y) by (nonlinear_arith)
        requires
            0 <= x < dw,
            0 <= y,
            pix == y * dw + x,
    ;
    assert((pix * 4 + c) / 4 == pix && (pix * 4 + c) % 4 == c) by (nonlinear_arith)
        requires
            0 <= c < 4,
            pix >= 0,
    ;
}

/// Resize an RGBA buffer with the nearest-neighbor kernel: every
/// destination pixel is a verbatim copy of the source pixel at the
/// floor of the scaled coordinates.
pub fn resize_nearest(
    data: &[u8],
    src_width: u32,
    src_height: u32,
    dst_width: u32,
    dst_height: u32,
) -> (r: Vec<u8>)
    requires
        src_width >= 1,
        src_height >= 1,
        dst_width >= 1,
        dst_height >= 1,
        data@.len() == src_width * src_height * 4,
    ensures
        r@ == nearest_bytes(
            data@,
            src_width as int,
            src_height as int,
            dst_width as int,
            dst_height as int,
        ),
{
    let ghost d = data@;
    let ghost sw = src_width as int;
    let ghost sh = src_height as int;
    let ghost dw = dst_width as int;
    let ghost dh = dst_height as int;
    let n = data.len();
    let mut output: Vec<u8> = Vec::new();
    let mut y: u32 = 0;
    while y < dst_height
        invariant
            y <= dst_height,
            d == data@,
            sw == src_width as int,
            sh == src_height as int,
            dw == dst_width as int,
            dh == dst_height as int,
            src_width >= 1,
            src_height >= 1,
            dst_width >= 1,
            dst_height >= 1,
            n == d.len(),
            d.len() == sw * sh * 4,
            output@.len() == y * dw * 4,
            forall|i: int|
                0 <= i < output@.len() ==> output@[i] == nearest_byte(d, sw, sh, dw, dh, i),
        decreases dst_height - y,
    {
        proof {
            lemma_sample_in_range(y as int, sh, dh);
            assert((y as int) * sh < 0x1_0000_0000_0000_0000) by (nonlinear_arith)
                requires
                    0 <= y < 0x1_0000_0000,
                    0 <= sh < 0x1_0000_0000,
            ;
        }
        let src_y: u64 = (y as u64) * (src_height as u64) / (dst_height as u64);
        let mut x: u32 = 0;
        while x < dst_width
            invariant
                y < dst_height,
                x <= dst_width,
                d == data@,
                sw == src_width as int,
                sh == src_height as int,
                dw == dst_width as int,
                dh == dst_height as int,
                src_width >= 1,
                src_height >= 1,
                dst_width >= 1,
                dst_height >= 1,
                n == d.len(),
                d.len() == sw * sh * 4,
                src_y == (y as int) * sh / dh,
                0 <= src_y < sh,
                output@.len() == (y * dw + x) * 4,
                forall|i: int|
                    0 <= i < output@.len() ==> output@[i] == nearest_byte(d, sw, sh, dw, dh, i),
            decreases dst_width - x,
        {
            proof {
                lemma_sample_in_range(x as int, sw, dw);
                assert((x as int) * sw < 0x1_0000_0000_0000_0000) by (nonlinear_arith)
                    requires
                        0 <= x < 0x1_0000_0000,
                        0 <= sw < 0x1_0000_0000,
                ;
            }
            let src_x: u64 = (x as u64) * (src_width as u64) / (dst_width as u64);
            proof {
                assert((src_y as int) * sw + src_x < sw * sh && (src_y as int) * sw >= 0)
                    by (nonlinear_arith)
                    requires
                        0 <= src_y <= sh - 1,
                        0 <= src_x < sw,
                        sw >= 1,
                        sh >= 1,
                ;
            }
            let si: usize = ((src_y * (src_width as u64) + src_x) * 4) as usize;
            output.push(data[si]);
            output.push(data[si + 1]);
            output.push(data[si + 2]);
            output.push(data[si + 3]);
            proof {
                lemma_nearest_byte_pixel(d, sw, sh, dw, dh, x as int, y as int, 0);
                lemma_nearest_byte_pixel(d, sw, sh, dw, dh, x as int, y as int, 1);
                lemma_nearest_byte_pixel(d, sw, sh, dw, dh, x as int, y as int, 2);
                lemma_nearest_byte_pixel(d, sw, sh, dw, dh, x as int, y as int, 3);
            }
            x = x + 1;
        }
        proof {
            assert(((y + 1) as int) * dw == y * dw + dw) by (nonlinear_arith);
        }
        y = y + 1;
    }
    proof {
        assert(dh * dw == dw * dh) by (nonlinear_arith);
        assert(output@ =~= nearest_bytes(d, sw, sh, dw, dh));
    }
    output
}

} // verus!
