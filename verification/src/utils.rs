//! Little-endian byte primitives over byte buffers, and the panic hook stub.

use vstd::prelude::*;

verus! {

/// The integer value of the two bytes of `d` at `i`, little-endian.
pub open spec fn le16(d: Seq<u8>, i: int) -> int {
    d[i] + 0x100 * d[i + 1]
}

/// The integer value of the four bytes of `d` at `i`, little-endian.
pub open spec fn le32(d: Seq<u8>, i: int) -> int {
    d[i] + 0x100 * d[i + 1] + 0x1_0000 * d[i + 2] + 0x100_0000 * d[i + 3]
}

/// A 32-bit word reinterpreted as a signed two's-complement value.
pub open spec fn sign32(v: int) -> int {
    if v >= 0x8000_0000 {
        v - 0x1_0000_0000
    } else {
        v
    }
}

/// Byte `k` of the 16-bit little-endian encoding of `v`.
pub open spec fn le16_byte(v: int, k: int) -> u8 {
    if k == 0 {
        (v % 0x100) as u8
    } else {
        ((v / 0x100) % 0x100) as u8
    }
}

/// Byte `k` of the 32-bit little-endian encoding of `v`.
pub open spec fn le32_byte(v: int, k: int) -> u8 {
    if k == 0 {
        (v % 0x100) as u8
    } else if k == 1 {
        ((v / 0x100) % 0x100) as u8
    } else if k == 2 {
        ((v / 0x1_0000) % 0x100) as u8
    } else {
        ((v / 0x100_0000) % 0x100) as u8
    }
}

/// Reading two little-endian bytes recovers the 16-bit value they encode.
pub proof fn lemma_le16_of_bytes(d: Seq<u8>, i: int, v: int)
    requires
        0 <= v < 0x1_0000,
        0 <= i,
        i + 2 <= d.len(),
        d[i] == le16_byte(v, 0),
        d[i + 1] == le16_byte(v, 1),
    ensures
        le16(d, i) == v,
{
    let u = v as u16;
    assert(u % 0x100 + 0x100 * (u / 0x100) == u) by (bit_vector);
    assert(u / 0x100 < 0x100) by (bit_vector);
}

/// Reading four little-endian bytes recovers the 32-bit value they encode.
pub proof fn lemma_le32_of_bytes(d: Seq<u8>, i: int, v: int)
    requires
        0 <= v < 0x1_0000_0000,
        0 <= i,
        i + 4 <= d.len(),
        d[i] == le32_byte(v, 0),
        d[i + 1] == le32_byte(v, 1),
        d[i + 2] == le32_byte(v, 2),
        d[i + 3] == le32_byte(v, 3),
    ensures
        le32(d, i) == v,
{
    let u = v as u32;
    assert(u % 0x100 + 0x100 * ((u / 0x100) % 0x100) + 0x1_0000 * ((u / 0x1_0000) % 0x100)
        + 0x100_0000 * ((u / 0x100_0000) % 0x100) == u) by (bit_vector);
    assert((u / 0x100) % 0x100 < 0x100) by (bit_vector);
    assert((u / 0x1_0000) % 0x100 < 0x100) by (bit_vector);
    assert((u / 0x100_0000) % 0x100 < 0x100) by (bit_vector);
}

/// Set panic hook for better diagnostics in a host console.
///
/// The hook itself belongs to the host environment; in this library the
/// call is a no-op.
pub fn set_panic_hook() {
}

/// Read a u16 little-endian from a byte slice.
pub fn read_u16_le(data: &[u8], offset: usize) -> (r: u16)
    requires
        offset + 2 <= data@.len(),
    ensures
        r == le16(data@, offset as int),
{
    data[offset] as u16 + (data[offset + 1] as u16) * 0x100
}

/// Read a u32 little-endian from a byte slice.
pub fn read_u32_le(data: &[u8], offset: usize) -> (r: u32)
    requires
        offset + 4 <= data@.len(),
    ensures
        r == le32(data@, offset as int),
{
    data[offset] as u32 + (data[offset + 1] as u32) * 0x100 + (data[offset + 2] as u32) * 0x1_0000
        + (data[offset + 3] as u32) * 0x100_0000
}

/// Read an i32 little-endian from a byte slice.
pub fn read_i32_le(data: &[u8], offset: usize) -> (r: i32)
    requires
        offset + 4 <= data@.len(),
    ensures
        r as int == sign32(le32(data@, offset as int)),
{
    let u = read_u32_le(data, offset);
    proof {
        assert(u >= 0x8000_0000 ==> #[verifier::truncate] (u as i32) == u - 0x1_0000_0000)
            by (bit_vector);
        assert(u < 0x8000_0000 ==> #[verifier::truncate] (u as i32) == u) by (bit_vector);
    }
    #[verifier::truncate] (u as i32)
}

/// Write a u16 little-endian into a byte buffer.
pub fn write_u16_le(data: &mut Vec<u8>, offset: usize, value: u16)
    requires
        offset + 2 <= old(data)@.len(),
    ensures
        final(data)@.len() == old(data)@.len(),
        forall|j: int|
            0 <= j < old(data)@.len() && !(offset <= j < offset + 2) ==> final(data)@[j] == old(
                data,
            )@[j],
        final(data)@[offset as int] == le16_byte(value as int, 0),
        final(data)@[offset as int + 1] == le16_byte(value as int, 1),
{
    let _n: usize = data.len();
    data[offset] = (value % 0x100) as u8;
    data[offset + 1] = (value / 0x100) as u8;
    proof {
        let v = value as u16;
        assert(v / 0x100 < 0x100) by (bit_vector);
    }
}

/// Write a u32 little-endian into a byte buffer.
pub fn write_u32_le(data: &mut Vec<u8>, offset: usize, value: u32)
    requires
        offset + 4 <= old(data)@.len(),
    ensures
        final(data)@.len() == old(data)@.len(),
        forall|j: int|
            0 <= j < old(data)@.len() && !(offset <= j < offset + 4) ==> final(data)@[j] == old(
                data,
            )@[j],
        final(data)@[offset as int] == le32_byte(value as int, 0),
        final(data)@[offset as int + 1] == le32_byte(value as int, 1),
        final(data)@[offset as int + 2] == le32_byte(value as int, 2),
        final(data)@[offset as int + 3] == le32_byte(value as int, 3),
{
    let _n: usize = data.len();
    data[offset] = (value % 0x100) as u8;
    data[offset + 1] = ((value / 0x100) % 0x100) as u8;
    data[offset + 2] = ((value / 0x1_0000) % 0x100) as u8;
    data[offset + 3] = ((value / 0x100_0000) % 0x100) as u8;
}

} // verus!
