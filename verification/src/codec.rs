//! Little-endian fixed-width integer reading and writing, the byte-level
//! layer of the instruction payload format: integers are fixed-width and
//! little-endian, sequences are length-prefixed with a 32-bit count.

use vstd::prelude::*;

verus! {

/// The value of a little-endian byte string: byte `i` carries weight `256^i`.
pub open spec fn le_val(s: Seq<u8>) -> int
    decreases s.len(),
{
    if s.len() == 0 {
        0
    } else {
        s[0] + 256 * le_val(s.skip(1))
    }
}

/// Reads the two-byte little-endian integer at `offset`.
pub fn read_le_u16(data: &[u8], offset: usize) -> (r: u16)
    requires
        offset + 2 <= data@.len(),
    ensures
        r == le_val(data@.subrange(offset as int, offset + 2)),
{
    let b0 = data[offset];
    let b1 = data[offset + 1];
    let r: u16 = b0 as u16 + (b1 as u16) * 0x100;
    proof {
        let s = data@.subrange(offset as int, offset + 2);
        let s1 = data@.subrange(offset + 1, offset + 2);
        assert(s.skip(1) =~= s1);
        assert(s1.skip(1) =~= Seq::<u8>::empty());
        assert(le_val(Seq::<u8>::empty()) == 0);
        assert(le_val(s1) == b1);
        assert(le_val(s) == b0 + 256 * le_val(s1));
    }
    r
}

/// Reads the four-byte little-endian integer at `offset`.
pub fn read_le_u32(data: &[u8], offset: usize) -> (r: u32)
    requires
        offset + 4 <= data@.len(),
    ensures
        r == le_val(data@.subrange(offset as int, offset + 4)),
{
    let b0 = data[offset] as u32;
    let b1 = data[offset + 1] as u32;
    let b2 = data[offset + 2] as u32;
    let b3 = data[offset + 3] as u32;
    let r: u32 = b0 + b1 * 0x100 + b2 * 0x1_0000 + b3 * 0x100_0000;
    proof {
        let s = data@.subrange(offset as int, offset + 4);
        let s1 = data@.subrange(offset + 1, offset + 4);
        let s2 = data@.subrange(offset + 2, offset + 4);
        let s3 = data@.subrange(offset + 3, offset + 4);
        assert(s.skip(1) =~= s1);
        assert(s1.skip(1) =~= s2);
        assert(s2.skip(1) =~= s3);
        assert(s3.skip(1) =~= Seq::<u8>::empty());
        assert(le_val(Seq::<u8>::empty()) == 0);
        assert(le_val(s3) == b3);
        assert(le_val(s2) == b2 + 256 * le_val(s3));
        assert(le_val(s1) == b1 + 256 * le_val(s2));
        assert(le_val(s) == b0 + 256 * le_val(s1));
    }
    r
}

/// Reads the eight-byte little-endian integer at `offset`.
pub fn read_le_u64(data: &[u8], offset: usize) -> (r: u64)
    requires
        offset + 8 <= data@.len(),
    ensures
        r == le_val(data@.subrange(offset as int, offset + 8)),
{
    let b0 = data[offset] as u64;
    let b1 = data[offset + 1] as u64;
    let b2 = data[offset + 2] as u64;
    let b3 = data[offset + 3] as u64;
    let b4 = data[offset + 4] as u64;
    let b5 = data[offset + 5] as u64;
    let b6 = data[offset + 6] as u64;
    let b7 = data[offset + 7] as u64;
    let r: u64 = b0 + b1 * 0x100 + b2 * 0x1_0000 + b3 * 0x100_0000 + b4 * 0x1_0000_0000 + b5
        * 0x100_0000_0000 + b6 * 0x1_0000_0000_0000 + b7 * 0x100_0000_0000_0000;
    proof {
        let s = data@.subrange(offset as int, offset + 8);
        let s1 = data@.subrange(offset + 1, offset + 8);
        let s2 = data@.subrange(offset + 2, offset + 8);
        let s3 = data@.subrange(offset + 3, offset + 8);
        let s4 = data@.subrange(offset + 4, offset + 8);
        let s5 = data@.subrange(offset + 5, offset + 8);
        let s6 = data@.subrange(offset + 6, offset + 8);
        let s7 = data@.subrange(offset + 7, offset + 8);
        assert(s.skip(1) =~= s1);
        assert(s1.skip(1) =~= s2);
        assert(s2.skip(1) =~= s3);
        assert(s3.skip(1) =~= s4);
        assert(s4.skip(1) =~= s5);
        assert(s5.skip(1) =~= s6);
        assert(s6.skip(1) =~= s7);
        assert(s7.skip(1) =~= Seq::<u8>::empty());
        assert(le_val(Seq::<u8>::empty()) == 0);
        assert(le_val(s7) == b7);
        assert(le_val(s6) == b6 + 256 * le_val(s7));
        assert(le_val(s5) == b5 + 256 * le_val(s6));
        assert(le_val(s4) == b4 + 256 * le_val(s5));
        assert(le_val(s3) == b3 + 256 * le_val(s4));
        assert(le_val(s2) == b2 + 256 * le_val(s3));
        assert(le_val(s1) == b1 + 256 * le_val(s2));
        assert(le_val(s) == b0 + 256 * le_val(s1));
    }
    r
}

/// The two little-endian bytes of a 16-bit value.
pub open spec fn le_bytes_of_u16(x: u16) -> Seq<u8> {
    seq![(x & 0xff) as u8, ((x >> 8) & 0xff) as u8]
}

/// The four little-endian bytes of a 32-bit value.
pub open spec fn le_bytes_of_u32(x: u32) -> Seq<u8> {
    seq![
        (x & 0xff) as u8,
        ((x >> 8) & 0xff) as u8,
        ((x >> 16) & 0xff) as u8,
        ((x >> 24) & 0xff) as u8,
    ]
}

/// The eight little-endian bytes of a 64-bit value.
pub open spec fn le_bytes_of_u64(x: u64) -> Seq<u8> {
    seq![
        (x & 0xff) as u8,
        ((x >> 8) & 0xff) as u8,
        ((x >> 16) & 0xff) as u8,
        ((x >> 24) & 0xff) as u8,
        ((x >> 32) & 0xff) as u8,
        ((x >> 40) & 0xff) as u8,
        ((x >> 48) & 0xff) as u8,
        ((x >> 56) & 0xff) as u8,
    ]
}

/// Writing a 16-bit value and reading the bytes back is the identity.
pub proof fn lemma_le_u16_roundtrip(x: u16)
    ensures
        le_val(le_bytes_of_u16(x)) == x,
{
    let s = le_bytes_of_u16(x);
    assert((x & 0xff) < 256 && ((x >> 8) & 0xff) < 256) by (bit_vector);
    assert(s.skip(1) =~= seq![((x >> 8) & 0xff) as u8]);
    assert(s.skip(1).skip(1) =~= Seq::<u8>::empty());
    assert(le_val(Seq::<u8>::empty()) == 0);
    assert(le_val(s.skip(1)) == ((x >> 8) & 0xff));
    assert((x & 0xff) + 256 * ((x >> 8) & 0xff) == x) by (bit_vector);
}

/// Writing a 32-bit value and reading the bytes back is the identity.
pub proof fn lemma_le_u32_roundtrip(x: u32)
    ensures
        le_val(le_bytes_of_u32(x)) == x,
{
    let s = le_bytes_of_u32(x);
    assert((x & 0xff) < 256 && ((x >> 8) & 0xff) < 256 && ((x >> 16) & 0xff) < 256 && ((x >> 24)
        & 0xff) < 256) by (bit_vector);
    let s1 = s.skip(1);
    let s2 = s1.skip(1);
    let s3 = s2.skip(1);
    assert(s1 =~= seq![((x >> 8) & 0xff) as u8, ((x >> 16) & 0xff) as u8, ((x >> 24) & 0xff) as u8]);
    assert(s2 =~= seq![((x >> 16) & 0xff) as u8, ((x >> 24) & 0xff) as u8]);
    assert(s3 =~= seq![((x >> 24) & 0xff) as u8]);
    assert(s3.skip(1) =~= Seq::<u8>::empty());
    assert(le_val(Seq::<u8>::empty()) == 0);
    assert(le_val(s3) == ((x >> 24) & 0xff));
    assert(le_val(s2) == ((x >> 16) & 0xff) + 256 * le_val(s3));
    assert(le_val(s1) == ((x >> 8) & 0xff) + 256 * le_val(s2));
    assert(le_val(s) == (x & 0xff) + 256 * le_val(s1));
    assert((x & 0xff) + 256 * ((x >> 8) & 0xff) + 0x1_0000 * ((x >> 16) & 0xff) + 0x100_0000 * ((x
        >> 24) & 0xff) == x) by (bit_vector);
}

/// Writing a 64-bit value and reading the bytes back is the identity.
pub proof fn lemma_le_u64_roundtrip(x: u64)
    ensures
        le_val(le_bytes_of_u64(x)) == x,
{
    let s = le_bytes_of_u64(x);
    assert((x & 0xff) < 256 && ((x >> 8) & 0xff) < 256 && ((x >> 16) & 0xff) < 256 && ((x >> 24)
        & 0xff) < 256 && ((x >> 32) & 0xff) < 256 && ((x >> 40) & 0xff) < 256 && ((x >> 48) & 0xff)
        < 256 && ((x >> 56) & 0xff) < 256) by (bit_vector);
    let s1 = s.skip(1);
    let s2 = s1.skip(1);
    let s3 = s2.skip(1);
    let s4 = s3.skip(1);
    let s5 = s4.skip(1);
    let s6 = s5.skip(1);
    let s7 = s6.skip(1);
    assert(s1 =~= s.subrange(1, 8));
    assert(s2 =~= s.subrange(2, 8));
    assert(s3 =~= s.subrange(3, 8));
    assert(s4 =~= s.subrange(4, 8));
    assert(s5 =~= s.subrange(5, 8));
    assert(s6 =~= s.subrange(6, 8));
    assert(s7 =~= seq![((x >> 56) & 0xff) as u8]);
    assert(s7.skip(1) =~= Seq::<u8>::empty());
    assert(le_val(Seq::<u8>::empty()) == 0);
    assert(le_val(s7) == ((x >> 56) & 0xff));
    assert(le_val(s6) == ((x >> 48) & 0xff) + 256 * le_val(s7));
    assert(le_val(s5) == ((x >> 40) & 0xff) + 256 * le_val(s6));
    assert(le_val(s4) == ((x >> 32) & 0xff) + 256 * le_val(s5));
    assert(le_val(s3) == ((x >> 24) & 0xff) + 256 * le_val(s4));
    assert(le_val(s2) == ((x >> 16) & 0xff) + 256 * le_val(s3));
    assert(le_val(s1) == ((x >> 8) & 0xff) + 256 * le_val(s2));
    assert(le_val(s) == (x & 0xff) + 256 * le_val(s1));
    assert((x & 0xff) + 256 * ((x >> 8) & 0xff) + 0x1_0000 * ((x >> 16) & 0xff) + 0x100_0000 * ((x
        >> 24) & 0xff) + 0x1_0000_0000 * ((x >> 32) & 0xff) + 0x100_0000_0000 * ((x >> 40) & 0xff)
        + 0x1_0000_0000_0000 * ((x >> 48) & 0xff) + 0x100_0000_0000_0000 * ((x >> 56) & 0xff)
        == x) by (bit_vector);
}

/// Appends the two little-endian bytes of `x` to `out`.
pub fn write_le_u16(out: &mut Vec<u8>, x: u16)
    ensures
        final(out)@ == old(out)@ + le_bytes_of_u16(x),
{
    out.push((x & 0xff) as u8);
    out.push(((x >> 8) & 0xff) as u8);
    proof {
        assert(out@ =~= old(out)@ + le_bytes_of_u16(x));
    }
}

/// Appends the four little-endian bytes of `x` to `out`.
pub fn write_le_u32(out: &mut Vec<u8>, x: u32)
    ensures
        final(out)@ == old(out)@ + le_bytes_of_u32(x),
{
    out.push((x & 0xff) as u8);
    out.push(((x >> 8) & 0xff) as u8);
    out.push(((x >> 16) & 0xff) as u8);
    out.push(((x >> 24) & 0xff) as u8);
    proof {
        assert(out@ =~= old(out)@ + le_bytes_of_u32(x));
    }
}

/// Appends the eight little-endian bytes of `x` to `out`.
pub fn write_le_u64(out: &mut Vec<u8>, x: u64)
    ensures
        final(out)@ == old(out)@ + le_bytes_of_u64(x),
{
    out.push((x & 0xff) as u8);
    out.push(((x >> 8) & 0xff) as u8);
    out.push(((x >> 16) & 0xff) as u8);
    out.push(((x >> 24) & 0xff) as u8);
    out.push(((x >> 32) & 0xff) as u8);
    out.push(((x >> 40) & 0xff) as u8);
    out.push(((x >> 48) & 0xff) as u8);
    out.push(((x >> 56) & 0xff) as u8);
    proof {
        assert(out@ =~= old(out)@ + le_bytes_of_u64(x));
    }
}

} // verus!
