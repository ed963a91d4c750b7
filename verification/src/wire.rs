//! Big-endian integer fields, as both codecs put them on the wire.
use vstd::prelude::*;

verus! {

/// The two big-endian bytes of a 16-bit unsigned integer.
pub open spec fn be16(x: u16) -> Seq<u8> {
    seq![(x / 256) as u8, (x % 256) as u8]
}

/// The four big-endian bytes of a 32-bit unsigned integer.
pub open spec fn be32(x: u32) -> Seq<u8> {
    seq![
        (x / 0x1000000) as u8,
        ((x / 0x10000) % 256) as u8,
        ((x / 256) % 256) as u8,
        (x % 256) as u8,
    ]
}

/// The two big-endian bytes of a 16-bit signed integer, two's complement.
pub open spec fn be16i(x: i16) -> Seq<u8> {
    be16(x as u16)
}

/// The four big-endian bytes of a 32-bit signed integer, two's complement.
pub open spec fn be32i(x: i32) -> Seq<u8> {
    be32(x as u32)
}

/// The value read back from two big-endian bytes.
pub open spec fn u16_of_be(b0: u8, b1: u8) -> u16 {
    ((b0 as u16) * 256 + (b1 as u16)) as u16
}

/// The value read back from four big-endian bytes.
pub open spec fn u32_of_be(b0: u8, b1: u8, b2: u8, b3: u8) -> u32 {
    ((b0 as u32) * 0x1000000 + (b1 as u32) * 0x10000 + (b2 as u32) * 256 + (b3 as u32)) as u32
}

/// Casting a signed 32-bit value through unsigned and back is the identity.
pub proof fn lemma_i32_u32_round_trip(x: i32)
    ensures
        ((x as u32) as i32) == x,
{
    assert(((x as u32) as i32) == x) by (bit_vector);
}

/// Casting a signed 16-bit value through unsigned and back is the identity.
pub proof fn lemma_i16_u16_round_trip(x: i16)
    ensures
        ((x as u16) as i16) == x,
{
    assert(((x as u16) as i16) == x) by (bit_vector);
}

/// Casting a signed byte through unsigned and back is the identity.
pub proof fn lemma_i8_u8_round_trip(x: i8)
    ensures
        ((x as u8) as i8) == x,
{
    assert(((x as u8) as i8) == x) by (bit_vector);
}

/// Reading back the two bytes of [`be16`] yields the value written.
pub proof fn lemma_be16_round_trip(x: u16)
    ensures
        u16_of_be(be16(x)[0], be16(x)[1]) == x,
{
}

/// Reading back the four bytes of [`be32`] yields the value written.
pub proof fn lemma_be32_round_trip(x: u32)
    ensures
        u32_of_be(be32(x)[0], be32(x)[1], be32(x)[2], be32(x)[3]) == x,
{
}

pub fn push_u16_be(out: &mut Vec<u8>, x: u16)
    ensures
        final(out)@ == old(out)@ + be16(x),
{
    let ghost out0 = out@;
    out.push((x / 256) as u8);
    out.push((x % 256) as u8);
    proof {
        assert(out@ =~= out0 + be16(x));
    }
}

pub fn push_u32_be(out: &mut Vec<u8>, x: u32)
    ensures
        final(out)@ == old(out)@ + be32(x),
{
    let ghost out0 = out@;
    out.push((x / 0x1000000) as u8);
    out.push(((x / 0x10000) % 256) as u8);
    out.push(((x / 256) % 256) as u8);
    out.push((x % 256) as u8);
    proof {
        assert(out@ =~= out0 + be32(x));
    }
}

pub fn push_i16_be(out: &mut Vec<u8>, x: i16)
    ensures
        final(out)@ == old(out)@ + be16i(x),
{
    push_u16_be(out, x as u16);
}

pub fn push_i32_be(out: &mut Vec<u8>, x: i32)
    ensures
        final(out)@ == old(out)@ + be32i(x),
{
    push_u32_be(out, x as u32);
}

pub fn read_u16_be(buf: &Vec<u8>, i: usize) -> (r: u16)
    requires
        i + 2 <= buf@.len(),
    ensures
        r == u16_of_be(buf@[i as int], buf@[i as int + 1]),
{
    let _n = buf.len();
    (buf[i] as u16) * 256 + (buf[i + 1] as u16)
}

pub fn read_u32_be(buf: &Vec<u8>, i: usize) -> (r: u32)
    requires
        i + 4 <= buf@.len(),
    ensures
        r == u32_of_be(buf@[i as int], buf@[i as int + 1], buf@[i as int + 2], buf@[i as int + 3]),
{
    let _n = buf.len();
    (buf[i] as u32) * 0x1000000 + (buf[i + 1] as u32) * 0x10000 + (buf[i + 2] as u32) * 256 + (buf[i
        + 3] as u32)
}

pub fn read_i16_be(buf: &Vec<u8>, i: usize) -> (r: i16)
    requires
        i + 2 <= buf@.len(),
    ensures
        r == u16_of_be(buf@[i as int], buf@[i as int + 1]) as i16,
{
    read_u16_be(buf, i) as i16
}

pub fn read_i32_be(buf: &Vec<u8>, i: usize) -> (r: i32)
    requires
        i + 4 <= buf@.len(),
    ensures
        r == u32_of_be(
            buf@[i as int],
            buf@[i as int + 1],
            buf@[i as int + 2],
            buf@[i as int + 3],
        ) as i32,
{
    read_u32_be(buf, i) as i32
}

/// `n` zero bytes, the shape of every reserved region.
pub open spec fn zero_bytes(n: int) -> Seq<u8> {
    Seq::new(n as nat, |i: int| 0u8)
}

pub fn push_zeros(out: &mut Vec<u8>, n: usize)
    ensures
        final(out)@ == old(out)@ + zero_bytes(n as int),
{
    let ghost out0 = out@;
    let mut k: usize = 0;
    while k < n
        invariant
            k <= n,
            out@ == out0 + zero_bytes(k as int),
        decreases n - k,
    {
        out.push(0u8);
        proof {
            assert(out@ =~= out0 + zero_bytes(k as int + 1));
        }
        k = k + 1;
    }
    proof {
        assert(out@ =~= out0 + zero_bytes(n as int));
    }
}

pub fn push_bytes(out: &mut Vec<u8>, bytes: &Vec<u8>)
    ensures
        final(out)@ == old(out)@ + bytes@,
{
    let ghost out0 = out@;
    let mut k: usize = 0;
    while k < bytes.len()
        invariant
            k <= bytes@.len(),
            out@ == out0 + bytes@.subrange(0, k as int),
        decreases bytes@.len() - k,
    {
        out.push(bytes[k]);
        proof {
            assert(out@ =~= out0 + bytes@.subrange(0, k as int + 1));
        }
        k = k + 1;
    }
    proof {
        assert(out@ =~= out0 + bytes@);
        assert(bytes@.subrange(0, bytes@.len() as int) =~= bytes@);
    }
}

/// Copy `n` bytes of `buf` starting at `i` into a fresh vector.
pub fn copy_bytes(buf: &Vec<u8>, i: usize, n: usize) -> (r: Vec<u8>)
    requires
        i + n <= buf@.len(),
    ensures
        r@ == buf@.subrange(i as int, i as int + n as int),
{
    let _n = buf.len();
    let mut r: Vec<u8> = Vec::new();
    let mut k: usize = 0;
    while k < n
        invariant
            k <= n,
            i + n <= buf@.len(),
            buf@.len() <= usize::MAX,
            r@ == buf@.subrange(i as int, i as int + k as int),
        decreases n - k,
    {
        r.push(buf[i + k]);
        proof {
            assert(r@ =~= buf@.subrange(i as int, i as int + k as int + 1));
        }
        k = k + 1;
    }
    r
}

} // verus!
