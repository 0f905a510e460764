//! Little-endian integer encodings, the big-endian frame length, and small
//! byte-vector helpers shared by the wire codec.

use vstd::prelude::*;

verus! {

/// Little-endian two-byte encoding of a `u16`.
pub open spec fn spec_u16_le(x: u16) -> Seq<u8> {
    seq![(x % 256) as u8, ((x / 256) % 256) as u8]
}

/// Little-endian four-byte encoding of a `u32`.
pub open spec fn spec_u32_le(x: u32) -> Seq<u8> {
    seq![
        (x % 256) as u8,
        ((x / 256) % 256) as u8,
        ((x / 65536) % 256) as u8,
        ((x / 16777216) % 256) as u8,
    ]
}

/// Little-endian eight-byte encoding of a `u64`.
pub open spec fn spec_u64_le(x: u64) -> Seq<u8> {
    seq![
        (x % 256) as u8,
        ((x / 256) % 256) as u8,
        ((x / 65536) % 256) as u8,
        ((x / 16777216) % 256) as u8,
        ((x / 4294967296) % 256) as u8,
        ((x / 1099511627776) % 256) as u8,
        ((x / 281474976710656) % 256) as u8,
        ((x / 72057594037927936) % 256) as u8,
    ]
}

/// Big-endian four-byte encoding of a `u32`, used only for the frame header.
pub open spec fn spec_u32_be(x: u32) -> Seq<u8> {
    seq![
        ((x / 16777216) % 256) as u8,
        ((x / 65536) % 256) as u8,
        ((x / 256) % 256) as u8,
        (x % 256) as u8,
    ]
}

/// The `u16` denoted by two little-endian bytes.
pub open spec fn spec_u16_of_le(b0: u8, b1: u8) -> u16 {
    (b0 + b1 * 256) as u16
}

/// The `u32` denoted by four little-endian bytes.
pub open spec fn spec_u32_of_le(b0: u8, b1: u8, b2: u8, b3: u8) -> u32 {
    (b0 + b1 * 256 + b2 * 65536 + b3 * 16777216) as u32
}

/// The `u64` denoted by eight little-endian bytes.
pub open spec fn spec_u64_of_le(
    b0: u8,
    b1: u8,
    b2: u8,
    b3: u8,
    b4: u8,
    b5: u8,
    b6: u8,
    b7: u8,
) -> u64 {
    (b0 + b1 * 256 + b2 * 65536 + b3 * 16777216 + b4 * 4294967296 + b5 * 1099511627776 + b6
        * 281474976710656 + b7 * 72057594037927936) as u64
}

/// The `u32` denoted by four big-endian bytes.
pub open spec fn spec_u32_of_be(b0: u8, b1: u8, b2: u8, b3: u8) -> u32 {
    (b3 + b2 * 256 + b1 * 65536 + b0 * 16777216) as u32
}

/// Decoding the little-endian bytes of a `u16` yields it back.
pub proof fn lemma_u16_le_round_trip(x: u16)
    ensures
        spec_u16_of_le(spec_u16_le(x)[0], spec_u16_le(x)[1]) == x,
{
}

/// Decoding the little-endian bytes of a `u32` yields it back.
pub proof fn lemma_u32_le_round_trip(x: u32)
    ensures
        spec_u32_of_le(
            spec_u32_le(x)[0],
            spec_u32_le(x)[1],
            spec_u32_le(x)[2],
            spec_u32_le(x)[3],
        ) == x,
{
}

/// Decoding the little-endian bytes of a `u64` yields it back.
pub proof fn lemma_u64_le_round_trip(x: u64)
    ensures
        spec_u64_of_le(
            spec_u64_le(x)[0],
            spec_u64_le(x)[1],
            spec_u64_le(x)[2],
            spec_u64_le(x)[3],
            spec_u64_le(x)[4],
            spec_u64_le(x)[5],
            spec_u64_le(x)[6],
            spec_u64_le(x)[7],
        ) == x,
{
    assert(x % 256 == (x % 256) as u8);
    assert((x / 256) % 256 == ((x / 256) % 256) as u8);
    assert((x / 65536) % 256 == ((x / 65536) % 256) as u8);
    assert((x / 16777216) % 256 == ((x / 16777216) % 256) as u8);
    assert((x / 4294967296) % 256 == ((x / 4294967296) % 256) as u8);
    assert((x / 1099511627776) % 256 == ((x / 1099511627776) % 256) as u8);
    assert((x / 281474976710656) % 256 == ((x / 281474976710656) % 256) as u8);
    assert((x / 72057594037927936) % 256 == ((x / 72057594037927936) % 256) as u8);
    assert(x % 256 + ((x / 256) % 256) * 256 + ((x / 65536) % 256) * 65536 + ((x / 16777216)
        % 256) * 16777216 + ((x / 4294967296) % 256) * 4294967296 + ((x / 1099511627776) % 256)
        * 1099511627776 + ((x / 281474976710656) % 256) * 281474976710656 + ((x
        / 72057594037927936) % 256) * 72057594037927936 == x) by (bit_vector);
}

/// Decoding the big-endian bytes of a `u32` yields it back.
pub proof fn lemma_u32_be_round_trip(x: u32)
    ensures
        spec_u32_of_be(
            spec_u32_be(x)[0],
            spec_u32_be(x)[1],
            spec_u32_be(x)[2],
            spec_u32_be(x)[3],
        ) == x,
{
}

/// Appends the little-endian bytes of `x` to `out`.
pub fn push_u16_le(out: &mut Vec<u8>, x: u16)
    ensures
        final(out)@ == old(out)@ + spec_u16_le(x),
{
    out.push((x % 256) as u8);
    out.push(((x / 256) % 256) as u8);
    assert(out@ =~= old(out)@ + spec_u16_le(x));
}

/// Appends the little-endian bytes of `x` to `out`.
pub fn push_u32_le(out: &mut Vec<u8>, x: u32)
    ensures
        final(out)@ == old(out)@ + spec_u32_le(x),
{
    out.push((x % 256) as u8);
    out.push(((x / 256) % 256) as u8);
    out.push(((x / 65536) % 256) as u8);
    out.push(((x / 16777216) % 256) as u8);
    assert(out@ =~= old(out)@ + spec_u32_le(x));
}

/// Appends the little-endian bytes of `x` to `out`.
pub fn push_u64_le(out: &mut Vec<u8>, x: u64)
    ensures
        final(out)@ == old(out)@ + spec_u64_le(x),
{
    out.push((x % 256) as u8);
    out.push(((x / 256) % 256) as u8);
    out.push(((x / 65536) % 256) as u8);
    out.push(((x / 16777216) % 256) as u8);
    out.push(((x / 4294967296) % 256) as u8);
    out.push(((x / 1099511627776) % 256) as u8);
    out.push(((x / 281474976710656) % 256) as u8);
    out.push(((x / 72057594037927936) % 256) as u8);
    assert(out@ =~= old(out)@ + spec_u64_le(x));
}

/// Appends the big-endian bytes of `x` to `out`.
pub fn push_u32_be(out: &mut Vec<u8>, x: u32)
    ensures
        final(out)@ == old(out)@ + spec_u32_be(x),
{
    out.push(((x / 16777216) % 256) as u8);
    out.push(((x / 65536) % 256) as u8);
    out.push(((x / 256) % 256) as u8);
    out.push((x % 256) as u8);
    assert(out@ =~= old(out)@ + spec_u32_be(x));
}

/// Appends all of `src` to `out`.
pub fn push_bytes(out: &mut Vec<u8>, src: &Vec<u8>)
    ensures
        final(out)@ == old(out)@ + src@,
{
    let n = src.len();
    let mut i: usize = 0;
    while i < n
        invariant
            i <= n,
            n == src@.len(),
            out@ == old(out)@ + src@.subrange(0, i as int),
        decreases n - i,
    {
        out.push(src[i]);
        i = i + 1;
        assert(out@ =~= old(out)@ + src@.subrange(0, i as int));
    }
    assert(out@ =~= old(out)@ + src@);
}

/// Whether two byte vectors hold the same bytes.
pub fn bytes_eq(a: &Vec<u8>, b: &Vec<u8>) -> (r: bool)
    ensures
        r == (a@ == b@),
{
    if a.len() != b.len() {
        assert(a@ != b@) by {
            assert(a@.len() != b@.len());
        }
        return false;
    }
    let n = a.len();
    let mut i: usize = 0;
    while i < n
        invariant
            i <= n,
            n == a@.len(),
            n == b@.len(),
            forall|k: int| 0 <= k < i ==> a@[k] == b@[k],
        decreases n - i,
    {
        if a[i] != b[i] {
            return false;
        }
        i = i + 1;
    }
    assert(a@ =~= b@);
    true
}

/// Copies a vector of bytes.
pub fn bytes_clone(a: &Vec<u8>) -> (r: Vec<u8>)
    ensures
        r@ == a@,
{
    let mut out: Vec<u8> = Vec::new();
    push_bytes(&mut out, a);
    assert(out@ =~= a@);
    out
}

/// The decimal digits of `x`, most significant first, as ASCII bytes.
pub open spec fn spec_decimal(x: nat) -> Seq<u8>
    decreases x,
{
    if x < 10 {
        seq![(48 + x) as u8]
    } else {
        spec_decimal(x / 10) + seq![(48 + x % 10) as u8]
    }
}

/// Appends the decimal digits of `x` to `out`.
pub fn push_decimal(out: &mut Vec<u8>, x: u64)
    ensures
        final(out)@ == old(out)@ + spec_decimal(x as nat),
    decreases x,
{
    if x < 10 {
        out.push((48 + x) as u8);
        assert(out@ =~= old(out)@ + spec_decimal(x as nat));
    } else {
        push_decimal(out, x / 10);
        out.push((48 + x % 10) as u8);
        assert(out@ =~= old(out)@ + spec_decimal(x as nat));
    }
}

} // verus!
