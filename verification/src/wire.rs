//! Byte-level model of the Binary protocol: big-endian views of the integer
//! types, their byte encodings, and the round-trip lemmas tying the two
//! together.

use vstd::prelude::*;

verus! {

/// The 16-bit value encoded big-endian by the two bytes.
pub open spec fn be16_val(b0: u8, b1: u8) -> u16 {
    ((b0 as u16) << 8) | (b1 as u16)
}

/// The 32-bit value encoded big-endian by the four bytes.
pub open spec fn be32_val(b0: u8, b1: u8, b2: u8, b3: u8) -> u32 {
    ((b0 as u32) << 24) | ((b1 as u32) << 16) | ((b2 as u32) << 8) | (b3 as u32)
}

/// The 64-bit value encoded big-endian by the eight bytes.
pub open spec fn be64_val(b0: u8, b1: u8, b2: u8, b3: u8, b4: u8, b5: u8, b6: u8, b7: u8) -> u64 {
    ((b0 as u64) << 56) | ((b1 as u64) << 48) | ((b2 as u64) << 40) | ((b3 as u64) << 32) | ((
    b4 as u64) << 24) | ((b5 as u64) << 16) | ((b6 as u64) << 8) | (b7 as u64)
}

/// The unsigned 16-bit value stored big-endian at `pos`.
pub open spec fn spec_u16_at(b: Seq<u8>, pos: int) -> u16
    recommends
        0 <= pos,
        pos + 2 <= b.len(),
{
    be16_val(b[pos], b[pos + 1])
}

/// The unsigned 32-bit value stored big-endian at `pos`.
pub open spec fn spec_u32_at(b: Seq<u8>, pos: int) -> u32
    recommends
        0 <= pos,
        pos + 4 <= b.len(),
{
    be32_val(b[pos], b[pos + 1], b[pos + 2], b[pos + 3])
}

/// The unsigned 64-bit value stored big-endian at `pos`.
pub open spec fn spec_u64_at(b: Seq<u8>, pos: int) -> u64
    recommends
        0 <= pos,
        pos + 8 <= b.len(),
{
    be64_val(b[pos], b[pos + 1], b[pos + 2], b[pos + 3], b[pos + 4], b[pos + 5], b[pos + 6], b[pos
        + 7])
}

/// The signed 16-bit value stored big-endian at `pos`.
pub open spec fn spec_i16_at(b: Seq<u8>, pos: int) -> i16 {
    spec_u16_at(b, pos) as i16
}

/// The signed 32-bit value stored big-endian at `pos`.
pub open spec fn spec_i32_at(b: Seq<u8>, pos: int) -> i32 {
    spec_u32_at(b, pos) as i32
}

/// The signed 64-bit value stored big-endian at `pos`.
pub open spec fn spec_i64_at(b: Seq<u8>, pos: int) -> i64 {
    spec_u64_at(b, pos) as i64
}

/// Big-endian bytes of a 16-bit unsigned value.
pub open spec fn spec_u16_bytes(x: u16) -> Seq<u8> {
    seq![(x >> 8) as u8, x as u8]
}

/// Big-endian bytes of a 32-bit unsigned value.
pub open spec fn spec_u32_bytes(x: u32) -> Seq<u8> {
    seq![(x >> 24) as u8, (x >> 16) as u8, (x >> 8) as u8, x as u8]
}

/// Big-endian bytes of a 64-bit unsigned value.
pub open spec fn spec_u64_bytes(x: u64) -> Seq<u8> {
    seq![
        (x >> 56) as u8,
        (x >> 48) as u8,
        (x >> 40) as u8,
        (x >> 32) as u8,
        (x >> 24) as u8,
        (x >> 16) as u8,
        (x >> 8) as u8,
        x as u8,
    ]
}

/// Big-endian bytes of a 16-bit signed value (two's complement).
pub open spec fn spec_i16_bytes(x: i16) -> Seq<u8> {
    spec_u16_bytes(x as u16)
}

/// Big-endian bytes of a 32-bit signed value (two's complement).
pub open spec fn spec_i32_bytes(x: i32) -> Seq<u8> {
    spec_u32_bytes(x as u32)
}

/// Big-endian bytes of a 64-bit signed value (two's complement).
pub open spec fn spec_i64_bytes(x: i64) -> Seq<u8> {
    spec_u64_bytes(x as u64)
}

/// Encoding then decoding a 16-bit unsigned value is the identity.
pub proof fn lemma_u16_roundtrip(x: u16)
    ensures
        be16_val(spec_u16_bytes(x)[0], spec_u16_bytes(x)[1]) == x,
{
    assert((((x >> 8) as u8 as u16) << 8) | (x as u8 as u16) == x) by (bit_vector);
}

/// Encoding then decoding a 32-bit unsigned value is the identity.
pub proof fn lemma_u32_roundtrip(x: u32)
    ensures
        be32_val(
            spec_u32_bytes(x)[0],
            spec_u32_bytes(x)[1],
            spec_u32_bytes(x)[2],
            spec_u32_bytes(x)[3],
        ) == x,
{
    assert((((x >> 24) as u8 as u32) << 24) | (((x >> 16) as u8 as u32) << 16) | (((x
        >> 8) as u8 as u32) << 8) | (x as u8 as u32) == x) by (bit_vector);
}

/// Encoding then decoding a 64-bit unsigned value is the identity.
pub proof fn lemma_u64_roundtrip(x: u64)
    ensures
        be64_val(
            spec_u64_bytes(x)[0],
            spec_u64_bytes(x)[1],
            spec_u64_bytes(x)[2],
            spec_u64_bytes(x)[3],
            spec_u64_bytes(x)[4],
            spec_u64_bytes(x)[5],
            spec_u64_bytes(x)[6],
            spec_u64_bytes(x)[7],
        ) == x,
{
    assert((((x >> 56) as u8 as u64) << 56) | (((x >> 48) as u8 as u64) << 48) | (((x
        >> 40) as u8 as u64) << 40) | (((x >> 32) as u8 as u64) << 32) | (((x
        >> 24) as u8 as u64) << 24) | (((x >> 16) as u8 as u64) << 16) | (((x
        >> 8) as u8 as u64) << 8) | (x as u8 as u64) == x) by (bit_vector);
}

/// Reading an unsigned 16-bit value back from its bytes placed at `pos`
/// yields the value written.
pub proof fn lemma_u16_at_bytes(b: Seq<u8>, pos: int, x: u16)
    requires
        0 <= pos,
        pos + 2 <= b.len(),
        b.subrange(pos, pos + 2) == spec_u16_bytes(x),
    ensures
        spec_u16_at(b, pos) == x,
{
    assert(b[pos] == spec_u16_bytes(x)[0]) by {
        assert(b.subrange(pos, pos + 2)[0] == b[pos]);
    }
    assert(b[pos + 1] == spec_u16_bytes(x)[1]) by {
        assert(b.subrange(pos, pos + 2)[1] == b[pos + 1]);
    }
    lemma_u16_roundtrip(x);
}

/// Reading an unsigned 32-bit value back from its bytes placed at `pos`
/// yields the value written.
pub proof fn lemma_u32_at_bytes(b: Seq<u8>, pos: int, x: u32)
    requires
        0 <= pos,
        pos + 4 <= b.len(),
        b.subrange(pos, pos + 4) == spec_u32_bytes(x),
    ensures
        spec_u32_at(b, pos) == x,
{
    assert forall|i: int| 0 <= i < 4 implies b[pos + i] == spec_u32_bytes(x)[i] by {
        assert(b.subrange(pos, pos + 4)[i] == b[pos + i]);
    }
    lemma_u32_roundtrip(x);
}

/// Reading an unsigned 64-bit value back from its bytes placed at `pos`
/// yields the value written.
pub proof fn lemma_u64_at_bytes(b: Seq<u8>, pos: int, x: u64)
    requires
        0 <= pos,
        pos + 8 <= b.len(),
        b.subrange(pos, pos + 8) == spec_u64_bytes(x),
    ensures
        spec_u64_at(b, pos) == x,
{
    assert forall|i: int| 0 <= i < 8 implies b[pos + i] == spec_u64_bytes(x)[i] by {
        assert(b.subrange(pos, pos + 8)[i] == b[pos + i]);
    }
    lemma_u64_roundtrip(x);
}

/// Reading a signed 16-bit value back from its bytes placed at `pos` yields
/// the value written.
pub proof fn lemma_i16_at_bytes(b: Seq<u8>, pos: int, x: i16)
    requires
        0 <= pos,
        pos + 2 <= b.len(),
        b.subrange(pos, pos + 2) == spec_i16_bytes(x),
    ensures
        spec_i16_at(b, pos) == x,
{
    lemma_u16_at_bytes(b, pos, x as u16);
    assert(x as u16 as i16 == x) by (bit_vector);
}

/// Reading a signed 32-bit value back from its bytes placed at `pos` yields
/// the value written.
pub proof fn lemma_i32_at_bytes(b: Seq<u8>, pos: int, x: i32)
    requires
        0 <= pos,
        pos + 4 <= b.len(),
        b.subrange(pos, pos + 4) == spec_i32_bytes(x),
    ensures
        spec_i32_at(b, pos) == x,
{
    lemma_u32_at_bytes(b, pos, x as u32);
    assert(x as u32 as i32 == x) by (bit_vector);
}

/// Reading a signed 64-bit value back from its bytes placed at `pos` yields
/// the value written.
pub proof fn lemma_i64_at_bytes(b: Seq<u8>, pos: int, x: i64)
    requires
        0 <= pos,
        pos + 8 <= b.len(),
        b.subrange(pos, pos + 8) == spec_i64_bytes(x),
    ensures
        spec_i64_at(b, pos) == x,
{
    lemma_u64_at_bytes(b, pos, x as u64);
    assert(x as u64 as i64 == x) by (bit_vector);
}

/// Read the unsigned 16-bit value stored big-endian at `pos`.
pub fn read_u16_at(b: &Vec<u8>, pos: usize) -> (r: u16)
    requires
        pos + 2 <= b@.len(),
    ensures
        r == spec_u16_at(b@, pos as int),
{
    let n = b.len();
    ((b[pos] as u16) << 8) | (b[pos + 1] as u16)
}

/// Read the unsigned 32-bit value stored big-endian at `pos`.
pub fn read_u32_at(b: &Vec<u8>, pos: usize) -> (r: u32)
    requires
        pos + 4 <= b@.len(),
    ensures
        r == spec_u32_at(b@, pos as int),
{
    let n = b.len();
    ((b[pos] as u32) << 24) | ((b[pos + 1] as u32) << 16) | ((b[pos + 2] as u32) << 8) | (b[pos
        + 3] as u32)
}

/// Read the unsigned 64-bit value stored big-endian at `pos`.
pub fn read_u64_at(b: &Vec<u8>, pos: usize) -> (r: u64)
    requires
        pos + 8 <= b@.len(),
    ensures
        r == spec_u64_at(b@, pos as int),
{
    let n = b.len();
    ((b[pos] as u64) << 56) | ((b[pos + 1] as u64) << 48) | ((b[pos + 2] as u64) << 40) | ((b[pos
        + 3] as u64) << 32) | ((b[pos + 4] as u64) << 24) | ((b[pos + 5] as u64) << 16) | ((b[pos
        + 6] as u64) << 8) | (b[pos + 7] as u64)
}

/// Read the signed 16-bit value stored big-endian at `pos`.
pub fn read_i16_at(b: &Vec<u8>, pos: usize) -> (r: i16)
    requires
        pos + 2 <= b@.len(),
    ensures
        r == spec_i16_at(b@, pos as int),
{
    read_u16_at(b, pos) as i16
}

/// Read the signed 32-bit value stored big-endian at `pos`.
pub fn read_i32_at(b: &Vec<u8>, pos: usize) -> (r: i32)
    requires
        pos + 4 <= b@.len(),
    ensures
        r == spec_i32_at(b@, pos as int),
{
    read_u32_at(b, pos) as i32
}

/// Read the signed 64-bit value stored big-endian at `pos`.
pub fn read_i64_at(b: &Vec<u8>, pos: usize) -> (r: i64)
    requires
        pos + 8 <= b@.len(),
    ensures
        r == spec_i64_at(b@, pos as int),
{
    read_u64_at(b, pos) as i64
}

/// Append the big-endian bytes of a 16-bit unsigned value.
pub fn push_u16_be(v: &mut Vec<u8>, x: u16)
    ensures
        final(v)@ == old(v)@ + spec_u16_bytes(x),
{
    v.push((x >> 8) as u8);
    v.push(x as u8);
    proof {
        assert(v@ =~= old(v)@ + spec_u16_bytes(x));
    }
}

/// Append the big-endian bytes of a 32-bit unsigned value.
pub fn push_u32_be(v: &mut Vec<u8>, x: u32)
    ensures
        final(v)@ == old(v)@ + spec_u32_bytes(x),
{
    v.push((x >> 24) as u8);
    v.push((x >> 16) as u8);
    v.push((x >> 8) as u8);
    v.push(x as u8);
    proof {
        assert(v@ =~= old(v)@ + spec_u32_bytes(x));
    }
}

/// Append the big-endian bytes of a 64-bit unsigned value.
pub fn push_u64_be(v: &mut Vec<u8>, x: u64)
    ensures
        final(v)@ == old(v)@ + spec_u64_bytes(x),
{
    v.push((x >> 56) as u8);
    v.push((x >> 48) as u8);
    v.push((x >> 40) as u8);
    v.push((x >> 32) as u8);
    v.push((x >> 24) as u8);
    v.push((x >> 16) as u8);
    v.push((x >> 8) as u8);
    v.push(x as u8);
    proof {
        assert(v@ =~= old(v)@ + spec_u64_bytes(x));
    }
}

/// Append the big-endian bytes of a 16-bit signed value.
pub fn push_i16_be(v: &mut Vec<u8>, x: i16)
    ensures
        final(v)@ == old(v)@ + spec_i16_bytes(x),
{
    push_u16_be(v, x as u16);
}

/// Append the big-endian bytes of a 32-bit signed value.
pub fn push_i32_be(v: &mut Vec<u8>, x: i32)
    ensures
        final(v)@ == old(v)@ + spec_i32_bytes(x),
{
    push_u32_be(v, x as u32);
}

/// Append the big-endian bytes of a 64-bit signed value.
pub fn push_i64_be(v: &mut Vec<u8>, x: i64)
    ensures
        final(v)@ == old(v)@ + spec_i64_bytes(x),
{
    push_u64_be(v, x as u64);
}

/// Copy `len` bytes of `b` starting at `start` into a fresh vector.
pub fn copy_range(b: &Vec<u8>, start: usize, len: usize) -> (r: Vec<u8>)
    requires
        start + len <= b@.len(),
    ensures
        r@ == b@.subrange(start as int, start as int + len as int),
{
    let n = b.len();
    let mut out: Vec<u8> = Vec::new();
    let mut i: usize = 0;
    while i < len
        invariant
            i <= len,
            start + len <= b@.len(),
            b@.len() <= usize::MAX,
            out@ == b@.subrange(start as int, start as int + i as int),
        decreases len - i,
    {
        out.push(b[start + i]);
        proof {
            assert(out@ =~= b@.subrange(start as int, start as int + (i + 1) as int));
        }
        i = i + 1;
    }
    out
}

/// Overwrite the four bytes at `pos` with the big-endian bytes of `x`.
pub fn patch_u32_be(v: &mut Vec<u8>, pos: usize, x: u32)
    requires
        pos + 4 <= old(v)@.len(),
    ensures
        final(v)@.len() == old(v)@.len(),
        final(v)@.subrange(pos as int, pos as int + 4) == spec_u32_bytes(x),
        forall|i: int|
            0 <= i < final(v)@.len() && !(pos <= i < pos + 4) ==> final(v)@[i] == old(v)@[i],
{
    let n = v.len();
    v.set(pos, (x >> 24) as u8);
    v.set(pos + 1, (x >> 16) as u8);
    v.set(pos + 2, (x >> 8) as u8);
    v.set(pos + 3, x as u8);
    proof {
        assert(v@.subrange(pos as int, pos as int + 4) =~= spec_u32_bytes(x));
    }
}

/// Overwrite the two bytes at `pos` with the big-endian bytes of `x`.
pub fn patch_u16_be(v: &mut Vec<u8>, pos: usize, x: u16)
    requires
        pos + 2 <= old(v)@.len(),
    ensures
        final(v)@.len() == old(v)@.len(),
        final(v)@.subrange(pos as int, pos as int + 2) == spec_u16_bytes(x),
        forall|i: int|
            0 <= i < final(v)@.len() && !(pos <= i < pos + 2) ==> final(v)@[i] == old(v)@[i],
{
    let n = v.len();
    v.set(pos, (x >> 8) as u8);
    v.set(pos + 1, x as u8);
    proof {
        assert(v@.subrange(pos as int, pos as int + 2) =~= spec_u16_bytes(x));
    }
}

/// Append all of `b` to `dst`.
pub fn append_bytes(dst: &mut Vec<u8>, b: &Vec<u8>)
    ensures
        final(dst)@ == old(dst)@ + b@,
{
    let n = b.len();
    let mut i: usize = 0;
    while i < n
        invariant
            i <= n,
            n == b@.len(),
            dst@ == old(dst)@ + b@.subrange(0, i as int),
        decreases n - i,
    {
        dst.push(b[i]);
        proof {
            assert(dst@ =~= old(dst)@ + b@.subrange(0, (i + 1) as int));
        }
        i = i + 1;
    }
    proof {
        assert(b@.subrange(0, n as int) =~= b@);
    }
}

/// Values read at fixed offsets depend only on the bytes already present:
/// growing the buffer to the right never changes them.  Together with the
/// matching property of the skip engine, this is why an incremental reader
/// that is fed a stream chunk by chunk returns exactly what a reader over
/// the whole stream returns.
pub proof fn lemma_reads_prefix_stable(b1: Seq<u8>, b2: Seq<u8>, pos: int)
    requires
        0 <= pos,
        b1.len() <= b2.len(),
        b2.subrange(0, b1.len() as int) == b1,
    ensures
        pos + 2 <= b1.len() ==> spec_u16_at(b1, pos) == spec_u16_at(b2, pos),
        pos + 4 <= b1.len() ==> spec_u32_at(b1, pos) == spec_u32_at(b2, pos),
        pos + 8 <= b1.len() ==> spec_u64_at(b1, pos) == spec_u64_at(b2, pos),
        pos + 2 <= b1.len() ==> spec_i16_at(b1, pos) == spec_i16_at(b2, pos),
        pos + 4 <= b1.len() ==> spec_i32_at(b1, pos) == spec_i32_at(b2, pos),
        pos + 8 <= b1.len() ==> spec_i64_at(b1, pos) == spec_i64_at(b2, pos),
{
    assert forall|i: int| 0 <= i < b1.len() implies b1[i] == b2[i] by {
        assert(b2.subrange(0, b1.len() as int)[i] == b2[i]);
    }
}

} // verus!
