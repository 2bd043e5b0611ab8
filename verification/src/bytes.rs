//! Big-endian scalar fields: how a byte sequence is viewed as an unsigned
//! integer, how an integer is laid out as bytes, and the verified executable
//! readers and writers the box codecs build on.
//!
//! The wire format is big-endian throughout.

use vstd::prelude::*;

use vstd::arithmetic::div_mod::{
    lemma_div_denominator, lemma_fundamental_div_mod, lemma_multiply_divide_lt,
};

verus! {

/// The unsigned integer held by the 3 bytes at `pos`, big-endian.
pub open spec fn be24_at(data: Seq<u8>, pos: int) -> int {
    data[pos] * 0x10000 + data[pos + 1] * 0x100 + data[pos + 2]
}

/// The unsigned integer held by the 4 bytes at `pos`, big-endian.
pub open spec fn be32_at(data: Seq<u8>, pos: int) -> int {
    data[pos] * 0x1000000 + data[pos + 1] * 0x10000 + data[pos + 2] * 0x100 + data[pos + 3]
}

/// The unsigned integer held by the 8 bytes at `pos`, big-endian.
pub open spec fn be64_at(data: Seq<u8>, pos: int) -> int {
    be32_at(data, pos) * 0x100000000 + be32_at(data, pos + 4)
}

/// The low 24 bits of `v` as 3 big-endian bytes.
pub open spec fn u24_bytes(v: int) -> Seq<u8> {
    seq![
        ((v / 0x10000) % 0x100) as u8,
        ((v / 0x100) % 0x100) as u8,
        (v % 0x100) as u8,
    ]
}

/// The low 32 bits of `v` as 4 big-endian bytes.
pub open spec fn u32_bytes(v: int) -> Seq<u8> {
    seq![
        ((v / 0x1000000) % 0x100) as u8,
        ((v / 0x10000) % 0x100) as u8,
        ((v / 0x100) % 0x100) as u8,
        (v % 0x100) as u8,
    ]
}

/// The low 64 bits of `v` as 8 big-endian bytes.
pub open spec fn u64_bytes(v: int) -> Seq<u8> {
    u32_bytes(v / 0x100000000) + u32_bytes(v % 0x100000000)
}

/// The bytes of `s` occur verbatim in `data` starting at `pos`.
pub open spec fn bytes_match(data: Seq<u8>, pos: int, s: Seq<u8>) -> bool {
    &&& 0 <= pos
    &&& pos + s.len() <= data.len()
    &&& forall|i: int| 0 <= i < s.len() ==> data[pos + i] == #[trigger] s[i]
}

/// A concatenation occurs at `pos` exactly when its parts occur back to back.
pub proof fn lemma_bytes_match_concat(data: Seq<u8>, pos: int, a: Seq<u8>, b: Seq<u8>)
    ensures
        bytes_match(data, pos, a + b) <==> bytes_match(data, pos, a) && bytes_match(
            data,
            pos + a.len(),
            b,
        ),
{
    if bytes_match(data, pos, a + b) {
        assert forall|i: int| 0 <= i < a.len() implies data[pos + i] == #[trigger] a[i] by {
            assert((a + b)[i] == a[i]);
        }
        assert forall|i: int| 0 <= i < b.len() implies data[pos + a.len() + i] == #[trigger] b[i] by {
            assert((a + b)[a.len() + i] == b[i]);
        }
    }
    if bytes_match(data, pos, a) && bytes_match(data, pos + a.len(), b) {
        assert forall|i: int| 0 <= i < (a + b).len() implies data[pos + i] == #[trigger] (a + b)[i] by {
            if i < a.len() {
                assert((a + b)[i] == a[i]);
            } else {
                assert((a + b)[i] == b[i - a.len()]);
                assert(data[pos + a.len() + (i - a.len())] == b[i - a.len()]);
            }
        }
    }
}

/// Reading back the 3 bytes an integer below 2^24 was laid out as gives that
/// integer again.
pub proof fn lemma_be24_of_u24_bytes(data: Seq<u8>, pos: int, v: int)
    requires
        0 <= v < 0x1000000,
        bytes_match(data, pos, u24_bytes(v)),
    ensures
        be24_at(data, pos) == v,
{
    assert(data[pos] == u24_bytes(v)[0]);
    assert(data[pos + 1] == u24_bytes(v)[1]);
    assert(data[pos + 2] == u24_bytes(v)[2]);
    lemma_fundamental_div_mod(v, 0x100);
    lemma_fundamental_div_mod(v / 0x100, 0x100);
    lemma_div_denominator(v, 0x100, 0x100);
    lemma_multiply_divide_lt(v, 0x10000, 0x100);
    vstd::arithmetic::div_mod::lemma_small_mod((v / 0x10000) as nat, 0x100);
}

/// Reading back the 4 bytes an integer below 2^32 was laid out as gives that
/// integer again.
pub proof fn lemma_be32_of_u32_bytes(data: Seq<u8>, pos: int, v: int)
    requires
        0 <= v < 0x100000000,
        bytes_match(data, pos, u32_bytes(v)),
    ensures
        be32_at(data, pos) == v,
{
    assert(data[pos] == u32_bytes(v)[0]);
    assert(data[pos + 1] == u32_bytes(v)[1]);
    assert(data[pos + 2] == u32_bytes(v)[2]);
    assert(data[pos + 3] == u32_bytes(v)[3]);
    lemma_fundamental_div_mod(v, 0x100);
    lemma_fundamental_div_mod(v / 0x100, 0x100);
    lemma_div_denominator(v, 0x100, 0x100);
    lemma_fundamental_div_mod(v / 0x10000, 0x100);
    lemma_div_denominator(v, 0x10000, 0x100);
    lemma_multiply_divide_lt(v, 0x1000000, 0x100);
    vstd::arithmetic::div_mod::lemma_small_mod((v / 0x1000000) as nat, 0x100);
}

/// Reading back the 8 bytes an integer below 2^64 was laid out as gives that
/// integer again.
pub proof fn lemma_be64_of_u64_bytes(data: Seq<u8>, pos: int, v: int)
    requires
        0 <= v < 0x10000000000000000,
        bytes_match(data, pos, u64_bytes(v)),
    ensures
        be64_at(data, pos) == v,
{
    lemma_bytes_match_concat(data, pos, u32_bytes(v / 0x100000000), u32_bytes(v % 0x100000000));
    lemma_multiply_divide_lt(v, 0x100000000, 0x100000000);
    lemma_be32_of_u32_bytes(data, pos, v / 0x100000000);
    lemma_be32_of_u32_bytes(data, pos + 4, v % 0x100000000);
    lemma_fundamental_div_mod(v, 0x100000000);
}

/// Reads the byte at `pos`.
pub fn byte_at(data: &[u8], pos: usize) -> (r: u8)
    requires
        pos < data@.len(),
    ensures
        r == data@[pos as int],
{
    data[pos]
}

/// Reads the 3-byte big-endian integer at `pos` into the low bits of a `u32`.
pub fn read_u24_at(data: &[u8], pos: usize) -> (r: u32)
    requires
        pos + 3 <= data@.len(),
    ensures
        r == be24_at(data@, pos as int),
{
    (data[pos] as u32) * 0x10000 + (data[pos + 1] as u32) * 0x100 + (data[pos + 2] as u32)
}

/// Reads the 4-byte big-endian integer at `pos`.
pub fn read_u32_at(data: &[u8], pos: usize) -> (r: u32)
    requires
        pos + 4 <= data@.len(),
    ensures
        r == be32_at(data@, pos as int),
{
    (data[pos] as u32) * 0x1000000 + (data[pos + 1] as u32) * 0x10000 + (data[pos + 2] as u32)
        * 0x100 + (data[pos + 3] as u32)
}

/// Reads the 8-byte big-endian integer at `pos`.
pub fn read_u64_at(data: &[u8], pos: usize) -> (r: u64)
    requires
        pos + 8 <= data@.len(),
    ensures
        r == be64_at(data@, pos as int),
{
    let n = data.len();
    proof {
        assert(pos + 8 <= n);
    }
    let hi = read_u32_at(data, pos);
    let lo = read_u32_at(data, pos + 4);
    (hi as u64) * 0x100000000 + (lo as u64)
}

/// Appends the low 24 bits of `v` as 3 big-endian bytes.
pub fn write_u24_be(out: &mut Vec<u8>, v: u32)
    ensures
        final(out)@ == old(out)@ + u24_bytes(v as int),
{
    out.push(((v / 0x10000) % 0x100) as u8);
    out.push(((v / 0x100) % 0x100) as u8);
    out.push((v % 0x100) as u8);
    proof {
        assert(final(out)@ =~= old(out)@ + u24_bytes(v as int));
    }
}

/// Appends `v` as 4 big-endian bytes.
pub fn write_u32_be(out: &mut Vec<u8>, v: u32)
    ensures
        final(out)@ == old(out)@ + u32_bytes(v as int),
{
    out.push(((v / 0x1000000) % 0x100) as u8);
    out.push(((v / 0x10000) % 0x100) as u8);
    out.push(((v / 0x100) % 0x100) as u8);
    out.push((v % 0x100) as u8);
    proof {
        assert(final(out)@ =~= old(out)@ + u32_bytes(v as int));
    }
}

/// Appends `v` as 8 big-endian bytes.
pub fn write_u64_be(out: &mut Vec<u8>, v: u64)
    ensures
        final(out)@ == old(out)@ + u64_bytes(v as int),
{
    let hi = (v / 0x100000000) as u32;
    let lo = (v % 0x100000000) as u32;
    write_u32_be(out, hi);
    write_u32_be(out, lo);
    proof {
        assert(final(out)@ =~= old(out)@ + u64_bytes(v as int));
    }
}

} // verus!
