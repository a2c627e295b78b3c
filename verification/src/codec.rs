//! Fixed-width little-endian integer encoding used by the stored record
//! formats.

use vstd::prelude::*;

verus! {

/// The eight little-endian bytes of `v`.
pub open spec fn u64_le_bytes(v: u64) -> Seq<u8> {
    seq![
        (v % 256) as u8,
        ((v / 256) % 256) as u8,
        ((v / 0x10000) % 256) as u8,
        ((v / 0x1000000) % 256) as u8,
        ((v / 0x100000000) % 256) as u8,
        ((v / 0x10000000000) % 256) as u8,
        ((v / 0x1000000000000) % 256) as u8,
        ((v / 0x100000000000000) % 256) as u8,
    ]
}

/// The value of the eight little-endian bytes at `offset`.
pub open spec fn le_u64_at(s: Seq<u8>, offset: int) -> int {
    s[offset] + 256 * (s[offset + 1] + 256 * (s[offset + 2] + 256 * (s[offset + 3] + 256 * (s[offset
        + 4] + 256 * (s[offset + 5] + 256 * (s[offset + 6] + 256 * s[offset + 7]))))))
}

/// Append the eight little-endian bytes of `v` to `out`.
pub fn encode_u64_le(v: u64, out: &mut Vec<u8>)
    ensures
        final(out)@ == old(out)@ + u64_le_bytes(v),
{
    out.push((v % 256) as u8);
    out.push(((v / 256) % 256) as u8);
    out.push(((v / 0x10000) % 256) as u8);
    out.push(((v / 0x1000000) % 256) as u8);
    out.push(((v / 0x100000000) % 256) as u8);
    out.push(((v / 0x10000000000) % 256) as u8);
    out.push(((v / 0x1000000000000) % 256) as u8);
    out.push(((v / 0x100000000000000) % 256) as u8);
    proof {
        assert(out@ =~= old(out)@ + u64_le_bytes(v));
    }
}

/// Read the eight little-endian bytes at `offset` as a `u64`.
pub fn decode_u64_le(bytes: &Vec<u8>, offset: usize) -> (r: u64)
    requires
        offset + 8 <= bytes@.len(),
    ensures
        r == le_u64_at(bytes@, offset as int),
{
    let n = bytes.len();
    let b0 = bytes[offset] as u64;
    let b1 = bytes[offset + 1] as u64;
    let b2 = bytes[offset + 2] as u64;
    let b3 = bytes[offset + 3] as u64;
    let b4 = bytes[offset + 4] as u64;
    let b5 = bytes[offset + 5] as u64;
    let b6 = bytes[offset + 6] as u64;
    let b7 = bytes[offset + 7] as u64;
    let t6: u64 = b6 + 256 * b7;
    let t5: u64 = b5 + 256 * t6;
    let t4: u64 = b4 + 256 * t5;
    let t3: u64 = b3 + 256 * t4;
    let t2: u64 = b2 + 256 * t3;
    let t1: u64 = b1 + 256 * t2;
    let t0: u64 = b0 + 256 * t1;
    t0
}

/// Append a copy of `src` to `out`.
pub fn append_bytes(out: &mut Vec<u8>, src: &Vec<u8>)
    ensures
        final(out)@ == old(out)@ + src@,
{
    let mut i: usize = 0;
    while i < src.len()
        invariant
            i <= src@.len(),
            out@ == old(out)@ + src@.take(i as int),
        decreases src@.len() - i,
    {
        out.push(src[i]);
        proof {
            assert(src@.take(i + 1) =~= src@.take(i as int).push(src@[i as int]));
            assert(out@ =~= old(out)@ + src@.take(i + 1));
        }
        i = i + 1;
    }
    proof {
        assert(src@.take(src@.len() as int) =~= src@);
    }
}

/// Copy the `n` bytes at `offset`.
pub fn take_bytes(bytes: &Vec<u8>, offset: usize, n: usize) -> (r: Vec<u8>)
    requires
        offset + n <= bytes@.len(),
    ensures
        r@ == bytes@.subrange(offset as int, offset + n),
{
    let total = bytes.len();
    let mut out: Vec<u8> = Vec::new();
    let mut i: usize = 0;
    while i < n
        invariant
            i <= n,
            offset + n <= bytes@.len(),
            bytes@.len() <= usize::MAX,
            out@ == bytes@.subrange(offset as int, offset + i),
        decreases n - i,
    {
        out.push(bytes[offset + i]);
        proof {
            assert(bytes@.subrange(offset as int, offset + i + 1) =~= bytes@.subrange(
                offset as int,
                offset + i,
            ).push(bytes@[offset + i]));
        }
        i = i + 1;
    }
    out
}

/// Reading back the eight bytes of `v` yields `v`.
pub proof fn lemma_u64_le_round_trip(v: u64)
    ensures
        le_u64_at(u64_le_bytes(v), 0) == v,
{
    let s = u64_le_bytes(v);
    let x0 = v as int;
    let x1 = x0 / 256;
    let x2 = x1 / 256;
    let x3 = x2 / 256;
    let x4 = x3 / 256;
    let x5 = x4 / 256;
    let x6 = x5 / 256;
    let x7 = x6 / 256;
    assert(x2 == v / 0x10000) by (nonlinear_arith)
        requires
            x1 == v / 256,
            x2 == x1 / 256,
    {
        vstd::arithmetic::div_mod::lemma_div_denominator(v as int, 256, 256);
    }
    assert(x3 == v / 0x1000000) by (nonlinear_arith)
        requires
            x2 == v / 0x10000,
            x3 == x2 / 256,
    {
        vstd::arithmetic::div_mod::lemma_div_denominator(v as int, 0x10000, 256);
    }
    assert(x4 == v / 0x100000000) by (nonlinear_arith)
        requires
            x3 == v / 0x1000000,
            x4 == x3 / 256,
    {
        vstd::arithmetic::div_mod::lemma_div_denominator(v as int, 0x1000000, 256);
    }
    assert(x5 == v / 0x10000000000) by (nonlinear_arith)
        requires
            x4 == v / 0x100000000,
            x5 == x4 / 256,
    {
        vstd::arithmetic::div_mod::lemma_div_denominator(v as int, 0x100000000, 256);
    }
    assert(x6 == v / 0x1000000000000) by (nonlinear_arith)
        requires
            x5 == v / 0x10000000000,
            x6 == x5 / 256,
    {
        vstd::arithmetic::div_mod::lemma_div_denominator(v as int, 0x10000000000, 256);
    }
    assert(x7 == v / 0x100000000000000) by (nonlinear_arith)
        requires
            x6 == v / 0x1000000000000,
            x7 == x6 / 256,
    {
        vstd::arithmetic::div_mod::lemma_div_denominator(v as int, 0x1000000000000, 256);
    }
    assert(x7 < 256);
    assert(x7 % 256 == x7) by {
        vstd::arithmetic::div_mod::lemma_small_mod(x7 as nat, 256);
    }
    vstd::arithmetic::div_mod::lemma_fundamental_div_mod(x0, 256);
    vstd::arithmetic::div_mod::lemma_fundamental_div_mod(x1, 256);
    vstd::arithmetic::div_mod::lemma_fundamental_div_mod(x2, 256);
    vstd::arithmetic::div_mod::lemma_fundamental_div_mod(x3, 256);
    vstd::arithmetic::div_mod::lemma_fundamental_div_mod(x4, 256);
    vstd::arithmetic::div_mod::lemma_fundamental_div_mod(x5, 256);
    vstd::arithmetic::div_mod::lemma_fundamental_div_mod(x6, 256);
    assert(s[7] == x7 % 256);
    assert(le_u64_at(s, 0) == v);
}

} // verus!
