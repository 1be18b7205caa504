//! The canonical byte encoding.
//!
//! Every hashable structure is turned into bytes by these functions; two
//! values encode to the same bytes exactly when they are equal, so content
//! hashes identify values.  Integers are little-endian and fixed width,
//! byte strings carry a 64-bit length prefix, decimals are encoded in
//! canonical form so that equal values share an encoding.

use vstd::prelude::*;
use crate::dec::{Dec, canon, canon_spec};
use crate::address::TriangleAddress;

verus! {

/// 256^e.
pub open spec fn p256(e: nat) -> int {
    vstd::arithmetic::power::pow(256, e)
}

/// `n` in `len` little-endian bytes (higher bytes beyond `len` are dropped).
pub open spec fn le_bytes(n: nat, len: nat) -> Seq<u8>
    decreases len,
{
    if len == 0 {
        Seq::empty()
    } else {
        seq![(n % 256) as u8] + le_bytes(n / 256, (len - 1) as nat)
    }
}

/// The number read back from little-endian bytes.
pub open spec fn from_le(b: Seq<u8>) -> nat
    decreases b.len(),
{
    if b.len() == 0 {
        0nat
    } else {
        (b[0] + 256 * from_le(b.drop_first())) as nat
    }
}

pub proof fn lemma_le_bytes_len(n: nat, len: nat)
    ensures
        le_bytes(n, len).len() == len,
    decreases len,
{
    if len > 0 {
        lemma_le_bytes_len(n / 256, (len - 1) as nat);
    }
}

/// Encoding then decoding returns the number, provided it fits.
pub proof fn lemma_le_round_trip(n: nat, len: nat)
    requires
        n < p256(len),
    ensures
        from_le(le_bytes(n, len)) == n,
    decreases len,
{
    if len == 0 {
        assert(p256(0) == 1) by {
            vstd::arithmetic::power::lemma_pow0(256);
        }
    } else {
        let rest = le_bytes(n / 256, (len - 1) as nat);
        assert(le_bytes(n, len).drop_first() =~= rest);
        assert(n / 256 < p256((len - 1) as nat)) by {
            assert(p256(len) == 256 * p256((len - 1) as nat)) by {
                vstd::arithmetic::power::lemma_pow1(256);
                vstd::arithmetic::power::lemma_pow_adds(256, 1nat, (len - 1) as nat);
            }
            vstd::arithmetic::div_mod::lemma_multiply_divide_lt(
                n as int, 256, p256((len - 1) as nat));
        }
        lemma_le_round_trip(n / 256, (len - 1) as nat);
        vstd::arithmetic::div_mod::lemma_fundamental_div_mod(n as int, 256);
    }
}

/// Two numbers that fit and share an encoding are equal.
pub proof fn lemma_le_bytes_inject(n1: nat, n2: nat, len: nat)
    requires
        n1 < p256(len),
        n2 < p256(len),
        le_bytes(n1, len) == le_bytes(n2, len),
    ensures
        n1 == n2,
{
    lemma_le_round_trip(n1, len);
    lemma_le_round_trip(n2, len);
}

/// A byte string reads back to less than 256 to its length.
pub proof fn lemma_from_le_bound(b: Seq<u8>)
    ensures
        from_le(b) < p256(b.len()),
    decreases b.len(),
{
    if b.len() == 0 {
        vstd::arithmetic::power::lemma_pow0(256);
    } else {
        lemma_from_le_bound(b.drop_first());
        assert(p256(b.len()) == 256 * p256((b.len() - 1) as nat)) by {
            vstd::arithmetic::power::lemma_pow1(256);
            vstd::arithmetic::power::lemma_pow_adds(256, 1nat, (b.len() - 1) as nat);
        }
    }
}

/// The unsigned 64-bit pattern of a signed 64-bit integer.
pub open spec fn i64_bits(t: i64) -> nat {
    if t >= 0 {
        t as nat
    } else {
        (t + 0x10000000000000000) as nat
    }
}

/// The unsigned 128-bit pattern of a signed 128-bit integer.
pub open spec fn i128_bits(t: i128) -> nat {
    if t >= 0 {
        t as nat
    } else {
        (t + 0x100000000000000000000000000000000) as nat
    }
}

pub open spec fn enc_u32(n: u32) -> Seq<u8> {
    le_bytes(n as nat, 4)
}

pub open spec fn enc_u64(n: u64) -> Seq<u8> {
    le_bytes(n as nat, 8)
}

pub open spec fn enc_i64(t: i64) -> Seq<u8> {
    le_bytes(i64_bits(t), 8)
}

pub open spec fn enc_i128(t: i128) -> Seq<u8> {
    le_bytes(i128_bits(t), 16)
}

/// A byte string with its 64-bit length prefix.
pub open spec fn enc_bytes(b: Seq<u8>) -> Seq<u8> {
    enc_u64(b.len() as u64) + b
}

/// A decimal in canonical form: 16 mantissa bytes, then 4 scale bytes.
pub open spec fn enc_dec(d: Dec) -> Seq<u8> {
    enc_i128(canon_spec(d).m) + enc_u32(canon_spec(d).s)
}

pub open spec fn enc_point(p: crate::geometry::Point) -> Seq<u8> {
    enc_dec(p.x) + enc_dec(p.y)
}

pub open spec fn enc_triangle(t: crate::triangle::Triangle) -> Seq<u8> {
    enc_point(t.a) + enc_point(t.b) + enc_point(t.c)
}

/// Append `x`'s low `width` little-endian bytes to `out`.
pub fn push_le_bytes(out: &mut Vec<u8>, x: u128, width: u32)
    ensures
        final(out)@ == old(out)@ + le_bytes(x as nat, width as nat),
{
    let ghost base = old(out)@;
    let ghost x0 = x as nat;
    let mut cur = x;
    let mut i: u32 = 0;
    while i < width
        invariant
            0 <= i <= width,
            base + le_bytes(x0, width as nat) == out@ + le_bytes(cur as nat, (width - i) as nat),
        decreases width - i,
    {
        proof {
            assert(out@ + le_bytes(cur as nat, (width - i) as nat)
                =~= (out@ + seq![(cur as nat % 256) as u8])
                    + le_bytes(cur as nat / 256, (width - i - 1) as nat));
        }
        out.push((cur % 256) as u8);
        cur = cur / 256;
        i = i + 1;
    }
    proof {
        assert(out@ + le_bytes(cur as nat, 0) =~= out@);
    }
}

pub fn push_u32(out: &mut Vec<u8>, n: u32)
    ensures
        final(out)@ == old(out)@ + enc_u32(n),
{
    push_le_bytes(out, n as u128, 4);
}

pub fn push_u64(out: &mut Vec<u8>, n: u64)
    ensures
        final(out)@ == old(out)@ + enc_u64(n),
{
    push_le_bytes(out, n as u128, 8);
}

pub fn push_i64(out: &mut Vec<u8>, t: i64)
    ensures
        final(out)@ == old(out)@ + enc_i64(t),
{
    let u: u128 = if t >= 0 {
        t as u128
    } else {
        ((t + 1 + i64::MAX) as u128) + 9223372036854775808u128
    };
    proof {
        assert(u as nat == i64_bits(t));
    }
    push_le_bytes(out, u, 8);
}

pub fn push_i128(out: &mut Vec<u8>, t: i128)
    ensures
        final(out)@ == old(out)@ + enc_i128(t),
{
    let u: u128 = if t >= 0 {
        t as u128
    } else {
        ((t + 1 + i128::MAX) as u128) + 170141183460469231731687303715884105728u128
    };
    proof {
        assert(u as nat == i128_bits(t));
    }
    push_le_bytes(out, u, 16);
}

/// Append a length-prefixed byte string.
pub fn push_bytes(out: &mut Vec<u8>, b: &Vec<u8>)
    ensures
        final(out)@ == old(out)@ + enc_bytes(b@),
{
    let ghost base = old(out)@;
    push_u64(out, b.len() as u64);
    let ghost mid = out@;
    let mut i: usize = 0;
    while i < b.len()
        invariant
            0 <= i <= b@.len(),
            out@ == mid + b@.subrange(0, i as int),
        decreases b@.len() - i,
    {
        proof {
            assert((mid + b@.subrange(0, i as int)).push(b@[i as int])
                =~= mid + b@.subrange(0, i + 1));
        }
        out.push(b[i]);
        i = i + 1;
    }
    proof {
        assert(b@.subrange(0, b@.len() as int) =~= b@);
        assert(base + enc_bytes(b@) =~= mid + b@);
    }
}

/// Append a decimal in canonical form.
pub fn push_dec(out: &mut Vec<u8>, d: Dec)
    ensures
        final(out)@ == old(out)@ + enc_dec(d),
{
    let ghost base = old(out)@;
    let c = canon(d);
    push_i128(out, c.m);
    push_u32(out, c.s);
    proof {
        assert(base + enc_dec(d) =~= base + enc_i128(canon_spec(d).m)
            + enc_u32(canon_spec(d).s));
    }
}

pub fn push_point(out: &mut Vec<u8>, p: &crate::geometry::Point)
    ensures
        final(out)@ == old(out)@ + enc_point(*p),
{
    let ghost base = old(out)@;
    push_dec(out, p.x);
    push_dec(out, p.y);
    proof {
        assert(base + enc_point(*p) =~= base + enc_dec(p.x) + enc_dec(p.y));
    }
}

pub fn push_triangle(out: &mut Vec<u8>, t: &crate::triangle::Triangle)
    ensures
        final(out)@ == old(out)@ + enc_triangle(*t),
{
    let ghost base = old(out)@;
    push_point(out, &t.a);
    push_point(out, &t.b);
    push_point(out, &t.c);
    proof {
        assert(base + enc_triangle(*t)
            =~= base + enc_point(t.a) + enc_point(t.b) + enc_point(t.c));
    }
}

/// Append a length-prefixed address path.
pub fn push_address(out: &mut Vec<u8>, a: &TriangleAddress)
    ensures
        final(out)@ == old(out)@ + enc_bytes(a@),
{
    let ghost base = old(out)@;
    crate::codec::push_u64(out, a.depth() as u64);
    let ghost mid = out@;
    let n = a.depth();
    let mut i: usize = 0;
    while i < n
        invariant
            0 <= i <= n,
            n == a@.len(),
            out@ == mid + a@.subrange(0, i as int),
        decreases n - i,
    {
        proof {
            assert((mid + a@.subrange(0, i as int)).push(a@[i as int])
                =~= mid + a@.subrange(0, i + 1));
        }
        out.push(a.index_at(i));
        i = i + 1;
    }
    proof {
        assert(a@.subrange(0, a@.len() as int) =~= a@);
        assert(base + enc_bytes(a@) =~= mid + a@);
    }
}

/// The identity hash of a triangle: the hash of its canonical bytes.
pub fn triangle_hash(t: &crate::triangle::Triangle) -> (r: crate::hash::H256)
    ensures
        r@ == crate::hash::blake3_of(enc_triangle(*t)),
{
    let mut out: Vec<u8> = Vec::new();
    push_triangle(&mut out, t);
    proof {
        assert(out@ =~= enc_triangle(*t));
    }
    crate::hash::H256::from_array(crate::hash::blake3_hash(out.as_slice()))
}

impl crate::triangle::Triangle {
    /// The triangle's identity hash, used to key the bookkeeping ledgers.
    pub fn hash(&self) -> (r: crate::hash::H256)
        ensures
            r@ == crate::hash::blake3_of(enc_triangle(*self)),
    {
        triangle_hash(self)
    }
}

/// Splitting a concatenation at a known prefix length is unambiguous.
pub proof fn lemma_concat_inject(a1: Seq<u8>, b1: Seq<u8>, a2: Seq<u8>, b2: Seq<u8>)
    requires
        a1.len() == a2.len(),
        a1 + b1 == a2 + b2,
    ensures
        a1 == a2,
        b1 == b2,
{
    assert(a1 =~= (a1 + b1).subrange(0, a1.len() as int));
    assert(a2 =~= (a2 + b2).subrange(0, a2.len() as int));
    assert(b1 =~= (a1 + b1).subrange(a1.len() as int, (a1 + b1).len() as int));
    assert(b2 =~= (a2 + b2).subrange(a2.len() as int, (a2 + b2).len() as int));
}

pub proof fn lemma_enc_u64_inject(n1: u64, n2: u64)
    requires
        enc_u64(n1) == enc_u64(n2),
    ensures
        n1 == n2,
{
    lemma_p256_8();
    lemma_le_bytes_inject(n1 as nat, n2 as nat, 8);
}

pub proof fn lemma_enc_i64_inject(t1: i64, t2: i64)
    requires
        enc_i64(t1) == enc_i64(t2),
    ensures
        t1 == t2,
{
    lemma_p256_8();
    lemma_le_bytes_inject(i64_bits(t1), i64_bits(t2), 8);
}

/// 256^8 is 2^64, so every 64-bit pattern fits in 8 bytes.
pub proof fn lemma_p256_8()
    ensures
        p256(8) == 0x10000000000000000,
{
    vstd::arithmetic::power::lemma_pow0(256);
    lemma_p256_step(0);
    lemma_p256_step(1);
    lemma_p256_step(2);
    lemma_p256_step(3);
    lemma_p256_step(4);
    lemma_p256_step(5);
    lemma_p256_step(6);
    lemma_p256_step(7);
}

/// 256^16 is 2^128: every 128-bit pattern fits in 16 bytes.
pub proof fn lemma_p256_16()
    ensures
        p256(16) == 0x100000000000000000000000000000000,
{
    lemma_p256_8();
    lemma_p256_step(8);
    lemma_p256_step(9);
    lemma_p256_step(10);
    lemma_p256_step(11);
    lemma_p256_step(12);
    lemma_p256_step(13);
    lemma_p256_step(14);
    lemma_p256_step(15);
}

pub proof fn lemma_p256_step(e: nat)
    ensures
        p256(e + 1) == 256 * p256(e),
{
    vstd::arithmetic::power::lemma_pow1(256);
    vstd::arithmetic::power::lemma_pow_adds(256, 1nat, e);
}

} // verus!
