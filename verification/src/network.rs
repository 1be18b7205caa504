//! Wire message shapes and their canonical byte form.
//!
//! Messages reuse the canonical encoding that hashing uses; the decoder
//! fails closed: malformed or truncated input yields an error, never a
//! crash, and a decoded transaction always carries a consistent cached
//! hash.

use vstd::prelude::*;
use crate::block::{Block, BlockHeader, enc_header, encode_header};
use crate::codec::{enc_bytes, enc_u64, push_bytes, push_u64};
use crate::errors::TriangleError;
use crate::hash::H256;
use crate::transaction::{Transaction, TriangleOperation, enc_operation, encode_operation};

verus! {

/// A message of the peer protocol.
#[derive(Debug)]
pub enum Message {
    GetPeers,
    Peers(Vec<String>),
    GetBlocks(Vec<[u8; 32]>),
    Blocks(Vec<Block>),
    NewTransaction(Transaction),
}

/// The canonical bytes of a transaction on the wire: the length-prefixed
/// operation bytes, the 64 signature bytes, the 32 key bytes.
pub open spec fn enc_tx(t: Transaction) -> Seq<u8> {
    enc_bytes(enc_operation(t.operation)) + t.signature@ + t.public_key@
}

/// The canonical bytes of a block: the length-prefixed header bytes, then
/// the counted transactions.
pub open spec fn enc_block(b: Block) -> Seq<u8> {
    enc_bytes(enc_header(b.header))
        + enc_u64(b.triangle_transactions@.len() as u64)
        + b.triangle_transactions@.map_values(|t: Transaction| enc_tx(t)).flatten()
}

/// The canonical bytes of a message: a tag, then the counted payload.
pub open spec fn enc_message(m: Message) -> Seq<u8> {
    match m {
        Message::GetPeers => seq![0u8],
        Message::Peers(v) => seq![1u8] + enc_u64(v@.len() as u64)
            + v@.map_values(|s: String| enc_bytes(vstd::utf8::encode_utf8(s@))).flatten(),
        Message::GetBlocks(v) => seq![2u8] + enc_u64(v@.len() as u64)
            + v@.map_values(|h: [u8; 32]| h@).flatten(),
        Message::Blocks(v) => seq![3u8] + enc_u64(v@.len() as u64)
            + v@.map_values(|b: Block| enc_block(b)).flatten(),
        Message::NewTransaction(t) => seq![4u8] + enc_tx(t),
    }
}

/// Append the wire bytes of one transaction.
fn push_tx(out: &mut Vec<u8>, t: &Transaction)
    ensures
        final(out)@ == old(out)@ + enc_tx(*t),
{
    let ghost base = old(out)@;
    let op_bytes = encode_operation(&t.operation);
    push_bytes(out, &op_bytes);
    push_array(out, &t.signature);
    push_array32(out, &t.public_key);
    proof {
        assert(final(out)@ =~= base + enc_tx(*t));
    }
}

/// Append 64 raw bytes.
fn push_array(out: &mut Vec<u8>, a: &[u8; 64])
    ensures
        final(out)@ == old(out)@ + a@,
{
    let ghost base = old(out)@;
    let mut i: usize = 0;
    while i < 64
        invariant
            0 <= i <= 64,
            a@.len() == 64,
            out@ == base + a@.subrange(0, i as int),
        decreases 64 - i,
    {
        proof {
            assert((base + a@.subrange(0, i as int)).push(a@[i as int])
                =~= base + a@.subrange(0, i + 1));
        }
        out.push(a[i]);
        i = i + 1;
    }
    proof {
        assert(a@.subrange(0, 64) =~= a@);
    }
}

/// Append 32 raw bytes.
fn push_array32(out: &mut Vec<u8>, a: &[u8; 32])
    ensures
        final(out)@ == old(out)@ + a@,
{
    let ghost base = old(out)@;
    let mut i: usize = 0;
    while i < 32
        invariant
            0 <= i <= 32,
            a@.len() == 32,
            out@ == base + a@.subrange(0, i as int),
        decreases 32 - i,
    {
        proof {
            assert((base + a@.subrange(0, i as int)).push(a@[i as int])
                =~= base + a@.subrange(0, i + 1));
        }
        out.push(a[i]);
        i = i + 1;
    }
    proof {
        assert(a@.subrange(0, 32) =~= a@);
    }
}

/// Append the wire bytes of one block.
fn push_block(out: &mut Vec<u8>, b: &Block)
    ensures
        final(out)@ == old(out)@ + enc_block(*b),
{
    let ghost base = old(out)@;
    let header_bytes = encode_header(&b.header);
    push_bytes(out, &header_bytes);
    push_u64(out, b.triangle_transactions.len() as u64);
    let ghost mid = out@;
    let ghost txs = b.triangle_transactions@;
    let mut i: usize = 0;
    while i < b.triangle_transactions.len()
        invariant
            0 <= i <= txs.len(),
            txs == b.triangle_transactions@,
            out@ == mid + txs.subrange(0, i as int)
                .map_values(|t: Transaction| enc_tx(t)).flatten(),
        decreases txs.len() - i,
    {
        proof {
            let pre = txs.subrange(0, i as int).map_values(|t: Transaction| enc_tx(t));
            pre.lemma_flatten_push(enc_tx(txs[i as int]));
            assert(txs.subrange(0, i + 1).map_values(|t: Transaction| enc_tx(t))
                =~= pre.push(enc_tx(txs[i as int])));
        }
        push_tx(out, &b.triangle_transactions[i]);
        i = i + 1;
    }
    proof {
        assert(txs.subrange(0, txs.len() as int) =~= txs);
        assert(final(out)@ =~= base + enc_block(*b));
    }
}

/// The canonical bytes of a message.
pub fn serialize_message(msg: &Message) -> (r: Vec<u8>)
    ensures
        r@ == enc_message(*msg),
{
    let mut out: Vec<u8> = Vec::new();
    match msg {
        Message::GetPeers => {
            out.push(0);
            proof {
                assert(out@ =~= enc_message(*msg));
            }
        },
        Message::Peers(v) => {
            out.push(1);
            push_u64(&mut out, v.len() as u64);
            let ghost mid = out@;
            let ghost items = v@;
            let mut i: usize = 0;
            while i < v.len()
                invariant
                    0 <= i <= items.len(),
                    items == v@,
                    out@ == mid + items.subrange(0, i as int)
                        .map_values(|s: String| enc_bytes(vstd::utf8::encode_utf8(s@)))
                        .flatten(),
                decreases items.len() - i,
            {
                proof {
                    let pre = items.subrange(0, i as int)
                        .map_values(|s: String| enc_bytes(vstd::utf8::encode_utf8(s@)));
                    pre.lemma_flatten_push(
                        enc_bytes(vstd::utf8::encode_utf8(items[i as int]@)));
                    assert(items.subrange(0, i + 1)
                        .map_values(|s: String| enc_bytes(vstd::utf8::encode_utf8(s@)))
                        =~= pre.push(enc_bytes(vstd::utf8::encode_utf8(items[i as int]@))));
                }
                let sb = v[i].as_str().as_bytes_vec();
                push_bytes(&mut out, &sb);
                i = i + 1;
            }
            proof {
                assert(items.subrange(0, items.len() as int) =~= items);
                assert(out@ =~= enc_message(*msg));
            }
        },
        Message::GetBlocks(v) => {
            out.push(2);
            push_u64(&mut out, v.len() as u64);
            let ghost mid = out@;
            let ghost items = v@;
            let mut i: usize = 0;
            while i < v.len()
                invariant
                    0 <= i <= items.len(),
                    items == v@,
                    out@ == mid + items.subrange(0, i as int)
                        .map_values(|h: [u8; 32]| h@).flatten(),
                decreases items.len() - i,
            {
                proof {
                    let pre = items.subrange(0, i as int).map_values(|h: [u8; 32]| h@);
                    pre.lemma_flatten_push(items[i as int]@);
                    assert(items.subrange(0, i + 1).map_values(|h: [u8; 32]| h@)
                        =~= pre.push(items[i as int]@));
                }
                push_array32(&mut out, &v[i]);
                i = i + 1;
            }
            proof {
                assert(items.subrange(0, items.len() as int) =~= items);
                assert(out@ =~= enc_message(*msg));
            }
        },
        Message::Blocks(v) => {
            out.push(3);
            push_u64(&mut out, v.len() as u64);
            let ghost mid = out@;
            let ghost items = v@;
            let mut i: usize = 0;
            while i < v.len()
                invariant
                    0 <= i <= items.len(),
                    items == v@,
                    out@ == mid + items.subrange(0, i as int)
                        .map_values(|b: Block| enc_block(b)).flatten(),
                decreases items.len() - i,
            {
                proof {
                    let pre = items.subrange(0, i as int)
                        .map_values(|b: Block| enc_block(b));
                    pre.lemma_flatten_push(enc_block(items[i as int]));
                    assert(items.subrange(0, i + 1).map_values(|b: Block| enc_block(b))
                        =~= pre.push(enc_block(items[i as int])));
                }
                push_block(&mut out, &v[i]);
                i = i + 1;
            }
            proof {
                assert(items.subrange(0, items.len() as int) =~= items);
                assert(out@ =~= enc_message(*msg));
            }
        },
        Message::NewTransaction(t) => {
            out.push(4);
            push_tx(&mut out, t);
            proof {
                assert(out@ =~= enc_message(*msg));
            }
        },
    }
    out
}

} // verus!

verus! {

/// Relies on String::from_utf8: on success the returned string consists
/// of exactly the given bytes.
#[verifier::external_body]
fn string_from_utf8(bytes: Vec<u8>) -> (r: Option<String>)
    ensures
        r matches Some(s) ==> vstd::utf8::encode_utf8(s@) == bytes@,
{
    match String::from_utf8(bytes) {
        Ok(s) => Some(s),
        Err(_) => None,
    }
}

/// Read one byte and advance.
fn read_u8(data: &Vec<u8>, pos: &mut usize) -> (r: Option<u8>)
    requires
        *old(pos) <= data@.len(),
    ensures
        *final(pos) >= *old(pos),
        *final(pos) <= data@.len(),
        r matches Some(b) ==> *final(pos) == *old(pos) + 1
            && b == data@[*old(pos) as int],
        r is None ==> *final(pos) == *old(pos) && *old(pos) == data@.len(),
{
    if *pos < data.len() {
        let b = data[*pos];
        *pos = *pos + 1;
        Some(b)
    } else {
        None
    }
}

/// Read `n` bytes and advance.
fn read_vec(data: &Vec<u8>, pos: &mut usize, n: usize) -> (r: Option<Vec<u8>>)
    requires
        *old(pos) <= data@.len(),
    ensures
        *final(pos) >= *old(pos),
        *final(pos) <= data@.len(),
        r matches Some(v) ==> *final(pos) == *old(pos) + n && v@.len() == n,
        r is None ==> *final(pos) == *old(pos),
{
    if n > data.len() - *pos {
        return None;
    }
    let mut v: Vec<u8> = Vec::new();
    let mut i: usize = 0;
    while i < n
        invariant
            0 <= i <= n,
            *pos + n <= data@.len(),
            data@.len() <= usize::MAX,
            v@.len() == i,
            *pos == *old(pos),
        decreases n - i,
    {
        v.push(data[*pos + i]);
        i = i + 1;
    }
    *pos = *pos + n;
    Some(v)
}

/// Read a little-endian 64-bit number and advance.
fn read_u64(data: &Vec<u8>, pos: &mut usize) -> (r: Option<u64>)
    requires
        *old(pos) <= data@.len(),
    ensures
        *final(pos) >= *old(pos),
        *final(pos) <= data@.len(),
        r is Some ==> *final(pos) == *old(pos) + 8,
        r is None ==> *final(pos) == *old(pos),
{
    if 8 > data.len() - *pos {
        return None;
    }
    let base = *pos;
    let mut v: u64 = 0;
    let mut i: usize = 8;
    proof {
        vstd::arithmetic::power::lemma_pow0(256);
    }
    while i > 0
        invariant
            0 <= i <= 8,
            base + 8 <= data@.len(),
            data@.len() <= usize::MAX,
            v < crate::codec::p256((8 - i) as nat),
        decreases i,
    {
        proof {
            crate::codec::lemma_p256_8();
            crate::codec::lemma_p256_step((8 - i) as nat);
            assert(crate::codec::p256((8 - i + 1) as nat) <= crate::codec::p256(8)) by {
                if 8 - i + 1 < 8 {
                    vstd::arithmetic::power::lemma_pow_increases(
                        256, (8 - i + 1) as nat, 8);
                }
            }
            assert(v * 256 + 255 < crate::codec::p256((8 - i + 1) as nat))
                by (nonlinear_arith)
                requires
                    v < crate::codec::p256((8 - i) as nat),
                    crate::codec::p256((8 - i + 1) as nat)
                        == 256 * crate::codec::p256((8 - i) as nat);
        }
        i = i - 1;
        v = v * 256 + (data[base + i] as u64);
    }
    *pos = base + 8;
    Some(v)
}

/// Read a signed 64-bit number (two's complement) and advance.
fn read_i64(data: &Vec<u8>, pos: &mut usize) -> (r: Option<i64>)
    requires
        *old(pos) <= data@.len(),
    ensures
        *final(pos) >= *old(pos),
        *final(pos) <= data@.len(),
        r is Some ==> *final(pos) > *old(pos),
        r is None ==> *final(pos) == *old(pos),
{
    match read_u64(data, pos) {
        Some(u) => {
            if u <= i64::MAX as u64 {
                Some(u as i64)
            } else {
                Some(-((u64::MAX - u) as i64) - 1)
            }
        },
        None => None,
    }
}

/// Read a signed 128-bit number (two's complement) and advance.
fn read_i128(data: &Vec<u8>, pos: &mut usize) -> (r: Option<i128>)
    requires
        *old(pos) <= data@.len(),
    ensures
        *final(pos) >= *old(pos),
        *final(pos) <= data@.len(),
        r is Some ==> *final(pos) > *old(pos),
        r is None ==> *final(pos) == *old(pos),
{
    if 16 > data.len() - *pos {
        return None;
    }
    let base = *pos;
    let mut v: u128 = 0;
    let mut i: usize = 16;
    proof {
        vstd::arithmetic::power::lemma_pow0(256);
    }
    while i > 0
        invariant
            0 <= i <= 16,
            base + 16 <= data@.len(),
            data@.len() <= usize::MAX,
            v < crate::codec::p256((16 - i) as nat),
        decreases i,
    {
        proof {
            crate::codec::lemma_p256_16();
            crate::codec::lemma_p256_step((16 - i) as nat);
            assert(crate::codec::p256((16 - i + 1) as nat) <= crate::codec::p256(16)) by {
                if 16 - i + 1 < 16 {
                    vstd::arithmetic::power::lemma_pow_increases(
                        256, (16 - i + 1) as nat, 16);
                }
            }
            assert(v * 256 + 255 < crate::codec::p256((16 - i + 1) as nat))
                by (nonlinear_arith)
                requires
                    v < crate::codec::p256((16 - i) as nat),
                    crate::codec::p256((16 - i + 1) as nat)
                        == 256 * crate::codec::p256((16 - i) as nat);
        }
        i = i - 1;
        v = v * 256 + (data[base + i] as u128);
    }
    *pos = base + 16;
    let r: i128 = if v <= i128::MAX as u128 {
        v as i128
    } else {
        -((u128::MAX - v) as i128) - 1
    };
    Some(r)
}

/// Read a little-endian 32-bit number and advance.
fn read_u32(data: &Vec<u8>, pos: &mut usize) -> (r: Option<u32>)
    requires
        *old(pos) <= data@.len(),
    ensures
        *final(pos) >= *old(pos),
        *final(pos) <= data@.len(),
        r is Some ==> *final(pos) == *old(pos) + 4,
        r is None ==> *final(pos) == *old(pos),
{
    if 4 > data.len() - *pos {
        return None;
    }
    let base = *pos;
    let b0 = data[base] as u32;
    let b1 = data[base + 1] as u32;
    let b2 = data[base + 2] as u32;
    let b3 = data[base + 3] as u32;
    *pos = base + 4;
    Some(b0 + 256 * b1 + 65536 * b2 + 16777216 * b3)
}

/// Read a decimal value (16 mantissa bytes, 4 scale bytes).
fn read_dec(data: &Vec<u8>, pos: &mut usize) -> (r: Option<crate::dec::Dec>)
    requires
        *old(pos) <= data@.len(),
    ensures
        *final(pos) >= *old(pos),
        *final(pos) <= data@.len(),
        r is Some ==> *final(pos) > *old(pos),
{
    let m = match read_i128(data, pos) {
        Some(m) => m,
        None => {
            return None;
        },
    };
    let s = match read_u32(data, pos) {
        Some(s) => s,
        None => {
            return None;
        },
    };
    Some(crate::dec::Dec { m, s })
}

/// Read a point (two decimals).
fn read_point(data: &Vec<u8>, pos: &mut usize) -> (r: Option<crate::geometry::Point>)
    requires
        *old(pos) <= data@.len(),
    ensures
        *final(pos) >= *old(pos),
        *final(pos) <= data@.len(),
        r is Some ==> *final(pos) > *old(pos),
{
    let x = match read_dec(data, pos) {
        Some(x) => x,
        None => {
            return None;
        },
    };
    let y = match read_dec(data, pos) {
        Some(y) => y,
        None => {
            return None;
        },
    };
    Some(crate::geometry::Point { x, y })
}

/// Read a triangle (three points).
fn read_triangle(data: &Vec<u8>, pos: &mut usize) -> (r: Option<crate::triangle::Triangle>)
    requires
        *old(pos) <= data@.len(),
    ensures
        *final(pos) >= *old(pos),
        *final(pos) <= data@.len(),
        r is Some ==> *final(pos) > *old(pos),
{
    let a = match read_point(data, pos) {
        Some(p) => p,
        None => {
            return None;
        },
    };
    let b = match read_point(data, pos) {
        Some(p) => p,
        None => {
            return None;
        },
    };
    let c = match read_point(data, pos) {
        Some(p) => p,
        None => {
            return None;
        },
    };
    Some(crate::triangle::Triangle { a, b, c })
}

/// Read a length-prefixed address path.
fn read_address(data: &Vec<u8>, pos: &mut usize) -> (r: Option<crate::address::TriangleAddress>)
    requires
        *old(pos) <= data@.len(),
    ensures
        *final(pos) >= *old(pos),
        *final(pos) <= data@.len(),
        r is Some ==> *final(pos) > *old(pos),
{
    let n = match read_u64(data, pos) {
        Some(n) => n,
        None => {
            return None;
        },
    };
    if n > data.len() as u64 {
        return None;
    }
    let path = match read_vec(data, pos, n as usize) {
        Some(v) => v,
        None => {
            return None;
        },
    };
    Some(crate::address::TriangleAddress::new(path))
}

/// Read a 32-byte array.
fn read_arr32(data: &Vec<u8>, pos: &mut usize) -> (r: Option<[u8; 32]>)
    requires
        *old(pos) <= data@.len(),
    ensures
        *final(pos) >= *old(pos),
        *final(pos) <= data@.len(),
        r is Some ==> *final(pos) == *old(pos) + 32,
{
    if 32 > data.len() - *pos {
        return None;
    }
    let base = *pos;
    let mut a = [0u8; 32];
    let mut i: usize = 0;
    while i < 32
        invariant
            0 <= i <= 32,
            base + 32 <= data@.len(),
            data@.len() <= usize::MAX,
            a@.len() == 32,
            *pos == base,
        decreases 32 - i,
    {
        a[i] = data[base + i];
        i = i + 1;
    }
    *pos = base + 32;
    Some(a)
}

/// Read a 64-byte array.
fn read_arr64(data: &Vec<u8>, pos: &mut usize) -> (r: Option<[u8; 64]>)
    requires
        *old(pos) <= data@.len(),
    ensures
        *final(pos) >= *old(pos),
        *final(pos) <= data@.len(),
        r is Some ==> *final(pos) == *old(pos) + 64,
{
    if 64 > data.len() - *pos {
        return None;
    }
    let base = *pos;
    let mut a = [0u8; 64];
    let mut i: usize = 0;
    while i < 64
        invariant
            0 <= i <= 64,
            base + 64 <= data@.len(),
            data@.len() <= usize::MAX,
            a@.len() == 64,
            *pos == base,
        decreases 64 - i,
    {
        a[i] = data[base + i];
        i = i + 1;
    }
    *pos = base + 64;
    Some(a)
}

/// Read an operation: a tag byte, then its payload.
fn read_operation(data: &Vec<u8>, pos: &mut usize) -> (r: Option<TriangleOperation>)
    requires
        *old(pos) <= data@.len(),
    ensures
        *final(pos) >= *old(pos),
        *final(pos) <= data@.len(),
        r is Some ==> *final(pos) > *old(pos),
{
    let tag = match read_u8(data, pos) {
        Some(t) => t,
        None => {
            return None;
        },
    };
    if tag == 0 {
        match read_triangle(data, pos) {
            Some(t) => Some(TriangleOperation::Create(t)),
            None => None,
        }
    } else if tag == 1 {
        let parent = match read_address(data, pos) {
            Some(a) => a,
            None => {
                return None;
            },
        };
        let c0 = match read_triangle(data, pos) {
            Some(t) => t,
            None => {
                return None;
            },
        };
        let c1 = match read_triangle(data, pos) {
            Some(t) => t,
            None => {
                return None;
            },
        };
        let c2 = match read_triangle(data, pos) {
            Some(t) => t,
            None => {
                return None;
            },
        };
        Some(TriangleOperation::Subdivide { parent, children: [c0, c1, c2] })
    } else if tag == 2 {
        let from = match read_address(data, pos) {
            Some(a) => a,
            None => {
                return None;
            },
        };
        let to = match read_arr32(data, pos) {
            Some(a) => a,
            None => {
                return None;
            },
        };
        Some(TriangleOperation::Transfer { from, to })
    } else {
        None
    }
}

/// Read a transaction; its cached hash is recomputed from the decoded
/// operation, so it is consistent by construction.
fn read_tx(data: &Vec<u8>, pos: &mut usize) -> (r: Option<Transaction>)
    requires
        *old(pos) <= data@.len(),
    ensures
        *final(pos) >= *old(pos),
        *final(pos) <= data@.len(),
        r matches Some(t) ==> *final(pos) > *old(pos) && t.wf(),
{
    let op_len = match read_u64(data, pos) {
        Some(n) => n,
        None => {
            return None;
        },
    };
    if op_len > data.len() as u64 {
        return None;
    }
    let op_bytes = match read_vec(data, pos, op_len as usize) {
        Some(v) => v,
        None => {
            return None;
        },
    };
    let mut op_pos: usize = 0;
    let operation = match read_operation(&op_bytes, &mut op_pos) {
        Some(o) => o,
        None => {
            return None;
        },
    };
    if op_pos != op_bytes.len() {
        // trailing garbage inside the operation frame
        return None;
    }
    let signature = match read_arr64(data, pos) {
        Some(a) => a,
        None => {
            return None;
        },
    };
    let public_key = match read_arr32(data, pos) {
        Some(a) => a,
        None => {
            return None;
        },
    };
    let canonical = encode_operation(&operation);
    let hash = H256::from_array(crate::hash::blake3_hash(canonical.as_slice()));
    Some(Transaction { operation, signature, public_key, hash })
}

/// Read a block: the framed header, then the counted transactions.
fn read_block(data: &Vec<u8>, pos: &mut usize) -> (r: Option<Block>)
    requires
        *old(pos) <= data@.len(),
    ensures
        *final(pos) >= *old(pos),
        *final(pos) <= data@.len(),
        r matches Some(b) ==> *final(pos) > *old(pos) && b.txs_wf(),
{
    let header_len = match read_u64(data, pos) {
        Some(n) => n,
        None => {
            return None;
        },
    };
    if header_len > data.len() as u64 {
        return None;
    }
    let header_bytes = match read_vec(data, pos, header_len as usize) {
        Some(v) => v,
        None => {
            return None;
        },
    };
    let mut hp: usize = 0;
    let header = match read_header(&header_bytes, &mut hp) {
        Some(h) => h,
        None => {
            return None;
        },
    };
    if hp != header_bytes.len() {
        return None;
    }
    let count = match read_u64(data, pos) {
        Some(n) => n,
        None => {
            return None;
        },
    };
    let mut txs: Vec<Transaction> = Vec::new();
    let mut parsed: u64 = 0;
    while parsed < count
        invariant
            *old(pos) < *pos <= data@.len(),
            forall|i: int| 0 <= i < txs@.len() ==> (#[trigger] txs@[i]).wf(),
        decreases data@.len() - *pos, count - parsed,
    {
        let before = *pos;
        let tx = match read_tx(data, pos) {
            Some(t) => t,
            None => {
                return None;
            },
        };
        proof {
            assert(*pos > before);
        }
        txs.push(tx);
        parsed = parsed + 1;
    }
    Some(Block { header, triangle_transactions: txs })
}

/// Read a block header.
fn read_header(data: &Vec<u8>, pos: &mut usize) -> (r: Option<BlockHeader>)
    requires
        *old(pos) <= data@.len(),
    ensures
        *final(pos) >= *old(pos),
        *final(pos) <= data@.len(),
        r is Some ==> *final(pos) > *old(pos),
{
    let previous_hash = match read_arr32(data, pos) {
        Some(a) => H256::from_array(a),
        None => {
            return None;
        },
    };
    let merkle_root = match read_arr32(data, pos) {
        Some(a) => H256::from_array(a),
        None => {
            return None;
        },
    };
    let timestamp = match read_i64(data, pos) {
        Some(t) => t,
        None => {
            return None;
        },
    };
    let nonce = match read_u64(data, pos) {
        Some(n) => n,
        None => {
            return None;
        },
    };
    let difficulty = match read_u64(data, pos) {
        Some(n) => n,
        None => {
            return None;
        },
    };
    let height = match read_u64(data, pos) {
        Some(n) => n,
        None => {
            return None;
        },
    };
    let geometric_proof = match read_address(data, pos) {
        Some(a) => a,
        None => {
            return None;
        },
    };
    Some(BlockHeader {
        previous_hash,
        merkle_root,
        timestamp,
        nonce,
        difficulty,
        height,
        geometric_proof,
    })
}

/// Byte-wise equality of two byte vectors.
fn bytes_eq(a: &Vec<u8>, b: &Vec<u8>) -> (r: bool)
    ensures
        r == (a@ == b@),
{
    if a.len() != b.len() {
        proof {
            assert(a@.len() != b@.len());
        }
        return false;
    }
    let mut i: usize = 0;
    while i < a.len()
        invariant
            0 <= i <= a@.len(),
            a@.len() == b@.len(),
            forall|k: int| 0 <= k < i ==> a@[k] == b@[k],
        decreases a@.len() - i,
    {
        if a[i] != b[i] {
            return false;
        }
        i = i + 1;
    }
    proof {
        assert(a@ =~= b@);
    }
    true
}

/// Decode a wire message; fails closed on truncated or malformed input,
/// and every decoded transaction carries a consistent cached hash.  An
/// accepted message re-encodes to exactly the input bytes: the decoder
/// accepts only the canonical byte form, and what it returns is pinned by
/// those bytes.
pub fn deserialize_message(data: &Vec<u8>) -> (r: Result<Message, TriangleError>)
    ensures
        r is Err ==> (r matches Err(TriangleError::MalformedMessage)),
        r matches Ok(m) ==> enc_message(m) == data@,
        data@ == enc_message(Message::GetPeers) ==> r is Ok,
        r matches Ok(m) ==> match m {
            Message::Blocks(v) => forall|i: int| 0 <= i < v@.len()
                ==> (#[trigger] v@[i]).txs_wf(),
            Message::NewTransaction(t) => t.wf(),
            _ => true,
        },
{
    let mut pos: usize = 0;
    let tag = match read_u8(data, &mut pos) {
        Some(t) => t,
        None => {
            return Err(TriangleError::MalformedMessage);
        },
    };
    let msg: Message = if tag == 0 {
        Message::GetPeers
    } else if tag == 1 {
        let count = match read_u64(data, &mut pos) {
            Some(n) => n,
            None => {
                return Err(TriangleError::MalformedMessage);
            },
        };
        let mut peers: Vec<String> = Vec::new();
        let mut parsed: u64 = 0;
        while parsed < count
            invariant
                pos <= data@.len(),
                data@ != enc_message(Message::GetPeers),
            decreases data@.len() - pos, count - parsed,
        {
            let before = pos;
            let n = match read_u64(data, &mut pos) {
                Some(n) => n,
                None => {
                    return Err(TriangleError::MalformedMessage);
                },
            };
            if n > data.len() as u64 {
                return Err(TriangleError::MalformedMessage);
            }
            let bytes = match read_vec(data, &mut pos, n as usize) {
                Some(v) => v,
                None => {
                    return Err(TriangleError::MalformedMessage);
                },
            };
            let s = match string_from_utf8(bytes) {
                Some(s) => s,
                None => {
                    return Err(TriangleError::MalformedMessage);
                },
            };
            peers.push(s);
            parsed = parsed + 1;
            proof {
                assert(pos > before);
            }
        }
        Message::Peers(peers)
    } else if tag == 2 {
        let count = match read_u64(data, &mut pos) {
            Some(n) => n,
            None => {
                return Err(TriangleError::MalformedMessage);
            },
        };
        let mut hashes: Vec<[u8; 32]> = Vec::new();
        let mut parsed: u64 = 0;
        while parsed < count
            invariant
                pos <= data@.len(),
                data@ != enc_message(Message::GetPeers),
            decreases data@.len() - pos, count - parsed,
        {
            let before = pos;
            let h = match read_arr32(data, &mut pos) {
                Some(h) => h,
                None => {
                    return Err(TriangleError::MalformedMessage);
                },
            };
            hashes.push(h);
            parsed = parsed + 1;
            proof {
                assert(pos > before);
            }
        }
        Message::GetBlocks(hashes)
    } else if tag == 3 {
        let count = match read_u64(data, &mut pos) {
            Some(n) => n,
            None => {
                return Err(TriangleError::MalformedMessage);
            },
        };
        let mut blocks: Vec<Block> = Vec::new();
        let mut parsed: u64 = 0;
        while parsed < count
            invariant
                pos <= data@.len(),
                data@ != enc_message(Message::GetPeers),
                forall|i: int| 0 <= i < blocks@.len()
                    ==> (#[trigger] blocks@[i]).txs_wf(),
            decreases data@.len() - pos, count - parsed,
        {
            let before = pos;
            let b = match read_block(data, &mut pos) {
                Some(b) => b,
                None => {
                    return Err(TriangleError::MalformedMessage);
                },
            };
            blocks.push(b);
            parsed = parsed + 1;
            proof {
                assert(pos > before);
            }
        }
        Message::Blocks(blocks)
    } else if tag == 4 {
        let tx = match read_tx(data, &mut pos) {
            Some(t) => t,
            None => {
                return Err(TriangleError::MalformedMessage);
            },
        };
        Message::NewTransaction(tx)
    } else {
        return Err(TriangleError::MalformedMessage);
    };
    if pos != data.len() {
        // trailing bytes after a complete message
        return Err(TriangleError::MalformedMessage);
    }
    // accept only the canonical byte form: what was decoded must encode
    // back to the very bytes that were read
    let canonical = serialize_message(&msg);
    if !bytes_eq(&canonical, data) {
        return Err(TriangleError::MalformedMessage);
    }
    Ok(msg)
}

} // verus!
