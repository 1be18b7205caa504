//! Fixed-width content hashes.

use vstd::prelude::*;

verus! {

/// What `blake3::hash` returns for the given input bytes: a pure function
/// of the data, identical in every process and on every machine.
pub uninterp spec fn blake3_of(data: Seq<u8>) -> Seq<u8>;

/// Relies on blake3::hash: a 32-byte digest computed from the input bytes
/// alone; `Hash::as_bytes` exposes it unchanged.
#[verifier::external_body]
pub fn blake3_hash(data: &[u8]) -> (r: [u8; 32])
    ensures
        r@ == blake3_of(data@),
{
    *blake3::hash(data).as_bytes()
}

/// The all-zero digest, used as the hash of "nothing".
pub open spec fn zero_hash() -> Seq<u8> {
    Seq::new(32, |i: int| 0u8)
}

/// A 256-bit hash value.
#[derive(Clone, Copy, Debug, Hash)]
pub struct H256([u8; 32]);

impl View for H256 {
    type V = Seq<u8>;

    closed spec fn view(&self) -> Seq<u8> {
        self.0@
    }
}

impl H256 {
    /// Wrap 32 bytes as a hash value.
    pub fn from_slice(slice: &[u8]) -> (r: H256)
        requires
            slice@.len() == 32,
        ensures
            r@ == slice@,
    {
        let mut data = [0u8; 32];
        let mut i: usize = 0;
        while i < 32
            invariant
                0 <= i <= 32,
                data@.len() == 32,
                slice@.len() == 32,
                forall|k: int| 0 <= k < i ==> data@[k] == slice@[k],
            decreases 32 - i,
        {
            data[i] = slice[i];
            i = i + 1;
        }
        proof {
            assert(data@ =~= slice@);
        }
        H256(data)
    }

    /// Wrap a 32-byte array as a hash value.
    pub fn from_array(data: [u8; 32]) -> (r: H256)
        ensures
            r@ == data@,
    {
        H256(data)
    }

    /// The raw bytes of the hash.
    pub fn to_bytes(&self) -> (r: [u8; 32])
        ensures
            r@ == self@,
    {
        self.0
    }

    /// The byte at position `i`.
    pub fn byte_at(&self, i: usize) -> (r: u8)
        requires
            i < 32,
        ensures
            r == self@[i as int],
    {
        self.0[i]
    }

    /// The hash in lower-case hexadecimal.
    pub fn to_hex(&self) -> (r: String)
        ensures
            r@ == hex_of(self@),
    {
        hex_encode(&self.0)
    }
}

pub proof fn lemma_h256_len(h: H256)
    ensures
        h@.len() == 32,
{
}

impl Default for H256 {
    /// The zero hash.
    fn default() -> (r: H256)
        ensures
            r@ == zero_hash(),
    {
        let r = H256([0u8; 32]);
        proof {
            assert(r@ =~= zero_hash());
        }
        r
    }
}

impl PartialEq for H256 {
    /// Byte-wise equality.
    fn eq(&self, other: &H256) -> (r: bool) {
        let mut i: usize = 0;
        while i < 32
            invariant
                0 <= i <= 32,
                forall|k: int| 0 <= k < i ==> self@[k] == other@[k],
            decreases 32 - i,
        {
            if self.0[i] != other.0[i] {
                return false;
            }
            i = i + 1;
        }
        proof {
            assert(self@ =~= other@);
        }
        true
    }
}

impl Eq for H256 {}

impl vstd::std_specs::cmp::PartialEqSpecImpl for H256 {
    open spec fn obeys_eq_spec() -> bool {
        true
    }

    open spec fn eq_spec(&self, other: &H256) -> bool {
        self@ == other@
    }
}

/// A hexadecimal digit as a character.
pub open spec fn hex_digit(d: int) -> char {
    if d < 10 {
        crate::address::digit_char(d)
    } else if d == 10 { 'a' }
    else if d == 11 { 'b' }
    else if d == 12 { 'c' }
    else if d == 13 { 'd' }
    else if d == 14 { 'e' }
    else { 'f' }
}

/// Lower-case hexadecimal text of a byte string: two digits per byte,
/// in order.
pub open spec fn hex_of(data: Seq<u8>) -> Seq<char>
    decreases data.len(),
{
    if data.len() == 0 {
        Seq::empty()
    } else {
        hex_of(data.drop_last())
            + seq![hex_digit(data.last() as int / 16), hex_digit(data.last() as int % 16)]
    }
}

/// Relies on hex::encode: lower-case hexadecimal, two digits per byte,
/// bytes in order.
#[verifier::external_body]
fn hex_encode(data: &[u8; 32]) -> (r: String)
    ensures
        r@ == hex_of(data@),
{
    hex::encode(data)
}

} // verus!
