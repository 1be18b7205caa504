//! Keys, wallet addresses and wallet-built transactions.

use vstd::prelude::*;
use crate::address::TriangleAddress;
use crate::errors::TriangleError;
use crate::transaction::{Transaction, TriangleOperation, ed25519_valid, enc_operation,
    generate_keypair};

verus! {

#[verifier::external_type_specification]
#[verifier::external_body]
pub struct ExPublicKey(ed25519_dalek::PublicKey);

/// What bs58 encodes the given bytes to: a pure function of the bytes.
pub uninterp spec fn base58_of(data: Seq<u8>) -> Seq<char>;

/// Relies on bs58::encode(..).into_string(): deterministic in the bytes.
#[verifier::external_body]
fn bs58_encode(data: &[u8; 33]) -> (r: String)
    ensures
        r@ == base58_of(data@),
{
    bs58::encode(data).into_string()
}

/// Relies on bs58::decode(..).into_vec(): decoding exactly inverts the
/// encoding.  On success the input is the base58 text of the returned
/// bytes and of no other bytes (each byte string has one text form, read
/// back by counting leading `1`s and accumulating the remaining digits);
/// decoding fails only on text that no byte string encodes to.
#[verifier::external_body]
fn bs58_decode(s: &str) -> (r: Result<Vec<u8>, bs58::decode::Error>)
    ensures
        r matches Ok(v) ==> s@ == base58_of(v@)
            && forall|w: Seq<u8>| base58_of(w) == s@ ==> w == v@,
        r is Err ==> forall|w: Seq<u8>| base58_of(w) != s@,
{
    bs58::decode(s).into_vec()
}

#[verifier::external_type_specification]
#[verifier::external_body]
pub struct ExBs58DecodeError(bs58::decode::Error);

/// Relies on ed25519_dalek::PublicKey::to_bytes: the key's 32-byte form.
#[verifier::external_body]
fn pubkey_bytes(pk: &ed25519_dalek::PublicKey) -> [u8; 32] {
    pk.to_bytes()
}

/// Relies on ed25519_dalek::Keypair::from_bytes: rebuilds a keypair from
/// its 64-byte form, or fails on a malformed encoding.
#[verifier::external_body]
fn keypair_from_bytes(bytes: &[u8]) -> Result<ed25519_dalek::Keypair, ed25519_dalek::SignatureError> {
    ed25519_dalek::Keypair::from_bytes(bytes)
}

#[verifier::external_type_specification]
#[verifier::external_body]
pub struct ExSignatureError(ed25519_dalek::SignatureError);

/// Relies on ed25519_dalek::Keypair::to_bytes: the keypair's 64-byte form.
#[verifier::external_body]
pub fn to_bytes(keypair: &ed25519_dalek::Keypair) -> [u8; 64] {
    keypair.to_bytes()
}

/// Rebuild a keypair from its 64-byte form.
pub fn from_bytes(bytes: &[u8]) -> (r: Result<ed25519_dalek::Keypair, TriangleError>)
    ensures
        r is Err ==> (r matches Err(TriangleError::InvalidKey)),
{
    match keypair_from_bytes(bytes) {
        Ok(k) => Ok(k),
        Err(_) => Err(TriangleError::InvalidKey),
    }
}

/// A wallet address: a version byte followed by the public key bytes.
#[derive(Debug, Clone, Copy, Hash)]
pub struct Address {
    data: [u8; 33],
}

impl View for Address {
    type V = Seq<u8>;

    closed spec fn view(&self) -> Seq<u8> {
        self.data@
    }
}

impl PartialEq for Address {
    /// Byte-wise equality.
    fn eq(&self, other: &Address) -> (r: bool) {
        let mut i: usize = 0;
        while i < 33
            invariant
                0 <= i <= 33,
                forall|k: int| 0 <= k < i ==> self@[k] == other@[k],
            decreases 33 - i,
        {
            if self.data[i] != other.data[i] {
                return false;
            }
            i = i + 1;
        }
        proof {
            assert(self@ =~= other@);
        }
        true
    }
}

impl Eq for Address {}

impl vstd::std_specs::cmp::PartialEqSpecImpl for Address {
    open spec fn obeys_eq_spec() -> bool {
        true
    }

    open spec fn eq_spec(&self, other: &Address) -> bool {
        self@ == other@
    }
}

/// Errors of the address text form.
#[derive(Debug)]
pub enum AddressError {
    /// The text is not valid base58.
    InvalidBase58(bs58::decode::Error),
    /// The decoded payload has the wrong length.
    InvalidLength(usize),
}

impl Address {
    /// Derive an address from a public key: a zero version byte, then the
    /// 32 key bytes.
    pub fn from_pubkey(pubkey: &ed25519_dalek::PublicKey) -> (r: Address)
        ensures
            r@.len() == 33,
            r@[0] == 0,
    {
        let kb = pubkey_bytes(pubkey);
        let mut data = [0u8; 33];
        let mut i: usize = 0;
        while i < 32
            invariant
                0 <= i <= 32,
                data@.len() == 33,
                kb@.len() == 32,
                data@[0] == 0,
                forall|k: int| 1 <= k < 1 + i ==> data@[k] == kb@[k - 1],
            decreases 32 - i,
        {
            data[i + 1] = kb[i];
            i = i + 1;
        }
        Address { data }
    }

    /// The address in base58 text.
    pub fn to_base58(&self) -> (r: String)
        ensures
            r@ == base58_of(self@),
    {
        bs58_encode(&self.data)
    }

    /// Parse base58 address text: the inverse of `to_base58`.  Succeeds
    /// exactly on the text form of a 33-byte address, so parsing what
    /// `to_base58` produced returns the original address bytes.
    pub fn from_base58(s: &str) -> (r: Result<Address, AddressError>)
        ensures
            r matches Ok(a) ==> s@ == base58_of(a@) && a@.len() == 33,
            forall|w: Seq<u8>| w.len() == 33 && base58_of(w) == s@
                ==> (r matches Ok(a) && a@ == w),
    {
        let bytes = match bs58_decode(s) {
            Ok(v) => v,
            Err(e) => {
                return Err(AddressError::InvalidBase58(e));
            },
        };
        if bytes.len() != 33 {
            return Err(AddressError::InvalidLength(bytes.len()));
        }
        let mut data = [0u8; 33];
        let mut i: usize = 0;
        while i < 33
            invariant
                0 <= i <= 33,
                data@.len() == 33,
                bytes@.len() == 33,
                forall|k: int| 0 <= k < i ==> data@[k] == bytes@[k],
            decreases 33 - i,
        {
            data[i] = bytes[i];
            i = i + 1;
        }
        let a = Address { data };
        proof {
            assert(a@ =~= bytes@);
        }
        Ok(a)
    }
}

/// A keypair with the operations a wallet needs.
pub struct Wallet {
    keypair: ed25519_dalek::Keypair,
}

impl Wallet {
    pub fn new(keypair: ed25519_dalek::Keypair) -> Wallet {
        Wallet { keypair }
    }

    /// A wallet over a freshly generated keypair.
    pub fn new_random() -> Wallet {
        Wallet { keypair: generate_keypair() }
    }

    /// The wallet's public key.
    pub fn address(&self) -> ed25519_dalek::PublicKey {
        wallet_pubkey(&self.keypair)
    }

    /// Sign a transfer of the region at `from` to the holder of `to`.
    pub fn create_transaction(&self, from: TriangleAddress, to: ed25519_dalek::PublicKey) -> (r:
        Transaction)
        ensures
            r.wf(),
            r.operation matches TriangleOperation::Transfer { from: f, to: _ }
                && f@ == from@,
            ed25519_valid(r.public_key@, enc_operation(r.operation), r.signature@),
    {
        let to_bytes_arr = pubkey_bytes(&to);
        let operation = TriangleOperation::Transfer { from, to: to_bytes_arr };
        Transaction::new(operation, &self.keypair)
    }
}

/// Relies on ed25519_dalek::Keypair: its `public` field is the keypair's
/// public half.
#[verifier::external_body]
fn wallet_pubkey(keypair: &ed25519_dalek::Keypair) -> ed25519_dalek::PublicKey {
    keypair.public
}

} // verus!
