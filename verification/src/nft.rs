//! Tokens tied to triangular regions, and their registry.

use vstd::prelude::*;
use crate::address::{TriangleAddress, display_spec};
use crate::errors::BlockchainError;
use crate::hash::{H256, blake3_of, blake3_hash};

verus! {

/// The token id: the hash of the address text, the owner and the
/// metadata URI, in that order, as UTF-8 bytes.
pub open spec fn nft_hash_spec(addr: Seq<u8>, owner: Seq<char>, uri: Seq<char>) -> Seq<u8> {
    blake3_of(vstd::utf8::encode_utf8(display_spec(addr))
        + vstd::utf8::encode_utf8(owner) + vstd::utf8::encode_utf8(uri))
}

/// A token tied to one triangular region.
#[derive(Debug, Clone)]
pub struct TriangleNFT {
    /// A unique identifier, derived from the content below.
    pub token_id: H256,
    /// The address of the region this token represents.
    pub triangle_address: TriangleAddress,
    /// The public key of the holder, in text form.
    pub owner: String,
    /// Off-chain metadata for this token.
    pub metadata_uri: String,
}

impl TriangleNFT {
    /// Mint a token for a region: the id is the content hash of the
    /// address text, owner and metadata.
    pub fn new(triangle_address: TriangleAddress, owner: String, metadata_uri: String) -> (r:
        TriangleNFT)
        ensures
            r.token_id@ == nft_hash_spec(triangle_address@, owner@, metadata_uri@),
            r.triangle_address@ == triangle_address@,
            r.owner@ == owner@,
            r.metadata_uri@ == metadata_uri@,
    {
        let mut nft = TriangleNFT {
            token_id: H256::default(),
            triangle_address,
            owner,
            metadata_uri,
        };
        nft.token_id = nft.calculate_hash();
        nft
    }

    /// The content hash that serves as the token id.
    fn calculate_hash(&self) -> (r: H256)
        ensures
            r@ == nft_hash_spec(self.triangle_address@, self.owner@, self.metadata_uri@),
    {
        let mut bytes: Vec<u8> = Vec::new();
        let text = self.triangle_address.to_string();
        append_bytes(&mut bytes, text.as_str());
        append_bytes(&mut bytes, self.owner.as_str());
        append_bytes(&mut bytes, self.metadata_uri.as_str());
        proof {
            assert(bytes@ =~= vstd::utf8::encode_utf8(display_spec(self.triangle_address@))
                + vstd::utf8::encode_utf8(self.owner@)
                + vstd::utf8::encode_utf8(self.metadata_uri@));
        }
        H256::from_array(blake3_hash(bytes.as_slice()))
    }
}

/// Append the UTF-8 bytes of a string.
fn append_bytes(out: &mut Vec<u8>, s: &str)
    ensures
        final(out)@ == old(out)@ + vstd::utf8::encode_utf8(s@),
{
    let ghost base = old(out)@;
    let b = s.as_bytes_vec();
    let mut i: usize = 0;
    while i < b.len()
        invariant
            0 <= i <= b@.len(),
            out@ == base + b@.subrange(0, i as int),
        decreases b@.len() - i,
    {
        proof {
            assert((base + b@.subrange(0, i as int)).push(b@[i as int])
                =~= base + b@.subrange(0, i + 1));
        }
        out.push(b[i]);
        i = i + 1;
    }
    proof {
        assert(b@.subrange(0, b@.len() as int) =~= b@);
    }
}

/// Whether some entry's address path equals `a`.
pub open spec fn occupied(entries: Seq<(TriangleAddress, H256)>, a: Seq<u8>) -> bool {
    exists|i: int| 0 <= i < entries.len() && (#[trigger] entries[i]).0@ == a
}

/// Whether some token entry carries the id `t`.
pub open spec fn has_token(entries: Seq<(H256, TriangleNFT)>, t: Seq<u8>) -> bool {
    exists|i: int| 0 <= i < entries.len() && (#[trigger] entries[i]).0@ == t
}

/// The registry of minted tokens: which address is occupied by which
/// token, and the token data by id.
pub struct NFTManager {
    triangle_to_nft: Vec<(TriangleAddress, H256)>,
    nfts: Vec<(H256, TriangleNFT)>,
}

impl NFTManager {
    pub closed spec fn spec_addr_map(self) -> Seq<(TriangleAddress, H256)> {
        self.triangle_to_nft@
    }

    pub closed spec fn spec_nfts(self) -> Seq<(H256, TriangleNFT)> {
        self.nfts@
    }

    /// Every token id the address map points at is present in the store.
    pub open spec fn wf(self) -> bool {
        forall|i: int| 0 <= i < self.spec_addr_map().len()
            ==> has_token(self.spec_nfts(), (#[trigger] self.spec_addr_map()[i]).1@)
    }

    /// An empty registry.
    pub fn new() -> (r: NFTManager)
        ensures
            r.spec_addr_map().len() == 0,
            r.spec_nfts().len() == 0,
            r.wf(),
    {
        NFTManager { triangle_to_nft: Vec::new(), nfts: Vec::new() }
    }

    /// Mint a token on an address.  Fails exactly when the address is
    /// already occupied; on success both maps gain one entry and the
    /// minted token is returned.
    pub fn mint_nft(
        &mut self,
        triangle_address: TriangleAddress,
        owner: String,
        metadata_uri: String,
    ) -> (r: Result<TriangleNFT, BlockchainError>)
        requires
            old(self).wf(),
        ensures
            final(self).wf(),
            r is Err <==> occupied(old(self).spec_addr_map(), triangle_address@),
            r is Err ==> *final(self) == *old(self)
                && (r matches Err(BlockchainError::TriangleOccupied)),
            r matches Ok(nft) ==> {
                &&& nft.token_id@ == nft_hash_spec(triangle_address@, owner@, metadata_uri@)
                &&& nft.triangle_address@ == triangle_address@
                &&& nft.owner@ == owner@
                &&& nft.metadata_uri@ == metadata_uri@
                &&& final(self).spec_nfts().len() == old(self).spec_nfts().len() + 1
                &&& final(self).spec_addr_map().len()
                    == old(self).spec_addr_map().len() + 1
                &&& forall|k: int| 0 <= k < old(self).spec_nfts().len()
                    ==> #[trigger] final(self).spec_nfts()[k]
                        == old(self).spec_nfts()[k]
                &&& forall|k: int| 0 <= k < old(self).spec_addr_map().len()
                    ==> #[trigger] final(self).spec_addr_map()[k]
                        == old(self).spec_addr_map()[k]
                &&& final(self).spec_addr_map().last().0@ == triangle_address@
                &&& final(self).spec_addr_map().last().1@ == nft.token_id@
                &&& final(self).spec_nfts().last().0@ == nft.token_id@
                &&& final(self).spec_nfts().last().1.token_id@ == nft.token_id@
                &&& final(self).spec_nfts().last().1.owner@ == nft.owner@
                &&& final(self).spec_nfts().last().1.metadata_uri@ == nft.metadata_uri@
                &&& final(self).spec_nfts().last().1.triangle_address@
                    == nft.triangle_address@
                &&& occupied(final(self).spec_addr_map(), triangle_address@)
            },
    {
        let mut i: usize = 0;
        while i < self.triangle_to_nft.len()
            invariant
                0 <= i <= self.spec_addr_map().len(),
                *self == *old(self),
                old(self).wf(),
                forall|k: int| 0 <= k < i
                    ==> (#[trigger] self.spec_addr_map()[k]).0@ != triangle_address@,
            decreases self.spec_addr_map().len() - i,
        {
            if self.triangle_to_nft[i].0 == triangle_address {
                return Err(BlockchainError::TriangleOccupied);
            }
            i = i + 1;
        }

        let nft = TriangleNFT::new(triangle_address.duplicate(), owner, metadata_uri);
        let token_id = H256::from_array(nft.token_id.to_bytes());
        let nft_for_map = TriangleNFT {
            token_id: H256::from_array(nft.token_id.to_bytes()),
            triangle_address: nft.triangle_address.duplicate(),
            owner: clone_string(&nft.owner),
            metadata_uri: clone_string(&nft.metadata_uri),
        };

        let ghost old_nfts = self.spec_nfts();
        let ghost old_map = self.spec_addr_map();
        self.nfts.push((token_id, nft_for_map));
        self.triangle_to_nft.push((triangle_address, H256::from_array(nft.token_id.to_bytes())));
        proof {
            let m = self.spec_addr_map();
            assert(m.last().0@ == triangle_address@);
            assert(m[m.len() - 1].0@ == triangle_address@);
            assert forall|k: int| 0 <= k < m.len()
                implies has_token(self.spec_nfts(), (#[trigger] m[k]).1@) by {
                if k < old_map.len() {
                    assert(m[k] == old_map[k]);
                    let w = choose|w: int| 0 <= w < old_nfts.len()
                        && (#[trigger] old_nfts[w]).0@ == old_map[k].1@;
                    assert(self.spec_nfts()[w].0@ == m[k].1@);
                } else {
                    assert(self.spec_nfts().last().0@ == m[k].1@);
                    assert(self.spec_nfts()[self.spec_nfts().len() - 1].0@ == m[k].1@);
                }
            }
        }
        Ok(nft)
    }

    /// Hand a token to a new owner.  Fails exactly when the id is unknown.
    pub fn transfer_nft(&mut self, token_id: &H256, new_owner: String) -> (r: Result<
        (),
        BlockchainError,
    >)
        requires
            old(self).wf(),
        ensures
            final(self).wf(),
            r is Ok <==> has_token(old(self).spec_nfts(), token_id@),
            r is Err ==> *final(self) == *old(self)
                && (r matches Err(BlockchainError::NFTNotFound)),
            final(self).spec_addr_map() == old(self).spec_addr_map(),
            final(self).spec_nfts().len() == old(self).spec_nfts().len(),
            forall|k: int| 0 <= k < final(self).spec_nfts().len()
                ==> (#[trigger] final(self).spec_nfts()[k]).0@
                    == old(self).spec_nfts()[k].0@,
            r is Ok ==> exists|i: int| 0 <= i < final(self).spec_nfts().len()
                && (#[trigger] final(self).spec_nfts()[i]).0@ == token_id@
                && final(self).spec_nfts()[i].1.owner@ == new_owner@
                && final(self).spec_nfts()[i].1.token_id
                    == old(self).spec_nfts()[i].1.token_id
                && final(self).spec_nfts()[i].1.triangle_address@
                    == old(self).spec_nfts()[i].1.triangle_address@
                && final(self).spec_nfts()[i].1.metadata_uri@
                    == old(self).spec_nfts()[i].1.metadata_uri@
                && (forall|k: int| 0 <= k < final(self).spec_nfts().len() && k != i
                    ==> #[trigger] final(self).spec_nfts()[k]
                        == old(self).spec_nfts()[k]),
    {
        let mut i: usize = 0;
        while i < self.nfts.len()
            invariant
                0 <= i <= self.spec_nfts().len(),
                *self == *old(self),
                old(self).wf(),
                forall|k: int| 0 <= k < i
                    ==> (#[trigger] self.spec_nfts()[k]).0@ != token_id@,
            decreases self.spec_nfts().len() - i,
        {
            let found = self.nfts[i].0 == *token_id;
            if found {
                let (id, old_nft) = self.nfts.remove(i);
                let updated = TriangleNFT {
                    token_id: old_nft.token_id,
                    triangle_address: old_nft.triangle_address,
                    owner: new_owner,
                    metadata_uri: old_nft.metadata_uri,
                };
                self.nfts.insert(i, (id, updated));
                proof {
                    assert(self.spec_nfts() =~= old(self).spec_nfts().update(
                        i as int, self.spec_nfts()[i as int]));
                    assert(self.spec_nfts()[i as int].0@ == token_id@);
                    assert(self.spec_nfts()[i as int].1.owner@ == new_owner@);
                    assert(self.spec_addr_map() == old(self).spec_addr_map());
                    assert forall|k: int| 0 <= k < self.spec_addr_map().len()
                        implies has_token(self.spec_nfts(),
                            (#[trigger] self.spec_addr_map()[k]).1@) by {
                        assert(has_token(old(self).spec_nfts(),
                            old(self).spec_addr_map()[k].1@));
                        let w = choose|w: int| 0 <= w < old(self).spec_nfts().len()
                            && (#[trigger] old(self).spec_nfts()[w]).0@
                                == old(self).spec_addr_map()[k].1@;
                        if w == i {
                            assert(self.spec_nfts()[i as int].0
                                == old(self).spec_nfts()[i as int].0);
                        } else {
                            assert(self.spec_nfts()[w] == old(self).spec_nfts()[w]);
                        }
                        assert(self.spec_nfts()[w].0@ == self.spec_addr_map()[k].1@);
                    }
                }
                return Ok(());
            }
            i = i + 1;
        }
        Err(BlockchainError::NFTNotFound)
    }

    /// The token occupying an address, if any: the stored token whose id
    /// the first matching registration points at.
    pub fn get_nft_by_triangle(&self, triangle_address: &TriangleAddress) -> (r: Option<
        &TriangleNFT,
    >)
        requires
            self.wf(),
        ensures
            r is Some <==> occupied(self.spec_addr_map(), triangle_address@),
            r matches Some(nft) ==> exists|i: int, j: int|
                0 <= i < self.spec_addr_map().len()
                && 0 <= j < self.spec_nfts().len()
                && (#[trigger] self.spec_addr_map()[i]).0@ == triangle_address@
                && (#[trigger] self.spec_nfts()[j]).0@ == self.spec_addr_map()[i].1@
                && self.spec_nfts()[j].1 == *nft,
    {
        let mut i: usize = 0;
        while i < self.triangle_to_nft.len()
            invariant
                self.wf(),
                0 <= i <= self.spec_addr_map().len(),
                forall|k: int| 0 <= k < i
                    ==> (#[trigger] self.spec_addr_map()[k]).0@ != triangle_address@,
            decreases self.spec_addr_map().len() - i,
        {
            let found = self.triangle_to_nft[i].0 == *triangle_address;
            if found {
                let id = &self.triangle_to_nft[i].1;
                proof {
                    assert(occupied(self.spec_addr_map(), triangle_address@));
                    assert(has_token(self.spec_nfts(), id@));
                }
                let mut j: usize = 0;
                while j < self.nfts.len()
                    invariant
                        0 <= j <= self.spec_nfts().len(),
                        0 <= i < self.spec_addr_map().len(),
                        self.spec_addr_map()[i as int].0@ == triangle_address@,
                        id@ == self.spec_addr_map()[i as int].1@,
                        has_token(self.spec_nfts(), id@),
                        occupied(self.spec_addr_map(), triangle_address@),
                        forall|k: int| 0 <= k < j
                            ==> (#[trigger] self.spec_nfts()[k]).0@ != id@,
                    decreases self.spec_nfts().len() - j,
                {
                    let hit = self.nfts[j].0 == *id;
                    if hit {
                        proof {
                            assert(self.spec_addr_map()[i as int].0@
                                == triangle_address@);
                            assert(self.spec_nfts()[j as int].0@
                                == self.spec_addr_map()[i as int].1@);
                        }
                        return Some(&self.nfts[j].1);
                    }
                    j = j + 1;
                }
                proof {
                    assert(false);
                }
                return None;
            }
            i = i + 1;
        }
        None
    }
}

/// An exact copy of a string.
fn clone_string(s: &String) -> (r: String)
    ensures
        r@ == s@,
{
    String::from_str(s.as_str())
}

} // verus!
