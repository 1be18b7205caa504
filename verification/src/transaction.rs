//! Signed operations over triangles and addresses.

use vstd::prelude::*;
use ed25519_dalek::Verifier;
use crate::address::TriangleAddress;
use crate::codec::{enc_bytes, enc_triangle, push_address, push_triangle};
use crate::fractal::{FractalTriangle, TriangleState};
use crate::hash::{H256, blake3_of, blake3_hash};
use crate::triangle::Triangle;

verus! {

#[verifier::external_type_specification]
#[verifier::external_body]
pub struct ExKeypair(ed25519_dalek::Keypair);

/// What ed25519 signature verification returns for the given public-key
/// bytes, message and signature bytes: a pure function of the three.
pub uninterp spec fn ed25519_valid(pk: Seq<u8>, msg: Seq<u8>, sig: Seq<u8>) -> bool;

/// Relies on ed25519_dalek::PublicKey::verify: deterministic in the key
/// bytes, message and signature bytes; a malformed key or signature never
/// verifies.
#[verifier::external_body]
fn ed25519_verify(pk: &[u8; 32], msg: &Vec<u8>, sig: &[u8; 64]) -> (r: bool)
    ensures
        r == ed25519_valid(pk@, msg@, sig@),
{
    match ed25519_dalek::PublicKey::from_bytes(pk) {
        Ok(p) => match ed25519_dalek::Signature::from_bytes(sig) {
            Ok(s) => p.verify(msg, &s).is_ok(),
            Err(_) => false,
        },
        Err(_) => false,
    }
}

/// Relies on ed25519_dalek::ExpandedSecretKey::sign and PublicKey::from
/// (RFC 8032).  The key signed under is derived from the keypair's secret
/// half, so the produced signature verifies under the returned key bytes
/// for every keypair value, even one rebuilt from bytes whose stored
/// public half does not match its secret half.
#[verifier::external_body]
fn ed25519_sign(keypair: &ed25519_dalek::Keypair, msg: &Vec<u8>) -> (r: ([u8; 32], [u8; 64]))
    ensures
        ed25519_valid(r.0@, msg@, r.1@),
{
    let public = ed25519_dalek::PublicKey::from(&keypair.secret);
    let expanded = ed25519_dalek::ExpandedSecretKey::from(&keypair.secret);
    let sig = expanded.sign(msg.as_slice(), &public);
    (public.to_bytes(), sig.to_bytes())
}

/// Relies on ed25519_dalek::Keypair::generate with rand::thread_rng:
/// a machine-chosen keypair; nothing is promised about it.
#[verifier::external_body]
pub(crate) fn generate_keypair() -> ed25519_dalek::Keypair {
    let mut csprng = rand::thread_rng();
    ed25519_dalek::Keypair::generate(&mut csprng)
}

/// An operation on the triangle tree.
#[derive(Debug, Clone)]
pub enum TriangleOperation {
    /// Record a new root region.
    Create(Triangle),
    /// Split the region at `parent` into the three given children.
    Subdivide { parent: TriangleAddress, children: [Triangle; 3] },
    /// Hand the region at `from` to the holder of the given public key.
    Transfer { from: TriangleAddress, to: [u8; 32] },
}

/// The canonical bytes of an operation: a tag byte, then the payload.
pub open spec fn enc_operation(op: TriangleOperation) -> Seq<u8> {
    match op {
        TriangleOperation::Create(t) => seq![0u8] + enc_triangle(t),
        TriangleOperation::Subdivide { parent, children } => seq![1u8]
            + enc_bytes(parent@) + enc_triangle(children[0])
            + enc_triangle(children[1]) + enc_triangle(children[2]),
        TriangleOperation::Transfer { from, to } => seq![2u8] + enc_bytes(from@) + to@,
    }
}

/// The canonical bytes of an operation.
pub fn encode_operation(op: &TriangleOperation) -> (r: Vec<u8>)
    ensures
        r@ == enc_operation(*op),
{
    let mut out: Vec<u8> = Vec::new();
    match op {
        TriangleOperation::Create(t) => {
            out.push(0);
            proof {
                assert(out@ =~= Seq::<u8>::empty() + seq![0u8]);
            }
            push_triangle(&mut out, t);
            proof {
                assert(out@ =~= enc_operation(*op));
            }
        },
        TriangleOperation::Subdivide { parent, children } => {
            out.push(1);
            proof {
                assert(out@ =~= Seq::<u8>::empty() + seq![1u8]);
            }
            push_address(&mut out, parent);
            push_triangle(&mut out, &children[0]);
            push_triangle(&mut out, &children[1]);
            push_triangle(&mut out, &children[2]);
            proof {
                assert(out@ =~= enc_operation(*op));
            }
        },
        TriangleOperation::Transfer { from, to } => {
            out.push(2);
            proof {
                assert(out@ =~= Seq::<u8>::empty() + seq![2u8]);
            }
            push_address(&mut out, from);
            let ghost mid = out@;
            let mut i: usize = 0;
            while i < 32
                invariant
                    0 <= i <= 32,
                    to@.len() == 32,
                    out@ == mid + to@.subrange(0, i as int),
                decreases 32 - i,
            {
                proof {
                    assert((mid + to@.subrange(0, i as int)).push(to@[i as int])
                        =~= mid + to@.subrange(0, i + 1));
                }
                out.push(to[i]);
                i = i + 1;
            }
            proof {
                assert(to@.subrange(0, 32) =~= to@);
                assert(out@ =~= enc_operation(*op));
            }
        },
    }
    out
}

/// A signed operation, with its cached identity hash.
#[derive(Debug, Clone)]
pub struct Transaction {
    pub operation: TriangleOperation,
    pub signature: [u8; 64],
    pub public_key: [u8; 32],
    /// Cached hash of the canonical operation bytes; `wf` says it is
    /// consistent, and every constructor establishes that.
    pub hash: H256,
}

impl Transaction {
    /// The cached identity hash equals the hash of the operation bytes.
    pub open spec fn wf(self) -> bool {
        self.hash@ == blake3_of(enc_operation(self.operation))
    }

    /// The identity hash of a transaction: the content hash of its
    /// serialized operation, signature excluded.
    pub open spec fn id_hash(self) -> Seq<u8> {
        blake3_of(enc_operation(self.operation))
    }

    /// Sign `operation` with `keypair` and cache its identity hash.
    pub fn new(operation: TriangleOperation, keypair: &ed25519_dalek::Keypair) -> (r: Transaction)
        ensures
            r.operation == operation,
            r.wf(),
            ed25519_valid(r.public_key@, enc_operation(operation), r.signature@),
    {
        let operation_bytes = encode_operation(&operation);
        let (public_key, signature) = ed25519_sign(keypair, &operation_bytes);
        let hash = H256::from_array(blake3_hash(operation_bytes.as_slice()));
        Transaction { operation, signature, public_key, hash }
    }

    /// The genesis transaction: the given triangle, signed by a throwaway
    /// keypair.
    pub fn new_genesis(triangle: Triangle) -> (r: Transaction)
        ensures
            r.operation == TriangleOperation::Create(triangle),
            r.wf(),
            ed25519_valid(r.public_key@,
                enc_operation(TriangleOperation::Create(triangle)), r.signature@),
    {
        let keypair = generate_keypair();
        Transaction::new(TriangleOperation::Create(triangle), &keypair)
    }

    /// Re-serialize the operation and verify the signature against it
    /// under the stated public key; false on any mismatch.
    pub fn validate(&self) -> (r: bool)
        ensures
            r == ed25519_valid(self.public_key@, enc_operation(self.operation),
                self.signature@),
    {
        let operation_bytes = encode_operation(&self.operation);
        ed25519_verify(&self.public_key, &operation_bytes, &self.signature)
    }

    /// Recompute the identity hash from the operation bytes, ignoring
    /// the cache.
    pub fn computed_hash(&self) -> (r: H256)
        ensures
            r@ == self.id_hash(),
    {
        let operation_bytes = encode_operation(&self.operation);
        H256::from_array(blake3_hash(operation_bytes.as_slice()))
    }

    /// The cached identity hash.
    pub fn hash(&self) -> (r: &H256)
        requires
            self.wf(),
        ensures
            r@ == self.id_hash(),
    {
        &self.hash
    }

    /// The fractal regions that this transaction brings into being:
    /// a Create yields the genesis region, a Subdivide its three children,
    /// a Transfer none.  Each region's depth is the length of its address
    /// path; the parent link by id stays `None`, because ids are drawn per
    /// process and cannot be read off the operation — the parent is named
    /// by the address with its last index dropped.
    pub fn get_fractal_triangles(&self) -> (r: Vec<FractalTriangle>)
        ensures
            r@.len() == op_regions(self.operation).len(),
            forall|i: int| 0 <= i < r@.len()
                ==> region_match(#[trigger] r@[i], op_regions(self.operation)[i]),
    {
        let mut triangles: Vec<FractalTriangle> = Vec::new();
        match &self.operation {
            TriangleOperation::Create(triangle) => {
                let address = TriangleAddress::new(Vec::new());
                proof {
                    assert(address@ =~= Seq::<u8>::empty());
                }
                triangles.push(FractalTriangle::new(
                    triangle.clone(), TriangleState::Genesis, 0, None, address));
            },
            TriangleOperation::Subdivide { parent, children } => {
                let pl = parent.depth();
                let child_depth: u32 = if pl < u32::MAX as usize {
                    (pl + 1) as u32
                } else {
                    u32::MAX
                };
                let mut i: usize = 0;
                while i < 3
                    invariant
                        0 <= i <= 3,
                        self.operation matches TriangleOperation::Subdivide {
                            parent: p2, children: c2 }
                            && p2@ == parent@ && c2 == children,
                        child_depth == region_depth(parent@.push(0u8)),
                        triangles@.len() == i,
                        forall|k: int| 0 <= k < i ==> {
                            &&& (#[trigger] triangles@[k]).triangle == children[k]
                            &&& triangles@[k].state == TriangleState::Active
                            &&& triangles@[k].depth == region_depth(parent@.push(k as u8))
                            &&& triangles@[k].parent_id is None
                            &&& triangles@[k].child_ids@ == Seq::<u64>::empty()
                            &&& triangles@[k].address@ == parent@.push(k as u8)
                        },
                    decreases 3 - i,
                {
                    let address = parent.append(i as u8);
                    triangles.push(FractalTriangle::new(
                        children[i].clone(), TriangleState::Active, child_depth, None,
                        address));
                    i = i + 1;
                }
            },
            TriangleOperation::Transfer { .. } => {},
        }
        triangles
    }
}

/// The depth of a region, read off its address: the generation count is
/// the length of the path from the genesis region (saturated at the
/// integer width, which no real path reaches).
pub open spec fn region_depth(addr: Seq<u8>) -> u32 {
    if addr.len() <= u32::MAX {
        addr.len() as u32
    } else {
        u32::MAX
    }
}

/// The descriptor of one region an operation brings into being: its
/// triangle, its state and its address.
pub open spec fn op_regions(op: TriangleOperation) -> Seq<(Triangle, TriangleState, Seq<u8>)> {
    match op {
        TriangleOperation::Create(t) => seq![(t, TriangleState::Genesis, Seq::<u8>::empty())],
        TriangleOperation::Subdivide { parent, children } => seq![
            (children[0], TriangleState::Active, parent@.push(0u8)),
            (children[1], TriangleState::Active, parent@.push(1u8)),
            (children[2], TriangleState::Active, parent@.push(2u8)),
        ],
        TriangleOperation::Transfer { .. } => Seq::empty(),
    }
}

/// A fractal-triangle value carries exactly the given region descriptor:
/// everything but the machine-chosen id is pinned.
pub open spec fn region_match(ft: FractalTriangle, rg: (Triangle, TriangleState, Seq<u8>)) -> bool {
    &&& ft.triangle == rg.0
    &&& ft.state == rg.1
    &&& ft.address@ == rg.2
    &&& ft.depth == region_depth(rg.2)
    &&& ft.parent_id is None
    &&& ft.child_ids@ == Seq::<u64>::empty()
}

/// A sequence of fractal-triangle values carries exactly the given
/// region descriptors, element for element.
pub open spec fn regions_match(
    fts: Seq<FractalTriangle>,
    rs: Seq<(Triangle, TriangleState, Seq<u8>)>,
) -> bool {
    &&& fts.len() == rs.len()
    &&& forall|i: int| 0 <= i < fts.len() ==> region_match(#[trigger] fts[i], rs[i])
}

/// A value-for-value copy of an operation: same canonical bytes, and the
/// same regions brought into being.
pub fn copy_operation(op: &TriangleOperation) -> (r: TriangleOperation)
    ensures
        enc_operation(r) == enc_operation(*op),
        op_regions(r) == op_regions(*op),
{
    match op {
        TriangleOperation::Create(t) => TriangleOperation::Create(*t),
        TriangleOperation::Subdivide { parent, children } => {
            let r = TriangleOperation::Subdivide {
                parent: parent.duplicate(),
                children: *children,
            };
            proof {
                assert(enc_operation(r) =~= enc_operation(*op));
                assert(op_regions(r) =~= op_regions(*op));
            }
            r
        },
        TriangleOperation::Transfer { from, to } => {
            let r = TriangleOperation::Transfer { from: from.duplicate(), to: *to };
            proof {
                assert(enc_operation(r) =~= enc_operation(*op));
                assert(op_regions(r) =~= op_regions(*op));
            }
            r
        },
    }
}

/// Two transactions with the same content: equal canonical operation
/// bytes, signature, public key and cached hash.
pub open spec fn same_tx(a: Transaction, b: Transaction) -> bool {
    &&& enc_operation(a.operation) == enc_operation(b.operation)
    &&& op_regions(a.operation) == op_regions(b.operation)
    &&& a.signature@ == b.signature@
    &&& a.public_key@ == b.public_key@
    &&& a.hash@ == b.hash@
}

/// A value-for-value copy of a transaction.
pub fn copy_tx(t: &Transaction) -> (r: Transaction)
    ensures
        same_tx(r, *t),
        t.wf() ==> r.wf(),
{
    Transaction {
        operation: copy_operation(&t.operation),
        signature: t.signature,
        public_key: t.public_key,
        hash: t.hash,
    }
}

} // verus!
