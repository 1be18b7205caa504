//! Error types of the ledger core.

use vstd::prelude::*;

verus! {

/// Errors raised by geometry, addressing and subdivision.
#[derive(Debug, Clone, PartialEq)]
pub enum TriangleError {
    /// Malformed address text.
    InvalidAddressFormat,
    /// Degenerate geometry, or a subdivision attempted on a node
    /// that is not in the `Active` state, with the reason.
    InvalidTriangle(String),
    /// A key could not be parsed from its byte encoding.
    InvalidKey,
    /// A wire message could not be decoded.
    MalformedMessage,
}

/// Errors raised by the registry layers on top of the chain.
#[derive(Debug, Clone, PartialEq)]
pub enum BlockchainError {
    /// The triangle is already occupied by a token.
    TriangleOccupied,
    /// No token was found under the given identifier.
    NFTNotFound,
}

} // verus!
