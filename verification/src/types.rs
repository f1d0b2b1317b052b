//! Plain data carried through the retrieval core: digests, block
//! identifiers, and the resolver's existence-checked block reference.

use vstd::prelude::*;

verus! {

/// A 32-byte digest, held as four 64-bit limbs, most significant first.
/// `w0` holds bytes 0..8 of the digest in big-endian order, `w3` bytes 24..32.
#[derive(Clone, Copy, PartialEq, Eq, Structural, Debug)]
pub struct B256 {
    pub w0: u64,
    pub w1: u64,
    pub w2: u64,
    pub w3: u64,
}

impl B256 {
    /// Builds a digest from its four big-endian limbs.
    pub fn new(w0: u64, w1: u64, w2: u64, w3: u64) -> (r: B256)
        ensures
            r == (B256 { w0, w1, w2, w3 }),
    {
        B256 { w0, w1, w2, w3 }
    }
}

/// A symbolic block tag, resolved against the store's state at call time.
#[derive(Clone, Copy, PartialEq, Eq, Structural, Debug)]
pub enum BlockTag {
    Latest,
    Earliest,
    Pending,
    Safe,
    Finalized,
}

/// A client-supplied reference to a block: an exact number, a symbolic
/// tag, or a block hash. Constructed per request, never persisted.
#[derive(Clone, Copy, PartialEq, Eq, Structural, Debug)]
pub enum BlockIdentifier {
    Number(u64),
    Tag(BlockTag),
    Hash(B256),
}

/// One entry of the chain projection: a block that the indexer has
/// written, named by its number and its hash.
#[derive(Clone, Copy, PartialEq, Eq, Structural, Debug)]
pub struct BlockInfo {
    pub number: u64,
    pub hash: B256,
}

/// The resolver's output: one existence-checked reference to stored chain
/// data, preserving the addressing mode the client used. A number is kept
/// as a number; a hash is kept as a hash, since the block number is not
/// derivable from it without a further store round trip.
#[derive(Clone, Copy, PartialEq, Eq, Structural, Debug)]
pub enum CanonicalBlockReference {
    ByNumber(u64),
    ByHash(B256),
}

} // verus!
