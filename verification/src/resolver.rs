//! The block identifier resolver: turns any client-supplied identifier —
//! exact number, symbolic tag, or hash — into one existence-checked
//! canonical reference, or `None` when the identified block is not in the
//! store. Both addressing modes pass through this single choke point
//! before any filter is built, which is what grounds addressing-mode
//! equivalence.

use vstd::prelude::*;

use crate::store::{
    chain_has_hash, chain_has_number, ref_exists, spec_resolve_tag, Store,
};
use crate::types::{BlockIdentifier, BlockInfo, BlockTag, CanonicalBlockReference};

verus! {

/// A request without an explicit identifier defaults to the latest block.
pub open spec fn effective_identifier(id: Option<BlockIdentifier>) -> BlockIdentifier {
    match id {
        None => BlockIdentifier::Tag(BlockTag::Latest),
        Some(x) => x,
    }
}

/// What an identifier resolves to against a chain. An exact number or a
/// hash is accepted as given but gated on existence; a tag is first
/// mapped to a number by the store and then gated the same way. `None`
/// means the identified block does not exist — never an error, never an
/// empty-but-present result.
pub open spec fn spec_resolve(
    c: Seq<BlockInfo>,
    id: Option<BlockIdentifier>,
) -> Option<CanonicalBlockReference> {
    match effective_identifier(id) {
        BlockIdentifier::Number(n) => if chain_has_number(c, n) {
            Some(CanonicalBlockReference::ByNumber(n))
        } else {
            None
        },
        BlockIdentifier::Tag(t) => match spec_resolve_tag(c, t) {
            None => None,
            Some(n) => if chain_has_number(c, n) {
                Some(CanonicalBlockReference::ByNumber(n))
            } else {
                None
            },
        },
        BlockIdentifier::Hash(h) => if chain_has_hash(c, h) {
            Some(CanonicalBlockReference::ByHash(h))
        } else {
            None
        },
    }
}

impl Store {
    /// Resolves a block identifier (or the default, the Latest tag) into
    /// one canonical, existence-checked block reference. Every reference
    /// handed out points at a block that exists in the store at
    /// resolution time.
    pub fn resolve_block_id(&self, block_id: Option<BlockIdentifier>) -> (r: Option<
        CanonicalBlockReference,
    >)
        ensures
            r == spec_resolve(self@.chain, block_id),
            r matches Some(cr) ==> ref_exists(self@.chain, cr),
    {
        let ident = match block_id {
            None => BlockIdentifier::Tag(BlockTag::Latest),
            Some(x) => x,
        };
        match ident {
            BlockIdentifier::Number(n) => {
                if self.has_block_number(n) {
                    Some(CanonicalBlockReference::ByNumber(n))
                } else {
                    None
                }
            }
            BlockIdentifier::Tag(t) => {
                match self.resolve_tag(t) {
                    None => None,
                    Some(n) => {
                        if self.has_block_number(n) {
                            Some(CanonicalBlockReference::ByNumber(n))
                        } else {
                            None
                        }
                    }
                }
            }
            BlockIdentifier::Hash(h) => {
                if self.has_block_hash(&h) {
                    Some(CanonicalBlockReference::ByHash(h))
                } else {
                    None
                }
            }
        }
    }
}

} // verus!
