//! Addressing-agnostic retrieval of Ethereum transaction receipts from an
//! indexed projection of chain history, together with the canonical
//! byte encoding of receipts used by raw debug endpoints.
//!
//! A client names a block by exact number, by symbolic tag, or by hash.
//! The resolver turns any of these into one existence-checked reference,
//! the filter builder encodes the selector, and the receipt provider
//! returns the receipts of the block in transaction-index order, with the
//! guarantee that both addressing modes yield the same sequence.

pub mod codec;
pub mod decode;
pub mod filter;
pub mod laws;
pub mod receipt;
pub mod receipts;
pub mod resolver;
pub mod store;
pub mod types;
