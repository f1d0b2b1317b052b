//! Pure, stateless construction of query descriptors. A filter encodes a
//! selector over stored receipts; it never checks existence — that is the
//! resolver's job. Building is deterministic: equal inputs give equal
//! filters, and the matching semantics of a filter is a function of its
//! fields alone.

use vstd::prelude::*;

use crate::receipt::ReceiptModel;
use crate::types::B256;

verus! {

/// An inclusive block-number range.
#[derive(Clone, Copy, PartialEq, Eq, Structural, Debug)]
pub struct BlockRange {
    pub lo: u64,
    pub hi: u64,
}

/// An immutable query descriptor over stored receipts, built from zero or
/// more selectors. At most one primary selector (transaction hash, block
/// number, block hash) drives a query; a range, if present, narrows it.
#[derive(Clone, Copy, PartialEq, Eq, Structural, Debug)]
pub struct QueryFilter {
    pub tx_hash: Option<B256>,
    pub block_number: Option<u64>,
    pub block_hash: Option<B256>,
    pub block_range: Option<BlockRange>,
}

/// The filter with no selector, matched by every record.
pub open spec fn empty_filter() -> QueryFilter {
    QueryFilter { tx_hash: None, block_number: None, block_hash: None, block_range: None }
}

/// How many primary selectors a filter carries.
pub open spec fn primary_selector_count(f: QueryFilter) -> int {
    (if f.tx_hash is Some { 1int } else { 0int })
        + (if f.block_number is Some { 1int } else { 0int })
        + (if f.block_hash is Some { 1int } else { 0int })
}

/// The filter invariant: at most one primary selector drives the query.
pub open spec fn wf_filter(f: QueryFilter) -> bool {
    primary_selector_count(f) <= 1
}

/// The single-selector descriptors the providers build keep the filter
/// invariant: exactly one primary selector drives each query.
pub proof fn lemma_provider_filters_wf(h: B256, n: u64)
    ensures
        wf_filter(
            (QueryFilter { tx_hash: Some(h), block_number: None, block_hash: None, block_range: None }),
        ),
        wf_filter(
            (QueryFilter { tx_hash: None, block_number: Some(n), block_hash: None, block_range: None }),
        ),
        wf_filter(
            (QueryFilter { tx_hash: None, block_number: None, block_hash: Some(h), block_range: None }),
        ),
{
}

/// What it means for a stored receipt to match a filter: every selector
/// that is present must agree with the record.
pub open spec fn matches_filter(f: QueryFilter, r: ReceiptModel) -> bool {
    &&& match f.tx_hash {
        Some(h) => r.transaction_hash == h,
        None => true,
    }
    &&& match f.block_number {
        Some(n) => r.block_number == n,
        None => true,
    }
    &&& match f.block_hash {
        Some(h) => r.block_hash == h,
        None => true,
    }
    &&& match f.block_range {
        Some(range) => range.lo <= r.block_number && r.block_number <= range.hi,
        None => true,
    }
}

/// Decides whether a stored receipt matches a filter.
pub fn receipt_matches(f: &QueryFilter, r: &crate::receipt::StoredTransactionReceipt) -> (b: bool)
    ensures
        b == matches_filter(*f, r@),
{
    let tx_ok = match f.tx_hash {
        Some(h) => r.transaction_hash == h,
        None => true,
    };
    let number_ok = match f.block_number {
        Some(n) => r.block_number == n,
        None => true,
    };
    let hash_ok = match f.block_hash {
        Some(h) => r.block_hash == h,
        None => true,
    };
    let range_ok = match f.block_range {
        Some(range) => range.lo <= r.block_number && r.block_number <= range.hi,
        None => true,
    };
    tx_ok && number_ok && hash_ok && range_ok
}

/// Builder for receipt query filters. Each `with_*` call records one
/// selector; `build` hands the descriptor out unchanged.
#[derive(Clone, Copy, Debug)]
pub struct ReceiptFilterBuilder {
    pub filter: QueryFilter,
}

impl Default for ReceiptFilterBuilder {
    /// Starts from the filter with no selector.
    fn default() -> (r: Self)
        ensures
            r.filter == empty_filter(),
    {
        ReceiptFilterBuilder {
            filter: QueryFilter {
                tx_hash: None,
                block_number: None,
                block_hash: None,
                block_range: None,
            },
        }
    }
}

impl ReceiptFilterBuilder {
    /// Selects the receipt of one transaction by its hash.
    pub fn with_tx_hash(self, hash: &B256) -> (r: Self)
        ensures
            r.filter.tx_hash == Some(*hash),
            r.filter.block_number == self.filter.block_number,
            r.filter.block_hash == self.filter.block_hash,
            r.filter.block_range == self.filter.block_range,
    {
        ReceiptFilterBuilder {
            filter: QueryFilter { tx_hash: Some(*hash), ..self.filter },
        }
    }

    /// Selects the receipts of the block with the given number.
    pub fn with_block_number(self, number: u64) -> (r: Self)
        ensures
            r.filter.block_number == Some(number),
            r.filter.tx_hash == self.filter.tx_hash,
            r.filter.block_hash == self.filter.block_hash,
            r.filter.block_range == self.filter.block_range,
    {
        ReceiptFilterBuilder {
            filter: QueryFilter { block_number: Some(number), ..self.filter },
        }
    }

    /// Selects the receipts of the block with the given hash.
    pub fn with_block_hash(self, hash: &B256) -> (r: Self)
        ensures
            r.filter.block_hash == Some(*hash),
            r.filter.tx_hash == self.filter.tx_hash,
            r.filter.block_number == self.filter.block_number,
            r.filter.block_range == self.filter.block_range,
    {
        ReceiptFilterBuilder {
            filter: QueryFilter { block_hash: Some(*hash), ..self.filter },
        }
    }

    /// Narrows the query to an inclusive block-number range.
    pub fn with_block_range(self, lo: u64, hi: u64) -> (r: Self)
        ensures
            r.filter.block_range == Some(BlockRange { lo, hi }),
            r.filter.tx_hash == self.filter.tx_hash,
            r.filter.block_number == self.filter.block_number,
            r.filter.block_hash == self.filter.block_hash,
    {
        ReceiptFilterBuilder {
            filter: QueryFilter { block_range: Some(BlockRange { lo, hi }), ..self.filter },
        }
    }

    /// Hands the built descriptor out, exactly as recorded.
    pub fn build(self) -> (f: QueryFilter)
        ensures
            f == self.filter,
    {
        self.filter
    }
}

} // verus!
