//! The receipt provider: a transaction receipt by transaction hash, and
//! all receipts of a block by either addressing mode — exact number,
//! symbolic tag, or block hash — with the existence check of the resolver
//! as the single gate, `None` for an unknown block, and `Some` of an
//! empty sequence for an existing block without transactions.

use vstd::prelude::*;

use crate::filter::{matches_filter, ReceiptFilterBuilder};
use crate::receipt::{
    copy_stored_receipt, into_rpc_receipt, ReceiptModel, TransactionReceipt,
};
use crate::resolver::spec_resolve;
use crate::store::{
    lemma_filter_congruence, rpc_receipts_view, stored_receipts_view, Store, StoreModel,
};
use crate::types::{B256, BlockIdentifier, CanonicalBlockReference};

verus! {

/// What a single-receipt lookup returns: the first stored receipt whose
/// transaction hash is `h`, or `None` when no stored receipt carries `h`.
pub open spec fn spec_transaction_receipt(m: StoreModel, h: B256) -> Option<ReceiptModel> {
    let fl = m.receipts.filter(|r: ReceiptModel| r.transaction_hash == h);
    if fl.len() == 0 {
        None
    } else {
        Some(fl[0])
    }
}

/// What a block-receipts lookup returns: `None` when the identifier does
/// not resolve to an existing block; otherwise all stored receipts of the
/// resolved block, addressed by number or by hash exactly as the resolved
/// reference preserves it, in store-native order.
pub open spec fn spec_block_receipts(m: StoreModel, block_id: Option<BlockIdentifier>) -> Option<
    Seq<ReceiptModel>,
> {
    match spec_resolve(m.chain, block_id) {
        None => None,
        Some(CanonicalBlockReference::ByNumber(n)) => Some(
            m.receipts.filter(|r: ReceiptModel| r.block_number == n),
        ),
        Some(CanonicalBlockReference::ByHash(h)) => Some(
            m.receipts.filter(|r: ReceiptModel| r.block_hash == h),
        ),
    }
}

/// The model of an optional receipt.
pub open spec fn opt_receipt_view(r: Option<TransactionReceipt>) -> Option<ReceiptModel> {
    match r {
        None => None,
        Some(x) => Some(x@),
    }
}

/// The model of an optional receipt sequence.
pub open spec fn opt_receipts_view(r: Option<Vec<TransactionReceipt>>) -> Option<
    Seq<ReceiptModel>,
> {
    match r {
        None => None,
        Some(v) => Some(rpc_receipts_view(v@)),
    }
}

/// The public contract of a receipt backend: single lookup by transaction
/// hash, and all receipts of a block by either addressing mode. The
/// production store implements it; a fixture-backed implementation may
/// substitute for it under the same contract.
pub trait ReceiptProvider {
    /// The provider's view of the indexed store.
    spec fn store_model(&self) -> StoreModel;

    /// Returns the transaction receipt by hash of the transaction.
    /// Absence is the answer, not an error: no existence pre-check is
    /// made.
    fn transaction_receipt(&self, hash: B256) -> (r: Option<TransactionReceipt>)
        ensures
            opt_receipt_view(r) == spec_transaction_receipt(self.store_model(), hash),
    ;

    /// Returns the receipts of a block, `None` defaulting to the latest
    /// block. An unknown block yields `None`; an existing block with no
    /// transactions yields an empty sequence.
    fn block_receipts(&self, block_id: Option<BlockIdentifier>) -> (r: Option<
        Vec<TransactionReceipt>,
    >)
        ensures
            opt_receipts_view(r) == spec_block_receipts(self.store_model(), block_id),
    ;
}

impl ReceiptProvider for Store {
    open spec fn store_model(&self) -> StoreModel {
        self@
    }

    fn transaction_receipt(&self, hash: B256) -> (r: Option<TransactionReceipt>)
        ensures
            opt_receipt_view(r) == spec_transaction_receipt(self.store_model(), hash),
    {
        let f = ReceiptFilterBuilder::default().with_tx_hash(&hash).build();
        proof {
            lemma_filter_congruence(
                self@.receipts,
                |x: ReceiptModel| matches_filter(f, x),
                |x: ReceiptModel| x.transaction_hash == hash,
            );
        }
        match self.get_one_receipt(&f) {
            None => None,
            Some(stored) => Some(into_rpc_receipt(stored)),
        }
    }

    fn block_receipts(&self, block_id: Option<BlockIdentifier>) -> (r: Option<
        Vec<TransactionReceipt>,
    >)
        ensures
            opt_receipts_view(r) == spec_block_receipts(self.store_model(), block_id),
    {
        match self.resolve_block_id(block_id) {
            None => None,
            Some(CanonicalBlockReference::ByNumber(n)) => {
                let f = ReceiptFilterBuilder::default().with_block_number(n).build();
                proof {
                    lemma_filter_congruence(
                        self@.receipts,
                        |x: ReceiptModel| matches_filter(f, x),
                        |x: ReceiptModel| x.block_number == n,
                    );
                }
                let stored = self.get_receipts(&f);
                let ghost stored_model = stored_receipts_view(stored@);
                let mut out: Vec<TransactionReceipt> = Vec::new();
                let mut i: usize = 0;
                while i < stored.len()
                    invariant
                        i <= stored.len(),
                        stored_model == stored_receipts_view(stored@),
                        rpc_receipts_view(out@) == stored_model.take(i as int),
                    decreases stored.len() - i,
                {
                    proof {
                        assert(stored_model[i as int] == stored@[i as int]@);
                    }
                    let ghost prev = out@;
                    let converted = into_rpc_receipt(copy_stored_receipt(&stored[i]));
                    out.push(converted);
                    proof {
                        assert(rpc_receipts_view(out@) =~= rpc_receipts_view(prev).push(
                            stored_model[i as int],
                        ));
                        assert(stored_model.take(i as int).push(stored_model[i as int])
                            =~= stored_model.take(i + 1 as int));
                    }
                    i += 1;
                }
                proof {
                    assert(stored_model.take(stored_model.len() as int) =~= stored_model);
                }
                Some(out)
            }
            Some(CanonicalBlockReference::ByHash(h)) => {
                let f = ReceiptFilterBuilder::default().with_block_hash(&h).build();
                proof {
                    lemma_filter_congruence(
                        self@.receipts,
                        |x: ReceiptModel| matches_filter(f, x),
                        |x: ReceiptModel| x.block_hash == h,
                    );
                }
                Some(self.get_receipts_mapped(&f))
            }
        }
    }
}

} // verus!
