//! The indexed projection of canonical chain history that the providers
//! read: a chain of blocks and the stored receipts that reference them,
//! with the query operations a provider needs — get one, get many,
//! get-and-map, existence by reference, and tag resolution.
//!
//! The store is an append-only projection: blocks and receipts are only
//! ever added, under checks that keep the cross-entity invariant — block
//! numbers and hashes are unique, every receipt points at an existing
//! block by number and hash consistently, transaction hashes are unique,
//! and receipts of one block stand in ascending transaction-index order.

use vstd::prelude::*;

use crate::filter::{matches_filter, receipt_matches, QueryFilter};
use crate::receipt::{
    copy_stored_receipt, into_rpc_receipt, wf_receipt, ReceiptModel, StoredTransactionReceipt,
    TransactionReceipt,
};
use crate::types::{B256, BlockInfo, BlockTag, CanonicalBlockReference};

verus! {

/// The mathematical value of a [`Store`]: the chain projection and the
/// stored receipts, in store-native order.
#[verifier::ext_equal]
pub struct StoreModel {
    pub chain: Seq<BlockInfo>,
    pub receipts: Seq<ReceiptModel>,
}

/// The model of a sequence of stored receipts.
pub open spec fn stored_receipts_view(rs: Seq<StoredTransactionReceipt>) -> Seq<ReceiptModel> {
    rs.map_values(|r: StoredTransactionReceipt| r@)
}

/// The model of a sequence of RPC-facing receipts.
pub open spec fn rpc_receipts_view(rs: Seq<TransactionReceipt>) -> Seq<ReceiptModel> {
    rs.map_values(|r: TransactionReceipt| r@)
}

/// Whether some block of the chain carries the given number.
pub open spec fn chain_has_number(c: Seq<BlockInfo>, n: u64) -> bool {
    exists|i: int| 0 <= i < c.len() && (#[trigger] c[i]).number == n
}

/// Whether some block of the chain carries the given hash.
pub open spec fn chain_has_hash(c: Seq<BlockInfo>, h: B256) -> bool {
    exists|i: int| 0 <= i < c.len() && (#[trigger] c[i]).hash == h
}

/// Whether the block a resolved reference points at exists in the chain.
pub open spec fn ref_exists(c: Seq<BlockInfo>, r: CanonicalBlockReference) -> bool {
    match r {
        CanonicalBlockReference::ByNumber(n) => chain_has_number(c, n),
        CanonicalBlockReference::ByHash(h) => chain_has_hash(c, h),
    }
}

/// Chain well-formedness: block numbers and block hashes are unique.
pub open spec fn wf_chain(c: Seq<BlockInfo>) -> bool {
    forall|i: int, j: int|
        #![trigger c[i], c[j]]
        0 <= i < j < c.len() ==> c[i].number != c[j].number && c[i].hash != c[j].hash
}

/// A stored receipt is consistent with the chain when one block carries
/// both its back-referenced number and its back-referenced hash.
pub open spec fn receipt_consistent(c: Seq<BlockInfo>, r: ReceiptModel) -> bool {
    exists|i: int|
        0 <= i < c.len() && (#[trigger] c[i]).number == r.block_number && c[i].hash == r.block_hash
}

/// The store invariant: a well-formed chain; every receipt well formed and
/// consistently back-referencing an existing block; transaction hashes
/// unique; and receipts of one block in ascending transaction-index order.
pub open spec fn wf_store(m: StoreModel) -> bool {
    &&& wf_chain(m.chain)
    &&& forall|i: int|
        0 <= i < m.receipts.len() ==> wf_receipt(#[trigger] m.receipts[i]) && receipt_consistent(
            m.chain,
            m.receipts[i],
        )
    &&& forall|i: int, j: int|
        #![trigger m.receipts[i], m.receipts[j]]
        0 <= i < j < m.receipts.len() ==> m.receipts[i].transaction_hash
            != m.receipts[j].transaction_hash && (m.receipts[i].block_number
            == m.receipts[j].block_number ==> m.receipts[i].transaction_index
            < m.receipts[j].transaction_index)
}

/// The highest block number of the chain, if the chain is not empty.
pub open spec fn latest_number(c: Seq<BlockInfo>) -> Option<u64>
    decreases c.len(),
{
    if c.len() == 0 {
        None
    } else {
        match latest_number(c.drop_last()) {
            None => Some(c.last().number),
            Some(m) => Some(if c.last().number > m { c.last().number } else { m }),
        }
    }
}

/// The lowest block number of the chain, if the chain is not empty.
pub open spec fn earliest_number(c: Seq<BlockInfo>) -> Option<u64>
    decreases c.len(),
{
    if c.len() == 0 {
        None
    } else {
        match earliest_number(c.drop_last()) {
            None => Some(c.last().number),
            Some(m) => Some(if c.last().number < m { c.last().number } else { m }),
        }
    }
}

/// What a symbolic tag resolves to against a chain: `Earliest` names the
/// lowest indexed block; every other tag names the highest, since the
/// store only ever holds finalized history.
pub open spec fn spec_resolve_tag(c: Seq<BlockInfo>, tag: BlockTag) -> Option<u64> {
    match tag {
        BlockTag::Earliest => earliest_number(c),
        _ => latest_number(c),
    }
}

/// A resolved tag names a block of the chain.
pub proof fn lemma_latest_in_chain(c: Seq<BlockInfo>)
    ensures
        match latest_number(c) {
            Some(n) => chain_has_number(c, n),
            None => c.len() == 0,
        },
    decreases c.len(),
{
    if c.len() > 0 {
        lemma_latest_in_chain(c.drop_last());
        match latest_number(c.drop_last()) {
            None => {
                assert(c[c.len() - 1].number == c.last().number);
            }
            Some(m) => {
                if c.last().number > m {
                    assert(c[c.len() - 1].number == c.last().number);
                } else {
                    let i = choose|i: int|
                        0 <= i < c.drop_last().len() && (#[trigger] c.drop_last()[i]).number == m;
                    assert(c[i].number == m);
                }
            }
        }
    }
}

/// The counterpart of [`lemma_latest_in_chain`] for the lowest number.
pub proof fn lemma_earliest_in_chain(c: Seq<BlockInfo>)
    ensures
        match earliest_number(c) {
            Some(n) => chain_has_number(c, n),
            None => c.len() == 0,
        },
    decreases c.len(),
{
    if c.len() > 0 {
        lemma_earliest_in_chain(c.drop_last());
        match earliest_number(c.drop_last()) {
            None => {
                assert(c[c.len() - 1].number == c.last().number);
            }
            Some(m) => {
                if c.last().number < m {
                    assert(c[c.len() - 1].number == c.last().number);
                } else {
                    let i = choose|i: int|
                        0 <= i < c.drop_last().len() && (#[trigger] c.drop_last()[i]).number == m;
                    assert(c[i].number == m);
                }
            }
        }
    }
}

/// Filtering with pointwise-agreeing predicates gives equal sequences.
pub proof fn lemma_filter_congruence<A>(s: Seq<A>, p: spec_fn(A) -> bool, q: spec_fn(A) -> bool)
    requires
        forall|i: int| 0 <= i < s.len() ==> p(#[trigger] s[i]) == q(s[i]),
    ensures
        s.filter(p) == s.filter(q),
    decreases s.len(),
{
    reveal(Seq::filter);
    if s.len() > 0 {
        assert(forall|i: int|
            0 <= i < s.drop_last().len() ==> p(#[trigger] s.drop_last()[i]) == q(s.drop_last()[i]));
        lemma_filter_congruence(s.drop_last(), p, q);
        assert(p(s.last()) == q(s.last()));
    }
}

/// A filter over a sequence whose elements all fail the predicate is empty.
pub proof fn lemma_filter_all_false<A>(s: Seq<A>, p: spec_fn(A) -> bool)
    requires
        forall|i: int| 0 <= i < s.len() ==> !p(#[trigger] s[i]),
    ensures
        s.filter(p).len() == 0,
    decreases s.len(),
{
    reveal(Seq::filter);
    if s.len() > 0 {
        assert(forall|i: int| 0 <= i < s.drop_last().len() ==> !p(#[trigger] s.drop_last()[i]));
        lemma_filter_all_false(s.drop_last(), p);
    }
}

/// The indexed store: the chain projection and the stored receipts in
/// store-native order.
#[derive(Debug)]
pub struct Store {
    pub blocks: Vec<BlockInfo>,
    pub receipts: Vec<StoredTransactionReceipt>,
}

impl View for Store {
    type V = StoreModel;

    open spec fn view(&self) -> StoreModel {
        StoreModel { chain: self.blocks@, receipts: stored_receipts_view(self.receipts@) }
    }
}

impl Store {
    /// An empty projection: no blocks, no receipts, trivially well formed.
    pub fn new() -> (s: Store)
        ensures
            s@.chain.len() == 0,
            s@.receipts.len() == 0,
            wf_store(s@),
    {
        Store { blocks: Vec::new(), receipts: Vec::new() }
    }

    /// Whether some indexed block carries the given number.
    pub fn has_block_number(&self, n: u64) -> (b: bool)
        ensures
            b == chain_has_number(self@.chain, n),
    {
        let mut i: usize = 0;
        while i < self.blocks.len()
            invariant
                i <= self.blocks.len(),
                forall|j: int| 0 <= j < i ==> (#[trigger] self.blocks@[j]).number != n,
            decreases self.blocks.len() - i,
        {
            if self.blocks[i].number == n {
                return true;
            }
            i += 1;
        }
        false
    }

    /// Whether some indexed block carries the given hash.
    pub fn has_block_hash(&self, h: &B256) -> (b: bool)
        ensures
            b == chain_has_hash(self@.chain, *h),
    {
        let mut i: usize = 0;
        while i < self.blocks.len()
            invariant
                i <= self.blocks.len(),
                forall|j: int| 0 <= j < i ==> (#[trigger] self.blocks@[j]).hash != *h,
            decreases self.blocks.len() - i,
        {
            if self.blocks[i].hash == *h {
                return true;
            }
            i += 1;
        }
        false
    }

    /// The store's existence predicate: whether the block a resolved
    /// reference points at has been indexed.
    pub fn block_exists(&self, reference: &CanonicalBlockReference) -> (b: bool)
        ensures
            b == ref_exists(self@.chain, *reference),
    {
        match reference {
            CanonicalBlockReference::ByNumber(n) => self.has_block_number(*n),
            CanonicalBlockReference::ByHash(h) => self.has_block_hash(h),
        }
    }

    /// Resolves a symbolic tag to a block number against the current
    /// chain state; `None` when nothing has been indexed yet.
    pub fn resolve_tag(&self, tag: BlockTag) -> (r: Option<u64>)
        ensures
            r == spec_resolve_tag(self@.chain, tag),
    {
        let earliest = matches!(tag, BlockTag::Earliest);
        let mut best: Option<u64> = None;
        let mut i: usize = 0;
        while i < self.blocks.len()
            invariant
                i <= self.blocks.len(),
                earliest ==> best == earliest_number(self@.chain.take(i as int)),
                !earliest ==> best == latest_number(self@.chain.take(i as int)),
            decreases self.blocks.len() - i,
        {
            let n = self.blocks[i].number;
            proof {
                assert(self@.chain.take(i + 1 as int).drop_last() =~= self@.chain.take(i as int));
                assert(self@.chain.take(i + 1 as int).last() == self@.chain[i as int]);
            }
            best = match best {
                None => Some(n),
                Some(m) => {
                    if earliest {
                        Some(if n < m { n } else { m })
                    } else {
                        Some(if n > m { n } else { m })
                    }
                }
            };
            i += 1;
        }
        proof {
            assert(self@.chain.take(self.blocks@.len() as int) =~= self@.chain);
        }
        best
    }

    /// Adds a block to the projection. The block is refused — and the
    /// store left unchanged — when its number or its hash is already
    /// indexed, so the chain invariant is kept.
    pub fn add_block(&mut self, number: u64, hash: B256) -> (added: bool)
        ensures
            added == !(chain_has_number(old(self)@.chain, number) || chain_has_hash(
                old(self)@.chain,
                hash,
            )),
            added ==> final(self)@.chain == old(self)@.chain.push(BlockInfo { number, hash }),
            !added ==> final(self)@.chain == old(self)@.chain,
            final(self)@.receipts == old(self)@.receipts,
            wf_store(old(self)@) ==> wf_store(final(self)@),
    {
        if self.has_block_number(number) || self.has_block_hash(&hash) {
            return false;
        }
        let ghost old_model = self@;
        self.blocks.push(BlockInfo { number, hash });
        proof {
            let c = self@.chain;
            assert(self@.receipts =~= old_model.receipts);
            if wf_store(old_model) {
                assert forall|i: int, j: int|
                    0 <= i < j < c.len() implies (#[trigger] c[i]).number != (#[trigger] c[j]).number
                    && c[i].hash != c[j].hash by {
                    if j == c.len() - 1 {
                        assert(!chain_has_number(old_model.chain, number));
                        assert(!chain_has_hash(old_model.chain, hash));
                        assert(old_model.chain[i] == c[i]);
                    }
                }
                assert forall|i: int| 0 <= i < self@.receipts.len() implies wf_receipt(
                    #[trigger] self@.receipts[i],
                ) && receipt_consistent(c, self@.receipts[i]) by {
                    assert(self@.receipts[i] == old_model.receipts[i]);
                    assert(wf_receipt(old_model.receipts[i]));
                    assert(receipt_consistent(old_model.chain, old_model.receipts[i]));
                    let k = choose|k: int|
                        0 <= k < old_model.chain.len() && (#[trigger] old_model.chain[k]).number
                            == old_model.receipts[i].block_number && old_model.chain[k].hash
                            == old_model.receipts[i].block_hash;
                    assert(c[k] == old_model.chain[k]);
                }
                assert forall|i: int, j: int|
                    0 <= i < j < self@.receipts.len() implies (
                #[trigger] self@.receipts[i]).transaction_hash
                    != (#[trigger] self@.receipts[j]).transaction_hash && (
                self@.receipts[i].block_number == self@.receipts[j].block_number
                    ==> self@.receipts[i].transaction_index
                    < self@.receipts[j].transaction_index) by {
                    assert(self@.receipts[i] == old_model.receipts[i]);
                    assert(self@.receipts[j] == old_model.receipts[j]);
                }
                assert(wf_store(self@));
            }
        }
        true
    }

    /// Whether a receipt may be appended: its back-reference names an
    /// indexed block consistently, its transaction hash is new, and its
    /// transaction index lies above every indexed receipt of its block.
    pub open spec fn can_append(m: StoreModel, r: ReceiptModel) -> bool {
        &&& receipt_consistent(m.chain, r)
        &&& forall|i: int|
            0 <= i < m.receipts.len() ==> (#[trigger] m.receipts[i]).transaction_hash
                != r.transaction_hash && (m.receipts[i].block_number == r.block_number
                ==> m.receipts[i].transaction_index < r.transaction_index)
    }

    /// Appends a stored receipt to the projection. The record is refused —
    /// and the store left unchanged — unless it back-references an indexed
    /// block consistently, carries a new transaction hash, and extends its
    /// block's receipts in ascending transaction-index order.
    pub fn add_receipt(&mut self, r: StoredTransactionReceipt) -> (added: bool)
        requires
            wf_store(old(self)@),
            wf_receipt(r@),
        ensures
            added == Self::can_append(old(self)@, r@),
            added ==> final(self)@.receipts == old(self)@.receipts.push(r@),
            !added ==> final(self)@.receipts == old(self)@.receipts,
            final(self)@.chain == old(self)@.chain,
            wf_store(final(self)@),
    {
        // Consistency of the back-reference: one block carries both the
        // number and the hash the receipt names.
        let mut consistent = false;
        let mut i: usize = 0;
        while i < self.blocks.len()
            invariant
                i <= self.blocks.len(),
                consistent == exists|j: int|
                    0 <= j < i && (#[trigger] self.blocks@[j]).number == r@.block_number
                        && self.blocks@[j].hash == r@.block_hash,
            decreases self.blocks.len() - i,
        {
            if self.blocks[i].number == r.block_number && self.blocks[i].hash == r.block_hash {
                consistent = true;
            }
            i += 1;
        }
        if !consistent {
            return false;
        }
        // The transaction hash must be new, and the index must extend the
        // block's receipts in ascending order.
        let mut ok = true;
        let mut k: usize = 0;
        while k < self.receipts.len()
            invariant
                k <= self.receipts.len(),
                ok == forall|j: int|
                    0 <= j < k ==> (#[trigger] self@.receipts[j]).transaction_hash
                        != r@.transaction_hash && (self@.receipts[j].block_number == r@.block_number
                        ==> self@.receipts[j].transaction_index < r@.transaction_index),
            decreases self.receipts.len() - k,
        {
            proof {
                assert(self@.receipts[k as int] == self.receipts@[k as int]@);
            }
            let hash_clash = self.receipts[k].transaction_hash == r.transaction_hash;
            let order_clash = self.receipts[k].block_number == r.block_number
                && self.receipts[k].transaction_index >= r.transaction_index;
            if hash_clash || order_clash {
                ok = false;
            }
            k += 1;
        }
        if !ok {
            return false;
        }
        let ghost old_model = self@;
        proof {
            assert(Self::can_append(old_model, r@));
        }
        self.receipts.push(r);
        proof {
            assert(stored_receipts_view(self.receipts@) =~= old_model.receipts.push(r@));
            let rs = self@.receipts;
            assert forall|i2: int| 0 <= i2 < rs.len() implies wf_receipt(#[trigger] rs[i2])
                && receipt_consistent(self@.chain, rs[i2]) by {
                if i2 < rs.len() - 1 {
                    assert(rs[i2] == old_model.receipts[i2]);
                } else {
                    assert(rs[i2] == r@);
                }
            }
            assert forall|i2: int, j2: int|
                0 <= i2 < j2 < rs.len() implies (#[trigger] rs[i2]).transaction_hash
                != (#[trigger] rs[j2]).transaction_hash && (rs[i2].block_number
                == rs[j2].block_number ==> rs[i2].transaction_index < rs[j2].transaction_index) by {
                if j2 == rs.len() - 1 {
                    assert(rs[i2] == old_model.receipts[i2]);
                    assert(rs[j2] == r@);
                } else {
                    assert(rs[i2] == old_model.receipts[i2]);
                    assert(rs[j2] == old_model.receipts[j2]);
                }
            }
        }
        true
    }
    /// The "get one" operation: the first stored receipt matching the
    /// filter, or `None` when nothing matches.
    pub fn get_one_receipt(&self, f: &QueryFilter) -> (r: Option<StoredTransactionReceipt>)
        ensures
            match r {
                Some(rec) => {
                    let fl = self@.receipts.filter(|x: ReceiptModel| matches_filter(*f, x));
                    fl.len() > 0 && rec@ == fl[0]
                },
                None => self@.receipts.filter(|x: ReceiptModel| matches_filter(*f, x)).len() == 0,
            },
    {
        let ghost pred = |x: ReceiptModel| matches_filter(*f, x);
        let ghost model = self@.receipts;
        let mut i: usize = 0;
        while i < self.receipts.len()
            invariant
                i <= self.receipts.len(),
                model == stored_receipts_view(self.receipts@),
                pred == (|x: ReceiptModel| matches_filter(*f, x)),
                model.take(i as int).filter(pred).len() == 0,
            decreases self.receipts.len() - i,
        {
            proof {
                assert(model[i as int] == self.receipts@[i as int]@);
            }
            if receipt_matches(f, &self.receipts[i]) {
                let found = copy_stored_receipt(&self.receipts[i]);
                proof {
                    reveal(Seq::filter);
                    assert(model.take(i + 1 as int).drop_last() =~= model.take(i as int));
                    assert(model.take(i + 1 as int).last() == model[i as int]);
                    assert(model.take(i + 1 as int).filter(pred) =~= seq![model[i as int]]);
                    assert(model.take(i + 1 as int) + model.skip(i + 1 as int) =~= model);
                    Seq::filter_distributes_over_add(
                        model.take(i + 1 as int),
                        model.skip(i + 1 as int),
                        pred,
                    );
                    assert(model.filter(pred)[0] == model[i as int]);
                }
                return Some(found);
            }
            proof {
                reveal(Seq::filter);
                assert(model.take(i + 1 as int).drop_last() =~= model.take(i as int));
                assert(model.take(i + 1 as int).last() == model[i as int]);
            }
            i += 1;
        }
        proof {
            assert(model.take(model.len() as int) =~= model);
        }
        None
    }

    /// The "get many" operation: every stored receipt matching the
    /// filter, in store-native order.
    pub fn get_receipts(&self, f: &QueryFilter) -> (out: Vec<StoredTransactionReceipt>)
        ensures
            stored_receipts_view(out@) == self@.receipts.filter(
                |x: ReceiptModel| matches_filter(*f, x),
            ),
    {
        let ghost pred = |x: ReceiptModel| matches_filter(*f, x);
        let ghost model = self@.receipts;
        let mut out: Vec<StoredTransactionReceipt> = Vec::new();
        let mut i: usize = 0;
        while i < self.receipts.len()
            invariant
                i <= self.receipts.len(),
                model == stored_receipts_view(self.receipts@),
                pred == (|x: ReceiptModel| matches_filter(*f, x)),
                stored_receipts_view(out@) == model.take(i as int).filter(pred),
            decreases self.receipts.len() - i,
        {
            proof {
                assert(model[i as int] == self.receipts@[i as int]@);
            }
            let ghost prev = out@;
            if receipt_matches(f, &self.receipts[i]) {
                let found = copy_stored_receipt(&self.receipts[i]);
                out.push(found);
                proof {
                    assert(stored_receipts_view(out@) =~= stored_receipts_view(prev).push(
                        model[i as int],
                    ));
                }
            }
            proof {
                reveal(Seq::filter);
                assert(model.take(i + 1 as int).drop_last() =~= model.take(i as int));
                assert(model.take(i + 1 as int).last() == model[i as int]);
            }
            i += 1;
        }
        proof {
            assert(model.take(model.len() as int) =~= model);
        }
        out
    }

    /// The "get and map" operation: every stored receipt matching the
    /// filter, converted to the RPC-facing shape in-stream, in
    /// store-native order.
    pub fn get_receipts_mapped(&self, f: &QueryFilter) -> (out: Vec<TransactionReceipt>)
        ensures
            rpc_receipts_view(out@) == self@.receipts.filter(
                |x: ReceiptModel| matches_filter(*f, x),
            ),
    {
        let ghost pred = |x: ReceiptModel| matches_filter(*f, x);
        let ghost model = self@.receipts;
        let mut out: Vec<TransactionReceipt> = Vec::new();
        let mut i: usize = 0;
        while i < self.receipts.len()
            invariant
                i <= self.receipts.len(),
                model == stored_receipts_view(self.receipts@),
                pred == (|x: ReceiptModel| matches_filter(*f, x)),
                rpc_receipts_view(out@) == model.take(i as int).filter(pred),
            decreases self.receipts.len() - i,
        {
            proof {
                assert(model[i as int] == self.receipts@[i as int]@);
            }
            let ghost prev = out@;
            if receipt_matches(f, &self.receipts[i]) {
                let found = into_rpc_receipt(copy_stored_receipt(&self.receipts[i]));
                out.push(found);
                proof {
                    assert(rpc_receipts_view(out@) =~= rpc_receipts_view(prev).push(
                        model[i as int],
                    ));
                }
            }
            proof {
                reveal(Seq::filter);
                assert(model.take(i + 1 as int).drop_last() =~= model.take(i as int));
                assert(model.take(i + 1 as int).last() == model[i as int]);
            }
            i += 1;
        }
        proof {
            assert(model.take(model.len() as int) =~= model);
        }
        out
    }
}

} // verus!
