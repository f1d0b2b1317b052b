//! The retrieval core's guarantees, stated and proved over the same spec
//! functions that the providers' contracts use: addressing-mode
//! equivalence, existence gating, the empty-versus-absent distinction,
//! single-lookup consistency, and idempotence against an unchanged store.

use vstd::prelude::*;

use crate::receipt::ReceiptModel;
use crate::receipts::{spec_block_receipts, spec_transaction_receipt};
use crate::resolver::spec_resolve;
use crate::store::{
    chain_has_hash, chain_has_number, lemma_filter_all_false, lemma_filter_congruence,
    receipt_consistent, wf_store, StoreModel,
};
use crate::types::{BlockIdentifier, BlockInfo, CanonicalBlockReference};

verus! {

/// In a well-formed store, a receipt back-references a block of the chain
/// by number exactly when it back-references it by hash.
proof fn lemma_consistent_addressing(m: StoreModel, b: BlockInfo, i: int)
    requires
        wf_store(m),
        m.chain.contains(b),
        0 <= i < m.receipts.len(),
    ensures
        (m.receipts[i].block_number == b.number) == (m.receipts[i].block_hash == b.hash),
{
    let bi = choose|k: int| 0 <= k < m.chain.len() && m.chain[k] == b;
    let r = m.receipts[i];
    let k = choose|k: int|
        0 <= k < m.chain.len() && (#[trigger] m.chain[k]).number == r.block_number
            && m.chain[k].hash == r.block_hash;
    if r.block_number == b.number {
        // Two chain entries with one number are one entry.
        assert(m.chain[k].number == m.chain[bi].number);
        assert(k == bi);
    }
    if r.block_hash == b.hash {
        // Two chain entries with one hash are one entry.
        assert(m.chain[k].hash == m.chain[bi].hash);
        assert(k == bi);
    }
}

/// Addressing equivalence: for every block of a well-formed store, the
/// receipts of the block queried by its exact number and queried by its
/// hash are the same sequence — same elements, same order.
pub proof fn lemma_addressing_equivalence(m: StoreModel, b: BlockInfo)
    requires
        wf_store(m),
        m.chain.contains(b),
    ensures
        spec_block_receipts(m, Some(BlockIdentifier::Number(b.number))) == spec_block_receipts(
            m,
            Some(BlockIdentifier::Hash(b.hash)),
        ),
        spec_block_receipts(m, Some(BlockIdentifier::Number(b.number))) is Some,
{
    let bi = choose|k: int| 0 <= k < m.chain.len() && m.chain[k] == b;
    assert(chain_has_number(m.chain, b.number));
    assert(chain_has_hash(m.chain, b.hash));
    assert forall|i: int| 0 <= i < m.receipts.len() implies ((#[trigger] m.receipts[i]).block_number
        == b.number) == (m.receipts[i].block_hash == b.hash) by {
        lemma_consistent_addressing(m, b, i);
    }
    lemma_filter_congruence(
        m.receipts,
        |r: ReceiptModel| r.block_number == b.number,
        |r: ReceiptModel| r.block_hash == b.hash,
    );
}

/// Existence gating: an identifier that names no existing block — a
/// number the chain does not carry, or a hash the chain does not carry —
/// yields `None`: not an error, and not an empty sequence.
pub proof fn lemma_existence_gating(m: StoreModel, id: BlockIdentifier)
    requires
        match id {
            BlockIdentifier::Number(n) => !chain_has_number(m.chain, n),
            BlockIdentifier::Hash(h) => !chain_has_hash(m.chain, h),
            BlockIdentifier::Tag(t) => false,
        },
    ensures
        spec_block_receipts(m, Some(id)) == None::<Seq<ReceiptModel>>,
{
}

/// Empty versus absent: a block that exists but has no receipts yields
/// `Some` of the empty sequence, distinct from the `None` of an unknown
/// block.
pub proof fn lemma_empty_vs_absent(m: StoreModel, b: BlockInfo)
    requires
        wf_store(m),
        m.chain.contains(b),
        forall|i: int| 0 <= i < m.receipts.len() ==> (#[trigger] m.receipts[i]).block_number
            != b.number,
    ensures
        spec_block_receipts(m, Some(BlockIdentifier::Number(b.number))) == Some(
            Seq::<ReceiptModel>::empty(),
        ),
        spec_block_receipts(m, Some(BlockIdentifier::Hash(b.hash))) == Some(
            Seq::<ReceiptModel>::empty(),
        ),
{
    let bi = choose|k: int| 0 <= k < m.chain.len() && m.chain[k] == b;
    assert(chain_has_number(m.chain, b.number));
    assert(chain_has_hash(m.chain, b.hash));
    lemma_filter_all_false(m.receipts, |r: ReceiptModel| r.block_number == b.number);
    lemma_addressing_equivalence(m, b);
    assert(spec_block_receipts(m, Some(BlockIdentifier::Number(b.number)))->Some_0 =~= Seq::<
        ReceiptModel,
    >::empty());
}

/// Single-lookup consistency: a receipt returned for a transaction hash
/// carries exactly that hash and is a stored receipt; `None` comes back
/// if and only if no stored receipt carries the hash.
pub proof fn lemma_single_lookup_consistency(m: StoreModel, h: crate::types::B256)
    ensures
        match spec_transaction_receipt(m, h) {
            Some(rec) => rec.transaction_hash == h && m.receipts.contains(rec),
            None => forall|i: int|
                0 <= i < m.receipts.len() ==> (#[trigger] m.receipts[i]).transaction_hash != h,
        },
{
    let pred = |r: ReceiptModel| r.transaction_hash == h;
    let fl = m.receipts.filter(pred);
    match spec_transaction_receipt(m, h) {
        Some(rec) => {
            m.receipts.lemma_filter_pred(pred, 0);
            m.receipts.lemma_filter_contains_rev(pred, rec);
        }
        None => {
            assert forall|i: int| 0 <= i < m.receipts.len() implies (
            #[trigger] m.receipts[i]).transaction_hash != h by {
                if m.receipts[i].transaction_hash == h {
                    m.receipts.lemma_filter_contains(pred, i);
                }
            }
        }
    }
}

/// Filtering keeps relative order, so the transaction-index discipline
/// of the store carries over to every filtered sequence.
proof fn lemma_filter_preserves_index_order(s: Seq<ReceiptModel>, p: spec_fn(ReceiptModel) -> bool)
    requires
        forall|i: int, j: int|
            #![trigger s[i], s[j]]
            0 <= i < j < s.len() ==> (s[i].block_number == s[j].block_number
                ==> s[i].transaction_index < s[j].transaction_index),
    ensures
        forall|i: int, j: int|
            #![trigger s.filter(p)[i], s.filter(p)[j]]
            0 <= i < j < s.filter(p).len() ==> (s.filter(p)[i].block_number
                == s.filter(p)[j].block_number ==> s.filter(p)[i].transaction_index
                < s.filter(p)[j].transaction_index),
    decreases s.len(),
{
    reveal(Seq::filter);
    if s.len() > 0 {
        let rest = s.drop_last();
        assert(forall|i: int, j: int|
            #![trigger rest[i], rest[j]]
            0 <= i < j < rest.len() ==> (rest[i].block_number == rest[j].block_number
                ==> rest[i].transaction_index < rest[j].transaction_index));
        lemma_filter_preserves_index_order(rest, p);
        let fl = s.filter(p);
        let fr = rest.filter(p);
        assert forall|i: int, j: int| 0 <= i < j < fl.len() implies ((#[trigger] fl[i]).block_number
            == (#[trigger] fl[j]).block_number ==> fl[i].transaction_index
            < fl[j].transaction_index) by {
            if p(s.last()) && j == fl.len() - 1 {
                assert(fl[j] == s.last());
                assert(fl[i] == fr[i]);
                assert(fr.contains(fr[i]));
                rest.lemma_filter_contains_rev(p, fr[i]);
                let k = choose|k: int| 0 <= k < rest.len() && rest[k] == fr[i];
                assert(s[k] == fr[i] && s[s.len() - 1] == s.last());
            } else {
                assert(fl[i] == fr[i] && fl[j] == fr[j]);
            }
        }
    }
}

/// Two stored receipts of a well-formed store that carry one block hash
/// carry one block number.
proof fn lemma_same_hash_same_number(m: StoreModel, a: ReceiptModel, b: ReceiptModel)
    requires
        wf_store(m),
        m.receipts.contains(a),
        m.receipts.contains(b),
        a.block_hash == b.block_hash,
    ensures
        a.block_number == b.block_number,
{
    let ia = choose|i: int| 0 <= i < m.receipts.len() && m.receipts[i] == a;
    let ib = choose|i: int| 0 <= i < m.receipts.len() && m.receipts[i] == b;
    assert(receipt_consistent(m.chain, a));
    assert(receipt_consistent(m.chain, b));
    let ka = choose|k: int|
        0 <= k < m.chain.len() && (#[trigger] m.chain[k]).number == a.block_number
            && m.chain[k].hash == a.block_hash;
    let kb = choose|k: int|
        0 <= k < m.chain.len() && (#[trigger] m.chain[k]).number == b.block_number
            && m.chain[k].hash == b.block_hash;
    assert(m.chain[ka].hash == m.chain[kb].hash);
    assert(ka == kb);
}

/// Ordering: the sequence a block-receipts lookup returns stands in
/// ascending transaction-index order — the store's natural order, on
/// which the raw paths' positional correspondence depends.
pub proof fn lemma_block_receipts_ordered(m: StoreModel, block_id: Option<BlockIdentifier>)
    requires
        wf_store(m),
    ensures
        match spec_block_receipts(m, block_id) {
            None => true,
            Some(rs) => forall|i: int, j: int|
                #![trigger rs[i], rs[j]]
                0 <= i < j < rs.len() ==> rs[i].transaction_index < rs[j].transaction_index,
        },
{
    match spec_block_receipts(m, block_id) {
        None => {}
        Some(rs) => {
            match crate::resolver::spec_resolve(m.chain, block_id) {
                None => {}
                Some(CanonicalBlockReference::ByNumber(n)) => {
                    let p = |r: ReceiptModel| r.block_number == n;
                    lemma_filter_preserves_index_order(m.receipts, p);
                    assert forall|i: int, j: int| 0 <= i < j < rs.len() implies (
                    #[trigger] rs[i]).transaction_index < (#[trigger] rs[j]).transaction_index by {
                        m.receipts.lemma_filter_pred(p, i);
                        m.receipts.lemma_filter_pred(p, j);
                    }
                }
                Some(CanonicalBlockReference::ByHash(h)) => {
                    let p = |r: ReceiptModel| r.block_hash == h;
                    lemma_filter_preserves_index_order(m.receipts, p);
                    assert forall|i: int, j: int| 0 <= i < j < rs.len() implies (
                    #[trigger] rs[i]).transaction_index < (#[trigger] rs[j]).transaction_index by {
                        m.receipts.lemma_filter_pred(p, i);
                        m.receipts.lemma_filter_pred(p, j);
                        assert(rs.contains(rs[i]) && rs.contains(rs[j]));
                        m.receipts.lemma_filter_contains_rev(p, rs[i]);
                        m.receipts.lemma_filter_contains_rev(p, rs[j]);
                        lemma_same_hash_same_number(m, rs[i], rs[j]);
                    }
                }
            }
        }
    }
}

/// Raw-path equivalence across addressing modes: the canonical byte
/// encodings of a block's receipts are the same sequence whether the
/// block was addressed by its number or by its hash.
pub proof fn lemma_raw_encoding_equivalence(m: StoreModel, b: BlockInfo)
    requires
        wf_store(m),
        m.chain.contains(b),
    ensures
        ({
            let by_number = spec_block_receipts(m, Some(BlockIdentifier::Number(b.number)));
            let by_hash = spec_block_receipts(m, Some(BlockIdentifier::Hash(b.hash)));
            by_number is Some && by_hash is Some && by_number->Some_0.map_values(
                |r: ReceiptModel| crate::codec::receipt_encoding(r),
            ) == by_hash->Some_0.map_values(|r: ReceiptModel| crate::codec::receipt_encoding(r))
        }),
{
    lemma_addressing_equivalence(m, b);
}

/// Idempotence: the providers' contracts pin each result to a function of
/// the store model and the request alone, so two results of identical
/// calls against an unchanged store are identical.
pub proof fn lemma_idempotence(
    m: StoreModel,
    block_id: Option<BlockIdentifier>,
    r1: Option<Seq<ReceiptModel>>,
    r2: Option<Seq<ReceiptModel>>,
)
    requires
        r1 == spec_block_receipts(m, block_id),
        r2 == spec_block_receipts(m, block_id),
    ensures
        r1 == r2,
{
}

} // verus!
