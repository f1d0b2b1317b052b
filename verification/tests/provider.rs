//! Behavioral tests of the receipt provider: addressing equivalence,
//! existence gating, the empty-versus-absent distinction, single-lookup
//! consistency, tag resolution, idempotence, and the append-only store.

use eth_receipts::filter::ReceiptFilterBuilder;
use eth_receipts::receipt::{Log, StoredTransactionReceipt};
use eth_receipts::receipts::ReceiptProvider;
use eth_receipts::store::Store;
use eth_receipts::types::{B256, BlockIdentifier, BlockTag};

fn hash(n: u64) -> B256 {
    B256::new(0, 0, 0, n)
}

fn receipt(tx: u64, block_number: u64, block_hash: B256, index: u64) -> StoredTransactionReceipt {
    StoredTransactionReceipt {
        transaction_hash: hash(tx),
        transaction_index: index,
        block_number,
        block_hash,
        tx_type: 2,
        status: true,
        cumulative_gas_used: 21000 * (index + 1),
        logs_bloom: vec![0u8; 256],
        logs: Vec::new(),
    }
}

fn populated_store() -> Store {
    let mut s = Store::new();
    assert!(s.add_block(1, hash(0x11)));
    assert!(s.add_block(2, hash(0x22)));
    assert!(s.add_block(3, hash(0x33)));
    assert!(s.add_receipt(receipt(0xa1, 1, hash(0x11), 0)));
    assert!(s.add_receipt(receipt(0xa2, 1, hash(0x11), 1)));
    assert!(s.add_receipt(receipt(0xb1, 2, hash(0x22), 0)));
    s
}

#[test]
fn addressing_equivalence_number_vs_hash() {
    let s = populated_store();
    let by_number = s.block_receipts(Some(BlockIdentifier::Number(1))).unwrap();
    let by_hash = s.block_receipts(Some(BlockIdentifier::Hash(hash(0x11)))).unwrap();
    assert_eq!(by_number, by_hash);
    assert_eq!(by_number.len(), 2);
    assert_eq!(by_number[0].transaction_hash, hash(0xa1));
    assert_eq!(by_number[1].transaction_hash, hash(0xa2));
    assert_eq!(by_number[0].transaction_index, 0);
    assert_eq!(by_number[1].transaction_index, 1);
}

#[test]
fn existence_gating_unknown_number() {
    let s = populated_store();
    assert!(s.block_receipts(Some(BlockIdentifier::Number(9))).is_none());
}

#[test]
fn existence_gating_unknown_hash() {
    let s = populated_store();
    assert!(s.block_receipts(Some(BlockIdentifier::Hash(hash(0x99)))).is_none());
}

#[test]
fn empty_vs_absent() {
    let s = populated_store();
    // Block 3 exists and holds no transactions: an empty sequence, not None.
    let by_number = s.block_receipts(Some(BlockIdentifier::Number(3))).unwrap();
    assert!(by_number.is_empty());
    let by_hash = s.block_receipts(Some(BlockIdentifier::Hash(hash(0x33)))).unwrap();
    assert!(by_hash.is_empty());
}

#[test]
fn single_lookup_consistency() {
    let s = populated_store();
    let found = s.transaction_receipt(hash(0xb1)).unwrap();
    assert_eq!(found.transaction_hash, hash(0xb1));
    assert_eq!(found.block_number, 2);
    assert!(s.transaction_receipt(hash(0xdead)).is_none());
}

#[test]
fn default_identifier_is_latest() {
    let s = populated_store();
    let default_result = s.block_receipts(None).unwrap();
    let latest = s.block_receipts(Some(BlockIdentifier::Tag(BlockTag::Latest))).unwrap();
    let by_number = s.block_receipts(Some(BlockIdentifier::Number(3))).unwrap();
    assert_eq!(default_result, latest);
    assert_eq!(latest, by_number);
}

#[test]
fn tag_resolution() {
    let s = populated_store();
    assert_eq!(s.resolve_tag(BlockTag::Latest), Some(3));
    assert_eq!(s.resolve_tag(BlockTag::Earliest), Some(1));
    assert_eq!(s.resolve_tag(BlockTag::Pending), Some(3));
    assert_eq!(s.resolve_tag(BlockTag::Safe), Some(3));
    assert_eq!(s.resolve_tag(BlockTag::Finalized), Some(3));
    let earliest = s.block_receipts(Some(BlockIdentifier::Tag(BlockTag::Earliest))).unwrap();
    let block_one = s.block_receipts(Some(BlockIdentifier::Number(1))).unwrap();
    assert_eq!(earliest, block_one);
}

#[test]
fn tag_on_empty_store_is_none() {
    let s = Store::new();
    assert_eq!(s.resolve_tag(BlockTag::Latest), None);
    assert!(s.block_receipts(None).is_none());
    assert!(s.block_receipts(Some(BlockIdentifier::Tag(BlockTag::Earliest))).is_none());
}

#[test]
fn idempotence_of_repeated_calls() {
    let s = populated_store();
    let first = s.block_receipts(Some(BlockIdentifier::Number(1)));
    let second = s.block_receipts(Some(BlockIdentifier::Number(1)));
    assert_eq!(first, second);
    let one = s.transaction_receipt(hash(0xa1));
    let two = s.transaction_receipt(hash(0xa1));
    assert_eq!(one, two);
}

#[test]
fn store_rejects_duplicate_blocks() {
    let mut s = populated_store();
    assert!(!s.add_block(1, hash(0x44)));
    assert!(!s.add_block(4, hash(0x11)));
    assert!(s.add_block(4, hash(0x44)));
}

#[test]
fn store_rejects_bad_receipts() {
    let mut s = populated_store();
    // Duplicate transaction hash.
    assert!(!s.add_receipt(receipt(0xa1, 2, hash(0x22), 1)));
    // Back-reference to a block that is not indexed.
    assert!(!s.add_receipt(receipt(0xcc, 9, hash(0x99), 0)));
    // Number and hash of different blocks.
    assert!(!s.add_receipt(receipt(0xcc, 1, hash(0x22), 2)));
    // Transaction index not above the indexed receipts of the block.
    assert!(!s.add_receipt(receipt(0xcc, 1, hash(0x11), 1)));
    // A consistent, fresh, in-order record is taken.
    assert!(s.add_receipt(receipt(0xcc, 1, hash(0x11), 2)));
}

#[test]
fn filter_builder_records_selectors() {
    let h = hash(0x77);
    let f = ReceiptFilterBuilder::default().with_tx_hash(&h).build();
    assert_eq!(f.tx_hash, Some(h));
    assert_eq!(f.block_number, None);
    assert_eq!(f.block_hash, None);
    assert_eq!(f.block_range, None);
    let g = ReceiptFilterBuilder::default().with_block_number(5).build();
    assert_eq!(g.block_number, Some(5));
    let k = ReceiptFilterBuilder::default().with_block_hash(&h).build();
    assert_eq!(k.block_hash, Some(h));
    let r = ReceiptFilterBuilder::default().with_block_range(2, 7).build();
    assert_eq!(r.block_range.unwrap().lo, 2);
    assert_eq!(r.block_range.unwrap().hi, 7);
}

#[test]
fn conversion_is_lossless() {
    let mut stored = receipt(0xe1, 2, hash(0x22), 5);
    stored.logs = vec![Log {
        address: vec![7u8; 20],
        topics: vec![hash(0xf1), hash(0xf2)],
        data: vec![1, 2, 3],
    }];
    let rpc = eth_receipts::receipt::into_rpc_receipt(stored.clone());
    assert_eq!(rpc.transaction_hash, stored.transaction_hash);
    assert_eq!(rpc.transaction_index, stored.transaction_index);
    assert_eq!(rpc.block_number, stored.block_number);
    assert_eq!(rpc.block_hash, stored.block_hash);
    assert_eq!(rpc.tx_type, stored.tx_type);
    assert_eq!(rpc.status, stored.status);
    assert_eq!(rpc.cumulative_gas_used, stored.cumulative_gas_used);
    assert_eq!(rpc.logs_bloom, stored.logs_bloom);
    assert_eq!(rpc.logs, stored.logs);
}
