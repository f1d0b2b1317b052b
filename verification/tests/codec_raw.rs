//! Raw-path tests of the canonical encoder: exact expected bytes, and
//! decoding the encoder's output with a reference Ethereum decoder to
//! reconstruct a value field-equal to the plain lookup's result, whether
//! the block was addressed by number or by hash.

use alloy_rlp::{Decodable, Header};
use eth_receipts::codec::encode_receipt;
use eth_receipts::decode::decode_receipt_head;
use eth_receipts::receipt::{Log, StoredTransactionReceipt, TransactionReceipt};
use eth_receipts::receipts::ReceiptProvider;
use eth_receipts::store::Store;
use eth_receipts::types::{B256, BlockIdentifier};

fn hash(n: u64) -> B256 {
    B256::new(0, 0, 0, n)
}

fn b256_to_bytes(h: &B256) -> [u8; 32] {
    let mut out = [0u8; 32];
    out[0..8].copy_from_slice(&h.w0.to_be_bytes());
    out[8..16].copy_from_slice(&h.w1.to_be_bytes());
    out[16..24].copy_from_slice(&h.w2.to_be_bytes());
    out[24..32].copy_from_slice(&h.w3.to_be_bytes());
    out
}

/// A decoded reference view of one log: address, topics, data.
type RefLog = ([u8; 20], Vec<[u8; 32]>, Vec<u8>);

/// Decodes the canonical receipt bytes with the reference decoder.
fn reference_decode(bytes: &[u8]) -> (u8, u64, u64, Vec<u8>, Vec<RefLog>) {
    let mut buf: &[u8] = bytes;
    let tx_type = if buf[0] < 0xc0 {
        let t = buf[0];
        buf = &buf[1..];
        t
    } else {
        0
    };
    let outer = Header::decode(&mut buf).expect("receipt list header");
    assert!(outer.list);
    assert_eq!(outer.payload_length, buf.len());
    let status = u64::decode(&mut buf).expect("status");
    let cumulative_gas = u64::decode(&mut buf).expect("cumulative gas");
    let bloom: alloy_rlp::Bytes = Decodable::decode(&mut buf).expect("bloom");
    let logs_header = Header::decode(&mut buf).expect("logs list header");
    assert!(logs_header.list);
    assert_eq!(logs_header.payload_length, buf.len());
    let mut logs: Vec<RefLog> = Vec::new();
    while !buf.is_empty() {
        let log_header = Header::decode(&mut buf).expect("log list header");
        assert!(log_header.list);
        let address = <[u8; 20]>::decode(&mut buf).expect("address");
        let topics_header = Header::decode(&mut buf).expect("topics list header");
        assert!(topics_header.list);
        let mut remaining = topics_header.payload_length;
        let mut topics: Vec<[u8; 32]> = Vec::new();
        while remaining > 0 {
            let before = buf.len();
            topics.push(<[u8; 32]>::decode(&mut buf).expect("topic"));
            remaining -= before - buf.len();
        }
        let data: alloy_rlp::Bytes = Decodable::decode(&mut buf).expect("log data");
        logs.push((address, topics, data.to_vec()));
    }
    (tx_type, status, cumulative_gas, bloom.to_vec(), logs)
}

fn assert_matches_reference(receipt: &TransactionReceipt) {
    let bytes = encode_receipt(receipt);
    let (tx_type, status, gas, bloom, logs) = reference_decode(&bytes);
    assert_eq!(tx_type, receipt.tx_type);
    assert_eq!(status, if receipt.status { 1 } else { 0 });
    assert_eq!(gas, receipt.cumulative_gas_used);
    assert_eq!(bloom, receipt.logs_bloom);
    assert_eq!(logs.len(), receipt.logs.len());
    for (decoded, expected) in logs.iter().zip(receipt.logs.iter()) {
        assert_eq!(&decoded.0[..], &expected.address[..]);
        assert_eq!(decoded.1.len(), expected.topics.len());
        for (dt, ot) in decoded.1.iter().zip(expected.topics.iter()) {
            assert_eq!(*dt, b256_to_bytes(ot));
        }
        assert_eq!(decoded.2, expected.data);
    }
}

fn eip1559_receipt() -> StoredTransactionReceipt {
    let mut bloom = vec![0u8; 256];
    bloom[17] = 0x40;
    bloom[255] = 0x01;
    StoredTransactionReceipt {
        transaction_hash: hash(0xaaaa),
        transaction_index: 0,
        block_number: 7,
        block_hash: hash(0x7777),
        tx_type: 2,
        status: true,
        cumulative_gas_used: 0x5208,
        logs_bloom: bloom,
        logs: vec![Log {
            address: vec![0xde; 20],
            topics: vec![hash(0xf1), hash(0xf2)],
            data: vec![0x01, 0x02, 0x03, 0x04],
        }],
    }
}

#[test]
fn raw_receipt_round_trips_through_reference_decoder() {
    let mut s = Store::new();
    assert!(s.add_block(7, hash(0x7777)));
    assert!(s.add_receipt(eip1559_receipt()));

    // The plain lookup by transaction hash.
    let receipt = s.transaction_receipt(hash(0xaaaa)).unwrap();
    assert_eq!(receipt.tx_type, 2);
    assert_eq!(receipt.status, true);
    assert_eq!(receipt.cumulative_gas_used, 0x5208);
    assert_eq!(receipt.logs_bloom[17], 0x40);

    // Raw bytes decode back to the plain lookup's value.
    assert_matches_reference(&receipt);

    // The same holds via both block addressing modes, which agree.
    let by_number = s.block_receipts(Some(BlockIdentifier::Number(7))).unwrap();
    let by_hash = s.block_receipts(Some(BlockIdentifier::Hash(hash(0x7777)))).unwrap();
    assert_eq!(by_number, by_hash);
    assert_eq!(by_number.len(), 1);
    assert_eq!(by_number[0], receipt);
    assert_eq!(encode_receipt(&by_number[0]), encode_receipt(&by_hash[0]));
    assert_matches_reference(&by_number[0]);
}

#[test]
fn exact_bytes_of_legacy_receipt_without_logs() {
    let receipt = TransactionReceipt {
        transaction_hash: hash(1),
        transaction_index: 0,
        block_number: 1,
        block_hash: hash(2),
        tx_type: 0,
        status: true,
        cumulative_gas_used: 0x5208,
        logs_bloom: vec![0u8; 256],
        logs: Vec::new(),
    };
    let bytes = encode_receipt(&receipt);
    let mut expected: Vec<u8> = Vec::new();
    // List header: payload of 264 bytes.
    expected.extend_from_slice(&[0xf9, 0x01, 0x08]);
    // Status: the number one.
    expected.push(0x01);
    // Cumulative gas: 0x5208 as a two-byte string.
    expected.extend_from_slice(&[0x82, 0x52, 0x08]);
    // Bloom: a 256-byte string.
    expected.extend_from_slice(&[0xb9, 0x01, 0x00]);
    expected.extend_from_slice(&[0u8; 256]);
    // Logs: the empty list.
    expected.push(0xc0);
    assert_eq!(bytes, expected);
}

#[test]
fn exact_bytes_of_typed_receipt_with_failed_status() {
    let receipt = TransactionReceipt {
        transaction_hash: hash(1),
        transaction_index: 0,
        block_number: 1,
        block_hash: hash(2),
        tx_type: 2,
        status: false,
        cumulative_gas_used: 0,
        logs_bloom: vec![0u8; 256],
        logs: Vec::new(),
    };
    let bytes = encode_receipt(&receipt);
    let mut expected: Vec<u8> = Vec::new();
    // Typed envelope byte.
    expected.push(0x02);
    // List header: payload of 262 bytes.
    expected.extend_from_slice(&[0xf9, 0x01, 0x06]);
    // Status: the number zero, the empty string.
    expected.push(0x80);
    // Cumulative gas: zero, the empty string.
    expected.push(0x80);
    // Bloom: a 256-byte string.
    expected.extend_from_slice(&[0xb9, 0x01, 0x00]);
    expected.extend_from_slice(&[0u8; 256]);
    // Logs: the empty list.
    expected.push(0xc0);
    assert_eq!(bytes, expected);
}

#[test]
fn decoded_head_matches_the_plain_lookup() {
    let mut s = Store::new();
    assert!(s.add_block(7, hash(0x7777)));
    assert!(s.add_receipt(eip1559_receipt()));
    let receipt = s.transaction_receipt(hash(0xaaaa)).unwrap();
    let bytes = encode_receipt(&receipt);
    let (tx_type, status, gas) = decode_receipt_head(&bytes).unwrap();
    assert_eq!(tx_type, receipt.tx_type);
    assert_eq!(status, receipt.status);
    assert_eq!(gas, receipt.cumulative_gas_used);

    // A legacy receipt with a failed status decodes the same way.
    let legacy = TransactionReceipt {
        transaction_hash: hash(3),
        transaction_index: 0,
        block_number: 1,
        block_hash: hash(4),
        tx_type: 0,
        status: false,
        cumulative_gas_used: 1_000_000,
        logs_bloom: vec![0u8; 256],
        logs: Vec::new(),
    };
    let (tx_type, status, gas) = decode_receipt_head(&encode_receipt(&legacy)).unwrap();
    assert_eq!(tx_type, 0);
    assert_eq!(status, false);
    assert_eq!(gas, 1_000_000);

    // Garbage is not a receipt encoding.
    assert!(decode_receipt_head(&Vec::new()).is_none());
}

#[test]
fn reference_decoder_agrees_on_boundary_lengths() {
    // Data of exactly 55 bytes stays in the short form; 56 takes the
    // long form; both must decode back unchanged.
    for data_len in [0usize, 1, 55, 56, 300] {
        let receipt = TransactionReceipt {
            transaction_hash: hash(9),
            transaction_index: 3,
            block_number: 4,
            block_hash: hash(10),
            tx_type: 1,
            status: true,
            cumulative_gas_used: u64::MAX,
            logs_bloom: vec![0xff; 256],
            logs: vec![Log {
                address: vec![0x11; 20],
                topics: Vec::new(),
                data: vec![0xab; data_len],
            }],
        };
        assert_matches_reference(&receipt);
    }
}

#[test]
fn reference_decoder_agrees_on_single_low_byte_data() {
    // A one-byte string below 0x80 encodes as the byte itself.
    let receipt = TransactionReceipt {
        transaction_hash: hash(5),
        transaction_index: 0,
        block_number: 2,
        block_hash: hash(6),
        tx_type: 3,
        status: true,
        cumulative_gas_used: 0x7f,
        logs_bloom: vec![0u8; 256],
        logs: vec![Log { address: vec![0u8; 20], topics: vec![hash(1)], data: vec![0x7f] }],
    };
    assert_matches_reference(&receipt);
}
