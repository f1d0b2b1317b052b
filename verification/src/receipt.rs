//! The stored projection of a transaction receipt, the RPC-facing receipt
//! shape, their shared mathematical model, and the lossless conversion
//! between the two representations.

use vstd::prelude::*;

use crate::types::B256;

verus! {

/// An event emitted by a transaction, as indexed and as exposed over RPC.
#[derive(Clone, Debug, PartialEq)]
pub struct Log {
    /// The 20-byte address of the account that emitted the event.
    pub address: Vec<u8>,
    /// The indexed topics, each a 32-byte word.
    pub topics: Vec<B256>,
    /// The unindexed payload bytes.
    pub data: Vec<u8>,
}

/// The mathematical value of a [`Log`].
#[verifier::ext_equal]
pub struct LogModel {
    pub address: Seq<u8>,
    pub topics: Seq<B256>,
    pub data: Seq<u8>,
}

impl View for Log {
    type V = LogModel;

    open spec fn view(&self) -> LogModel {
        LogModel { address: self.address@, topics: self.topics@, data: self.data@ }
    }
}

/// A log is well formed when its address is exactly 20 bytes long.
pub open spec fn wf_log(l: LogModel) -> bool {
    l.address.len() == 20
}

/// The mathematical value shared by the stored and the RPC-facing receipt
/// shapes. The conversion between the two is lossless, so both views land
/// in this one model and equality of models is equality of content.
#[verifier::ext_equal]
pub struct ReceiptModel {
    pub transaction_hash: B256,
    pub transaction_index: u64,
    pub block_number: u64,
    pub block_hash: B256,
    /// The typed-transaction envelope type: 0 for legacy, up to 3.
    pub tx_type: u8,
    /// True when the transaction succeeded.
    pub status: bool,
    pub cumulative_gas_used: u64,
    /// The 256-byte bloom filter over the receipt's logs.
    pub logs_bloom: Seq<u8>,
    pub logs: Seq<LogModel>,
}

/// A receipt is well formed when its envelope type is known, its bloom is
/// exactly 256 bytes, and each of its logs is well formed.
pub open spec fn wf_receipt(r: ReceiptModel) -> bool {
    &&& r.tx_type <= 3
    &&& r.logs_bloom.len() == 256
    &&& forall|i: int| 0 <= i < r.logs.len() ==> wf_log(#[trigger] r.logs[i])
}

/// The model of a sequence of logs.
pub open spec fn logs_view(logs: Seq<Log>) -> Seq<LogModel> {
    logs.map_values(|l: Log| l@)
}

/// The compact persisted projection written by the indexer, keyed by
/// transaction hash and carrying a back-reference to its block and its
/// position inside it. The core only reads these records.
#[derive(Clone, Debug, PartialEq)]
pub struct StoredTransactionReceipt {
    pub transaction_hash: B256,
    pub transaction_index: u64,
    pub block_number: u64,
    pub block_hash: B256,
    pub tx_type: u8,
    pub status: bool,
    pub cumulative_gas_used: u64,
    pub logs_bloom: Vec<u8>,
    pub logs: Vec<Log>,
}

impl View for StoredTransactionReceipt {
    type V = ReceiptModel;

    open spec fn view(&self) -> ReceiptModel {
        ReceiptModel {
            transaction_hash: self.transaction_hash,
            transaction_index: self.transaction_index,
            block_number: self.block_number,
            block_hash: self.block_hash,
            tx_type: self.tx_type,
            status: self.status,
            cumulative_gas_used: self.cumulative_gas_used,
            logs_bloom: self.logs_bloom@,
            logs: logs_view(self.logs@),
        }
    }
}

/// The canonical Ethereum-shaped receipt returned over RPC, derived from
/// a stored record by lossless conversion.
#[derive(Clone, Debug, PartialEq)]
pub struct TransactionReceipt {
    pub transaction_hash: B256,
    pub transaction_index: u64,
    pub block_number: u64,
    pub block_hash: B256,
    pub tx_type: u8,
    pub status: bool,
    pub cumulative_gas_used: u64,
    pub logs_bloom: Vec<u8>,
    pub logs: Vec<Log>,
}

impl View for TransactionReceipt {
    type V = ReceiptModel;

    open spec fn view(&self) -> ReceiptModel {
        ReceiptModel {
            transaction_hash: self.transaction_hash,
            transaction_index: self.transaction_index,
            block_number: self.block_number,
            block_hash: self.block_hash,
            tx_type: self.tx_type,
            status: self.status,
            cumulative_gas_used: self.cumulative_gas_used,
            logs_bloom: self.logs_bloom@,
            logs: logs_view(self.logs@),
        }
    }
}

/// Lossless conversion from the stored projection to the RPC-facing
/// receipt: the converted receipt has exactly the content of the stored
/// record, no field dropped or altered.
pub fn into_rpc_receipt(r: StoredTransactionReceipt) -> (out: TransactionReceipt)
    ensures
        out@ == r@,
{
    TransactionReceipt {
        transaction_hash: r.transaction_hash,
        transaction_index: r.transaction_index,
        block_number: r.block_number,
        block_hash: r.block_hash,
        tx_type: r.tx_type,
        status: r.status,
        cumulative_gas_used: r.cumulative_gas_used,
        logs_bloom: r.logs_bloom,
        logs: r.logs,
    }
}

/// Copies a byte vector element by element.
fn copy_bytes(v: &Vec<u8>) -> (r: Vec<u8>)
    ensures
        r@ == v@,
{
    let mut r: Vec<u8> = Vec::new();
    let mut i: usize = 0;
    while i < v.len()
        invariant
            i <= v.len(),
            r@ == v@.take(i as int),
        decreases v.len() - i,
    {
        r.push(v[i]);
        assert(v@.take(i as int).push(v@[i as int]) =~= v@.take(i + 1 as int));
        i += 1;
    }
    assert(v@.take(v@.len() as int) =~= v@);
    r
}

/// Copies a vector of 32-byte topics element by element.
fn copy_topics(v: &Vec<B256>) -> (r: Vec<B256>)
    ensures
        r@ == v@,
{
    let mut r: Vec<B256> = Vec::new();
    let mut i: usize = 0;
    while i < v.len()
        invariant
            i <= v.len(),
            r@ == v@.take(i as int),
        decreases v.len() - i,
    {
        r.push(v[i]);
        assert(v@.take(i as int).push(v@[i as int]) =~= v@.take(i + 1 as int));
        i += 1;
    }
    assert(v@.take(v@.len() as int) =~= v@);
    r
}

/// Copies a log, preserving its content.
fn copy_log(l: &Log) -> (r: Log)
    ensures
        r@ == l@,
{
    Log { address: copy_bytes(&l.address), topics: copy_topics(&l.topics), data: copy_bytes(&l.data) }
}

/// Copies a vector of logs, preserving its content.
fn copy_logs(v: &Vec<Log>) -> (r: Vec<Log>)
    ensures
        logs_view(r@) == logs_view(v@),
{
    let mut r: Vec<Log> = Vec::new();
    let mut i: usize = 0;
    while i < v.len()
        invariant
            i <= v.len(),
            r@.len() == i,
            forall|j: int| 0 <= j < i ==> #[trigger] r@[j]@ == v@[j]@,
        decreases v.len() - i,
    {
        let l = copy_log(&v[i]);
        r.push(l);
        i += 1;
    }
    assert(logs_view(r@) =~= logs_view(v@));
    r
}

/// Copies a stored receipt, preserving its content.
pub fn copy_stored_receipt(r: &StoredTransactionReceipt) -> (c: StoredTransactionReceipt)
    ensures
        c@ == r@,
{
    StoredTransactionReceipt {
        transaction_hash: r.transaction_hash,
        transaction_index: r.transaction_index,
        block_number: r.block_number,
        block_hash: r.block_hash,
        tx_type: r.tx_type,
        status: r.status,
        cumulative_gas_used: r.cumulative_gas_used,
        logs_bloom: copy_bytes(&r.logs_bloom),
        logs: copy_logs(&r.logs),
    }
}

} // verus!
