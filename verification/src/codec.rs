//! The canonical encoder for receipts: the exact byte encoding used by
//! the raw debug retrieval paths. A receipt is encoded as the canonical
//! Ethereum receipt structure — status, cumulative gas, logs bloom, logs
//! — as a recursive length-prefixed list of big-endian byte strings,
//! wrapped for non-legacy transactions in the typed envelope of one type
//! byte before the payload. The specification functions define the bytes
//! mathematically; the executable encoder is proved to produce exactly
//! those bytes.

use vstd::prelude::*;

use crate::receipt::{LogModel, ReceiptModel, TransactionReceipt};
use crate::types::B256;

verus! {

/// The minimal big-endian byte string of a natural number: empty for
/// zero, no leading zero byte otherwise.
pub open spec fn be_bytes(x: nat) -> Seq<u8>
    decreases x,
{
    if x == 0 {
        Seq::empty()
    } else {
        be_bytes(x / 256).push((x % 256) as u8)
    }
}

/// Length bounds of the minimal big-endian form, one per byte width.
pub proof fn lemma_be_bytes_len(x: nat)
    ensures
        x < 0x100 ==> be_bytes(x).len() <= 1,
        x < 0x10000 ==> be_bytes(x).len() <= 2,
        x < 0x1000000 ==> be_bytes(x).len() <= 3,
        x < 0x100000000 ==> be_bytes(x).len() <= 4,
        x < 0x10000000000 ==> be_bytes(x).len() <= 5,
        x < 0x1000000000000 ==> be_bytes(x).len() <= 6,
        x < 0x100000000000000 ==> be_bytes(x).len() <= 7,
        x < 0x10000000000000000 ==> be_bytes(x).len() <= 8,
    decreases x,
{
    if x > 0 {
        lemma_be_bytes_len(x / 256);
    }
}

/// The canonical encoding of a byte string: the byte itself when it is a
/// single byte below 0x80; otherwise a length prefix — one header byte
/// for short strings, a header byte plus the big-endian length for long
/// ones — followed by the string.
pub open spec fn rlp_str(b: Seq<u8>) -> Seq<u8> {
    if b.len() == 1 && b[0] < 0x80 {
        b
    } else if b.len() <= 55 {
        seq![(0x80 + b.len()) as u8] + b
    } else {
        seq![(0xb7 + be_bytes(b.len() as nat).len()) as u8] + be_bytes(b.len() as nat) + b
    }
}

/// The canonical encoding of a number: the shortest big-endian byte
/// string, encoded as a byte string.
pub open spec fn rlp_u64(x: u64) -> Seq<u8> {
    rlp_str(be_bytes(x as nat))
}

/// The header that announces a list payload of the given length.
pub open spec fn rlp_list_header(n: nat) -> Seq<u8> {
    if n <= 55 {
        seq![(0xc0 + n) as u8]
    } else {
        seq![(0xf7 + be_bytes(n).len()) as u8] + be_bytes(n)
    }
}

/// The canonical encoding of a list with the given payload.
pub open spec fn rlp_list(payload: Seq<u8>) -> Seq<u8> {
    rlp_list_header(payload.len()) + payload
}

/// The eight big-endian bytes of a 64-bit limb.
pub open spec fn be8(x: u64) -> Seq<u8> {
    seq![
        (x >> 56) as u8,
        (x >> 48) as u8,
        (x >> 40) as u8,
        (x >> 32) as u8,
        (x >> 24) as u8,
        (x >> 16) as u8,
        (x >> 8) as u8,
        x as u8,
    ]
}

/// The 32 bytes of a digest, most significant limb first.
pub open spec fn b256_bytes(h: B256) -> Seq<u8> {
    be8(h.w0) + be8(h.w1) + be8(h.w2) + be8(h.w3)
}

/// The concatenated encodings of a log's topics.
pub open spec fn topics_payload(ts: Seq<B256>) -> Seq<u8>
    decreases ts.len(),
{
    if ts.len() == 0 {
        Seq::empty()
    } else {
        topics_payload(ts.drop_last()) + rlp_str(b256_bytes(ts.last()))
    }
}

/// The payload of one log: address, topic list, data.
pub open spec fn log_payload(l: LogModel) -> Seq<u8> {
    rlp_str(l.address) + rlp_list(topics_payload(l.topics)) + rlp_str(l.data)
}

/// The canonical encoding of one log.
pub open spec fn log_rlp(l: LogModel) -> Seq<u8> {
    rlp_list(log_payload(l))
}

/// The concatenated encodings of a receipt's logs.
pub open spec fn logs_payload(ls: Seq<LogModel>) -> Seq<u8>
    decreases ls.len(),
{
    if ls.len() == 0 {
        Seq::empty()
    } else {
        logs_payload(ls.drop_last()) + log_rlp(ls.last())
    }
}

/// The payload of the canonical receipt structure: status, cumulative
/// gas used, logs bloom, logs.
pub open spec fn receipt_payload(r: ReceiptModel) -> Seq<u8> {
    rlp_u64(if r.status { 1u64 } else { 0u64 }) + rlp_u64(r.cumulative_gas_used) + rlp_str(
        r.logs_bloom,
    ) + rlp_list(logs_payload(r.logs))
}

/// The canonical receipt encoding before the typed envelope.
pub open spec fn receipt_rlp(r: ReceiptModel) -> Seq<u8> {
    rlp_list(receipt_payload(r))
}

/// The raw bytes of a receipt: the typed-transaction envelope — one type
/// byte before the receipt structure — for non-legacy types, the bare
/// structure for the legacy type.
pub open spec fn receipt_encoding(r: ReceiptModel) -> Seq<u8> {
    if r.tx_type == 0 {
        receipt_rlp(r)
    } else {
        seq![r.tx_type] + receipt_rlp(r)
    }
}

/// The minimal big-endian bytes of a 64-bit number.
fn be_bytes_u64(x: u64) -> (v: Vec<u8>)
    ensures
        v@ == be_bytes(x as nat),
    decreases x,
{
    if x == 0 {
        Vec::new()
    } else {
        let mut v = be_bytes_u64(x / 256);
        v.push((x % 256) as u8);
        v
    }
}

/// The minimal big-endian bytes of a length.
fn be_bytes_usize(x: usize) -> (v: Vec<u8>)
    ensures
        v@ == be_bytes(x as nat),
    decreases x,
{
    if x == 0 {
        Vec::new()
    } else {
        let mut v = be_bytes_usize(x / 256);
        v.push((x % 256) as u8);
        v
    }
}

/// Appends a byte string as it stands.
fn append_bytes(out: &mut Vec<u8>, b: &Vec<u8>)
    ensures
        final(out)@ == old(out)@ + b@,
{
    let ghost out0 = out@;
    let mut i: usize = 0;
    while i < b.len()
        invariant
            i <= b.len(),
            out@ == out0 + b@.take(i as int),
        decreases b.len() - i,
    {
        out.push(b[i]);
        proof {
            assert(out0 + b@.take(i as int).push(b@[i as int]) =~= out0 + b@.take(i + 1 as int));
        }
        i += 1;
    }
    proof {
        assert(out0 + b@.take(b@.len() as int) =~= out0 + b@);
    }
}

/// Appends the canonical encoding of a byte string.
fn append_rlp_str(out: &mut Vec<u8>, b: &Vec<u8>)
    ensures
        final(out)@ == old(out)@ + rlp_str(b@),
{
    let ghost out0 = out@;
    if b.len() == 1 && b[0] < 0x80 {
        out.push(b[0]);
        proof {
            assert(out@ =~= out0 + rlp_str(b@));
        }
    } else if b.len() <= 55 {
        let header: u8 = 0x80 + (b.len() as u8);
        out.push(header);
        append_bytes(out, b);
        proof {
            assert(out@ =~= out0 + rlp_str(b@));
        }
    } else {
        let len_bytes = be_bytes_usize(b.len());
        proof {
            lemma_be_bytes_len(b@.len() as nat);
        }
        let header: u8 = 0xb7 + (len_bytes.len() as u8);
        out.push(header);
        append_bytes(out, &len_bytes);
        append_bytes(out, b);
        proof {
            assert(out@ =~= out0 + rlp_str(b@));
        }
    }
}

/// Appends the canonical encoding of a number.
fn append_rlp_u64(out: &mut Vec<u8>, x: u64)
    ensures
        final(out)@ == old(out)@ + rlp_u64(x),
{
    let b = be_bytes_u64(x);
    append_rlp_str(out, &b);
}

/// Appends the header announcing a list payload of the given length.
fn append_list_header(out: &mut Vec<u8>, payload_len: usize)
    ensures
        final(out)@ == old(out)@ + rlp_list_header(payload_len as nat),
{
    let ghost out0 = out@;
    if payload_len <= 55 {
        let header: u8 = 0xc0 + (payload_len as u8);
        out.push(header);
        proof {
            assert(out@ =~= out0 + rlp_list_header(payload_len as nat));
        }
    } else {
        let len_bytes = be_bytes_usize(payload_len);
        proof {
            lemma_be_bytes_len(payload_len as nat);
        }
        let header: u8 = 0xf7 + (len_bytes.len() as u8);
        out.push(header);
        append_bytes(out, &len_bytes);
        proof {
            assert(out@ =~= out0 + rlp_list_header(payload_len as nat));
        }
    }
}

/// The eight big-endian bytes of a limb.
fn push_be8(out: &mut Vec<u8>, x: u64)
    ensures
        final(out)@ == old(out)@ + be8(x),
{
    let ghost out0 = out@;
    out.push((x >> 56) as u8);
    out.push((x >> 48) as u8);
    out.push((x >> 40) as u8);
    out.push((x >> 32) as u8);
    out.push((x >> 24) as u8);
    out.push((x >> 16) as u8);
    out.push((x >> 8) as u8);
    out.push(x as u8);
    proof {
        assert(out@ =~= out0 + be8(x));
    }
}

/// The 32 bytes of a digest.
fn b256_to_bytes(h: &B256) -> (v: Vec<u8>)
    ensures
        v@ == b256_bytes(*h),
{
    let mut v: Vec<u8> = Vec::new();
    push_be8(&mut v, h.w0);
    push_be8(&mut v, h.w1);
    push_be8(&mut v, h.w2);
    push_be8(&mut v, h.w3);
    proof {
        assert(v@ =~= b256_bytes(*h));
    }
    v
}

/// Appends the concatenated encodings of a log's topics.
fn append_topics_payload(out: &mut Vec<u8>, ts: &Vec<B256>)
    ensures
        final(out)@ == old(out)@ + topics_payload(ts@),
{
    let ghost out0 = out@;
    let mut i: usize = 0;
    while i < ts.len()
        invariant
            i <= ts.len(),
            out@ == out0 + topics_payload(ts@.take(i as int)),
        decreases ts.len() - i,
    {
        let topic_bytes = b256_to_bytes(&ts[i]);
        append_rlp_str(out, &topic_bytes);
        proof {
            assert(ts@.take(i + 1 as int).drop_last() =~= ts@.take(i as int));
            assert(ts@.take(i + 1 as int).last() == ts@[i as int]);
            assert(out@ =~= out0 + topics_payload(ts@.take(i + 1 as int)));
        }
        i += 1;
    }
    proof {
        assert(ts@.take(ts@.len() as int) =~= ts@);
    }
}

/// Appends the canonical encoding of one log.
fn append_log_rlp(out: &mut Vec<u8>, l: &crate::receipt::Log)
    ensures
        final(out)@ == old(out)@ + log_rlp(l@),
{
    let ghost out0 = out@;
    let mut payload: Vec<u8> = Vec::new();
    append_rlp_str(&mut payload, &l.address);
    let mut topics: Vec<u8> = Vec::new();
    append_topics_payload(&mut topics, &l.topics);
    append_list_header(&mut payload, topics.len());
    append_bytes(&mut payload, &topics);
    append_rlp_str(&mut payload, &l.data);
    proof {
        assert(payload@ =~= log_payload(l@));
    }
    append_list_header(out, payload.len());
    append_bytes(out, &payload);
    proof {
        assert(out@ =~= out0 + log_rlp(l@));
    }
}

/// Appends the concatenated encodings of a receipt's logs.
fn append_logs_payload(out: &mut Vec<u8>, ls: &Vec<crate::receipt::Log>)
    ensures
        final(out)@ == old(out)@ + logs_payload(crate::receipt::logs_view(ls@)),
{
    let ghost out0 = out@;
    let ghost model = crate::receipt::logs_view(ls@);
    let mut i: usize = 0;
    while i < ls.len()
        invariant
            i <= ls.len(),
            model == crate::receipt::logs_view(ls@),
            out@ == out0 + logs_payload(model.take(i as int)),
        decreases ls.len() - i,
    {
        proof {
            assert(model[i as int] == ls@[i as int]@);
        }
        append_log_rlp(out, &ls[i]);
        proof {
            assert(model.take(i + 1 as int).drop_last() =~= model.take(i as int));
            assert(model.take(i + 1 as int).last() == model[i as int]);
            assert(out@ =~= out0 + logs_payload(model.take(i + 1 as int)));
        }
        i += 1;
    }
    proof {
        assert(model.take(model.len() as int) =~= model);
    }
}

/// Encodes a receipt into its raw canonical bytes: the receipt structure
/// — status, cumulative gas used, logs bloom, logs — inside the typed
/// envelope of its transaction type.
pub fn encode_receipt(r: &TransactionReceipt) -> (v: Vec<u8>)
    ensures
        v@ == receipt_encoding(r@),
{
    let mut payload: Vec<u8> = Vec::new();
    append_rlp_u64(&mut payload, if r.status { 1u64 } else { 0u64 });
    append_rlp_u64(&mut payload, r.cumulative_gas_used);
    append_rlp_str(&mut payload, &r.logs_bloom);
    let mut logs_bytes: Vec<u8> = Vec::new();
    append_logs_payload(&mut logs_bytes, &r.logs);
    append_list_header(&mut payload, logs_bytes.len());
    append_bytes(&mut payload, &logs_bytes);
    proof {
        assert(payload@ =~= receipt_payload(r@));
    }
    let mut v: Vec<u8> = Vec::new();
    if r.tx_type != 0 {
        v.push(r.tx_type);
    }
    append_list_header(&mut v, payload.len());
    append_bytes(&mut v, &payload);
    proof {
        assert(v@ =~= receipt_encoding(r@));
    }
    v
}

} // verus!
