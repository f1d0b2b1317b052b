//! A decoder for the head of the canonical receipt bytes, proved
//! complete against the encoder's specification: decoding the encoding
//! of any well-formed receipt recovers its envelope type, its status,
//! and its cumulative gas used. The remaining fields of the encoding —
//! bloom and logs — are reconstructed by reference decoders outside this
//! crate and are not claimed here.

use vstd::prelude::*;

use crate::codec::{
    be_bytes, lemma_be_bytes_len, receipt_encoding, receipt_payload, receipt_rlp, rlp_list,
    rlp_list_header, rlp_str, rlp_u64,
};
use crate::receipt::{wf_receipt, ReceiptModel};

verus! {

/// Whether `p` is a prefix of `s`.
pub open spec fn has_prefix(s: Seq<u8>, p: Seq<u8>) -> bool {
    p.len() <= s.len() && s.take(p.len() as int) == p
}

/// A prefix made of two parts splits: the first part is a prefix, and
/// the second is a prefix of what follows it.
proof fn lemma_prefix_concat(s: Seq<u8>, a: Seq<u8>, c: Seq<u8>)
    requires
        has_prefix(s, a + c),
    ensures
        has_prefix(s, a),
        has_prefix(s.skip(a.len() as int), c),
{
    assert forall|i: int| 0 <= i < a.len() implies s[i] == a[i] by {
        assert((a + c)[i] == a[i]);
        assert(s.take((a + c).len() as int)[i] == s[i]);
    }
    assert(s.take(a.len() as int) =~= a);
    assert forall|i: int| 0 <= i < c.len() implies s.skip(a.len() as int)[i] == c[i] by {
        assert((a + c)[a.len() + i] == c[i]);
        assert(s.take((a + c).len() as int)[a.len() + i] == s[a.len() + i]);
    }
    assert(s.skip(a.len() as int).take(c.len() as int) =~= c);
}

/// The number a big-endian byte string stands for.
pub open spec fn be_value(s: Seq<u8>) -> nat
    decreases s.len(),
{
    if s.len() == 0 {
        0
    } else {
        be_value(s.drop_last()) * 256 + (s.last() as nat)
    }
}

/// Powers of 256.
pub open spec fn pow256(k: nat) -> nat
    decreases k,
{
    if k == 0 {
        1
    } else {
        256 * pow256((k - 1) as nat)
    }
}

proof fn lemma_pow256_values()
    ensures
        pow256(0) == 1,
        pow256(1) == 0x100,
        pow256(2) == 0x10000,
        pow256(3) == 0x1000000,
        pow256(4) == 0x100000000,
        pow256(5) == 0x10000000000,
        pow256(6) == 0x1000000000000,
        pow256(7) == 0x100000000000000,
        pow256(8) == 0x10000000000000000,
{
    assert(pow256(0) == 1);
    assert(pow256(1) == 256 * pow256(0));
    assert(pow256(2) == 256 * pow256(1));
    assert(pow256(3) == 256 * pow256(2));
    assert(pow256(4) == 256 * pow256(3));
    assert(pow256(5) == 256 * pow256(4));
    assert(pow256(6) == 256 * pow256(5));
    assert(pow256(7) == 256 * pow256(6));
    assert(pow256(8) == 256 * pow256(7));
}

/// A byte string of length `k` stands for a number below 256^k.
proof fn lemma_be_value_bound(s: Seq<u8>)
    ensures
        be_value(s) < pow256(s.len() as nat),
    decreases s.len(),
{
    if s.len() > 0 {
        lemma_be_value_bound(s.drop_last());
        assert(pow256(s.len() as nat) == 256 * pow256((s.len() - 1) as nat));
    }
}

/// Reading back the minimal big-endian bytes of a number gives the
/// number.
proof fn lemma_be_value_of_be_bytes(x: nat)
    ensures
        be_value(be_bytes(x)) == x,
    decreases x,
{
    if x == 0 {
        assert(be_bytes(0) =~= Seq::<u8>::empty());
    } else {
        lemma_be_value_of_be_bytes(x / 256);
        let d = (x % 256) as u8;
        assert(be_bytes(x) == be_bytes(x / 256).push(d));
        assert(be_bytes(x / 256).push(d).drop_last() =~= be_bytes(x / 256));
        assert(be_bytes(x / 256).push(d).last() == d);
    }
}

/// The minimal big-endian bytes of a small number are that byte.
proof fn lemma_be_bytes_small(x: nat)
    requires
        1 <= x < 256,
    ensures
        be_bytes(x) =~= seq![x as u8],
{
    assert(be_bytes(x) == be_bytes(x / 256).push((x % 256) as u8));
    assert(x / 256 == 0 && x % 256 == x);
    assert(be_bytes(0) =~= Seq::<u8>::empty());
}

/// A number of 256 or more takes at least two big-endian bytes.
proof fn lemma_be_bytes_two(x: nat)
    requires
        x >= 256,
    ensures
        be_bytes(x).len() >= 2,
{
    assert(be_bytes(x) == be_bytes(x / 256).push((x % 256) as u8));
    assert(x / 256 >= 1);
    assert(be_bytes(x / 256) == be_bytes(x / 256 / 256).push(((x / 256) % 256) as u8));
}

/// The shape of a scalar encoding, by the size of the number.
proof fn lemma_rlp_u64_shape(x: u64)
    ensures
        rlp_u64(x).len() >= 1,
        x == 0 ==> rlp_u64(x) =~= seq![0x80u8],
        1 <= x < 0x80 ==> rlp_u64(x) =~= seq![x as u8],
        x >= 0x80 ==> {
            let k = be_bytes(x as nat).len();
            1 <= k <= 8 && rlp_u64(x) =~= seq![(0x80 + k) as u8] + be_bytes(x as nat)
        },
{
    lemma_be_bytes_len(x as nat);
    if x == 0 {
        assert(be_bytes(0) =~= Seq::<u8>::empty());
        assert(rlp_u64(0) =~= seq![0x80u8]);
    } else if x < 0x80 {
        lemma_be_bytes_small(x as nat);
    } else if x < 0x100 {
        lemma_be_bytes_small(x as nat);
        assert(be_bytes(x as nat)[0] == x as u8);
    } else {
        lemma_be_bytes_two(x as nat);
    }
}

/// The shape of a list header, by the length of the payload.
proof fn lemma_rlp_list_header_shape(n: nat)
    requires
        n < 0x10000000000000000,
    ensures
        rlp_list_header(n).len() >= 1,
        rlp_list_header(n)[0] >= 0xc0,
        n <= 55 ==> rlp_list_header(n) =~= seq![(0xc0 + n) as u8],
        n > 55 ==> {
            let k = be_bytes(n).len();
            1 <= k <= 8 && rlp_list_header(n) =~= seq![(0xf7 + k) as u8] + be_bytes(n)
                && rlp_list_header(n).len() == 1 + k
        },
{
    lemma_be_bytes_len(n);
    if n > 55 {
        assert(be_bytes(n) == be_bytes(n / 256).push((n % 256) as u8));
    }
}

/// Reads `len` big-endian bytes at `pos` as a number.
fn read_be_value(b: &Vec<u8>, pos: usize, len: usize) -> (x: u64)
    requires
        pos + len <= b.len(),
        len <= 8,
    ensures
        x as nat == be_value(b@.subrange(pos as int, pos + len)),
{
    let mut acc: u64 = 0;
    let mut i: usize = 0;
    while i < len
        invariant
            i <= len,
            len <= 8,
            pos + len <= b.len(),
            acc as nat == be_value(b@.subrange(pos as int, pos + i)),
        decreases len - i,
    {
        proof {
            lemma_be_value_bound(b@.subrange(pos as int, pos + i));
            lemma_pow256_values();
            assert(pow256(i as nat) <= 0x100000000000000) by {
                if i == 0 {
                } else if i == 1 {
                } else if i == 2 {
                } else if i == 3 {
                } else if i == 4 {
                } else if i == 5 {
                } else if i == 6 {
                } else {
                    assert(i == 7);
                }
            }
        }
        let d = b[pos + i];
        acc = acc * 256 + (d as u64);
        proof {
            assert(b@.subrange(pos as int, pos + i + 1).drop_last() =~= b@.subrange(
                pos as int,
                pos + i,
            ));
            assert(b@.subrange(pos as int, pos + i + 1).last() == b@[pos + i]);
        }
        i += 1;
    }
    acc
}

/// Parses a scalar. Complete against `rlp_u64`: wherever the bytes at
/// `pos` begin with the encoding of a number, that number and the
/// position after its encoding come back.
fn parse_u64(b: &Vec<u8>, pos: usize) -> (r: Option<(u64, usize)>)
    requires
        pos <= b.len(),
    ensures
        r matches Some(p) ==> pos < p.1 <= b.len(),
        forall|x: u64|
            has_prefix(b@.skip(pos as int), rlp_u64(x)) ==> (r matches Some(p) && p.0 == x && p.1
                == pos + rlp_u64(x).len()),
{
    let ghost s = b@.skip(pos as int);
    if pos >= b.len() {
        proof {
            assert forall|x: u64| !has_prefix(s, rlp_u64(x)) by {
                lemma_rlp_u64_shape(x);
            }
        }
        return None;
    }
    let b0 = b[pos];
    proof {
        assert(s[0] == b@[pos as int]);
    }
    if b0 < 0x80 {
        proof {
            assert forall|x: u64| has_prefix(s, rlp_u64(x)) implies x == b0 as u64 && rlp_u64(
                x,
            ).len() == 1 by {
                lemma_rlp_u64_shape(x);
                assert(s.take(rlp_u64(x).len() as int)[0] == s[0]);
                assert(rlp_u64(x)[0] == b0);
            }
        }
        return Some((b0 as u64, pos + 1));
    } else if b0 <= 0x88 {
        let len = (b0 - 0x80) as usize;
        if b.len() - pos < 1 + len {
            proof {
                assert forall|x: u64| !has_prefix(s, rlp_u64(x)) by {
                    lemma_rlp_u64_shape(x);
                    if has_prefix(s, rlp_u64(x)) {
                        assert(s.take(rlp_u64(x).len() as int)[0] == s[0]);
                        assert(rlp_u64(x)[0] == b0);
                        // The header byte pins the digit count, which the
                        // prefix cannot fit.
                        if x == 0 {
                        } else if x < 0x80 {
                        } else {
                            assert(rlp_u64(x).len() == 1 + len);
                        }
                    }
                }
            }
            return None;
        }
        let x = read_be_value(b, pos + 1, len);
        proof {
            assert forall|y: u64| has_prefix(s, rlp_u64(y)) implies x == y && rlp_u64(y).len() == 1
                + len by {
                lemma_rlp_u64_shape(y);
                assert(s.take(rlp_u64(y).len() as int)[0] == s[0]);
                assert(rlp_u64(y)[0] == b0);
                if y == 0 {
                    assert(len == 0);
                    assert(b@.subrange(pos + 1 as int, pos + 1 as int) =~= Seq::<u8>::empty());
                } else if y < 0x80 {
                    // A low single byte never carries this header.
                    assert(false);
                } else {
                    let k = be_bytes(y as nat).len();
                    assert(k == len);
                    assert forall|j: int| 0 <= j < len implies b@.subrange(
                        pos + 1 as int,
                        pos + 1 + len,
                    )[j] == be_bytes(y as nat)[j] by {
                        assert(s.take(rlp_u64(y).len() as int)[1 + j] == s[1 + j]);
                        assert(rlp_u64(y)[1 + j] == be_bytes(y as nat)[j]);
                        assert(s[1 + j] == b@[pos + 1 + j]);
                    }
                    assert(b@.subrange(pos + 1 as int, pos + 1 + len) =~= be_bytes(y as nat));
                    lemma_be_value_of_be_bytes(y as nat);
                }
            }
        }
        return Some((x, pos + 1 + len));
    } else {
        proof {
            assert forall|x: u64| !has_prefix(s, rlp_u64(x)) by {
                lemma_rlp_u64_shape(x);
                if has_prefix(s, rlp_u64(x)) {
                    assert(s.take(rlp_u64(x).len() as int)[0] == s[0]);
                    assert(rlp_u64(x)[0] == b0);
                }
            }
        }
        return None;
    }
}

/// Parses a list header. Complete against `rlp_list_header` wherever the
/// announced payload also lies within the buffer, which is true of every
/// whole list encoding.
fn parse_list_header(b: &Vec<u8>, pos: usize) -> (r: Option<(usize, usize)>)
    requires
        pos <= b.len(),
    ensures
        r matches Some(p) ==> pos < p.1 <= b.len() && p.0 <= b.len() - p.1,
        forall|n: nat|
            has_prefix(b@.skip(pos as int), rlp_list_header(n)) && pos + rlp_list_header(n).len()
                + n <= b.len() ==> (r matches Some(p) && p.0 == n && p.1 == pos
                + rlp_list_header(n).len()),
{
    let ghost sfx = b@.skip(pos as int);
    if pos >= b.len() {
        proof {
            assert forall|n: nat| !(has_prefix(sfx, rlp_list_header(n)) && pos + rlp_list_header(
                n,
            ).len() + n <= b.len()) by {
                if n < 0x10000000000000000 {
                    lemma_rlp_list_header_shape(n);
                }
            }
        }
        return None;
    }
    let b0 = b[pos];
    proof {
        assert(sfx[0] == b@[pos as int]);
    }
    if b0 < 0xc0 {
        proof {
            assert forall|n: nat| !(has_prefix(sfx, rlp_list_header(n)) && pos + rlp_list_header(
                n,
            ).len() + n <= b.len()) by {
                if n < 0x10000000000000000 {
                    lemma_rlp_list_header_shape(n);
                    if has_prefix(sfx, rlp_list_header(n)) {
                        assert(sfx.take(rlp_list_header(n).len() as int)[0] == sfx[0]);
                        assert(rlp_list_header(n)[0] == b0);
                    }
                }
            }
        }
        return None;
    } else if b0 <= 0xf7 {
        let n = (b0 - 0xc0) as usize;
        if b.len() - pos < 1 + n {
            proof {
                assert forall|m: nat| !(has_prefix(sfx, rlp_list_header(m)) && pos
                    + rlp_list_header(m).len() + m <= b.len()) by {
                    if m < 0x10000000000000000 {
                        lemma_rlp_list_header_shape(m);
                        if has_prefix(sfx, rlp_list_header(m)) {
                            assert(sfx.take(rlp_list_header(m).len() as int)[0] == sfx[0]);
                            assert(rlp_list_header(m)[0] == b0);
                            assert(m == n && rlp_list_header(m).len() == 1);
                        }
                    }
                }
            }
            return None;
        }
        proof {
            assert forall|m: nat|
                has_prefix(sfx, rlp_list_header(m)) && pos + rlp_list_header(m).len() + m
                    <= b.len() implies m == n && rlp_list_header(m).len() == 1 by {
                lemma_rlp_list_header_shape(m);
                assert(sfx.take(rlp_list_header(m).len() as int)[0] == sfx[0]);
                assert(rlp_list_header(m)[0] == b0);
            }
        }
        return Some((n, pos + 1));
    } else {
        let lol = (b0 - 0xf7) as usize;
        if b.len() - pos < 1 + lol {
            proof {
                assert forall|m: nat| !(has_prefix(sfx, rlp_list_header(m)) && pos
                    + rlp_list_header(m).len() + m <= b.len()) by {
                    if m < 0x10000000000000000 {
                        lemma_rlp_list_header_shape(m);
                        if has_prefix(sfx, rlp_list_header(m)) {
                            assert(sfx.take(rlp_list_header(m).len() as int)[0] == sfx[0]);
                            assert(rlp_list_header(m)[0] == b0);
                            assert(rlp_list_header(m).len() == 1 + lol);
                        }
                    }
                }
            }
            return None;
        }
        let len64 = read_be_value(b, pos + 1, lol);
        let ghost digits = b@.subrange(pos + 1 as int, pos + 1 + lol as int);
        proof {
            assert forall|m: nat|
                has_prefix(sfx, rlp_list_header(m)) && pos + rlp_list_header(m).len() + m
                    <= b.len() implies digits == be_bytes(m) && len64 == m && rlp_list_header(
                m,
            ).len() == 1 + lol by {
                lemma_rlp_list_header_shape(m);
                assert(sfx.take(rlp_list_header(m).len() as int)[0] == sfx[0]);
                assert(rlp_list_header(m)[0] == b0);
                let k = be_bytes(m).len();
                assert(m > 55 && k == lol);
                assert forall|j: int| 0 <= j < lol implies digits[j] == be_bytes(m)[j] by {
                    assert(sfx.take(rlp_list_header(m).len() as int)[1 + j] == sfx[1 + j]);
                    assert(rlp_list_header(m)[1 + j] == be_bytes(m)[j]);
                    assert(sfx[1 + j] == b@[pos + 1 + j]);
                }
                assert(digits =~= be_bytes(m));
                lemma_be_value_of_be_bytes(m);
            }
        }
        if len64 > (usize::MAX as u64) {
            return None;
        }
        let n = len64 as usize;
        if b.len() - pos - 1 - lol < n {
            return None;
        }
        return Some((n, pos + 1 + lol));
    }
}

/// The scalar the status bit is encoded as.
pub open spec fn status_scalar(m: ReceiptModel) -> u64 {
    if m.status {
        1u64
    } else {
        0u64
    }
}

/// Where the pieces of a receipt's encoding stand: after the envelope
/// byte of a non-legacy type comes the list header, then the status
/// scalar, then the cumulative gas scalar.
proof fn lemma_head_prefixes(bs: Seq<u8>, m: ReceiptModel)
    requires
        wf_receipt(m),
        bs == receipt_encoding(m),
        bs.len() < 0x10000000000000000,
    ensures
        bs.len() >= 1,
        m.tx_type == 0 ==> bs[0] >= 0xc0,
        m.tx_type != 0 ==> bs[0] == m.tx_type && bs[0] < 0xc0,
        ({
            let start: int = if m.tx_type == 0 {
                0int
            } else {
                1int
            };
            let pl = receipt_payload(m).len();
            let hl = rlp_list_header(pl as nat).len();
            &&& has_prefix(bs.skip(start), rlp_list_header(pl as nat))
            &&& start + hl + pl == bs.len()
            &&& has_prefix(bs.skip(start + hl), rlp_u64(status_scalar(m)))
            &&& has_prefix(
                bs.skip(start + hl + rlp_u64(status_scalar(m)).len()),
                rlp_u64(m.cumulative_gas_used),
            )
        }),
{
    let start: int = if m.tx_type == 0 {
        0int
    } else {
        1int
    };
    let payload = receipt_payload(m);
    let pl = payload.len();
    let header = rlp_list_header(pl as nat);
    let hl = header.len();
    assert(receipt_rlp(m) == header + payload);
    assert(bs.skip(start) =~= receipt_rlp(m));
    lemma_rlp_list_header_shape(pl as nat);
    assert(bs.skip(start).take(hl as int) =~= header);
    assert(bs[start] == header[0]);
    let s2 = bs.skip(start + hl);
    assert(s2 =~= payload);
    let a = rlp_u64(status_scalar(m));
    let b2 = rlp_u64(m.cumulative_gas_used);
    let c2 = rlp_str(m.logs_bloom);
    let d2 = rlp_list(crate::codec::logs_payload(m.logs));
    assert(payload == a + b2 + c2 + d2);
    assert(a + b2 + c2 + d2 =~= (a + b2) + (c2 + d2));
    assert(s2.take(s2.len() as int) =~= s2);
    assert(has_prefix(s2, (a + b2) + (c2 + d2)));
    lemma_prefix_concat(s2, a + b2, c2 + d2);
    lemma_prefix_concat(s2, a, b2);
    assert(bs.skip(start + hl + a.len() as int) =~= s2.skip(a.len() as int));
}

/// Decodes the head of a canonical receipt encoding: the envelope type,
/// the status, and the cumulative gas used. Complete against the
/// encoder: decoding the encoding of any well-formed receipt recovers
/// exactly these fields of it.
pub fn decode_receipt_head(b: &Vec<u8>) -> (r: Option<(u8, bool, u64)>)
    ensures
        forall|m: ReceiptModel|
            wf_receipt(m) && b@ == receipt_encoding(m) ==> (r matches Some(h) && h.0 == m.tx_type
                && h.1 == m.status && h.2 == m.cumulative_gas_used),
{
    if b.len() == 0 {
        proof {
            assert forall|m: ReceiptModel| !(wf_receipt(m) && b@ == receipt_encoding(m)) by {
                if wf_receipt(m) && b@ == receipt_encoding(m) {
                    lemma_head_prefixes(b@, m);
                }
            }
        }
        return None;
    }
    let first = b[0];
    let start: usize = if first < 0xc0 {
        1
    } else {
        0
    };
    let tx_type: u8 = if first < 0xc0 {
        first
    } else {
        0
    };
    let header = parse_list_header(b, start);
    proof {
        assert forall|m: ReceiptModel|
            wf_receipt(m) && b@ == receipt_encoding(m) implies (if m.tx_type == 0 {
            start == 0
        } else {
            start == 1
        }) && tx_type == m.tx_type && (header matches Some(p) && p.1 == start + rlp_list_header(
            receipt_payload(m).len() as nat,
        ).len()) by {
            lemma_head_prefixes(b@, m);
        }
    }
    let (_, after_header) = match header {
        Some(p) => p,
        None => {
            return None;
        }
    };
    let status_parse = parse_u64(b, after_header);
    proof {
        assert forall|m: ReceiptModel|
            wf_receipt(m) && b@ == receipt_encoding(m) implies (status_parse matches Some(p) && p.0
            == status_scalar(m) && p.1 == after_header + rlp_u64(status_scalar(m)).len()) by {
            lemma_head_prefixes(b@, m);
        }
    }
    let (status_value, after_status) = match status_parse {
        Some(p) => p,
        None => {
            return None;
        }
    };
    let gas_parse = parse_u64(b, after_status);
    proof {
        assert forall|m: ReceiptModel|
            wf_receipt(m) && b@ == receipt_encoding(m) implies (gas_parse matches Some(p) && p.0
            == m.cumulative_gas_used) by {
            lemma_head_prefixes(b@, m);
        }
    }
    let (gas, _) = match gas_parse {
        Some(p) => p,
        None => {
            return None;
        }
    };
    Some((tx_type, status_value == 1, gas))
}

} // verus!
