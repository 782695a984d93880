//! The bundle encoder: splitting an outgoing payload into fixed-width
//! transactions.
//!
//! A payload of any length is cut into consecutive chunks of
//! [`PAYLOAD_WIDTH`](crate::transaction::PAYLOAD_WIDTH) symbols; the final
//! chunk is right-padded with zero symbols. Even an empty payload yields one
//! (all-zero) transaction, so every message is carried by at least one
//! transaction. All transactions of the bundle share the address, tag and
//! timestamp; indices ascend from 0 to `last_index`; the bundle hash is left
//! zero-filled pending ledger-side sealing.

use vstd::prelude::*;
use vstd::arithmetic::div_mod::lemma_fundamental_div_mod;
use vstd::arithmetic::div_mod::lemma_mod_bound;

use crate::transaction::ADDRESS_WIDTH;
use crate::transaction::HASH_WIDTH;
use crate::transaction::PAYLOAD_WIDTH;
use crate::transaction::TAG_WIDTH;
use crate::transaction::Message;
use crate::transaction::Transaction;
use crate::transaction::TxModel;
use crate::transaction::txs_view;

verus! {

/// A sequence of `n` zero symbols.
pub open spec fn zeros(n: int) -> Seq<u8> {
    Seq::new(n as nat, |i: int| 0u8)
}

/// How many transactions a payload of `len` symbols needs: at least one,
/// even when the payload is empty.
pub open spec fn chunk_count(len: int) -> int {
    if len <= 0 {
        1
    } else {
        (len - 1) / (PAYLOAD_WIDTH as int) + 1
    }
}

/// The chunk count covers the payload, and uses no transaction it could
/// spare.
pub proof fn lemma_chunk_count(len: int)
    requires
        len >= 0,
    ensures
        chunk_count(len) >= 1,
        chunk_count(len) * (PAYLOAD_WIDTH as int) >= len,
        len > 0 ==> (chunk_count(len) - 1) * (PAYLOAD_WIDTH as int) < len,
{
    if len > 0 {
        let w = PAYLOAD_WIDTH as int;
        let q = (len - 1) / w;
        lemma_fundamental_div_mod(len - 1, w);
        lemma_mod_bound(len - 1, w);
        assert((q + 1) * w == q * w + w) by (nonlinear_arith);
    }
}

/// The payload right-padded with zero symbols to fill a whole number of
/// transactions.
pub open spec fn padded(msg: Seq<u8>) -> Seq<u8> {
    msg + zeros(chunk_count(msg.len() as int) * (PAYLOAD_WIDTH as int) - msg.len())
}

/// Chunk `i` of the padded payload.
pub open spec fn encode_chunk(msg: Seq<u8>, i: int) -> Seq<u8> {
    padded(msg).subrange(i * (PAYLOAD_WIDTH as int), (i + 1) * (PAYLOAD_WIDTH as int))
}

/// The bundle a payload encodes to: one transaction per chunk, indices
/// ascending from 0, all sharing address, tag and timestamp.
pub open spec fn encode_spec(address: Seq<u8>, tag: Seq<u8>, msg: Seq<u8>, timestamp: int) -> Seq<
    TxModel,
> {
    Seq::new(
        chunk_count(msg.len() as int) as nat,
        |i: int|
            TxModel {
                address: address,
                tag: tag,
                bundle_hash: zeros(HASH_WIDTH as int),
                index: i,
                last_index: chunk_count(msg.len() as int) - 1,
                payload: encode_chunk(msg, i),
                timestamp: timestamp,
            },
    )
}

/// The wire-format contract of the encoder: every encoded transaction is
/// well formed — canonical widths for address, tag, bundle hash and payload
/// chunk, and an index no greater than the bundle's last index.
pub proof fn lemma_encode_spec_wf(address: Seq<u8>, tag: Seq<u8>, msg: Seq<u8>, timestamp: int)
    requires
        address.len() == ADDRESS_WIDTH,
        tag.len() == TAG_WIDTH,
    ensures
        forall|i: int|
            0 <= i < encode_spec(address, tag, msg, timestamp).len() ==> (#[trigger] encode_spec(
                address,
                tag,
                msg,
                timestamp,
            )[i]).wf(),
{
    let e = encode_spec(address, tag, msg, timestamp);
    let w = PAYLOAD_WIDTH as int;
    let cc = chunk_count(msg.len() as int);
    lemma_chunk_count(msg.len() as int);
    assert(padded(msg).len() == cc * w);
    assert forall|i: int| 0 <= i < e.len() implies (#[trigger] e[i]).wf() by {
        assert((i + 1) * w <= cc * w) by (nonlinear_arith)
            requires
                i + 1 <= cc,
                w > 0,
        ;
        assert(i * w >= 0) by (nonlinear_arith)
            requires
                i >= 0,
                w > 0,
        ;
        assert(e[i].payload.len() == w);
    }
}

/// A vector of `n` zero symbols.
pub fn zeros_vec(n: usize) -> (r: Vec<u8>)
    ensures
        r@ == zeros(n as int),
{
    let mut r: Vec<u8> = Vec::new();
    proof {
        assert(r@ =~= zeros(0));
    }
    while r.len() < n
        invariant
            r@.len() <= n,
            r@ == zeros(r@.len() as int),
        decreases n - r@.len(),
    {
        r.push(0);
        proof {
            assert(r@ =~= zeros(r@.len() as int));
        }
    }
    r
}

/// Pads a symbol vector with zero symbols up to `n` symbols; a vector
/// already at least that long is returned unchanged.
pub fn pad_trits(n: usize, s: &Vec<u8>) -> (r: Vec<u8>)
    ensures
        r@ == if n as int > s@.len() {
            s@ + zeros(n - s@.len())
        } else {
            s@
        },
{
    let mut t = s.clone();
    proof {
        assert(t@ =~= s@);
    }
    while t.len() < n
        invariant
            s@.len() <= t@.len(),
            t@.len() <= n || t@.len() == s@.len(),
            t@ == s@ + zeros(t@.len() - s@.len()),
        decreases n - t@.len(),
    {
        t.push(0);
        proof {
            assert(t@ =~= s@ + zeros(t@.len() - s@.len()));
        }
    }
    proof {
        if (n as int) <= s@.len() {
            assert(t@ =~= s@);
        }
    }
    t
}

/// A transaction with every field zero-filled or empty, to be filled in by
/// [`make_tx`].
pub fn make_empty_tx() -> (r: Transaction)
    ensures
        r@ == (TxModel {
            address: Seq::<u8>::empty(),
            tag: Seq::<u8>::empty(),
            bundle_hash: zeros(HASH_WIDTH as int),
            index: 0,
            last_index: 0,
            payload: Seq::<u8>::empty(),
            timestamp: 0,
        }),
{
    let r = Transaction {
        address: Vec::new(),
        tag: Vec::new(),
        bundle_hash: zeros_vec(HASH_WIDTH),
        index: 0,
        last_index: 0,
        payload: Vec::new(),
        timestamp: 0,
    };
    proof {
        assert(r@ =~= (TxModel {
            address: Seq::<u8>::empty(),
            tag: Seq::<u8>::empty(),
            bundle_hash: zeros(HASH_WIDTH as int),
            index: 0,
            last_index: 0,
            payload: Seq::<u8>::empty(),
            timestamp: 0,
        }));
    }
    r
}

/// One transaction of a bundle: the given address, tag and payload chunk,
/// index fields still zero, bundle hash zero-filled.
pub fn make_tx(address: &Vec<u8>, tag: &Vec<u8>, msg: &Vec<u8>, timestamp: u64) -> (r: Transaction)
    requires
        address@.len() == ADDRESS_WIDTH,
        tag@.len() == TAG_WIDTH,
        msg@.len() == PAYLOAD_WIDTH,
    ensures
        r@ == (TxModel {
            address: address@,
            tag: tag@,
            bundle_hash: zeros(HASH_WIDTH as int),
            index: 0,
            last_index: 0,
            payload: msg@,
            timestamp: timestamp as int,
        }),
{
    let mut r = make_empty_tx();
    r.address = address.clone();
    r.tag = tag.clone();
    r.payload = msg.clone();
    r.timestamp = timestamp;
    proof {
        assert(r@.address =~= address@);
        assert(r@.tag =~= tag@);
        assert(r@.payload =~= msg@);
        assert(r@ =~= (TxModel {
            address: address@,
            tag: tag@,
            bundle_hash: zeros(HASH_WIDTH as int),
            index: 0,
            last_index: 0,
            payload: msg@,
            timestamp: timestamp as int,
        }));
    }
    r
}

/// Encodes a payload into a bundle of transactions: consecutive
/// `PAYLOAD_WIDTH`-symbol chunks of the zero-padded payload, indices
/// ascending from 0 to `last_index`, all sharing the address, tag and
/// timestamp.
pub fn make_txs(address: &Vec<u8>, tag: &Vec<u8>, msg: &Vec<u8>, timestamp: u64) -> (r: Vec<
    Transaction,
>)
    requires
        address@.len() == ADDRESS_WIDTH,
        tag@.len() == TAG_WIDTH,
    ensures
        txs_view(r@) == encode_spec(address@, tag@, msg@, timestamp as int),
{
    let total = msg.len();
    let n: usize = if total == 0 {
        1
    } else {
        (total - 1) / PAYLOAD_WIDTH + 1
    };
    proof {
        lemma_chunk_count(total as int);
        assert(n as int == chunk_count(msg@.len() as int));
    }
    let ghost espec = encode_spec(address@, tag@, msg@, timestamp as int);
    let mut out: Vec<Transaction> = Vec::new();
    proof {
        assert(txs_view(out@) =~= espec.take(0));
    }
    for i in 0..n
        invariant
            n as int == chunk_count(msg@.len() as int),
            total == msg@.len(),
            address@.len() == ADDRESS_WIDTH,
            tag@.len() == TAG_WIDTH,
            espec == encode_spec(address@, tag@, msg@, timestamp as int),
            out@.len() == i,
            txs_view(out@) == espec.take(i as int),
    {
        proof {
            lemma_chunk_count(total as int);
        }
        let start = i * PAYLOAD_WIDTH;
        let take: usize = if PAYLOAD_WIDTH <= total - start {
            PAYLOAD_WIDTH
        } else {
            total - start
        };
        let mut part: Vec<u8> = Vec::new();
        proof {
            assert(part@ =~= msg@.subrange(start as int, start as int));
        }
        let mut k: usize = 0;
        while k < take
            invariant
                0 <= k <= take,
                start + take <= total,
                total == msg@.len(),
                part@ == msg@.subrange(start as int, start + k),
            decreases take - k,
        {
            part.push(msg[start + k]);
            k = k + 1;
            proof {
                assert(part@ =~= msg@.subrange(start as int, start + k));
            }
        }
        let chunk = pad_trits(PAYLOAD_WIDTH, &part);
        proof {
            assert(chunk@ =~= encode_chunk(msg@, i as int));
        }
        let mut tx = make_tx(address, tag, &chunk, timestamp);
        tx.index = i as u64;
        tx.last_index = (n - 1) as u64;
        out.push(tx);
        proof {
            assert(tx@ =~= espec[i as int]);
            assert(txs_view(out@) =~= espec.take(i + 1));
        }
    }
    proof {
        assert(espec.take(n as int) =~= espec);
    }
    out
}

/// Encodes a logical message into the bundle of transactions that carries
/// it, stamped with the given timestamp.
pub fn msg_to_bundle(msg: &Message, timestamp: u64) -> (r: Vec<Transaction>)
    requires
        msg@.address.len() == ADDRESS_WIDTH,
        msg@.msgid.len() == TAG_WIDTH,
    ensures
        txs_view(r@) == encode_spec(msg@.address, msg@.msgid, msg@.payload, timestamp as int),
{
    make_txs(&msg.link.appinst, &msg.link.msgid, &msg.body, timestamp)
}

} // verus!
