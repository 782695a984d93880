//! Transport-level value types and the pure decisions of the transport
//! adapter: send options, the error taxonomy, single-message lookup and the
//! wire order of an outgoing bundle. The network calls themselves live with
//! the caller; everything here is a function from plain values to plain
//! values.

use vstd::prelude::*;

use crate::order::lemma_lex_cmp_zero;
use crate::order::lex_cmp_exec;
use crate::transaction::AddressModel;
use crate::transaction::Message;
use crate::transaction::MessageModel;
use crate::transaction::TangleAddress;
use crate::transaction::Transaction;
use crate::transaction::msgs_view;
use crate::transaction::txs_view;

verus! {

/// Options governing how an outgoing bundle is attached to the ledger.
#[derive(Clone, Copy, PartialEq, Eq, Structural, Debug)]
pub struct SendTrytesOptions {
    /// Tip-selection depth.
    pub depth: u8,
    /// Proof-of-work difficulty.
    pub min_weight_magnitude: u8,
    /// Whether proof of work is computed locally.
    pub local_pow: bool,
}

impl Default for SendTrytesOptions {
    /// Depth 3, difficulty 10, local proof of work.
    fn default() -> (r: Self)
        ensures
            r.depth == 3,
            r.min_weight_magnitude == 10,
            r.local_pow,
    {
        SendTrytesOptions { depth: 3, min_weight_magnitude: 10, local_pow: true }
    }
}

/// How a transport operation fails.
#[derive(Clone, Copy, PartialEq, Eq, Structural, Debug)]
pub enum TransportError {
    /// An address or tag does not have its canonical width: a caller bug,
    /// never retried.
    MalformedIdentifier,
    /// The ledger rejected or failed to attach a bundle; retrying is the
    /// caller's decision.
    SubmissionError,
    /// More than one decoded message matched a single-message lookup.
    AmbiguousLookup,
}

/// Which packet kind a fetch is interested in.
#[derive(Clone, Copy, PartialEq, Eq, Structural, Debug)]
pub enum FetchMessageContentType {
    SignedPacket,
    TaggedPacket,
}

/// Model of a fetched packet.
#[verifier::ext_equal]
pub ghost struct FetchedPacketModel {
    pub kind: FetchMessageContentType,
    pub link: AddressModel,
    pub public: Seq<u8>,
    pub masked: Seq<u8>,
}

/// One packet handed back by the protocol layer during a fetch: its kind,
/// where it lives, and its public and masked payload bytes.
pub struct FetchedPacket {
    pub kind: FetchMessageContentType,
    pub link: TangleAddress,
    pub public: Vec<u8>,
    pub masked: Vec<u8>,
}

impl View for FetchedPacket {
    type V = FetchedPacketModel;

    open spec fn view(&self) -> FetchedPacketModel {
        FetchedPacketModel {
            kind: self.kind,
            link: self.link@,
            public: self.public@,
            masked: self.masked@,
        }
    }
}

impl Clone for FetchedPacket {
    fn clone(&self) -> (r: Self)
        ensures
            r@ == self@,
    {
        let r = FetchedPacket {
            kind: self.kind,
            link: self.link.clone(),
            public: self.public.clone(),
            masked: self.masked.clone(),
        };
        proof {
            assert(r@.public =~= self@.public);
            assert(r@.masked =~= self@.masked);
            assert(r@ =~= self@);
        }
        r
    }
}

/// The models of a sequence of fetched packets.
pub open spec fn packets_view(s: Seq<FetchedPacket>) -> Seq<FetchedPacketModel> {
    s.map_values(|p: FetchedPacket| p@)
}

/// What a fetch keeps: nothing when payloads are not wanted, else exactly
/// the packets of the wanted kind, in fetch order.
pub open spec fn kept_packets(
    s: Seq<FetchedPacketModel>,
    wanted: FetchMessageContentType,
    load_data: bool,
) -> Seq<FetchedPacketModel> {
    if load_data {
        s.filter(|p: FetchedPacketModel| p.kind == wanted)
    } else {
        Seq::empty()
    }
}

/// One unfolding of the filter under `kept_packets`.
proof fn lemma_kept_packets_push(
    s: Seq<FetchedPacketModel>,
    x: FetchedPacketModel,
    wanted: FetchMessageContentType,
)
    ensures
        kept_packets(s.push(x), wanted, true) == if x.kind == wanted {
            kept_packets(s, wanted, true).push(x)
        } else {
            kept_packets(s, wanted, true)
        },
{
    reveal(Seq::filter);
    assert(s.push(x).drop_last() =~= s);
    assert(s.push(x).last() == x);
}

/// Keeps the packets a fetch is interested in: those of the wanted kind, in
/// fetch order, or none at all when payload loading is off.
pub fn filter_packets(
    packets: &Vec<FetchedPacket>,
    wanted: FetchMessageContentType,
    load_data: bool,
) -> (r: Vec<FetchedPacket>)
    ensures
        packets_view(r@) == kept_packets(packets_view(packets@), wanted, load_data),
{
    let ghost full = packets_view(packets@);
    let mut r: Vec<FetchedPacket> = Vec::new();
    if !load_data {
        proof {
            assert(packets_view(r@) =~= kept_packets(full, wanted, false));
        }
        return r;
    }
    proof {
        assert(full.take(0) =~= Seq::<FetchedPacketModel>::empty());
        assert(packets_view(r@) =~= kept_packets(full.take(0), wanted, true));
    }
    for i in 0..packets.len()
        invariant
            full == packets_view(packets@),
            full.len() == packets@.len(),
            packets_view(r@) == kept_packets(full.take(i as int), wanted, true),
    {
        proof {
            assert(full.take(i + 1) =~= full.take(i as int).push(full[i as int]));
            lemma_kept_packets_push(full.take(i as int), full[i as int], wanted);
        }
        if packets[i].kind == wanted {
            r.push(packets[i].clone());
            proof {
                assert(packets_view(r@) =~= kept_packets(full.take(i as int), wanted, true).push(
                    full[i as int],
                ));
            }
        }
    }
    proof {
        assert(full.take(packets@.len() as int) =~= full);
    }
    r
}

/// The messages whose id matches the queried one, in their given order.
pub open spec fn matching_messages(s: Seq<MessageModel>, msgid: Seq<u8>) -> Seq<MessageModel> {
    s.filter(|m: MessageModel| m.msgid == msgid)
}

/// One unfolding of the filter under `matching_messages`.
proof fn lemma_matching_messages_push(s: Seq<MessageModel>, x: MessageModel, msgid: Seq<u8>)
    ensures
        matching_messages(s.push(x), msgid) == if x.msgid == msgid {
            matching_messages(s, msgid).push(x)
        } else {
            matching_messages(s, msgid)
        },
{
    reveal(Seq::filter);
    assert(s.push(x).drop_last() =~= s);
    assert(s.push(x).last() == x);
}

/// The filter distributes over concatenation.
proof fn lemma_matching_messages_add(a: Seq<MessageModel>, b: Seq<MessageModel>, msgid: Seq<u8>)
    ensures
        matching_messages(a + b, msgid) == matching_messages(a, msgid) + matching_messages(
            b,
            msgid,
        ),
{
    broadcast use Seq::filter_distributes_over_add;

}

/// Whether a message carries the queried message id.
fn msgid_matches(m: &Message, msgid: &Vec<u8>) -> (r: bool)
    ensures
        r == (m@.msgid == msgid@),
{
    proof {
        lemma_lex_cmp_zero(m@.msgid, msgid@);
    }
    lex_cmp_exec(&m.link.msgid, msgid) == 0
}

/// Single-message lookup: of the decoded messages, keep those whose id
/// matches the queried one; none is a normal miss, exactly one is the
/// answer, and more than one is an ambiguous lookup, never silently
/// resolved.
pub fn receive_one(msgs: &Vec<Message>, msgid: &Vec<u8>) -> (r: Result<
    Option<Message>,
    TransportError,
>)
    ensures
        ({
            let f = matching_messages(msgs_view(msgs@), msgid@);
            match r {
                Ok(None) => f.len() == 0,
                Ok(Some(m)) => f.len() == 1 && m@ == f[0],
                Err(e) => f.len() > 1 && e == TransportError::AmbiguousLookup,
            }
        }),
{
    let ghost full = msgs_view(msgs@);
    let mut first: Option<usize> = None;
    for i in 0..msgs.len()
        invariant
            full == msgs_view(msgs@),
            full.len() == msgs@.len(),
            match first {
                None => matching_messages(full.take(i as int), msgid@).len() == 0,
                Some(k) => {
                    let f = matching_messages(full.take(i as int), msgid@);
                    &&& k < i
                    &&& k < msgs@.len()
                    &&& f.len() == 1
                    &&& f[0] == full[k as int]
                },
            },
    {
        proof {
            assert(full.take(i + 1) =~= full.take(i as int).push(full[i as int]));
            lemma_matching_messages_push(full.take(i as int), full[i as int], msgid@);
        }
        if msgid_matches(&msgs[i], msgid) {
            match first {
                None => {
                    first = Some(i);
                },
                Some(_) => {
                    proof {
                        assert(full =~= full.take(i + 1) + full.skip(i + 1));
                        lemma_matching_messages_add(full.take(i + 1), full.skip(i + 1), msgid@);
                        assert(matching_messages(full, msgid@).len() >= 2);
                    }
                    return Err(TransportError::AmbiguousLookup);
                },
            }
        }
    }
    proof {
        assert(full.take(msgs@.len() as int) =~= full);
    }
    match first {
        None => Ok(None),
        Some(k) => Ok(Some(msgs[k].clone())),
    }
}

/// The order in which a bundle's transactions are handed to the ledger for
/// attachment: last chunk first.
pub fn attach_order(bundle: &Vec<Transaction>) -> (r: Vec<Transaction>)
    ensures
        txs_view(r@) == txs_view(bundle@).reverse(),
{
    let n = bundle.len();
    let mut r: Vec<Transaction> = Vec::new();
    for i in 0..n
        invariant
            n == bundle@.len(),
            r@.len() == i,
            forall|j: int| 0 <= j < i ==> txs_view(r@)[j] == txs_view(bundle@)[n - 1 - j],
    {
        let t = bundle[n - 1 - i].clone();
        let ghost r0 = r@;
        r.push(t);
        proof {
            assert forall|j: int| 0 <= j < i + 1 implies txs_view(r@)[j] == txs_view(bundle@)[n - 1
                - j] by {
                if j < i {
                    assert(r@[j] == r0[j]);
                    assert(txs_view(r0)[j] == txs_view(bundle@)[n - 1 - j]);
                } else {
                    assert(r@[j] == t);
                }
            }
        }
    }
    proof {
        assert(txs_view(r@) =~= txs_view(bundle@).reverse());
    }
    r
}

} // verus!
