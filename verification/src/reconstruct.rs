//! The bundle reconstructor: grouping fetched transactions into bundles and
//! decoding each bundle into a logical message.
//!
//! A ledger query returns a flat, unordered collection of transactions. The
//! reconstructor sorts them by address, tag, bundle hash and index, groups
//! maximal runs that share the (address, tag, bundle hash) triple — the hash
//! alone must not be used, since it is computed over a field subset that
//! excludes the tag, so distinct messages may collide in it — and
//! concatenates each group's payload chunks in ascending index order.

use vstd::prelude::*;
use vstd::multiset::Multiset;
use vstd::seq_lib::group_to_multiset_ensures;
use vstd::seq_lib::lemma_multiset_commutative;

use crate::encode::chunk_count;
use crate::encode::encode_spec;
use crate::encode::lemma_chunk_count;
use crate::encode::padded;
use crate::order::key_cmp;
use crate::order::lemma_key_cmp_antisym;
use crate::order::lemma_key_cmp_trans;
use crate::order::lemma_key_cmp_zero;
use crate::order::lemma_tx_le_refl;
use crate::order::lemma_tx_le_same_key_index;
use crate::order::lemma_tx_le_total;
use crate::order::lemma_tx_le_trans;
use crate::order::same_key;
use crate::order::same_key_exec;
use crate::order::tx_le;
use crate::order::tx_le_exec;
use crate::transaction::ADDRESS_WIDTH;
use crate::transaction::PAYLOAD_WIDTH;
use crate::transaction::TAG_WIDTH;
use crate::transaction::Message;
use crate::transaction::MessageModel;
use crate::transaction::TangleAddress;
use crate::transaction::Transaction;
use crate::transaction::TxModel;
use crate::transaction::bundle_views;
use crate::transaction::msgs_view;
use crate::transaction::txs_view;

verus! {

/// `t` inserted after every element that precedes or equals it: one step of
/// a stable insertion sort.
pub open spec fn insert_sorted(t: TxModel, s: Seq<TxModel>) -> Seq<TxModel>
    decreases s.len(),
{
    if s.len() == 0 {
        seq![t]
    } else if tx_le(s[0], t) {
        seq![s[0]] + insert_sorted(t, s.drop_first())
    } else {
        seq![t] + s
    }
}

/// The transactions in sorted order; equal elements keep their input order.
pub open spec fn sort_spec(s: Seq<TxModel>) -> Seq<TxModel>
    decreases s.len(),
{
    if s.len() == 0 {
        Seq::empty()
    } else {
        insert_sorted(s.last(), sort_spec(s.drop_last()))
    }
}

/// The sequence is ordered by [`tx_le`].
pub open spec fn sorted(s: Seq<TxModel>) -> bool {
    forall|i: int, j: int| 0 <= i < j < s.len() ==> tx_le(s[i], s[j])
}

/// The empty sequence has the empty multiset.
proof fn lemma_to_multiset_empty()
    ensures
        Seq::<TxModel>::empty().to_multiset() == Multiset::<TxModel>::empty(),
{
    broadcast use group_to_multiset_ensures;

    assert(Seq::<TxModel>::empty().to_multiset() =~= Multiset::<TxModel>::empty());
}

/// Inserting adds one element and otherwise keeps the multiset.
proof fn lemma_insert_sorted_multiset(t: TxModel, s: Seq<TxModel>)
    ensures
        insert_sorted(t, s).len() == s.len() + 1,
        insert_sorted(t, s).to_multiset() == s.to_multiset().insert(t),
    decreases s.len(),
{
    broadcast use group_to_multiset_ensures;

    if s.len() == 0 {
        lemma_to_multiset_empty();
        assert(seq![t] =~= Seq::<TxModel>::empty().push(t));
        assert(seq![t].to_multiset() =~= s.to_multiset().insert(t));
    } else if tx_le(s[0], t) {
        lemma_insert_sorted_multiset(t, s.drop_first());
        let ins = insert_sorted(t, s.drop_first());
        lemma_multiset_commutative(seq![s[0]], ins);
        assert(s =~= seq![s[0]] + s.drop_first());
        lemma_multiset_commutative(seq![s[0]], s.drop_first());
        assert(seq![s[0]].to_multiset().add(s.drop_first().to_multiset().insert(t)) =~= seq![
            s[0],
        ].to_multiset().add(s.drop_first().to_multiset()).insert(t));
    } else {
        lemma_multiset_commutative(seq![t], s);
        lemma_to_multiset_empty();
        assert(seq![t] =~= Seq::<TxModel>::empty().push(t));
        assert(seq![t].to_multiset().add(s.to_multiset()) =~= s.to_multiset().insert(t));
    }
}

/// An element below `t` and below everything in `u` is below everything in
/// the insertion's result.
proof fn lemma_insert_le_all(x: TxModel, t: TxModel, u: Seq<TxModel>)
    requires
        tx_le(x, t),
        forall|k: int| 0 <= k < u.len() ==> tx_le(x, u[k]),
    ensures
        forall|m: int|
            0 <= m < insert_sorted(t, u).len() ==> tx_le(x, #[trigger] insert_sorted(t, u)[m]),
    decreases u.len(),
{
    if u.len() == 0 {
    } else if tx_le(u[0], t) {
        assert(forall|k: int| 0 <= k < u.drop_first().len() ==> tx_le(x, u.drop_first()[k]));
        lemma_insert_le_all(x, t, u.drop_first());
        let ins = insert_sorted(t, u.drop_first());
        assert forall|m: int| 0 <= m < insert_sorted(t, u).len() implies tx_le(
            x,
            #[trigger] insert_sorted(t, u)[m],
        ) by {
            if m > 0 {
                assert(insert_sorted(t, u)[m] == ins[m - 1]);
            }
        }
    } else {
        assert forall|m: int| 0 <= m < insert_sorted(t, u).len() implies tx_le(
            x,
            #[trigger] insert_sorted(t, u)[m],
        ) by {
            if m > 0 {
                assert(insert_sorted(t, u)[m] == u[m - 1]);
            }
        }
    }
}

/// Insertion into a sorted sequence keeps it sorted.
proof fn lemma_insert_sorted_sorted(t: TxModel, s: Seq<TxModel>)
    requires
        sorted(s),
    ensures
        sorted(insert_sorted(t, s)),
    decreases s.len(),
{
    if s.len() == 0 {
    } else if tx_le(s[0], t) {
        assert(sorted(s.drop_first()));
        lemma_insert_sorted_sorted(t, s.drop_first());
        assert(forall|k: int|
            0 <= k < s.drop_first().len() ==> tx_le(s[0], #[trigger] s.drop_first()[k]));
        lemma_insert_le_all(s[0], t, s.drop_first());
        let ins = insert_sorted(t, s.drop_first());
        let r = insert_sorted(t, s);
        assert forall|i: int, j: int| 0 <= i < j < r.len() implies tx_le(r[i], r[j]) by {
            if i == 0 {
                assert(r[j] == ins[j - 1]);
            } else {
                assert(r[i] == ins[i - 1]);
                assert(r[j] == ins[j - 1]);
            }
        }
    } else {
        lemma_tx_le_total(s[0], t);
        let r = insert_sorted(t, s);
        assert forall|i: int, j: int| 0 <= i < j < r.len() implies tx_le(r[i], r[j]) by {
            if i == 0 {
                assert(r[j] == s[j - 1]);
                if j > 1 {
                    lemma_tx_le_trans(t, s[0], s[j - 1]);
                }
            }
        }
    }
}

/// Sorting keeps the length and the multiset, and orders the result.
proof fn lemma_sort_spec_ensures(s: Seq<TxModel>)
    ensures
        sort_spec(s).len() == s.len(),
        sort_spec(s).to_multiset() == s.to_multiset(),
        sorted(sort_spec(s)),
    decreases s.len(),
{
    broadcast use group_to_multiset_ensures;

    if s.len() == 0 {
    } else {
        lemma_sort_spec_ensures(s.drop_last());
        lemma_insert_sorted_multiset(s.last(), sort_spec(s.drop_last()));
        lemma_insert_sorted_sorted(s.last(), sort_spec(s.drop_last()));
        assert(s =~= s.drop_last().push(s.last()));
        assert(s.drop_last().push(s.last()).to_multiset() == s.drop_last().to_multiset().insert(
            s.last(),
        ));
    }
}

/// Where the insertion lands when scanning a sorted sequence: after the
/// longest prefix of elements that precede or equal `t`.
proof fn lemma_insert_sorted_at(t: TxModel, s: Seq<TxModel>, j: int)
    requires
        sorted(s),
        0 <= j <= s.len(),
        forall|m: int| 0 <= m < j ==> tx_le(#[trigger] s[m], t),
        j < s.len() ==> !tx_le(s[j], t),
    ensures
        insert_sorted(t, s) == s.take(j) + seq![t] + s.skip(j),
    decreases s.len(),
{
    if s.len() == 0 {
        assert(insert_sorted(t, s) =~= s.take(j) + seq![t] + s.skip(j));
    } else if j == 0 {
        assert(!tx_le(s[0], t));
        assert(insert_sorted(t, s) =~= s.take(0) + seq![t] + s.skip(0));
    } else {
        assert(tx_le(s[0], t));
        assert(sorted(s.drop_first()));
        assert(forall|m: int| 0 <= m < j - 1 ==> tx_le(#[trigger] s.drop_first()[m], t));
        lemma_insert_sorted_at(t, s.drop_first(), j - 1);
        assert(insert_sorted(t, s) =~= s.take(j) + seq![t] + s.skip(j));
    }
}

/// Sorts the transactions by address, tag, bundle hash and index; equal
/// transactions keep their input order.
fn sort_txs(txs: &Vec<Transaction>) -> (r: Vec<Transaction>)
    ensures
        txs_view(r@) == sort_spec(txs_view(txs@)),
{
    let ghost u = txs_view(txs@);
    let mut out: Vec<Transaction> = Vec::new();
    proof {
        assert(u.take(0) =~= Seq::<TxModel>::empty());
        assert(txs_view(out@) =~= sort_spec(u.take(0)));
    }
    for i in 0..txs.len()
        invariant
            u == txs_view(txs@),
            u.len() == txs@.len(),
            out@.len() == i,
            txs_view(out@) == sort_spec(u.take(i as int)),
    {
        proof {
            lemma_sort_spec_ensures(u.take(i as int));
        }
        let t = txs[i].clone();
        let mut j: usize = 0;
        let mut found = false;
        while !found && j < out.len()
            invariant
                0 <= j <= out@.len(),
                t@ == u[i as int],
                txs_view(out@) == sort_spec(u.take(i as int)),
                out@.len() == i,
                i < u.len(),
                forall|m: int| 0 <= m < j ==> tx_le(#[trigger] txs_view(out@)[m], t@),
                found ==> j < out@.len() && !tx_le(txs_view(out@)[j as int], t@),
            decreases out@.len() - j + (if found {
                0int
            } else {
                1int
            }),
        {
            if tx_le_exec(&out[j], &t) {
                j = j + 1;
            } else {
                found = true;
            }
        }
        proof {
            lemma_insert_sorted_at(t@, txs_view(out@), j as int);
        }
        let ghost old_view = txs_view(out@);
        out.insert(j, t);
        proof {
            assert(txs_view(out@) =~= old_view.take(j as int) + seq![t@] + old_view.skip(j as int));
            assert(u.take(i + 1).drop_last() =~= u.take(i as int));
            assert(u.take(i + 1).last() == u[i as int]);
            assert(txs_view(out@) == insert_sorted(t@, sort_spec(u.take(i as int))));
            assert(txs_view(out@) == sort_spec(u.take(i + 1)));
        }
    }
    proof {
        assert(u.take(txs@.len() as int) =~= u);
    }
    out
}

/// Maximal runs of the same (address, tag, bundle hash) triple, grouped
/// left to right.
pub open spec fn group_spec(s: Seq<TxModel>) -> Seq<Seq<TxModel>>
    decreases s.len(),
{
    if s.len() == 0 {
        Seq::empty()
    } else {
        let rest = group_spec(s.drop_last());
        if rest.len() > 0 && same_key(rest.last().last(), s.last()) {
            rest.update(rest.len() - 1, rest.last().push(s.last()))
        } else {
            rest.push(seq![s.last()])
        }
    }
}

/// The bundles reconstructed from a flat transaction collection.
pub open spec fn bundles_spec(s: Seq<TxModel>) -> Seq<Seq<TxModel>> {
    group_spec(sort_spec(s))
}

/// Every reconstructed group holds at least one transaction, and the last
/// group ends with the last grouped element.
proof fn lemma_group_nonempty(s: Seq<TxModel>)
    ensures
        forall|g: int| 0 <= g < group_spec(s).len() ==> #[trigger] group_spec(s)[g].len() > 0,
        s.len() > 0 ==> group_spec(s).len() > 0 && group_spec(s).last().last() == s.last(),
    decreases s.len(),
{
    if s.len() > 0 {
        lemma_group_nonempty(s.drop_last());
        let rest = group_spec(s.drop_last());
        let r = group_spec(s);
        if rest.len() > 0 && same_key(rest.last().last(), s.last()) {
            assert forall|g: int| 0 <= g < r.len() implies #[trigger] r[g].len() > 0 by {
                if g < r.len() - 1 {
                    assert(r[g] == rest[g]);
                }
            }
        } else {
            assert forall|g: int| 0 <= g < r.len() implies #[trigger] r[g].len() > 0 by {
                if g < r.len() - 1 {
                    assert(r[g] == rest[g]);
                }
            }
        }
    }
}

/// Groups a sorted transaction vector into maximal runs sharing the
/// (address, tag, bundle hash) triple.
fn group_txs(sorted_txs: Vec<Transaction>) -> (r: Vec<Vec<Transaction>>)
    ensures
        bundle_views(r@) == group_spec(txs_view(sorted_txs@)),
{
    let ghost u = txs_view(sorted_txs@);
    let mut groups: Vec<Vec<Transaction>> = Vec::new();
    proof {
        assert(u.take(0) =~= Seq::<TxModel>::empty());
        assert(bundle_views(groups@) =~= group_spec(u.take(0)));
    }
    for i in 0..sorted_txs.len()
        invariant
            u == txs_view(sorted_txs@),
            u.len() == sorted_txs@.len(),
            bundle_views(groups@) == group_spec(u.take(i as int)),
            groups@.len() > 0 ==> groups@[groups@.len() - 1]@.len() > 0,
    {
        let t = sorted_txs[i].clone();
        proof {
            assert(u.take(i + 1).drop_last() =~= u.take(i as int));
            assert(u.take(i + 1).last() == u[i as int]);
        }
        let ghost rest = group_spec(u.take(i as int));
        let merge = if groups.len() > 0 {
            let gi = groups.len() - 1;
            let gl = groups[gi].len();
            proof {
                assert(rest.last() == txs_view(groups@[gi as int]@));
                assert(rest.last().last() == groups@[gi as int]@[gl - 1]@);
            }
            same_key_exec(&groups[gi][gl - 1], &t)
        } else {
            false
        };
        proof {
            assert(merge == (rest.len() > 0 && same_key(rest.last().last(), u[i as int])));
        }
        if merge {
            let mut g = match groups.pop() {
                Some(g) => g,
                None => vstd::pervasive::unreached(),  // merging needs an open group
            };
            let ghost old_groups = groups@;
            g.push(t);
            groups.push(g);
            proof {
                assert(txs_view(g@) =~= rest.last().push(u[i as int]));
                assert(bundle_views(groups@) =~= rest.update(
                    rest.len() - 1,
                    rest.last().push(u[i as int]),
                ));
            }
        } else {
            let mut g: Vec<Transaction> = Vec::new();
            g.push(t);
            groups.push(g);
            proof {
                assert(txs_view(g@) =~= seq![u[i as int]]);
                assert(bundle_views(groups@) =~= rest.push(seq![u[i as int]]));
            }
        }
    }
    proof {
        assert(u.take(sorted_txs@.len() as int) =~= u);
    }
    groups
}

/// Partitions a flat transaction collection into bundles: transactions are
/// sorted by address, tag, bundle hash and ascending index, and maximal runs
/// sharing the (address, tag, bundle hash) triple form one bundle each.
pub fn bundles_from_transactions(txs: &Vec<Transaction>) -> (r: Vec<Vec<Transaction>>)
    ensures
        bundle_views(r@) == bundles_spec(txs_view(txs@)),
{
    let sorted_txs = sort_txs(txs);
    group_txs(sorted_txs)
}

/// The payload chunks of a bundle, concatenated in bundle order.
pub open spec fn concat_payloads(b: Seq<TxModel>) -> Seq<u8>
    decreases b.len(),
{
    if b.len() == 0 {
        Seq::empty()
    } else {
        concat_payloads(b.drop_last()) + b.last().payload
    }
}

/// The message a bundle decodes to: the common address and tag, and the
/// concatenated payload.
pub open spec fn message_of(b: Seq<TxModel>) -> MessageModel {
    MessageModel { address: b[0].address, msgid: b[0].tag, payload: concat_payloads(b) }
}

/// The messages reconstructed from a flat transaction collection.
pub open spec fn reconstruct_spec(s: Seq<TxModel>) -> Seq<MessageModel> {
    bundles_spec(s).map_values(|b: Seq<TxModel>| message_of(b))
}

/// Decodes one bundle into its message: the first transaction's address and
/// tag, and every payload chunk concatenated in bundle order.
pub fn bundle_to_message(bundle: &Vec<Transaction>) -> (r: Message)
    requires
        bundle@.len() > 0,
    ensures
        r@ == message_of(txs_view(bundle@)),
{
    let ghost b = txs_view(bundle@);
    let mut body: Vec<u8> = Vec::new();
    proof {
        assert(b.take(0) =~= Seq::<TxModel>::empty());
        assert(body@ =~= concat_payloads(b.take(0)));
    }
    for i in 0..bundle.len()
        invariant
            b == txs_view(bundle@),
            b.len() == bundle@.len(),
            body@ == concat_payloads(b.take(i as int)),
    {
        let p_len = bundle[i].payload.len();
        let ghost before = body@;
        let mut k: usize = 0;
        while k < p_len
            invariant
                0 <= k <= p_len,
                i < bundle@.len(),
                b == txs_view(bundle@),
                p_len == bundle@[i as int].payload@.len(),
                body@ == before + bundle@[i as int].payload@.take(k as int),
            decreases p_len - k,
        {
            body.push(bundle[i].payload[k]);
            k = k + 1;
            proof {
                assert(body@ =~= before + bundle@[i as int].payload@.take(k as int));
            }
        }
        proof {
            assert(b.take(i + 1).drop_last() =~= b.take(i as int));
            assert(b.take(i + 1).last() == b[i as int]);
            assert(bundle@[i as int].payload@.take(p_len as int) =~= b[i as int].payload);
            assert(body@ =~= concat_payloads(b.take(i + 1)));
        }
    }
    proof {
        assert(b.take(bundle@.len() as int) =~= b);
    }
    let r = Message {
        link: TangleAddress {
            appinst: bundle[0].address.clone(),
            msgid: bundle[0].tag.clone(),
        },
        body,
    };
    proof {
        assert(r@.address =~= b[0].address);
        assert(r@.msgid =~= b[0].tag);
        assert(r@ =~= message_of(b));
    }
    r
}

/// Reconstructs every message carried by a flat transaction collection:
/// partitions the transactions into bundles and decodes each bundle.
pub fn messages_from_transactions(txs: &Vec<Transaction>) -> (r: Vec<Message>)
    ensures
        msgs_view(r@) == reconstruct_spec(txs_view(txs@)),
{
    let bundles = bundles_from_transactions(txs);
    proof {
        lemma_sort_spec_ensures(txs_view(txs@));
        lemma_group_nonempty(sort_spec(txs_view(txs@)));
    }
    let mut msgs: Vec<Message> = Vec::new();
    proof {
        assert(msgs_view(msgs@) =~= reconstruct_spec(txs_view(txs@)).take(0));
    }
    for i in 0..bundles.len()
        invariant
            bundle_views(bundles@) == bundles_spec(txs_view(txs@)),
            forall|g: int|
                0 <= g < bundles_spec(txs_view(txs@)).len() ==> #[trigger] bundles_spec(
                    txs_view(txs@),
                )[g].len() > 0,
            msgs@.len() == i,
            msgs_view(msgs@) == reconstruct_spec(txs_view(txs@)).take(i as int),
    {
        proof {
            assert(txs_view(bundles@[i as int]@) == bundles_spec(txs_view(txs@))[i as int]);
        }
        let m = bundle_to_message(&bundles[i]);
        msgs.push(m);
        proof {
            assert(msgs_view(msgs@) =~= reconstruct_spec(txs_view(txs@)).take(i + 1));
        }
    }
    proof {
        assert(reconstruct_spec(txs_view(txs@)).take(bundles@.len() as int) =~= reconstruct_spec(
            txs_view(txs@),
        ));
    }
    msgs
}

/// Grouping only regroups: flattening the groups gives back the sequence.
proof fn lemma_group_flatten(s: Seq<TxModel>)
    ensures
        group_spec(s).flatten() == s,
    decreases s.len(),
{
    if s.len() == 0 {
        assert(group_spec(s).flatten() =~= s);
    } else {
        let s1 = s.drop_last();
        let x = s.last();
        lemma_group_flatten(s1);
        lemma_group_nonempty(s1);
        let rest = group_spec(s1);
        if rest.len() > 0 && same_key(rest.last().last(), x) {
            let g2 = rest.last().push(x);
            let r = rest.update(rest.len() - 1, g2);
            assert(r =~= rest.drop_last().push(g2));
            rest.drop_last().lemma_flatten_push(g2);
            assert(rest =~= rest.drop_last().push(rest.last()));
            rest.drop_last().lemma_flatten_push(rest.last());
            assert(r.flatten() =~= rest.flatten().push(x));
            assert(rest.flatten().push(x) =~= s);
        } else {
            rest.lemma_flatten_push(seq![x]);
            assert(group_spec(s) == rest.push(seq![x]));
            assert(rest.flatten() + seq![x] =~= s);
        }
    }
}

/// Partition totality: the reconstructed bundles carry exactly the input
/// transactions — the count is preserved, and nothing is lost or duplicated.
pub proof fn lemma_partition(s: Seq<TxModel>)
    ensures
        bundles_spec(s).flatten().to_multiset() == s.to_multiset(),
        bundles_spec(s).flatten().len() == s.len(),
{
    lemma_sort_spec_ensures(s);
    lemma_group_flatten(sort_spec(s));
}

/// Within each group all transactions share the grouping triple, the groups
/// carry pairwise distinct triples, each group is ordered by `tx_le`, and
/// everything grouped so far precedes the last grouped element.
proof fn lemma_group_props(s: Seq<TxModel>)
    requires
        sorted(s),
    ensures
        forall|g: int, i: int|
            0 <= g < group_spec(s).len() && 0 <= i < group_spec(s)[g].len() ==> same_key(
                #[trigger] group_spec(s)[g][i],
                group_spec(s)[g][0],
            ),
        forall|p: int, q: int|
            0 <= p < q < group_spec(s).len() ==> !same_key(
                #[trigger] group_spec(s)[p][0],
                #[trigger] group_spec(s)[q][0],
            ),
        forall|g: int, i: int, j: int|
            #![trigger group_spec(s)[g][i], group_spec(s)[g][j]]
            0 <= g < group_spec(s).len() && 0 <= i < j < group_spec(s)[g].len() ==> tx_le(
                group_spec(s)[g][i],
                group_spec(s)[g][j],
            ),
        forall|g: int, i: int|
            s.len() > 0 && 0 <= g < group_spec(s).len() && 0 <= i < group_spec(s)[g].len()
                ==> tx_le(#[trigger] group_spec(s)[g][i], s.last()),
    decreases s.len(),
{
    if s.len() == 0 {
    } else {
        let s1 = s.drop_last();
        let x = s.last();
        assert(sorted(s1)) by {
            assert forall|i: int, j: int| 0 <= i < j < s1.len() implies tx_le(s1[i], s1[j]) by {
                assert(s1[i] == s[i] && s1[j] == s[j]);
            }
        }
        lemma_group_props(s1);
        lemma_group_nonempty(s1);
        let rest = group_spec(s1);
        let r = group_spec(s);
        lemma_tx_le_refl(x);
        // everything already grouped precedes the new element
        assert forall|g: int, i: int|
            0 <= g < rest.len() && 0 <= i < rest[g].len() implies tx_le(
            #[trigger] rest[g][i],
            x,
        ) by {
            assert(s1.len() > 0);
            assert(tx_le(rest[g][i], s1.last()));
            assert(s1.last() == s[s.len() - 2] && x == s[s.len() - 1]);
            assert(tx_le(s1.last(), x));
            lemma_tx_le_trans(rest[g][i], s1.last(), x);
        }
        if rest.len() > 0 && same_key(rest.last().last(), x) {
            let ll = rest.len() - 1;
            assert(r == rest.update(ll, rest.last().push(x)));
            assert forall|g: int, i: int|
                0 <= g < r.len() && 0 <= i < r[g].len() implies same_key(
                #[trigger] r[g][i],
                r[g][0],
            ) by {
                if g < ll {
                    assert(r[g] == rest[g]);
                } else {
                    assert(r[g] == rest.last().push(x));
                    if i < rest.last().len() {
                        assert(r[g][i] == rest.last()[i]);
                    } else {
                        assert(r[g][i] == x);
                        assert(same_key(rest.last().last(), rest.last()[0]));
                    }
                }
            }
            assert forall|p: int, q: int| 0 <= p < q < r.len() implies !same_key(
                #[trigger] r[p][0],
                #[trigger] r[q][0],
            ) by {
                assert(r[p][0] == rest[p][0]);
                assert(r[q][0] == rest[q][0]);
            }
            assert forall|g: int, i: int, j: int|
                #![trigger r[g][i], r[g][j]]
                0 <= g < r.len() && 0 <= i < j < r[g].len() implies tx_le(r[g][i], r[g][j]) by {
                if g < ll {
                    assert(r[g] == rest[g]);
                } else {
                    assert(r[g] == rest.last().push(x));
                    if j < rest.last().len() {
                        assert(r[g][i] == rest.last()[i] && r[g][j] == rest.last()[j]);
                    } else {
                        assert(r[g][j] == x);
                        assert(r[g][i] == rest.last()[i]);
                    }
                }
            }
            assert forall|g: int, i: int|
                0 <= g < r.len() && 0 <= i < r[g].len() implies tx_le(#[trigger] r[g][i], x) by {
                if g < ll {
                    assert(r[g] == rest[g]);
                } else {
                    assert(r[g] == rest.last().push(x));
                    if i < rest.last().len() {
                        assert(r[g][i] == rest.last()[i]);
                    } else {
                        assert(r[g][i] == x);
                    }
                }
            }
        } else {
            assert(r == rest.push(seq![x]));
            // the new group's triple differs from every earlier group's
            assert forall|p: int| 0 <= p < rest.len() implies !same_key(rest[p][0], x) by {
                if same_key(rest[p][0], x) {
                    let y = rest.last().last();
                    assert(s1.len() > 0);
                    assert(y == s1.last());
                    assert(tx_le(rest[p][0], y));
                    assert(s1.last() == s[s.len() - 2] && x == s[s.len() - 1]);
                    assert(tx_le(y, x));
                    lemma_key_cmp_zero(rest[p][0], x);
                    lemma_key_cmp_antisym(rest[p][0], x);
                    assert(key_cmp(rest[p][0], y) <= 0);
                    assert(key_cmp(y, x) <= 0);
                    lemma_key_cmp_trans(x, rest[p][0], y);
                    lemma_key_cmp_antisym(y, x);
                    lemma_key_cmp_zero(y, x);
                    assert(same_key(rest.last().last(), x));
                    assert(false);
                }
            }
            assert forall|g: int, i: int|
                0 <= g < r.len() && 0 <= i < r[g].len() implies same_key(
                #[trigger] r[g][i],
                r[g][0],
            ) by {
                if g < rest.len() {
                    assert(r[g] == rest[g]);
                } else {
                    assert(r[g] == seq![x]);
                }
            }
            assert forall|p: int, q: int| 0 <= p < q < r.len() implies !same_key(
                #[trigger] r[p][0],
                #[trigger] r[q][0],
            ) by {
                assert(r[p] == rest[p]);
                if q < rest.len() {
                    assert(r[q] == rest[q]);
                } else {
                    assert(r[q] == seq![x]);
                }
            }
            assert forall|g: int, i: int, j: int|
                #![trigger r[g][i], r[g][j]]
                0 <= g < r.len() && 0 <= i < j < r[g].len() implies tx_le(r[g][i], r[g][j]) by {
                if g < rest.len() {
                    assert(r[g] == rest[g]);
                } else {
                    assert(r[g] == seq![x]);
                }
            }
            assert forall|g: int, i: int|
                0 <= g < r.len() && 0 <= i < r[g].len() implies tx_le(#[trigger] r[g][i], x) by {
                if g < rest.len() {
                    assert(r[g] == rest[g]);
                } else {
                    assert(r[g] == seq![x]);
                }
            }
        }
    }
}

/// Ordering: within every reconstructed bundle the transaction indices are
/// non-decreasing, and all transactions of one bundle share the grouping
/// triple while distinct bundles differ in it.
pub proof fn lemma_bundle_ordering(s: Seq<TxModel>)
    ensures
        forall|g: int, i: int, j: int|
            #![trigger bundles_spec(s)[g][i], bundles_spec(s)[g][j]]
            0 <= g < bundles_spec(s).len() && 0 <= i < j < bundles_spec(s)[g].len()
                ==> bundles_spec(s)[g][i].index <= bundles_spec(s)[g][j].index,
        forall|g: int, i: int|
            0 <= g < bundles_spec(s).len() && 0 <= i < bundles_spec(s)[g].len() ==> same_key(
                #[trigger] bundles_spec(s)[g][i],
                bundles_spec(s)[g][0],
            ),
        forall|p: int, q: int|
            0 <= p < q < bundles_spec(s).len() ==> !same_key(
                #[trigger] bundles_spec(s)[p][0],
                #[trigger] bundles_spec(s)[q][0],
            ),
{
    lemma_sort_spec_ensures(s);
    lemma_group_props(sort_spec(s));
    let b = bundles_spec(s);
    assert forall|g: int, i: int, j: int|
        #![trigger b[g][i], b[g][j]]
        0 <= g < b.len() && 0 <= i < j < b[g].len() implies b[g][i].index <= b[g][j].index by {
        assert(same_key(b[g][i], b[g][0]) && same_key(b[g][j], b[g][0]));
        assert(tx_le(b[g][i], b[g][j]));
        lemma_tx_le_same_key_index(b[g][i], b[g][j]);
    }
}

/// A value sitting at two distinct positions has multiplicity at least two.
proof fn lemma_count_from_positions(b: Seq<TxModel>, i: int, j: int)
    requires
        0 <= i < j < b.len(),
        b[i] == b[j],
    ensures
        b.to_multiset().count(b[i]) >= 2,
{
    broadcast use group_to_multiset_ensures;
    broadcast use vstd::multiset::group_multiset_axioms;

    let v = b[i];
    let b2 = b.remove(i);
    vstd::seq_lib::to_multiset_remove(b, i);
    b.remove_ensures(i);
    assert(b2[j - 1] == v);
    assert(b2.contains(v));
    assert(b2.to_multiset().count(v) > 0);
    assert(b.to_multiset().remove(v).count(v) >= 1);
}

/// A multiplicity of two — or two distinct values each present once — yields
/// two distinct positions.
proof fn lemma_positions_from_counts(s: Seq<TxModel>, v: TxModel, w: TxModel)
    requires
        v == w ==> s.to_multiset().count(v) >= 2,
        v != w ==> s.to_multiset().count(v) >= 1 && s.to_multiset().count(w) >= 1,
    ensures
        exists|i: int, j: int|
            #![trigger s[i], s[j]]
            0 <= i < j < s.len() && ((s[i] == v && s[j] == w) || (s[i] == w && s[j] == v)),
{
    broadcast use group_to_multiset_ensures;
    broadcast use vstd::multiset::group_multiset_axioms;

    if v == w {
        assert(s.contains(v));
        let i = choose|i: int| 0 <= i < s.len() && s[i] == v;
        let s2 = s.remove(i);
        vstd::seq_lib::to_multiset_remove(s, i);
        s.remove_ensures(i);
        assert(s2.to_multiset().count(v) >= 1);
        assert(s2.contains(v));
        let k = choose|k: int| 0 <= k < s2.len() && s2[k] == v;
        if k < i {
            assert(s[k] == v && s[i] == v);
            assert(0 <= k < i < s.len());
        } else {
            assert(s[k + 1] == v && s[i] == v);
            assert(0 <= i < k + 1 < s.len());
        }
    } else {
        assert(s.contains(v));
        assert(s.contains(w));
        let i = choose|i: int| 0 <= i < s.len() && s[i] == v;
        let k = choose|k: int| 0 <= k < s.len() && s[k] == w;
        assert(i != k);
        if i < k {
            assert(0 <= i < k < s.len() && s[i] == v && s[k] == w);
        } else {
            assert(0 <= k < i < s.len() && s[k] == w && s[i] == v);
        }
    }
}

/// A group's multiplicities are bounded by the flattened multiplicities.
proof fn lemma_flatten_count(gs: Seq<Seq<TxModel>>, g: int, v: TxModel)
    requires
        0 <= g < gs.len(),
    ensures
        gs.flatten().to_multiset().count(v) >= gs[g].to_multiset().count(v),
    decreases gs.len(),
{
    broadcast use vstd::multiset::group_multiset_axioms;

    assert(gs.flatten() == gs.first() + gs.drop_first().flatten());
    lemma_multiset_commutative(gs.first(), gs.drop_first().flatten());
    if g > 0 {
        lemma_flatten_count(gs.drop_first(), g - 1, v);
        assert(gs.drop_first()[g - 1] == gs[g]);
    }
}

/// Ordering, strict form: when no two transactions of one bundle share an
/// index, the indices within every reconstructed bundle strictly increase.
pub proof fn lemma_bundle_ordering_strict(s: Seq<TxModel>)
    requires
        forall|i: int, j: int|
            0 <= i < j < s.len() ==> !(same_key(#[trigger] s[i], #[trigger] s[j]) && s[i].index
                == s[j].index),
    ensures
        forall|g: int, i: int, j: int|
            #![trigger bundles_spec(s)[g][i], bundles_spec(s)[g][j]]
            0 <= g < bundles_spec(s).len() && 0 <= i < j < bundles_spec(s)[g].len()
                ==> bundles_spec(s)[g][i].index < bundles_spec(s)[g][j].index,
{
    broadcast use group_to_multiset_ensures;

    lemma_bundle_ordering(s);
    lemma_sort_spec_ensures(s);
    lemma_group_flatten(sort_spec(s));
    let b = bundles_spec(s);
    assert forall|g: int, i: int, j: int|
        #![trigger b[g][i], b[g][j]]
        0 <= g < b.len() && 0 <= i < j < b[g].len() implies b[g][i].index < b[g][j].index by {
        if b[g][i].index >= b[g][j].index {
            let v = b[g][i];
            let w = b[g][j];
            assert(v.index == w.index);
            assert(same_key(v, b[g][0]) && same_key(w, b[g][0]));
            assert(same_key(v, w));
            if v == w {
                lemma_count_from_positions(b[g], i, j);
            } else {
                assert(b[g].contains(v));
                assert(b[g].contains(w));
                lemma_flatten_count(b, g, w);
            }
            lemma_flatten_count(b, g, v);
            assert(b.flatten().to_multiset() == s.to_multiset());
            lemma_positions_from_counts(s, v, w);
            let (p, q): (int, int) = choose|p: int, q: int|
                #![trigger s[p], s[q]]
                0 <= p < q < s.len() && ((s[p] == v && s[q] == w) || (s[p] == w && s[q] == v));
            assert(!(same_key(s[p], s[q]) && s[p].index == s[q].index));
            assert(false);
        }
    }
}

/// Sorting an already sorted sequence leaves it unchanged.
proof fn lemma_sort_spec_of_sorted(s: Seq<TxModel>)
    requires
        sorted(s),
    ensures
        sort_spec(s) == s,
    decreases s.len(),
{
    if s.len() > 0 {
        let s1 = s.drop_last();
        assert(sorted(s1)) by {
            assert forall|i: int, j: int| 0 <= i < j < s1.len() implies tx_le(s1[i], s1[j]) by {
                assert(s1[i] == s[i] && s1[j] == s[j]);
            }
        }
        lemma_sort_spec_of_sorted(s1);
        assert forall|m: int| 0 <= m < s1.len() implies tx_le(#[trigger] s1[m], s.last()) by {
            assert(s1[m] == s[m]);
        }
        lemma_insert_sorted_at(s.last(), s1, s1.len() as int);
        assert(s1.take(s1.len() as int) + seq![s.last()] + s1.skip(s1.len() as int) =~= s);
    }
}

/// A nonempty run of one grouping triple forms a single group.
proof fn lemma_group_single_key(s: Seq<TxModel>)
    requires
        s.len() > 0,
        forall|i: int, j: int|
            0 <= i < s.len() && 0 <= j < s.len() ==> same_key(#[trigger] s[i], #[trigger] s[j]),
    ensures
        group_spec(s) == seq![s],
    decreases s.len(),
{
    if s.len() == 1 {
        assert(s.drop_last().len() == 0);
        assert(group_spec(s.drop_last()).len() == 0);
        assert(group_spec(s) == group_spec(s.drop_last()).push(seq![s.last()]));
        assert(seq![s.last()] =~= s);
        assert(group_spec(s) =~= seq![s]);
    } else {
        let s1 = s.drop_last();
        assert(forall|i: int, j: int|
            0 <= i < s1.len() && 0 <= j < s1.len() ==> same_key(
                #[trigger] s1[i],
                #[trigger] s1[j],
            ));
        lemma_group_single_key(s1);
        let rest = group_spec(s1);
        assert(rest.last().last() == s1.last());
        assert(same_key(s1.last(), s.last()));
        assert(group_spec(s) == rest.update(0, s1.push(s.last())));
        assert(s1.push(s.last()) =~= s);
        assert(group_spec(s) =~= seq![s]);
    }
}

/// The concatenation of the first `k` encoded chunks is the first
/// `k * PAYLOAD_WIDTH` symbols of the padded payload.
proof fn lemma_concat_encode_prefix(
    address: Seq<u8>,
    tag: Seq<u8>,
    msg: Seq<u8>,
    timestamp: int,
    k: int,
)
    requires
        0 <= k <= chunk_count(msg.len() as int),
    ensures
        concat_payloads(encode_spec(address, tag, msg, timestamp).take(k)) == padded(msg).take(
            k * (PAYLOAD_WIDTH as int),
        ),
    decreases k,
{
    let e = encode_spec(address, tag, msg, timestamp);
    let w = PAYLOAD_WIDTH as int;
    let p = padded(msg);
    lemma_chunk_count(msg.len() as int);
    assert(p.len() == chunk_count(msg.len() as int) * w);
    if k == 0 {
        assert(e.take(0) =~= Seq::<TxModel>::empty());
        assert(p.take(0) =~= Seq::<u8>::empty());
    } else {
        lemma_concat_encode_prefix(address, tag, msg, timestamp, k - 1);
        assert(e.take(k).drop_last() =~= e.take(k - 1));
        assert(e.take(k).last() == e[k - 1]);
        assert((k - 1) * w == k * w - w) by (nonlinear_arith);
        assert(k * w <= chunk_count(msg.len() as int) * w) by (nonlinear_arith)
            requires
                k <= chunk_count(msg.len() as int),
                w > 0,
        ;
        assert(e[k - 1].payload == p.subrange((k - 1) * w, k * w));
        assert(concat_payloads(e.take(k)) == concat_payloads(e.take(k - 1)) + e[k - 1].payload);
        assert(p.take((k - 1) * w) + p.subrange((k - 1) * w, k * w) =~= p.take(k * w));
    }
}

/// Round trip: encoding a payload and reconstructing the resulting
/// transactions yields exactly one message, carrying the original address,
/// the original tag, and the payload zero-padded to a whole number of
/// transactions. (The padding is not reversible: trailing zero symbols of
/// the original payload cannot be told from padding at this layer.)
pub proof fn lemma_round_trip(address: Seq<u8>, tag: Seq<u8>, msg: Seq<u8>, timestamp: int)
    requires
        address.len() == ADDRESS_WIDTH,
        tag.len() == TAG_WIDTH,
    ensures
        reconstruct_spec(encode_spec(address, tag, msg, timestamp)) == seq![
            MessageModel { address: address, msgid: tag, payload: padded(msg) },
        ],
{
    let e = encode_spec(address, tag, msg, timestamp);
    let w = PAYLOAD_WIDTH as int;
    lemma_chunk_count(msg.len() as int);
    assert(e.len() >= 1);
    assert forall|i: int, j: int|
        0 <= i < e.len() && 0 <= j < e.len() implies same_key(#[trigger] e[i], #[trigger] e[j]) by {
        assert(e[i].address == address && e[j].address == address);
    }
    assert(sorted(e)) by {
        assert forall|i: int, j: int| 0 <= i < j < e.len() implies tx_le(e[i], e[j]) by {
            lemma_key_cmp_zero(e[i], e[j]);
        }
    }
    lemma_sort_spec_of_sorted(e);
    lemma_group_single_key(e);
    assert(bundles_spec(e) == seq![e]);
    lemma_concat_encode_prefix(address, tag, msg, timestamp, e.len() as int);
    assert(e.take(e.len() as int) =~= e);
    assert(e.len() as int * w == chunk_count(msg.len() as int) * w);
    assert(padded(msg).take(e.len() as int * w) =~= padded(msg));
    assert(message_of(e) =~= (MessageModel { address: address, msgid: tag, payload: padded(msg) }));
    assert(reconstruct_spec(e) =~= seq![message_of(e)]);
}

/// Idempotence: reconstruction is a function of the fetched transactions
/// alone, so reconstructing the same collection a second time yields the
/// same messages. (The executable reconstructor also leaves its input
/// untouched: it takes the collection by shared reference.)
pub proof fn lemma_reconstruct_deterministic(
    s: Seq<TxModel>,
    r1: Seq<MessageModel>,
    r2: Seq<MessageModel>,
)
    requires
        r1 == reconstruct_spec(s),
        r2 == reconstruct_spec(s),
    ensures
        r1 == r2,
{
}

/// An empty transaction collection reconstructs to no messages at all.
pub proof fn lemma_reconstruct_empty()
    ensures
        reconstruct_spec(Seq::<TxModel>::empty()) == Seq::<MessageModel>::empty(),
{
    assert(reconstruct_spec(Seq::<TxModel>::empty()) =~= Seq::<MessageModel>::empty());
}

} // verus!
