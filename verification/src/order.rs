//! The total order on transactions used to partition them into bundles.
//!
//! Transactions are compared by address, then tag, then bundle hash (each
//! lexicographically over its symbols), then by index. Two transactions with
//! equal address, tag and bundle hash belong to the same bundle.

use vstd::prelude::*;

use crate::transaction::Transaction;
use crate::transaction::TxModel;

verus! {

/// Three-way lexicographic comparison of two symbol sequences; a strict
/// prefix precedes the longer sequence.
pub open spec fn lex_cmp(a: Seq<u8>, b: Seq<u8>) -> int
    decreases a.len(),
{
    if a.len() == 0 && b.len() == 0 {
        0
    } else if a.len() == 0 {
        -1
    } else if b.len() == 0 {
        1
    } else if a[0] < b[0] {
        -1
    } else if a[0] > b[0] {
        1
    } else {
        lex_cmp(a.drop_first(), b.drop_first())
    }
}

/// `lex_cmp` reports 0 exactly on equal sequences.
pub proof fn lemma_lex_cmp_zero(a: Seq<u8>, b: Seq<u8>)
    ensures
        lex_cmp(a, b) == 0 <==> a == b,
    decreases a.len(),
{
    if a.len() == 0 && b.len() == 0 {
        assert(a =~= b);
    } else if a.len() == 0 || b.len() == 0 {
        assert(a.len() != b.len());
    } else {
        lemma_lex_cmp_zero(a.drop_first(), b.drop_first());
        if lex_cmp(a, b) == 0 {
            assert(a[0] == b[0]);
            assert(a.drop_first() == b.drop_first());
            assert forall|i: int| 0 <= i < a.len() implies a[i] == b[i] by {
                if i > 0 {
                    assert(a[i] == a.drop_first()[i - 1]);
                    assert(b[i] == b.drop_first()[i - 1]);
                }
            }
            assert(a =~= b);
        }
        if a == b {
            assert(a.drop_first() =~= b.drop_first());
        }
    }
}

/// Swapping the arguments of `lex_cmp` negates the result.
pub proof fn lemma_lex_cmp_antisym(a: Seq<u8>, b: Seq<u8>)
    ensures
        lex_cmp(b, a) == -lex_cmp(a, b),
    decreases a.len(),
{
    if a.len() != 0 && b.len() != 0 && a[0] == b[0] {
        lemma_lex_cmp_antisym(a.drop_first(), b.drop_first());
    }
}

/// `lex_cmp` is transitive, and an equal outer pair forces equal inner pairs.
pub proof fn lemma_lex_cmp_trans(a: Seq<u8>, b: Seq<u8>, c: Seq<u8>)
    requires
        lex_cmp(a, b) <= 0,
        lex_cmp(b, c) <= 0,
    ensures
        lex_cmp(a, c) <= 0,
        lex_cmp(a, c) == 0 ==> lex_cmp(a, b) == 0 && lex_cmp(b, c) == 0,
    decreases a.len(),
{
    if b.len() == 0 {
        assert(a.len() == 0);
    } else if a.len() == 0 {
        // lex_cmp(a, c) is -1 or 0, and 0 only when c is empty too
        if c.len() == 0 {
            assert(b.len() != 0 && lex_cmp(b, c) == 1);
        }
    } else if c.len() == 0 {
        assert(b.len() != 0 && lex_cmp(b, c) == 1);
    } else {
        assert(a[0] <= b[0]);
        assert(b[0] <= c[0]);
        if a[0] == c[0] {
            assert(a[0] == b[0] && b[0] == c[0]);
            lemma_lex_cmp_trans(a.drop_first(), b.drop_first(), c.drop_first());
        }
    }
}

/// Two transactions belong to the same bundle: equal address, tag and bundle
/// hash.
pub open spec fn same_key(x: TxModel, y: TxModel) -> bool {
    x.address == y.address && x.tag == y.tag && x.bundle_hash == y.bundle_hash
}

/// Three-way comparison of the grouping triple (address, tag, bundle hash).
pub open spec fn key_cmp(x: TxModel, y: TxModel) -> int {
    if lex_cmp(x.address, y.address) != 0 {
        lex_cmp(x.address, y.address)
    } else if lex_cmp(x.tag, y.tag) != 0 {
        lex_cmp(x.tag, y.tag)
    } else {
        lex_cmp(x.bundle_hash, y.bundle_hash)
    }
}

/// `key_cmp` reports 0 exactly on transactions of the same bundle.
pub proof fn lemma_key_cmp_zero(x: TxModel, y: TxModel)
    ensures
        key_cmp(x, y) == 0 <==> same_key(x, y),
{
    lemma_lex_cmp_zero(x.address, y.address);
    lemma_lex_cmp_zero(x.tag, y.tag);
    lemma_lex_cmp_zero(x.bundle_hash, y.bundle_hash);
}

/// Swapping the arguments of `key_cmp` negates the result.
pub proof fn lemma_key_cmp_antisym(x: TxModel, y: TxModel)
    ensures
        key_cmp(y, x) == -key_cmp(x, y),
{
    lemma_lex_cmp_antisym(x.address, y.address);
    lemma_lex_cmp_antisym(x.tag, y.tag);
    lemma_lex_cmp_antisym(x.bundle_hash, y.bundle_hash);
}

/// `key_cmp` is transitive, and an equal outer pair forces equal inner pairs.
pub proof fn lemma_key_cmp_trans(x: TxModel, y: TxModel, z: TxModel)
    requires
        key_cmp(x, y) <= 0,
        key_cmp(y, z) <= 0,
    ensures
        key_cmp(x, z) <= 0,
        key_cmp(x, z) == 0 ==> key_cmp(x, y) == 0 && key_cmp(y, z) == 0,
{
    lemma_lex_cmp_trans(x.address, y.address, z.address);
    if lex_cmp(x.address, z.address) == 0 {
        lemma_lex_cmp_zero(x.address, y.address);
        lemma_lex_cmp_zero(y.address, z.address);
        lemma_lex_cmp_trans(x.tag, y.tag, z.tag);
        if lex_cmp(x.tag, z.tag) == 0 {
            lemma_lex_cmp_zero(x.tag, y.tag);
            lemma_lex_cmp_zero(y.tag, z.tag);
            lemma_lex_cmp_trans(x.bundle_hash, y.bundle_hash, z.bundle_hash);
        }
    }
}

/// Three-way comparison of transactions: by grouping triple, then by index.
pub open spec fn tx_cmp(x: TxModel, y: TxModel) -> int {
    if key_cmp(x, y) != 0 {
        key_cmp(x, y)
    } else if x.index < y.index {
        -1
    } else if x.index > y.index {
        1
    } else {
        0
    }
}

/// The (non-strict) transaction order used for sorting.
pub open spec fn tx_le(x: TxModel, y: TxModel) -> bool {
    tx_cmp(x, y) <= 0
}

/// `tx_le` is total.
pub proof fn lemma_tx_le_total(x: TxModel, y: TxModel)
    ensures
        tx_le(x, y) || tx_le(y, x),
{
    lemma_key_cmp_antisym(x, y);
}

/// `tx_le` is reflexive.
pub proof fn lemma_tx_le_refl(x: TxModel)
    ensures
        tx_le(x, x),
{
    lemma_key_cmp_zero(x, x);
}

/// `tx_le` is transitive.
pub proof fn lemma_tx_le_trans(x: TxModel, y: TxModel, z: TxModel)
    requires
        tx_le(x, y),
        tx_le(y, z),
    ensures
        tx_le(x, z),
{
    lemma_key_cmp_trans(x, y, z);
}

/// Within one bundle, `tx_le` orders by index.
pub proof fn lemma_tx_le_same_key_index(x: TxModel, y: TxModel)
    requires
        tx_le(x, y),
        same_key(x, y),
    ensures
        x.index <= y.index,
{
    lemma_key_cmp_zero(x, y);
}

/// Three-way lexicographic comparison of two symbol vectors.
pub fn lex_cmp_exec(a: &Vec<u8>, b: &Vec<u8>) -> (r: i8)
    ensures
        r as int == lex_cmp(a@, b@),
{
    let n: usize = if a.len() < b.len() {
        a.len()
    } else {
        b.len()
    };
    let mut i: usize = 0;
    proof {
        assert(a@.skip(0) =~= a@);
        assert(b@.skip(0) =~= b@);
    }
    while i < n
        invariant
            0 <= i <= n,
            n <= a@.len(),
            n <= b@.len(),
            n == a@.len() || n == b@.len(),
            lex_cmp(a@, b@) == lex_cmp(a@.skip(i as int), b@.skip(i as int)),
        decreases n - i,
    {
        let x = a[i];
        let y = b[i];
        proof {
            assert(a@.skip(i as int)[0] == a@[i as int]);
            assert(b@.skip(i as int)[0] == b@[i as int]);
        }
        if x < y {
            return -1;
        }
        if x > y {
            return 1;
        }
        proof {
            assert(a@.skip(i as int).drop_first() =~= a@.skip(i + 1));
            assert(b@.skip(i as int).drop_first() =~= b@.skip(i + 1));
        }
        i = i + 1;
    }
    if a.len() == b.len() {
        proof {
            assert(a@.skip(i as int).len() == 0);
            assert(b@.skip(i as int).len() == 0);
        }
        0
    } else if a.len() < b.len() {
        proof {
            assert(a@.skip(i as int).len() == 0);
            assert(b@.skip(i as int).len() > 0);
        }
        -1
    } else {
        proof {
            assert(b@.skip(i as int).len() == 0);
            assert(a@.skip(i as int).len() > 0);
        }
        1
    }
}

/// Three-way comparison of two transactions.
pub fn tx_cmp_exec(x: &Transaction, y: &Transaction) -> (r: i8)
    ensures
        r as int == tx_cmp(x@, y@),
{
    let c = lex_cmp_exec(&x.address, &y.address);
    if c != 0 {
        return c;
    }
    let c = lex_cmp_exec(&x.tag, &y.tag);
    if c != 0 {
        return c;
    }
    let c = lex_cmp_exec(&x.bundle_hash, &y.bundle_hash);
    if c != 0 {
        return c;
    }
    if x.index < y.index {
        -1
    } else if x.index > y.index {
        1
    } else {
        0
    }
}

/// Decides the sorting order on two transactions.
pub fn tx_le_exec(x: &Transaction, y: &Transaction) -> (r: bool)
    ensures
        r == tx_le(x@, y@),
{
    tx_cmp_exec(x, y) <= 0
}

/// Decides whether two transactions belong to the same bundle.
pub fn same_key_exec(x: &Transaction, y: &Transaction) -> (r: bool)
    ensures
        r == same_key(x@, y@),
{
    proof {
        lemma_lex_cmp_zero(x@.address, y@.address);
        lemma_lex_cmp_zero(x@.tag, y@.tag);
        lemma_lex_cmp_zero(x@.bundle_hash, y@.bundle_hash);
    }
    lex_cmp_exec(&x.address, &y.address) == 0 && lex_cmp_exec(&x.tag, &y.tag) == 0
        && lex_cmp_exec(&x.bundle_hash, &y.bundle_hash) == 0
}

} // verus!
