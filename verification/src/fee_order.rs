//! The order in which a block takes the mempool's transactions: by fee, the
//! highest first, transactions of equal fee in the order they arrived.

use crate::types::Transaction;
use vstd::prelude::*;

verus! {

/// Where a transaction with `fee` goes in a list sorted by fee, highest
/// first: after every transaction whose fee is at least `fee`.
pub open spec fn insert_pos(sorted: Seq<Transaction>, fee: u64) -> int
    decreases sorted.len(),
{
    if sorted.len() == 0 {
        0
    } else if sorted[0].fee < fee {
        0
    } else {
        1 + insert_pos(sorted.drop_first(), fee)
    }
}

/// The transactions sorted by fee, highest first, stably.
pub open spec fn fee_sorted(s: Seq<Transaction>) -> Seq<Transaction>
    decreases s.len(),
{
    if s.len() == 0 {
        Seq::empty()
    } else {
        let rest = fee_sorted(s.drop_last());
        rest.insert(insert_pos(rest, s.last().fee), s.last())
    }
}

/// Fees never increase along the list.
pub open spec fn fees_descending(s: Seq<Transaction>) -> bool {
    forall|i: int, j: int| 0 <= i <= j < s.len() ==> (#[trigger] s[i]).fee >= (#[trigger] s[j]).fee
}

proof fn lemma_insert_pos(s: Seq<Transaction>, fee: u64, j: int)
    requires
        0 <= j <= s.len(),
        forall|k: int| 0 <= k < j ==> (#[trigger] s[k]).fee >= fee,
        j == s.len() || s[j].fee < fee,
    ensures
        insert_pos(s, fee) == j,
    decreases j,
{
    if j > 0 {
        let t = s.drop_first();
        assert forall|k: int| 0 <= k < j - 1 implies (#[trigger] t[k]).fee >= fee by {
            assert(t[k] == s[k + 1]);
        }
        if j < s.len() {
            assert(t[j - 1] == s[j]);
        }
        lemma_insert_pos(t, fee, j - 1);
    }
}

proof fn lemma_insert_pos_bounds(s: Seq<Transaction>, fee: u64)
    ensures
        0 <= insert_pos(s, fee) <= s.len(),
        forall|k: int| 0 <= k < insert_pos(s, fee) ==> (#[trigger] s[k]).fee >= fee,
    decreases s.len(),
{
    if s.len() > 0 && s[0].fee >= fee {
        let t = s.drop_first();
        lemma_insert_pos_bounds(t, fee);
        assert forall|k: int| 0 <= k < insert_pos(s, fee) implies (#[trigger] s[k]).fee >= fee by {
            if k > 0 {
                assert(s[k] == t[k - 1]);
            }
        }
    }
}

/// The position at which a transaction with `fee` is inserted.
fn find_insert_pos(sorted: &Vec<Transaction>, fee: u64) -> (pos: usize)
    ensures
        pos == insert_pos(sorted@, fee),
{
    let mut j: usize = 0;
    while j < sorted.len() && sorted[j].fee >= fee
        invariant
            0 <= j <= sorted@.len(),
            forall|k: int| 0 <= k < j ==> (#[trigger] sorted@[k]).fee >= fee,
        decreases sorted@.len() - j,
    {
        j = j + 1;
    }
    proof {
        lemma_insert_pos(sorted@, fee, j as int);
    }
    j
}

/// Sorts the transactions by fee, highest first, keeping arrival order among
/// equal fees.
pub fn sort_by_fee(pool: Vec<Transaction>) -> (sorted: Vec<Transaction>)
    ensures
        sorted@.to_multiset() == pool@.to_multiset(),
        fees_descending(sorted@),
        forall|f: u64| #[trigger] with_fee(sorted@, f) == with_fee(pool@, f),
        sorted@ == fee_sorted(pool@),
{
    let ghost orig = pool@;
    let mut pool = pool;
    let mut sorted: Vec<Transaction> = Vec::new();
    let mut i: usize = 0;
    let n = pool.len();
    assert(orig.take(0) =~= Seq::<Transaction>::empty());
    assert(orig.skip(0) =~= orig);
    while pool.len() > 0
        invariant
            0 <= i <= orig.len(),
            i + pool@.len() == orig.len(),
            orig.len() == n,
            pool@ == orig.skip(i as int),
            sorted@ == fee_sorted(orig.take(i as int)),
        decreases pool@.len(),
    {
        let tx = pool.remove(0);
        proof {
            lemma_insert_pos_bounds(sorted@, tx.fee);
        }
        let pos = find_insert_pos(&sorted, tx.fee);
        sorted.insert(pos, tx);
        proof {
            assert(orig.take(i + 1).drop_last() =~= orig.take(i as int));
            assert(orig.take(i + 1).last() == orig[i as int]);
            assert(pool@ =~= orig.skip(i + 1));
        }
        i = i + 1;
    }
    assert(orig.take(i as int) =~= orig);
    proof {
        lemma_fee_sorted_permutation(orig);
        lemma_fee_sorted_descending(orig);
        assert forall|f: u64| #[trigger] with_fee(sorted@, f) == with_fee(orig, f) by {
            lemma_fee_sorted_stable(orig, f);
        }
    }
    sorted
}

/// The block order lists every pending transaction exactly as often as the
/// mempool does.
pub proof fn lemma_fee_sorted_permutation(s: Seq<Transaction>)
    ensures
        fee_sorted(s).to_multiset() == s.to_multiset(),
        fee_sorted(s).len() == s.len(),
    decreases s.len(),
{
    broadcast use vstd::seq_lib::group_to_multiset_ensures;

    if s.len() > 0 {
        let rest = fee_sorted(s.drop_last());
        lemma_fee_sorted_permutation(s.drop_last());
        lemma_insert_pos_bounds(rest, s.last().fee);
        let k = insert_pos(rest, s.last().fee);
        let x = s.last();
        let r = rest.insert(k, x);
        assert(r.remove(k) =~= rest);
        assert(r[k] == x);
        assert(r.contains(x));
        assert(r.to_multiset().count(x) > 0);
        assert(r.to_multiset() =~= rest.to_multiset().insert(x));
        assert(s.drop_last().push(x) =~= s);
    }
}

/// The block order takes the highest fees first.
pub proof fn lemma_fee_sorted_descending(s: Seq<Transaction>)
    ensures
        fees_descending(fee_sorted(s)),
    decreases s.len(),
{
    if s.len() > 0 {
        let rest = fee_sorted(s.drop_last());
        lemma_fee_sorted_descending(s.drop_last());
        let x = s.last();
        lemma_insert_pos_bounds(rest, x.fee);
        lemma_insert_pos_after(rest, x.fee);
        let k = insert_pos(rest, x.fee);
        let r = rest.insert(k, x);
        assert forall|i: int, j: int| 0 <= i <= j < r.len() implies (#[trigger] r[i]).fee >= (
        #[trigger] r[j]).fee by {
            let ri = if i < k {
                i
            } else {
                i - 1
            };
            let rj = if j < k {
                j
            } else {
                j - 1
            };
            if i == k && j > k {
                assert(r[j] == rest[rj]);
            } else if j == k && i < k {
                assert(r[i] == rest[ri]);
            } else if i != k && j != k {
                assert(r[i] == rest[if i < k { i } else { i - 1 }]);
                assert(r[j] == rest[if j < k { j } else { j - 1 }]);
            }
        }
    }
}

proof fn lemma_insert_pos_after(s: Seq<Transaction>, fee: u64)
    requires
        fees_descending(s),
    ensures
        forall|k: int| insert_pos(s, fee) <= k < s.len() ==> (#[trigger] s[k]).fee < fee,
    decreases s.len(),
{
    if s.len() > 0 {
        let t = s.drop_first();
        assert(fees_descending(t)) by {
            assert forall|i: int, j: int| 0 <= i <= j < t.len() implies (#[trigger] t[i]).fee >= (
            #[trigger] t[j]).fee by {
                assert(t[i] == s[i + 1] && t[j] == s[j + 1]);
            }
        }
        lemma_insert_pos_after(t, fee);
        lemma_insert_pos_bounds(t, fee);
        assert forall|k: int| insert_pos(s, fee) <= k < s.len() implies (#[trigger] s[k]).fee < fee by {
            if s[0].fee < fee {
                assert(s[0].fee >= s[k].fee);
            } else {
                assert(s[k] == t[k - 1]);
            }
        }
    }
}

/// The transactions with fee `f`.
pub open spec fn with_fee(s: Seq<Transaction>, f: u64) -> Seq<Transaction> {
    s.filter(|t: Transaction| t.fee == f)
}

/// Among transactions of equal fee, the block order keeps the order in which
/// they arrived.
pub proof fn lemma_fee_sorted_stable(s: Seq<Transaction>, f: u64)
    ensures
        with_fee(fee_sorted(s), f) == with_fee(s, f),
    decreases s.len(),
{
    if s.len() > 0 {
        let p = |t: Transaction| t.fee == f;
        let front = s.drop_last();
        let rest = fee_sorted(front);
        let x = s.last();
        lemma_fee_sorted_stable(front, f);
        lemma_fee_sorted_descending(front);
        lemma_insert_pos_bounds(rest, x.fee);
        lemma_insert_pos_after(rest, x.fee);
        let k = insert_pos(rest, x.fee);
        let a = rest.take(k);
        let b = rest.skip(k);
        let one = Seq::<Transaction>::empty().push(x);
        assert(rest.insert(k, x) =~= (a + one) + b);
        assert(rest =~= a + b);
        Seq::filter_distributes_over_add(a + one, b, p);
        Seq::filter_distributes_over_add(a, one, p);
        Seq::filter_distributes_over_add(a, b, p);
        Seq::<Transaction>::empty().lemma_filter_push(x, p);
        assert(Seq::<Transaction>::empty().filter(p) =~= Seq::<Transaction>::empty()) by {
            reveal(Seq::filter);
        }
        front.lemma_filter_push(x, p);
        assert(front.push(x) =~= s);
        if x.fee == f {
            assert(b.all(|y: Transaction| !p(y))) by {
                assert forall|i: int| 0 <= i < b.len() implies !p(#[trigger] b[i]) by {
                    assert(b[i] == rest[k + i]);
                }
            }
            b.lemma_all_neg_filter_empty(p);
            assert(b.filter(p) =~= Seq::<Transaction>::empty());
            assert(a.filter(p) + one =~= (a.filter(p) + Seq::<Transaction>::empty()).push(x));
        }
        assert(with_fee(fee_sorted(s), f) =~= with_fee(s, f));
    }
}

} // verus!
