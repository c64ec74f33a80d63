//! Summation of balance sequences.
//!
//! The conservation rule speaks of the sum of all balances; this module
//! defines that sum over a mathematical sequence and proves how it moves
//! under the updates the ledger performs: writing one slot, appending a
//! slot, and removing a slot.

use vstd::prelude::*;

verus! {

/// The sum of all values in `s`, as an unbounded integer.
pub open spec fn sum_of(s: Seq<u128>) -> int
    decreases s.len(),
{
    if s.len() == 0 {
        0
    } else {
        sum_of(s.drop_last()) + s.last()
    }
}

/// A sum of unsigned values is never negative.
pub proof fn lemma_sum_nonneg(s: Seq<u128>)
    ensures
        0 <= sum_of(s),
    decreases s.len(),
{
    if s.len() > 0 {
        lemma_sum_nonneg(s.drop_last());
    }
}

/// Appending a value adds exactly that value to the sum.
pub proof fn lemma_sum_push(s: Seq<u128>, v: u128)
    ensures
        sum_of(s.push(v)) == sum_of(s) + v,
{
    assert(s.push(v).drop_last() =~= s);
}

/// Overwriting slot `i` moves the sum by the difference of new and old
/// value.
pub proof fn lemma_sum_update(s: Seq<u128>, i: int, v: u128)
    requires
        0 <= i < s.len(),
    ensures
        sum_of(s.update(i, v)) == sum_of(s) - s[i] + v,
    decreases s.len(),
{
    if i == s.len() - 1 {
        assert(s.update(i, v).drop_last() =~= s.drop_last());
    } else {
        lemma_sum_update(s.drop_last(), i, v);
        assert(s.update(i, v).drop_last() =~= s.drop_last().update(i, v));
        assert(s.update(i, v).last() == s.last());
    }
}

/// Removing slot `i` subtracts exactly its value from the sum.
pub proof fn lemma_sum_remove(s: Seq<u128>, i: int)
    requires
        0 <= i < s.len(),
    ensures
        sum_of(s.remove(i)) == sum_of(s) - s[i],
    decreases s.len(),
{
    if i == s.len() - 1 {
        assert(s.remove(i) =~= s.drop_last());
    } else {
        lemma_sum_remove(s.drop_last(), i);
        assert(s.remove(i).drop_last() =~= s.drop_last().remove(i));
        assert(s.remove(i).last() == s.last());
    }
}

/// No single slot exceeds the sum.
pub proof fn lemma_sum_bound(s: Seq<u128>, i: int)
    requires
        0 <= i < s.len(),
    ensures
        s[i] <= sum_of(s),
{
    lemma_sum_remove(s, i);
    lemma_sum_nonneg(s.remove(i));
}

/// No two distinct slots together exceed the sum.
pub proof fn lemma_sum_pair_bound(s: Seq<u128>, i: int, j: int)
    requires
        0 <= i < s.len(),
        0 <= j < s.len(),
        i != j,
    ensures
        s[i] + s[j] <= sum_of(s),
{
    lemma_sum_remove(s, i);
    let j2 = if j < i {
        j
    } else {
        j - 1
    };
    assert(s.remove(i)[j2] == s[j]);
    lemma_sum_bound(s.remove(i), j2);
}

/// A prefix never sums to more than the whole sequence.
pub proof fn lemma_sum_take_le(s: Seq<u128>, k: int)
    requires
        0 <= k <= s.len(),
    ensures
        sum_of(s.take(k)) <= sum_of(s),
    decreases s.len(),
{
    if k == s.len() {
        assert(s.take(k) =~= s);
    } else {
        lemma_sum_take_le(s.drop_last(), k);
        assert(s.drop_last().take(k) =~= s.take(k));
    }
}

/// Extending a prefix by one slot adds that slot's value to the prefix sum.
pub proof fn lemma_sum_take_succ(s: Seq<u128>, k: int)
    requires
        0 <= k < s.len(),
    ensures
        sum_of(s.take(k + 1)) == sum_of(s.take(k)) + s[k],
{
    assert(s.take(k + 1).drop_last() =~= s.take(k));
    assert(s.take(k + 1).last() == s[k]);
}

} // verus!
