use crate::addr::addr_eq;
use crate::addr::Address;
use vstd::prelude::*;

verus! {

/// The ledger stores balances and records as association lists keyed by
/// address.  The keys of a well-formed list are pairwise distinct.
pub open spec fn uniq_keys<T>(s: Seq<(Address, T)>) -> bool {
    forall|i: int, j: int| 0 <= i < j < s.len() ==> (#[trigger] s[i]).0@ != (#[trigger] s[j]).0@
}

/// Lookup by key: the value stored under `k`, or `None` when `k` is absent.
pub open spec fn val_in<T>(s: Seq<(Address, T)>, k: Seq<u8>) -> Option<T>
    decreases s.len(),
{
    if s.len() == 0 {
        None
    } else if s.last().0@ == k {
        Some(s.last().1)
    } else {
        val_in(s.drop_last(), k)
    }
}

/// The sum of all stored balances.
pub open spec fn sum_bal(s: Seq<(Address, u64)>) -> int
    decreases s.len(),
{
    if s.len() == 0 {
        0
    } else {
        sum_bal(s.drop_last()) + s.last().1
    }
}

/// A prefix of a list with distinct keys again has distinct keys.
pub proof fn lemma_uniq_drop_last<T>(s: Seq<(Address, T)>)
    requires
        uniq_keys(s),
        s.len() > 0,
    ensures
        uniq_keys(s.drop_last()),
{
}

/// Lookup finds exactly the entry that holds the key.
pub proof fn lemma_val_in_found<T>(s: Seq<(Address, T)>, i: int)
    requires
        uniq_keys(s),
        0 <= i < s.len(),
    ensures
        val_in(s, s[i].0@) == Some(s[i].1),
    decreases s.len(),
{
    if i < s.len() - 1 {
        lemma_uniq_drop_last(s);
        lemma_val_in_found(s.drop_last(), i);
    }
}

/// A key held by no entry is absent.
pub proof fn lemma_val_in_absent<T>(s: Seq<(Address, T)>, k: Seq<u8>)
    requires
        forall|i: int| 0 <= i < s.len() ==> (#[trigger] s[i]).0@ != k,
    ensures
        val_in(s, k) is None,
    decreases s.len(),
{
    if s.len() > 0 {
        lemma_val_in_absent(s.drop_last(), k);
    }
}

/// Replacing the value stored at index `i`, key unchanged, changes the lookup
/// of that key alone.
pub proof fn lemma_val_in_update<T>(s: Seq<(Address, T)>, i: int, t: T, k: Seq<u8>)
    requires
        uniq_keys(s),
        0 <= i < s.len(),
    ensures
        val_in(s.update(i, (s[i].0, t)), k) == (if k == s[i].0@ {
            Some(t)
        } else {
            val_in(s, k)
        }),
    decreases s.len(),
{
    let s2 = s.update(i, (s[i].0, t));
    if i == s.len() - 1 {
        assert(s2.drop_last() =~= s.drop_last());
    } else {
        assert(s2.drop_last() =~= s.drop_last().update(i, (s[i].0, t)));
        lemma_uniq_drop_last(s);
        lemma_val_in_update(s.drop_last(), i, t, k);
    }
}

/// An updated value list keeps its keys, hence their distinctness.
pub proof fn lemma_uniq_update<T>(s: Seq<(Address, T)>, i: int, t: T)
    requires
        uniq_keys(s),
        0 <= i < s.len(),
    ensures
        uniq_keys(s.update(i, (s[i].0, t))),
{
    let s2 = s.update(i, (s[i].0, t));
    assert forall|a: int, b: int| 0 <= a < b < s2.len() implies (#[trigger] s2[a]).0@
        != (#[trigger] s2[b]).0@ by {
        assert(s2[a].0 == s[a].0);
        assert(s2[b].0 == s[b].0);
    }
}

/// Appending an entry under a key makes the lookup of that key find it and
/// leaves every other lookup alone.
pub proof fn lemma_val_in_push<T>(s: Seq<(Address, T)>, e: (Address, T), k: Seq<u8>)
    ensures
        val_in(s.push(e), k) == (if e.0@ == k {
            Some(e.1)
        } else {
            val_in(s, k)
        }),
{
    assert(s.push(e).drop_last() =~= s);
    assert(s.push(e).last() == e);
}

/// Appending an entry under a fresh key keeps the keys distinct.
pub proof fn lemma_uniq_push<T>(s: Seq<(Address, T)>, e: (Address, T))
    requires
        uniq_keys(s),
        forall|i: int| 0 <= i < s.len() ==> (#[trigger] s[i]).0@ != e.0@,
    ensures
        uniq_keys(s.push(e)),
{
}

/// Every stored balance is non-negative, so the sum is too.
pub proof fn lemma_sum_nonneg(s: Seq<(Address, u64)>)
    ensures
        sum_bal(s) >= 0,
    decreases s.len(),
{
    if s.len() > 0 {
        lemma_sum_nonneg(s.drop_last());
    }
}

/// No single balance exceeds the sum of all of them.
pub proof fn lemma_sum_elem_bound(s: Seq<(Address, u64)>, i: int)
    requires
        0 <= i < s.len(),
    ensures
        s[i].1 <= sum_bal(s),
    decreases s.len(),
{
    if i == s.len() - 1 {
        lemma_sum_nonneg(s.drop_last());
    } else {
        lemma_sum_elem_bound(s.drop_last(), i);
    }
}

/// Replacing the balance at index `i` moves the sum by the difference.
pub proof fn lemma_sum_update(s: Seq<(Address, u64)>, i: int, v: u64)
    requires
        0 <= i < s.len(),
    ensures
        sum_bal(s.update(i, (s[i].0, v))) == sum_bal(s) - s[i].1 + v,
    decreases s.len(),
{
    let s2 = s.update(i, (s[i].0, v));
    if i == s.len() - 1 {
        assert(s2.drop_last() =~= s.drop_last());
    } else {
        assert(s2.drop_last() =~= s.drop_last().update(i, (s[i].0, v)));
        lemma_sum_update(s.drop_last(), i, v);
    }
}

/// Appending an entry adds its balance to the sum.
pub proof fn lemma_sum_push(s: Seq<(Address, u64)>, e: (Address, u64))
    ensures
        sum_bal(s.push(e)) == sum_bal(s) + e.1,
{
    assert(s.push(e).drop_last() =~= s);
    assert(s.push(e).last() == e);
}

/// Finds the index of the entry keyed by `k`, if one exists.
pub fn find_key<T>(v: &Vec<(Address, T)>, k: &Address) -> (r: Option<usize>)
    ensures
        match r {
            Some(i) => i < v@.len() && v@[i as int].0@ == k@,
            None => forall|j: int| 0 <= j < v@.len() ==> (#[trigger] v@[j]).0@ != k@,
        },
{
    let mut i: usize = 0;
    while i < v.len()
        invariant
            i <= v@.len(),
            forall|j: int| 0 <= j < i ==> (#[trigger] v@[j]).0@ != k@,
        decreases v@.len() - i,
    {
        let entry = &v[i];
        if addr_eq(&entry.0, k) {
            return Some(i);
        }
        i += 1;
    }
    None
}

} // verus!
