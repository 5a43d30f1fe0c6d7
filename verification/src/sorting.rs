//! Sorting of accepted values.

use vstd::prelude::*;

verus! {

broadcast use {vstd::seq_lib::to_multiset_update, vstd::seq_lib::group_to_multiset_ensures, vstd::multiset::group_multiset_axioms};

/// The values are in non-decreasing order.
pub open spec fn sorted_u64(s: Seq<u64>) -> bool {
    forall|i: int, j: int| 0 <= i <= j < s.len() ==> s[i] <= s[j]
}

/// Sorts the values in non-decreasing order, keeping each value as often as
/// it occurs.
pub fn sort_u64(v: &mut Vec<u64>)
    ensures
        final(v)@.len() == old(v)@.len(),
        sorted_u64(final(v)@),
        final(v)@.to_multiset() == old(v)@.to_multiset(),
{
    let n = v.len();
    if n == 0 {
        return;
    }
    let mut i: usize = 1;
    while i < n
        invariant
            1 <= i <= n,
            v@.len() == n,
            forall|a: int, b: int| 0 <= a <= b < i ==> v@[a] <= v@[b],
            v@.to_multiset() == old(v)@.to_multiset(),
        decreases n - i,
    {
        let mut j: usize = i;
        while j > 0 && v[j - 1] > v[j]
            invariant
                0 <= j <= i < n,
                v@.len() == n,
                forall|a: int, b: int| 0 <= a <= b <= i && a != j && b != j ==> v@[a] <= v@[b],
                forall|b: int| j < b <= i ==> v@[j as int] <= #[trigger] v@[b],
                v@.to_multiset() == old(v)@.to_multiset(),
            decreases j,
        {
            let x = v[j];
            let y = v[j - 1];
            let ghost before = v@;
            v.set(j, y);
            v.set(j - 1, x);
            proof {
                assert(before.update(j as int, y).update(j - 1, x).to_multiset() == before.to_multiset()) by {
                    let s1 = before.update(j as int, y);
                    assert(before.to_multiset().contains(x));
                    assert(s1.to_multiset() == before.to_multiset().insert(y).remove(x));
                    assert(s1[j - 1] == y);
                    assert(s1.update(j - 1, x).to_multiset() == s1.to_multiset().insert(x).remove(y));
                    assert(before.to_multiset().insert(y).remove(x).insert(x).remove(y) =~= before.to_multiset());
                }
                assert(v@ == before.update(j as int, y).update(j - 1, x));
                assert forall|a: int, b: int| 0 <= a <= b <= i && a != j - 1 && b != j - 1 implies v@[a] <= v@[b] by {
                    if a == b {
                    } else if a == j {
                        assert(v@[a] == y);
                        assert(before[j - 1] <= before[b]);
                    } else if b == j {
                        assert(v@[b] == y);
                        assert(before[a] <= before[j - 1]);
                    } else {
                        assert(before[a] <= before[b]);
                    }
                }
                assert forall|b: int| j - 1 < b <= i implies v@[j - 1] <= #[trigger] v@[b] by {
                    if b == j {
                    } else {
                        assert(before[j as int] <= before[b]);
                    }
                }
            }
            j = j - 1;
        }
        proof {
            assert forall|a: int, b: int| 0 <= a <= b < i + 1 implies v@[a] <= v@[b] by {
                if a == j && b != j {
                } else if b == j && a != j {
                    if a < j - 1 {
                        assert(v@[a] <= v@[j - 1]);
                    }
                } else if a == j && b == j {
                } else {
                }
            }
        }
        i = i + 1;
    }
}

/// The values, of type `u128`, are in non-decreasing order.
pub open spec fn sorted_u128(s: Seq<u128>) -> bool {
    forall|i: int, j: int| 0 <= i <= j < s.len() ==> s[i] <= s[j]
}

/// Sorts the values in non-decreasing order, keeping each value as often as
/// it occurs.
pub fn sort_u128(v: &mut Vec<u128>)
    ensures
        final(v)@.len() == old(v)@.len(),
        sorted_u128(final(v)@),
        final(v)@.to_multiset() == old(v)@.to_multiset(),
{
    let n = v.len();
    if n == 0 {
        return;
    }
    let mut i: usize = 1;
    while i < n
        invariant
            1 <= i <= n,
            v@.len() == n,
            forall|a: int, b: int| 0 <= a <= b < i ==> v@[a] <= v@[b],
            v@.to_multiset() == old(v)@.to_multiset(),
        decreases n - i,
    {
        let mut j: usize = i;
        while j > 0 && v[j - 1] > v[j]
            invariant
                0 <= j <= i < n,
                v@.len() == n,
                forall|a: int, b: int| 0 <= a <= b <= i && a != j && b != j ==> v@[a] <= v@[b],
                forall|b: int| j < b <= i ==> v@[j as int] <= #[trigger] v@[b],
                v@.to_multiset() == old(v)@.to_multiset(),
            decreases j,
        {
            let x = v[j];
            let y = v[j - 1];
            let ghost before = v@;
            v.set(j, y);
            v.set(j - 1, x);
            proof {
                assert(before.update(j as int, y).update(j - 1, x).to_multiset() == before.to_multiset()) by {
                    let s1 = before.update(j as int, y);
                    assert(before.to_multiset().contains(x));
                    assert(s1.to_multiset() == before.to_multiset().insert(y).remove(x));
                    assert(s1[j - 1] == y);
                    assert(s1.update(j - 1, x).to_multiset() == s1.to_multiset().insert(x).remove(y));
                    assert(before.to_multiset().insert(y).remove(x).insert(x).remove(y) =~= before.to_multiset());
                }
                assert(v@ == before.update(j as int, y).update(j - 1, x));
                assert forall|a: int, b: int| 0 <= a <= b <= i && a != j - 1 && b != j - 1 implies v@[a] <= v@[b] by {
                    if a == b {
                    } else if a == j {
                        assert(v@[a] == y);
                        assert(before[j - 1] <= before[b]);
                    } else if b == j {
                        assert(v@[b] == y);
                        assert(before[a] <= before[j - 1]);
                    } else {
                        assert(before[a] <= before[b]);
                    }
                }
                assert forall|b: int| j - 1 < b <= i implies v@[j - 1] <= #[trigger] v@[b] by {
                    if b == j {
                    } else {
                        assert(before[j as int] <= before[b]);
                    }
                }
            }
            j = j - 1;
        }
        proof {
            assert forall|a: int, b: int| 0 <= a <= b < i + 1 implies v@[a] <= v@[b] by {
                if a == j && b != j {
                } else if b == j && a != j {
                    if a < j - 1 {
                        assert(v@[a] <= v@[j - 1]);
                    }
                } else if a == j && b == j {
                } else {
                }
            }
        }
        i = i + 1;
    }
}

} // verus!

verus! {

/// The values in non-decreasing order: the sorted sequence with the same
/// values, each as often (there is exactly one, by
/// [`lemma_sorted_unique`]).
pub open spec fn sorted_of(s: Seq<u64>) -> Seq<u64> {
    choose|t: Seq<u64>| sorted_u64(t) && t.to_multiset() == s.to_multiset()
}

/// Two sorted sequences with the same values, each as often, are equal.
pub proof fn lemma_sorted_unique(s: Seq<u64>, t: Seq<u64>)
    requires
        sorted_u64(s),
        sorted_u64(t),
        s.to_multiset() == t.to_multiset(),
    ensures
        s == t,
    decreases s.len(),
{
    broadcast use {vstd::seq_lib::group_to_multiset_ensures, vstd::multiset::group_multiset_axioms};
    vstd::seq_lib::to_multiset_len(s);
    vstd::seq_lib::to_multiset_len(t);
    assert(s.len() == t.len());
    if s.len() == 0 {
        assert(s =~= t);
    } else {
        assert(t.to_multiset().count(s[0]) > 0);
        assert(t.contains(s[0]));
        assert(s.to_multiset().count(t[0]) > 0);
        assert(s.contains(t[0]));
        let i = choose|i: int| 0 <= i < t.len() && t[i] == s[0];
        let j = choose|j: int| 0 <= j < s.len() && s[j] == t[0];
        assert(t[0] <= t[i]);
        assert(s[0] <= s[j]);
        assert(s[0] == t[0]);
        let s1 = s.drop_first();
        let t1 = t.drop_first();
        assert(s =~= seq![s[0]] + s1);
        assert(t =~= seq![t[0]] + t1);
        vstd::seq_lib::lemma_multiset_commutative(seq![s[0]], s1);
        vstd::seq_lib::lemma_multiset_commutative(seq![t[0]], t1);
        assert(seq![s[0]].to_multiset() =~= vstd::multiset::Multiset::<u64>::empty().insert(s[0])) by {
            assert(seq![s[0]] =~= Seq::<u64>::empty().push(s[0]));
        }
        let ms0 = seq![s[0]].to_multiset();
        assert(s.to_multiset() == ms0.add(s1.to_multiset()));
        assert(t.to_multiset() == ms0.add(t1.to_multiset()));
        assert forall|v: u64| s1.to_multiset().count(v) == t1.to_multiset().count(v) by {
            assert(s.to_multiset().count(v) == ms0.count(v) + s1.to_multiset().count(v));
            assert(t.to_multiset().count(v) == ms0.count(v) + t1.to_multiset().count(v));
        }
        assert(s1.to_multiset() =~= t1.to_multiset());
        assert(sorted_u64(s1)) by {
            assert forall|a: int, b: int| 0 <= a <= b < s1.len() implies s1[a] <= s1[b] by {
                assert(s1[a] == s[a + 1]);
                assert(s1[b] == s[b + 1]);
            }
        }
        assert(sorted_u64(t1)) by {
            assert forall|a: int, b: int| 0 <= a <= b < t1.len() implies t1[a] <= t1[b] by {
                assert(t1[a] == t[a + 1]);
                assert(t1[b] == t[b + 1]);
            }
        }
        lemma_sorted_unique(s1, t1);
    }
}

/// A sorted arrangement of the values is the one that [`sorted_of`] names.
pub proof fn lemma_sorted_of(s: Seq<u64>, t: Seq<u64>)
    requires
        sorted_u64(t),
        t.to_multiset() == s.to_multiset(),
    ensures
        sorted_of(s) == t,
{
    let u = sorted_of(s);
    assert(sorted_u64(u) && u.to_multiset() == s.to_multiset());
    lemma_sorted_unique(u, t);
}

/// Every sequence has a sorted copy with the same values.
pub proof fn lemma_sorted_of_exists(s: Seq<u64>)
    ensures
        sorted_u64(sorted_of(s)),
        sorted_of(s).to_multiset() == s.to_multiset(),
        sorted_of(s).len() == s.len(),
{
    let leq = |a: u64, b: u64| a <= b;
    assert(vstd::relations::total_ordering(leq));
    s.lemma_sort_by_ensures(leq);
    let t = s.sort_by(leq);
    assert(sorted_u64(t)) by {
        assert forall|i: int, j: int| 0 <= i <= j < t.len() implies t[i] <= t[j] by {
            if i < j {
                assert(leq(t[i], t[j]));
            }
        }
    }
    lemma_sorted_of(s, t);
    vstd::seq_lib::to_multiset_len(s);
    vstd::seq_lib::to_multiset_len(t);
}

/// Sorts the values, returning the sorted copy.
pub fn sorted_copy(v: &Vec<u64>) -> (r: Vec<u64>)
    ensures
        r@ == sorted_of(v@),
        r@.len() == v@.len(),
        sorted_u64(r@),
{
    let mut r: Vec<u64> = Vec::new();
    let mut i: usize = 0;
    while i < v.len()
        invariant
            i <= v@.len(),
            r@ == v@.subrange(0, i as int),
        decreases v@.len() - i,
    {
        r.push(v[i]);
        i = i + 1;
        assert(r@ =~= v@.subrange(0, i as int));
    }
    assert(r@ =~= v@);
    sort_u64(&mut r);
    proof { lemma_sorted_of(v@, r@); }
    r
}

} // verus!
