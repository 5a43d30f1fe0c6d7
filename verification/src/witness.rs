//! The witness lists that nodes announce: for each announcing node, the list
//! of nodes whose broadcasts it accepted first.

use vstd::prelude::*;
use crate::types::{Replica, NodeSet, copy_replicas};

verus! {

/// Announced lists keyed by the announcing node, in the order in which the
/// announcers were first heard; a later announcement replaces the earlier one.
pub struct WitnessMap {
    pub entries: Vec<(Replica, Vec<Replica>)>,
}

/// The announced lists as plain sequences.
pub open spec fn entries_view(e: Seq<(Replica, Vec<Replica>)>) -> Seq<(Replica, Seq<Replica>)> {
    e.map_values(|p: (Replica, Vec<Replica>)| (p.0, p.1@))
}

/// Records the list `v` of `k`, replacing an earlier one.
pub open spec fn wmap_insert(s: Seq<(Replica, Seq<Replica>)>, k: Replica, v: Seq<Replica>) -> Seq<(Replica, Seq<Replica>)>
    decreases s.len(),
{
    if s.len() == 0 {
        seq![(k, v)]
    } else if s[0].0 == k {
        s.update(0, (k, v))
    } else {
        seq![s[0]] + wmap_insert(s.drop_first(), k, v)
    }
}

/// The list announced by `k`, if any.
pub open spec fn wmap_get(s: Seq<(Replica, Seq<Replica>)>, k: Replica) -> Option<Seq<Replica>>
    decreases s.len(),
{
    if s.len() == 0 {
        None
    } else if s[0].0 == k {
        Some(s[0].1)
    } else {
        wmap_get(s.drop_first(), k)
    }
}

/// Every node of the list is in `t`.
pub open spec fn covered(l: Seq<Replica>, t: Set<Replica>) -> bool {
    forall|i: int| 0 <= i < l.len() ==> t.contains(#[trigger] l[i])
}

/// How many of the first `k` announced lists are wholly in `t`.
pub open spec fn count_covered(s: Seq<(Replica, Seq<Replica>)>, t: Set<Replica>, k: nat) -> nat
    decreases k,
{
    if k == 0 || k > s.len() {
        0
    } else {
        count_covered(s, t, (k - 1) as nat) + if covered(s[k - 1].1, t) { 1nat } else { 0nat }
    }
}

/// No announcer occurs twice.
pub open spec fn unique_keys(s: Seq<(Replica, Seq<Replica>)>) -> bool {
    forall|i: int, j: int| 0 <= i < j < s.len() ==> s[i].0 != s[j].0
}

impl View for WitnessMap {
    type V = Seq<(Replica, Seq<Replica>)>;

    open spec fn view(&self) -> Seq<(Replica, Seq<Replica>)> {
        entries_view(self.entries@)
    }
}

impl WitnessMap {
    pub open spec fn wf(&self) -> bool {
        unique_keys(self@)
    }

    /// No announcement yet.
    pub fn new() -> (m: WitnessMap)
        ensures
            m.wf(),
            m@ == Seq::<(Replica, Seq<Replica>)>::empty(),
    {
        let m = WitnessMap { entries: Vec::new() };
        assert(m@ =~= Seq::<(Replica, Seq<Replica>)>::empty());
        m
    }

    /// Records the list of `k`, replacing an earlier one.
    pub fn insert(&mut self, k: Replica, v: Vec<Replica>)
        requires
            old(self).wf(),
        ensures
            final(self).wf(),
            final(self)@ == wmap_insert(old(self)@, k, v@),
    {
        let ghost old_v = self@;
        let mut i: usize = 0;
        while i < self.entries.len() && self.entries[i].0 != k
            invariant
                i <= self.entries@.len(),
                old_v == self@,
                unique_keys(old_v),
                forall|j: int| 0 <= j < i ==> old_v[j].0 != k,
            decreases self.entries@.len() - i,
        {
            i = i + 1;
        }
        proof { lemma_wmap_insert_at(old_v, k, v@, i as int); }
        if i < self.entries.len() {
            let ghost vv = v@;
            self.entries.set(i, (k, v));
            assert(self@ =~= old_v.update(i as int, (k, vv)));
        } else {
            let ghost vv = v@;
            self.entries.push((k, v));
            assert(self@ =~= old_v.push((k, vv)));
        }
    }

    /// The list announced by `k`, copied, if any.
    pub fn get(&self, k: Replica) -> (r: Option<Vec<Replica>>)
        requires
            self.wf(),
        ensures
            match r {
                Some(v) => wmap_get(self@, k) == Some(v@),
                None => wmap_get(self@, k) is None,
            },
    {
        let mut i: usize = 0;
        while i < self.entries.len()
            invariant
                i <= self.entries@.len(),
                forall|j: int| 0 <= j < i ==> self@[j].0 != k,
            decreases self.entries@.len() - i,
        {
            if self.entries[i].0 == k {
                proof { lemma_wmap_get_at(self@, k, i as int); }
                return Some(copy_replicas(&self.entries[i].1));
            }
            i = i + 1;
        }
        proof { lemma_wmap_get_none(self@, k); }
        None
    }

    /// How many announced lists are wholly among `terminated`.
    pub fn count_covered(&self, terminated: &NodeSet) -> (c: usize)
        ensures
            c == count_covered(self@, terminated@, self@.len()),
    {
        let mut c: usize = 0;
        let mut i: usize = 0;
        while i < self.entries.len()
            invariant
                i <= self.entries@.len(),
                c == count_covered(self@, terminated@, i as nat),
                c <= i,
            decreases self.entries@.len() - i,
        {
            let l = &self.entries[i].1;
            let mut all = true;
            let mut j: usize = 0;
            while j < l.len()
                invariant
                    j <= l@.len(),
                    all == (forall|x: int| 0 <= x < j ==> terminated@.contains(#[trigger] l@[x])),
                decreases l@.len() - j,
            {
                let t = terminated.contains(l[j]);
                proof {
                    if all && !t { assert(!terminated@.contains(l@[j as int])); }
                }
                all = all && t;
                j = j + 1;
            }
            assert(self@[i as int].1 == l@);
            if all {
                c = c + 1;
            }
            i = i + 1;
        }
        c
    }
}

proof fn lemma_wmap_insert_at(s: Seq<(Replica, Seq<Replica>)>, k: Replica, v: Seq<Replica>, i: int)
    requires
        unique_keys(s),
        0 <= i <= s.len(),
        forall|j: int| 0 <= j < i ==> s[j].0 != k,
        i < s.len() ==> s[i].0 == k,
    ensures
        wmap_insert(s, k, v) == (if i < s.len() { s.update(i, (k, v)) } else { s.push((k, v)) }),
        unique_keys(wmap_insert(s, k, v)),
    decreases s.len(),
{
    if s.len() == 0 {
        assert(seq![(k, v)] =~= s.push((k, v)));
    } else if i == 0 {
    } else {
        let rest = s.drop_first();
        lemma_wmap_insert_at(rest, k, v, i - 1);
        if i < s.len() {
            assert(seq![s[0]] + rest.update(i - 1, (k, v)) =~= s.update(i, (k, v)));
        } else {
            assert(seq![s[0]] + rest.push((k, v)) =~= s.push((k, v)));
        }
    }
    let r = wmap_insert(s, k, v);
    assert forall|a: int, b: int| 0 <= a < b < r.len() implies r[a].0 != r[b].0 by {
        if i < s.len() {
            if a == i { assert(s[b].0 != s[i].0); } else if b == i { assert(s[a].0 != s[i].0); }
        }
    }
}

proof fn lemma_wmap_get_at(s: Seq<(Replica, Seq<Replica>)>, k: Replica, i: int)
    requires
        0 <= i < s.len(),
        forall|j: int| 0 <= j < i ==> s[j].0 != k,
        s[i].0 == k,
    ensures
        wmap_get(s, k) == Some(s[i].1),
    decreases i,
{
    if i > 0 {
        lemma_wmap_get_at(s.drop_first(), k, i - 1);
    }
}

proof fn lemma_wmap_get_none(s: Seq<(Replica, Seq<Replica>)>, k: Replica)
    requires
        forall|j: int| 0 <= j < s.len() ==> s[j].0 != k,
    ensures
        wmap_get(s, k) is None,
    decreases s.len(),
{
    if s.len() > 0 {
        lemma_wmap_get_none(s.drop_first(), k);
    }
}

} // verus!
