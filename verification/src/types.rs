//! Basic identifiers of the protocols, the reliable-broadcast payload, and a
//! finite set of node identifiers.

use vstd::prelude::*;

verus! {

/// Identifier of a node, from `0` to `n - 1`.
pub type Replica = usize;

/// A value of binary or approximate agreement.
pub type Val = i64;

/// A checkpoint on the number line.
pub type Point = i64;

/// A round number.
pub type Round = u64;

/// A level of checkpoints in Delphi.
pub type Lev = u64;

/// A finite set of node identifiers, kept without duplicates in the order in
/// which its members were first inserted.
#[derive(Clone, Debug)]
pub struct NodeSet {
    items: Vec<Replica>,
}

impl NodeSet {
    /// The members are held without repetition.
    pub closed spec fn wf(&self) -> bool {
        self.items@.no_duplicates()
    }

    /// The members, in insertion order.
    pub closed spec fn elems(&self) -> Seq<Replica> {
        self.items@
    }

    pub proof fn lemma_finite(&self)
        requires
            self.wf(),
        ensures
            self@.finite(),
            self@.len() == self.elems().len(),
            self.elems().no_duplicates(),
            self.elems().to_set() == self@,
    {
        self.items@.unique_seq_to_set();
    }

    /// An empty set.
    pub fn new() -> (s: NodeSet)
        ensures
            s.wf(),
            s@ == Set::<Replica>::empty(),
            s.elems() == Seq::<Replica>::empty(),
    {
        let s = NodeSet { items: Vec::new() };
        assert(s@ =~= Set::<Replica>::empty());
        s
    }

    /// The set holding `x` alone.
    pub fn singleton(x: Replica) -> (s: NodeSet)
        ensures
            s.wf(),
            s@ == set![x],
            s.elems() == seq![x],
    {
        let mut items = Vec::new();
        items.push(x);
        let s = NodeSet { items };
        assert(s.items@ =~= seq![x]);
        assert(s@ =~= set![x]) by {
            assert(s.items@[0] == x);
        }
        s
    }

    /// Whether `x` is a member.
    pub fn contains(&self, x: Replica) -> (b: bool)
        ensures
            b == self@.contains(x),
    {
        let mut i: usize = 0;
        while i < self.items.len()
            invariant
                i <= self.items@.len(),
                forall|j: int| 0 <= j < i ==> self.items@[j] != x,
            decreases self.items@.len() - i,
        {
            if self.items[i] == x {
                assert(self.items@.to_set().contains(self.items@[i as int]));
                return true;
            }
            i = i + 1;
        }
        assert(!self@.contains(x)) by {
            if self.items@.to_set().contains(x) {
                let k = choose|k: int| 0 <= k < self.items@.len() && self.items@[k] == x;
                assert(self.items@[k] == x);
            }
        }
        false
    }

    /// Adds `x`; returns whether it was absent.
    pub fn insert(&mut self, x: Replica) -> (fresh: bool)
        requires
            old(self).wf(),
        ensures
            final(self).wf(),
            final(self)@ == old(self)@.insert(x),
            fresh == !old(self)@.contains(x),
            fresh ==> final(self).elems() == old(self).elems().push(x),
            !fresh ==> final(self).elems() == old(self).elems(),
    {
        if self.contains(x) {
            assert(self@.insert(x) =~= self@);
            false
        } else {
            let ghost before = self.items@;
            self.items.push(x);
            proof {
                assert(self.items@ == before.push(x));
                assert forall|a: int, b: int| 0 <= a < b < self.items@.len() implies self.items@[a] != self.items@[b] by {
                    if b == before.len() {
                        assert(before.to_set().contains(before[a]));
                    }
                }
                assert(self.items@.to_set() =~= before.to_set().insert(x)) by {
                    assert forall|y: Replica| self.items@.to_set().contains(y) <==> before.to_set().insert(x).contains(y) by {
                        if y == x {
                            assert(self.items@[before.len() as int] == x);
                        }
                        if before.to_set().contains(y) {
                            let k = choose|k: int| 0 <= k < before.len() && before[k] == y;
                            assert(self.items@[k] == y);
                        }
                        if self.items@.to_set().contains(y) && y != x {
                            let k = choose|k: int| 0 <= k < self.items@.len() && self.items@[k] == y;
                            assert(before[k] == y);
                        }
                    }
                }
            }
            true
        }
    }

    /// Removes `x`; returns whether it was a member.
    pub fn remove(&mut self, x: Replica) -> (was: bool)
        requires
            old(self).wf(),
        ensures
            final(self).wf(),
            final(self)@ == old(self)@.remove(x),
            was == old(self)@.contains(x),
    {
        let ghost before = self.items@;
        let mut i: usize = 0;
        while i < self.items.len()
            invariant
                self.items@ == before,
                before == old(self).items@,
                before.no_duplicates(),
                i <= before.len(),
                forall|j: int| 0 <= j < i ==> before[j] != x,
            decreases before.len() - i,
        {
            if self.items[i] == x {
                self.items.remove(i);
                proof {
                    let after = self.items@;
                    assert(after =~= before.subrange(0, i as int) + before.subrange(i + 1, before.len() as int));
                    assert forall|a: int, b: int| 0 <= a < b < after.len() implies after[a] != after[b] by {
                        let ia = if a < i { a } else { a + 1 };
                        let ib = if b < i { b } else { b + 1 };
                        assert(after[a] == before[ia] && after[b] == before[ib]);
                    }
                    assert(after.to_set() =~= before.to_set().remove(x)) by {
                        assert forall|y: Replica| after.to_set().contains(y) <==> before.to_set().remove(x).contains(y) by {
                            if after.to_set().contains(y) {
                                let k = choose|k: int| 0 <= k < after.len() && after[k] == y;
                                let ik = if k < i { k } else { k + 1 };
                                assert(before[ik] == y);
                                assert(ik != i);
                                assert(y != x) by {
                                    if y == x {
                                        assert(before[i as int] == x);
                                        assert(before[ik] == before[i as int]);
                                    }
                                }
                            }
                            if before.to_set().remove(x).contains(y) {
                                let k = choose|k: int| 0 <= k < before.len() && before[k] == y;
                                assert(k != i);
                                let ak = if k < i { k } else { k - 1 };
                                assert(after[ak] == y);
                            }
                        }
                    }
                    assert(before.to_set().contains(x)) by {
                        assert(before[i as int] == x);
                    }
                }
                return true;
            }
            i = i + 1;
        }
        assert(!before.to_set().contains(x)) by {
            if before.to_set().contains(x) {
                let k = choose|k: int| 0 <= k < before.len() && before[k] == x;
                assert(before[k] == x);
            }
        }
        assert(before.to_set().remove(x) =~= before.to_set());
        false
    }

    /// Number of members.
    pub fn len(&self) -> (n: usize)
        requires
            self.wf(),
        ensures
            n == self@.len(),
            n == self.elems().len(),
    {
        proof { self.lemma_finite(); }
        self.items.len()
    }

    /// The members as a vector, in insertion order.
    pub fn to_vec(&self) -> (v: Vec<Replica>)
        requires
            self.wf(),
        ensures
            v@ == self.elems(),
            v@.no_duplicates(),
            v@.to_set() == self@,
            v@.len() == self@.len(),
    {
        proof { self.lemma_finite(); }
        copy_replicas(&self.items)
    }

    /// A copy of the set.
    pub fn duplicate(&self) -> (c: NodeSet)
        requires
            self.wf(),
        ensures
            c.wf(),
            c@ == self@,
            c.elems() == self.elems(),
    {
        NodeSet { items: copy_replicas(&self.items) }
    }
}

impl View for NodeSet {
    type V = Set<Replica>;

    closed spec fn view(&self) -> Set<Replica> {
        self.items@.to_set()
    }
}

/// A copy of a vector of node identifiers.
pub fn copy_replicas(v: &Vec<Replica>) -> (c: Vec<Replica>)
    ensures
        c@ == v@,
{
    let mut c: Vec<Replica> = Vec::new();
    let mut i: usize = 0;
    while i < v.len()
        invariant
            i <= v@.len(),
            c@ == v@.subrange(0, i as int),
        decreases v@.len() - i,
    {
        c.push(v[i]);
        i = i + 1;
        assert(c@ =~= v@.subrange(0, i as int));
    }
    assert(v@.subrange(0, v@.len() as int) =~= v@);
    c
}

/// The payload of a reliable broadcast: a value proposed by `origin` for
/// `round`, and, for the second phase of FIN or for round estimation, the list
/// of nodes whose broadcasts the origin accepted.
#[derive(Clone, Debug)]
pub struct Msg {
    pub value: u64,
    pub origin: Replica,
    pub round: u64,
    pub rnd_estm: bool,
    pub message: Vec<Replica>,
}

/// The mathematical content of a [`Msg`].
pub struct MsgView {
    pub value: u64,
    pub origin: Replica,
    pub round: u64,
    pub rnd_estm: bool,
    pub message: Seq<Replica>,
}

impl View for Msg {
    type V = MsgView;

    open spec fn view(&self) -> MsgView {
        MsgView {
            value: self.value,
            origin: self.origin,
            round: self.round,
            rnd_estm: self.rnd_estm,
            message: self.message@,
        }
    }
}

impl Msg {
    /// A copy of the message.
    pub fn duplicate(&self) -> (m: Msg)
        ensures
            m@ == self@,
    {
        Msg {
            value: self.value,
            origin: self.origin,
            round: self.round,
            rnd_estm: self.rnd_estm,
            message: copy_replicas(&self.message),
        }
    }
}

} // verus!
