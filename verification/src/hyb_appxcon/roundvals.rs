//! The state of one round of the hybrid approximate agreement.

use std::collections::HashMap;
use vstd::prelude::*;
use crate::types::{Replica, Msg, MsgView, NodeSet};
use crate::witness::WitnessMap;
use crate::votes::{votes_view, votes_wf};

verus! {

broadcast use vstd::std_specs::hash::group_hash_axioms;

/// Values keyed by node, in the order in which the nodes were first heard; a
/// later value replaces the earlier one.
pub struct ValueMap {
    pub entries: Vec<(Replica, u64)>,
}

impl View for ValueMap {
    type V = Seq<(Replica, u64)>;

    open spec fn view(&self) -> Seq<(Replica, u64)> {
        self.entries@
    }
}

impl ValueMap {
    /// No node occurs twice.
    pub open spec fn wf(&self) -> bool {
        forall|i: int, j: int| 0 <= i < j < self@.len() ==> self@[i].0 != self@[j].0
    }

    /// No value yet.
    pub fn new() -> (m: ValueMap)
        ensures
            m.wf(),
            m@ == Seq::<(Replica, u64)>::empty(),
    {
        ValueMap { entries: Vec::new() }
    }

    /// Records the value of `k`, replacing an earlier one.
    pub fn insert(&mut self, k: Replica, v: u64)
        requires
            old(self).wf(),
        ensures
            final(self).wf(),
            forall|i: int| 0 <= i < old(self)@.len() && old(self)@[i].0 == k
                ==> final(self)@ == old(self)@.update(i, (k, v)),
            (forall|i: int| 0 <= i < old(self)@.len() ==> old(self)@[i].0 != k)
                ==> final(self)@ == old(self)@.push((k, v)),
    {
        let mut i: usize = 0;
        while i < self.entries.len()
            invariant
                i <= self.entries@.len(),
                self.wf(),
                self@ == old(self)@,
                forall|j: int| 0 <= j < i ==> self@[j].0 != k,
            decreases self.entries@.len() - i,
        {
            if self.entries[i].0 == k {
                let ghost before = self@;
                self.entries.set(i, (k, v));
                assert forall|a: int, b: int| 0 <= a < b < self@.len() implies self@[a].0 != self@[b].0 by {
                    if a == i { assert(before[b].0 != before[a].0); } else if b == i { assert(before[a].0 != before[b].0); }
                }
                assert forall|x: int| 0 <= x < before.len() && before[x].0 == k implies self@ == before.update(x, (k, v)) by {
                    if x != i { assert(before[x].0 != before[i as int].0); }
                }
                return;
            }
            i = i + 1;
        }
        self.entries.push((k, v));
    }

    /// The values, in order.
    pub fn values(&self) -> (v: Vec<u64>)
        ensures
            v@ == self@.map_values(|p: (Replica, u64)| p.1),
    {
        let mut v: Vec<u64> = Vec::new();
        let mut i: usize = 0;
        while i < self.entries.len()
            invariant
                i <= self.entries@.len(),
                v@ == self@.subrange(0, i as int).map_values(|p: (Replica, u64)| p.1),
            decreases self.entries@.len() - i,
        {
            v.push(self.entries[i].1);
            i = i + 1;
            assert(v@ =~= self@.subrange(0, i as int).map_values(|p: (Replica, u64)| p.1));
        }
        assert(self@.subrange(0, i as int) =~= self@);
        v
    }

    /// The number of nodes with a value.
    pub fn len(&self) -> (n: usize)
        ensures
            n == self@.len(),
    {
        self.entries.len()
    }
}

/// The state of one round: the reliable broadcasts of all nodes, the values
/// accepted, the two kinds of witness lists, the values that nodes reported on
/// termination, and which kind of witness list the round is waiting for.
pub struct RoundState {
    pub node_msgs: HashMap<Replica, Msg>,
    pub echos: HashMap<Replica, NodeSet>,
    pub readys: HashMap<Replica, NodeSet>,
    pub accepted_vals: Vec<u64>,
    pub witnesses: WitnessMap,
    pub terminated_rbcs: NodeSet,
    pub accepted_witnesses: NodeSet,
    pub witness_sent: bool,
    pub witnesses2: WitnessMap,
    pub term_values: ValueMap,
    pub wround: u32,
}

/// The mathematical content of a [`RoundState`].
pub struct RoundStateView {
    pub node_msgs: Map<Replica, MsgView>,
    pub echos: Map<Replica, Set<Replica>>,
    pub readys: Map<Replica, Set<Replica>>,
    pub accepted_vals: Seq<u64>,
    pub witnesses: Seq<(Replica, Seq<Replica>)>,
    pub terminated_rbcs: Set<Replica>,
    pub accepted_witnesses: Set<Replica>,
    pub witness_sent: bool,
    pub witnesses2: Seq<(Replica, Seq<Replica>)>,
    pub term_values: Seq<(Replica, u64)>,
    pub wround: u32,
}

impl View for RoundState {
    type V = RoundStateView;

    open spec fn view(&self) -> RoundStateView {
        RoundStateView {
            node_msgs: self.node_msgs@.map_values(|m: Msg| m@),
            echos: votes_view(self.echos@),
            readys: votes_view(self.readys@),
            accepted_vals: self.accepted_vals@,
            witnesses: self.witnesses@,
            terminated_rbcs: self.terminated_rbcs@,
            accepted_witnesses: self.accepted_witnesses@,
            witness_sent: self.witness_sent,
            witnesses2: self.witnesses2@,
            term_values: self.term_values@,
            wround: self.wround,
        }
    }
}

/// The state of a round that has seen nothing, waiting for the first kind of
/// witness lists.
pub open spec fn empty_round_view() -> RoundStateView {
    RoundStateView {
        node_msgs: Map::empty(),
        echos: Map::empty(),
        readys: Map::empty(),
        accepted_vals: Seq::empty(),
        witnesses: Seq::empty(),
        terminated_rbcs: Set::empty(),
        accepted_witnesses: Set::empty(),
        witness_sent: false,
        witnesses2: Seq::empty(),
        term_values: Seq::empty(),
        wround: 1,
    }
}

impl RoundState {
    pub open spec fn wf(&self) -> bool {
        &&& votes_wf(self.echos@)
        &&& votes_wf(self.readys@)
        &&& self.witnesses.wf()
        &&& self.witnesses2.wf()
        &&& self.terminated_rbcs.wf()
        &&& self.accepted_witnesses.wf()
        &&& self.term_values.wf()
    }

    /// The state of a round that has seen nothing.
    pub fn new() -> (r: RoundState)
        ensures
            r.wf(),
            r@ == empty_round_view(),
    {
        let r = RoundState {
            node_msgs: HashMap::new(),
            echos: HashMap::new(),
            readys: HashMap::new(),
            witnesses: WitnessMap::new(),
            accepted_vals: Vec::new(),
            terminated_rbcs: NodeSet::new(),
            accepted_witnesses: NodeSet::new(),
            witness_sent: false,
            term_values: ValueMap::new(),
            witnesses2: WitnessMap::new(),
            wround: 1,
        };
        assert(r@.node_msgs =~= Map::<Replica, MsgView>::empty());
        assert(r@.echos =~= Map::<Replica, Set<Replica>>::empty());
        assert(r@.readys =~= Map::<Replica, Set<Replica>>::empty());
        r
    }

    /// Stores the message of a broadcast under its originator.
    pub fn insert_node(&mut self, msg: Msg)
        requires
            old(self).wf(),
        ensures
            final(self).wf(),
            final(self)@ == (RoundStateView { node_msgs: old(self)@.node_msgs.insert(msg.origin, msg@), ..old(self)@ }),
    {
        let ghost old_v = self@;
        let o = msg.origin;
        let ghost mv = msg@;
        self.node_msgs.insert(o, msg);
        assert(self@.node_msgs =~= old_v.node_msgs.insert(o, mv));
    }
}

} // verus!
