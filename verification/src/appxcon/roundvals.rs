//! The state of one round of approximate agreement.

use std::collections::HashMap;
use vstd::prelude::*;
use crate::types::{Replica, Msg, MsgView, NodeSet};
use crate::witness::WitnessMap;
use crate::votes::{votes_view, votes_wf};

verus! {

broadcast use vstd::std_specs::hash::group_hash_axioms;

/// The state of one round: the reliable broadcasts of all nodes (their
/// messages, ECHO and READY voters), the values accepted, the witness lists
/// announced, and whether this node announced its own.
pub struct RoundState {
    pub node_msgs: HashMap<Replica, Msg>,
    pub echos: HashMap<Replica, NodeSet>,
    pub readys: HashMap<Replica, NodeSet>,
    pub accepted_vals: Vec<u64>,
    pub witnesses: WitnessMap,
    pub terminated_rbcs: NodeSet,
    pub accepted_witnesses: NodeSet,
    pub witness_sent: bool,
}

/// The mathematical content of a [`RoundState`]; `terminated_order` lists
/// the accepted broadcasts in the order of acceptance.
pub struct RoundStateView {
    pub node_msgs: Map<Replica, MsgView>,
    pub echos: Map<Replica, Set<Replica>>,
    pub readys: Map<Replica, Set<Replica>>,
    pub accepted_vals: Seq<u64>,
    pub witnesses: Seq<(Replica, Seq<Replica>)>,
    pub terminated_rbcs: Set<Replica>,
    pub terminated_order: Seq<Replica>,
    pub accepted_witnesses: Set<Replica>,
    pub witness_sent: bool,
}

impl View for RoundState {
    type V = RoundStateView;

    open spec fn view(&self) -> RoundStateView {
        RoundStateView {
            node_msgs: self.node_msgs@.map_values(|m: Msg| m@),
            echos: votes_view(self.echos@),
            readys: votes_view(self.readys@),
            accepted_vals: self.accepted_vals@,
            witnesses: self.witnesses@,
            terminated_rbcs: self.terminated_rbcs@,
            terminated_order: self.terminated_rbcs.elems(),
            accepted_witnesses: self.accepted_witnesses@,
            witness_sent: self.witness_sent,
        }
    }
}

/// The state of a round that has seen nothing.
pub open spec fn empty_round_view() -> RoundStateView {
    RoundStateView {
        node_msgs: Map::empty(),
        echos: Map::empty(),
        readys: Map::empty(),
        accepted_vals: Seq::empty(),
        witnesses: Seq::empty(),
        terminated_rbcs: Set::empty(),
        terminated_order: Seq::empty(),
        accepted_witnesses: Set::empty(),
        witness_sent: false,
    }
}

/// The state of a round created for the broadcast of `sender`: its message,
/// with this node's own ECHO and READY votes.
pub open spec fn created_round_view(sender: Replica, msg: MsgView, curr_id: Replica) -> RoundStateView {
    RoundStateView {
        node_msgs: Map::empty().insert(sender, msg),
        echos: Map::empty().insert(sender, set![curr_id]),
        readys: Map::empty().insert(sender, set![curr_id]),
        ..empty_round_view()
    }
}

impl RoundState {
    /// The vote sets are well formed, and every accepted broadcast
    /// contributed exactly one accepted value.
    pub open spec fn wf(&self) -> bool {
        &&& votes_wf(self.echos@)
        &&& votes_wf(self.readys@)
        &&& self.witnesses.wf()
        &&& self.terminated_rbcs.wf()
        &&& self.accepted_witnesses.wf()
        &&& self.accepted_vals@.len() == self.terminated_rbcs@.len()
    }

    /// The state of a round that has seen nothing.
    pub fn new() -> (r: RoundState)
        ensures
            r.wf(),
            r@ == empty_round_view(),
    {
        let r = RoundState {
            node_msgs: HashMap::new(),
            echos: HashMap::new(),
            readys: HashMap::new(),
            witnesses: WitnessMap::new(),
            accepted_vals: Vec::new(),
            terminated_rbcs: NodeSet::new(),
            accepted_witnesses: NodeSet::new(),
            witness_sent: false,
        };
        proof {
            r.terminated_rbcs.lemma_finite();
        }
        assert(r@.node_msgs =~= Map::<Replica, MsgView>::empty());
        assert(r@.echos =~= Map::<Replica, Set<Replica>>::empty());
        assert(r@.readys =~= Map::<Replica, Set<Replica>>::empty());
        r
    }

    /// Stores the message of a broadcast under its originator.
    pub fn insert_node(&mut self, msg: Msg)
        requires
            old(self).wf(),
        ensures
            final(self).wf(),
            final(self)@ == (RoundStateView { node_msgs: old(self)@.node_msgs.insert(msg.origin, msg@), ..old(self)@ }),
    {
        let ghost old_v = self@;
        let o = msg.origin;
        let ghost mv = msg@;
        self.node_msgs.insert(o, msg);
        assert(self@.node_msgs =~= old_v.node_msgs.insert(o, mv));
    }
}

} // verus!
