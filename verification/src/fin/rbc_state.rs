//! The state of the reliable broadcasts of one phase of FIN.

use std::collections::HashMap;
use vstd::prelude::*;
use crate::types::{Replica, Msg, MsgView, NodeSet};
use crate::votes::{votes_view, votes_wf};

verus! {

broadcast use vstd::std_specs::hash::group_hash_axioms;

/// The reliable broadcasts of all nodes in one phase: their messages, ECHO
/// and READY voters, the values accepted, and the broadcasts accepted.
pub struct RBCState {
    pub node_msgs: HashMap<Replica, Msg>,
    pub echos: HashMap<Replica, NodeSet>,
    pub readys: HashMap<Replica, NodeSet>,
    pub accepted_vals: Vec<u64>,
    pub terminated_rbcs: NodeSet,
}

/// The mathematical content of an [`RBCState`]; `terminated_order` lists the
/// accepted broadcasts in the order of acceptance.
pub struct RBCStateView {
    pub node_msgs: Map<Replica, MsgView>,
    pub echos: Map<Replica, Set<Replica>>,
    pub readys: Map<Replica, Set<Replica>>,
    pub accepted_vals: Seq<u64>,
    pub terminated_rbcs: Set<Replica>,
    pub terminated_order: Seq<Replica>,
}

impl View for RBCState {
    type V = RBCStateView;

    open spec fn view(&self) -> RBCStateView {
        RBCStateView {
            node_msgs: self.node_msgs@.map_values(|m: Msg| m@),
            echos: votes_view(self.echos@),
            readys: votes_view(self.readys@),
            accepted_vals: self.accepted_vals@,
            terminated_rbcs: self.terminated_rbcs@,
            terminated_order: self.terminated_rbcs.elems(),
        }
    }
}

/// The state of a phase that has seen nothing.
pub open spec fn empty_rbc_view() -> RBCStateView {
    RBCStateView {
        node_msgs: Map::empty(),
        echos: Map::empty(),
        readys: Map::empty(),
        accepted_vals: Seq::empty(),
        terminated_rbcs: Set::empty(),
        terminated_order: Seq::empty(),
    }
}

impl RBCState {
    /// The vote sets are well formed, and every accepted broadcast
    /// contributed exactly one accepted value.
    pub open spec fn wf(&self) -> bool {
        &&& votes_wf(self.echos@)
        &&& votes_wf(self.readys@)
        &&& self.terminated_rbcs.wf()
        &&& self.accepted_vals@.len() == self.terminated_rbcs@.len()
    }

    /// The state of a phase that has seen nothing.
    pub fn new() -> (r: RBCState)
        ensures
            r.wf(),
            r@ == empty_rbc_view(),
    {
        let r = RBCState {
            node_msgs: HashMap::new(),
            echos: HashMap::new(),
            readys: HashMap::new(),
            accepted_vals: Vec::new(),
            terminated_rbcs: NodeSet::new(),
        };
        proof {
            r.terminated_rbcs.lemma_finite();
        }
        assert(r@.node_msgs =~= Map::<Replica, MsgView>::empty());
        assert(r@.echos =~= Map::<Replica, Set<Replica>>::empty());
        assert(r@.readys =~= Map::<Replica, Set<Replica>>::empty());
        r
    }

    /// Stores the message of a broadcast under its originator.
    pub fn insert_node(&mut self, msg: Msg)
        requires
            old(self).wf(),
        ensures
            final(self).wf(),
            final(self)@ == (RBCStateView { node_msgs: old(self)@.node_msgs.insert(msg.origin, msg@), ..old(self)@ }),
    {
        let ghost old_v = self@;
        let o = msg.origin;
        let ghost mv = msg@;
        self.node_msgs.insert(o, msg);
        assert(self@.node_msgs =~= old_v.node_msgs.insert(o, mv));
    }
}

} // verus!
