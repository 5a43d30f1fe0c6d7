//! Creation of the state of a round from the first message seen for it.

use std::collections::HashMap;
use vstd::prelude::*;
use crate::types::{Replica, Msg, NodeSet};
use crate::witness::WitnessMap;
use crate::votes::single_vote;
use crate::appxcon::roundvals::{RoundState, created_round_view};

verus! {

broadcast use vstd::std_specs::hash::group_hash_axioms;

/// The state of a round created for the broadcast of `sender`: its message,
/// with the own ECHO and READY votes of node `curr_id`.
pub fn create_roundstate(sender: Replica, main_msg: &Msg, curr_id: Replica) -> (r: RoundState)
    ensures
        r.wf(),
        r@ == created_round_view(sender, main_msg@, curr_id),
{
    let mut rnd_state = RoundState::new();
    rnd_state.insert_node_as(sender, main_msg.duplicate());
    rnd_state.echos = single_vote(sender, curr_id);
    rnd_state.readys = single_vote(sender, curr_id);
    assert(rnd_state@.node_msgs =~= created_round_view(sender, main_msg@, curr_id).node_msgs);
    rnd_state
}

impl RoundState {
    /// Stores a message under the given originator.
    pub fn insert_node_as(&mut self, sender: Replica, msg: Msg)
        requires
            old(self).wf(),
        ensures
            final(self).wf(),
            final(self)@ == (crate::appxcon::roundvals::RoundStateView { node_msgs: old(self)@.node_msgs.insert(sender, msg@), ..old(self)@ }),
    {
        let ghost old_v = self@;
        let ghost mv = msg@;
        self.node_msgs.insert(sender, msg);
        assert(self@.node_msgs =~= old_v.node_msgs.insert(sender, mv));
    }
}

} // verus!
