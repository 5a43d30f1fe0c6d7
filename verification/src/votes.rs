//! Votes of reliable broadcast: for each broadcast, identified by its
//! originator, the set of nodes that voted for it.

use std::collections::HashMap;
use vstd::prelude::*;
use crate::types::{Replica, NodeSet};

verus! {

broadcast use vstd::std_specs::hash::group_hash_axioms;

/// The voters of each broadcast.
pub open spec fn votes_view(m: Map<Replica, NodeSet>) -> Map<Replica, Set<Replica>> {
    m.map_values(|s: NodeSet| s@)
}

/// Every set of voters is well formed.
pub open spec fn votes_wf(m: Map<Replica, NodeSet>) -> bool {
    forall|k: Replica| #[trigger] m.contains_key(k) ==> m[k].wf()
}

/// Records the vote of `voter` for the broadcast of `key`.
pub open spec fn add_vote_spec(m: Map<Replica, Set<Replica>>, key: Replica, voter: Replica) -> Map<Replica, Set<Replica>> {
    m.insert(key, if m.contains_key(key) { m[key].insert(voter) } else { Set::<Replica>::empty().insert(voter) })
}

/// Records the vote of `voter` for the broadcast of `key`; returns how many
/// distinct voters the broadcast has now.
pub fn add_vote(m: &mut HashMap<Replica, NodeSet>, key: Replica, voter: Replica) -> (n: usize)
    requires
        votes_wf(old(m)@),
    ensures
        votes_wf(final(m)@),
        votes_view(final(m)@) == add_vote_spec(votes_view(old(m)@), key, voter),
        n == add_vote_spec(votes_view(old(m)@), key, voter)[key].len(),
{
    let ghost old_v = votes_view(m@);
    let mut s = match m.remove(&key) {
        Some(s) => s,
        None => NodeSet::new(),
    };
    proof {
        if old_v.contains_key(key) {
            assert(s@ == old_v[key]);
        } else {
            assert(s@ == Set::<Replica>::empty());
        }
    }
    s.insert(voter);
    let n = s.len();
    let ghost sv = s@;
    m.insert(key, s);
    assert(votes_view(m@) =~= add_vote_spec(old_v, key, voter)) by {
        assert(votes_view(m@).dom() =~= add_vote_spec(old_v, key, voter).dom());
    }
    n
}

/// A single vote of `voter` for the broadcast of `key`.
pub fn single_vote(key: Replica, voter: Replica) -> (m: HashMap<Replica, NodeSet>)
    ensures
        votes_wf(m@),
        votes_view(m@) == Map::<Replica, Set<Replica>>::empty().insert(key, set![voter]),
{
    let mut m: HashMap<Replica, NodeSet> = HashMap::new();
    m.insert(key, NodeSet::singleton(voter));
    assert(votes_view(m@) =~= Map::<Replica, Set<Replica>>::empty().insert(key, set![voter]));
    m
}

} // verus!
