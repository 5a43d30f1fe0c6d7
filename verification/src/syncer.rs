//! The decisions of the synchronizer that starts and stops an experiment: it
//! starts the nodes once all of them are alive, and stops them once all of
//! them completed, reporting how long each took and whether they agree on the
//! threshold public key.

use std::collections::HashMap;
use vstd::prelude::*;
use crate::types::{Replica, NodeSet};
use crate::sorting::{sort_u128, sorted_u128};
use crate::aacs::select::keys_of;

verus! {

broadcast use {vstd::std_specs::hash::group_hash_axioms, vstd::seq_lib::group_to_multiset_ensures};

/// A report from a node: it is alive; or it completed, with its serialized
/// threshold public key, at the given time in milliseconds.
pub enum SyncEvent {
    Alive(Replica),
    Completed(Replica, Vec<u8>, u128),
}

/// What the synchronizer does: wait three seconds, tell all nodes to start
/// and record the time of that as the start; report the times the nodes took
/// (sorted), whether their keys agree and the key of the last one; tell all
/// nodes to stop.
pub enum SyncAction {
    StartVss,
    Report(Vec<u128>, bool, Vec<u8>),
    Stop,
}

pub enum SyncActionView {
    StartVss,
    Report(Seq<u128>, bool, Seq<u8>),
    Stop,
}

impl View for SyncAction {
    type V = SyncActionView;

    open spec fn view(&self) -> SyncActionView {
        match self {
            SyncAction::StartVss => SyncActionView::StartVss,
            SyncAction::Report(t, c, k) => SyncActionView::Report(t@, *c, k@),
            SyncAction::Stop => SyncActionView::Stop,
        }
    }
}

pub open spec fn sync_actions_view(a: Seq<SyncAction>) -> Seq<SyncActionView> {
    a.map_values(|x: SyncAction| x@)
}

/// The state of the synchronizer.
pub struct Syncer {
    pub num_nodes: usize,
    pub start_time: u128,
    pub alive: NodeSet,
    pub timings: HashMap<Replica, u128>,
    pub th_pks: HashMap<Replica, Vec<u8>>,
}

/// The mathematical content of a [`Syncer`].
pub struct SyncerView {
    pub num_nodes: usize,
    pub start_time: u128,
    pub alive: Set<Replica>,
    pub timings: Map<Replica, u128>,
    pub th_pks: Map<Replica, Seq<u8>>,
}

impl View for Syncer {
    type V = SyncerView;

    open spec fn view(&self) -> SyncerView {
        SyncerView {
            num_nodes: self.num_nodes,
            start_time: self.start_time,
            alive: self.alive@,
            timings: self.timings@,
            th_pks: self.th_pks@.map_values(|k: Vec<u8>| k@),
        }
    }
}

/// Node `s` is alive: once all nodes are, they are started.
pub open spec fn alive_spec(c: SyncerView, s: Replica) -> (SyncerView, Seq<SyncActionView>) {
    let a = c.alive.insert(s);
    (SyncerView { alive: a, ..c }, if a.len() == c.num_nodes { seq![SyncActionView::StartVss] } else { Seq::empty() })
}

/// The times the nodes took, in the order `order` of the nodes.
pub open spec fn durations(t: Map<Replica, u128>, start: u128, order: Seq<Replica>) -> Seq<u128> {
    order.map_values(|r: Replica| (t[r] - start) as u128)
}

/// Node `s` completed at `now` with key `pk`. Once all nodes completed, the
/// synchronizer reports the sorted times since the start, whether every key
/// equals `pk`, and `pk`; then it stops the nodes.
pub open spec fn completed_ok(c: SyncerView, s: Replica, pk: Seq<u8>, now: u128, c2: SyncerView, acts: Seq<SyncActionView>) -> bool {
    let t = c.timings.insert(s, now);
    let pks = c.th_pks.insert(s, pk);
    &&& c2 == SyncerView { timings: t, th_pks: pks, ..c }
    &&& if t.len() == c.num_nodes {
        &&& acts.len() == 2
        &&& acts[1] == SyncActionView::Stop
        &&& acts[0] matches SyncActionView::Report(times, consistent, key)
        &&& key == pk
        &&& consistent == (forall|k: Replica| #[trigger] pks.contains_key(k) ==> pks[k] == pk)
        &&& sorted_u128(times)
        &&& exists|order: Seq<Replica>| order.no_duplicates() && order.to_set() == t.dom()
            && times.to_multiset() == #[trigger] durations(t, c.start_time, order).to_multiset()
    } else {
        acts == Seq::<SyncActionView>::empty()
    }
}

impl Syncer {
    pub open spec fn wf(&self) -> bool {
        self.alive.wf()
    }

    /// A synchronizer for `num_nodes` nodes, before any report.
    pub fn new(num_nodes: usize) -> (s: Syncer)
        ensures
            s.wf(),
            s@ == (SyncerView { num_nodes, start_time: 0, alive: Set::empty(), timings: Map::empty(), th_pks: Map::empty() }),
    {
        let s = Syncer { num_nodes, start_time: 0, alive: NodeSet::new(), timings: HashMap::new(), th_pks: HashMap::new() };
        assert(s@.th_pks =~= Map::<Replica, Seq<u8>>::empty());
        s
    }

    /// Records the time at which the nodes were started.
    pub fn set_start_time(&mut self, now: u128)
        requires
            old(self).wf(),
        ensures
            final(self).wf(),
            final(self)@ == (SyncerView { start_time: now, ..old(self)@ }),
    {
        self.start_time = now;
    }

    /// Handles the report that node `s` is alive.
    pub fn handle_alive(&mut self, s: Replica) -> (acts: Vec<SyncAction>)
        requires
            old(self).wf(),
        ensures
            final(self).wf(),
            (final(self)@, sync_actions_view(acts@)) == alive_spec(old(self)@, s),
    {
        self.alive.insert(s);
        proof { self.alive.lemma_finite(); }
        let mut acts: Vec<SyncAction> = Vec::new();
        if self.alive.len() == self.num_nodes {
            acts.push(SyncAction::StartVss);
        }
        assert(sync_actions_view(acts@) =~= alive_spec(old(self)@, s).1);
        acts
    }

    /// Handles the report that node `s` completed at `now` with key `pk`.
    pub fn handle_completed(&mut self, s: Replica, pk: Vec<u8>, now: u128) -> (acts: Vec<SyncAction>)
        requires
            old(self).wf(),
            now >= old(self).start_time,
            forall|r: Replica| #[trigger] old(self).timings@.contains_key(r) ==> old(self).timings@[r] >= old(self).start_time,
        ensures
            final(self).wf(),
            completed_ok(old(self)@, s, pk@, now, final(self)@, sync_actions_view(acts@)),
    {
        let ghost c0 = self@;
        let ghost pkv = pk@;
        self.timings.insert(s, now);
        let key = pk.clone();
        self.th_pks.insert(s, pk);
        assert(self@.th_pks =~= c0.th_pks.insert(s, pkv));
        let mut acts: Vec<SyncAction> = Vec::new();
        if self.timings.len() != self.num_nodes {
            assert(sync_actions_view(acts@) =~= Seq::<SyncActionView>::empty());
            return acts;
        }
        let ks = keys_of(&self.timings);
        let mut times: Vec<u128> = Vec::new();
        let mut i: usize = 0;
        while i < ks.len()
            invariant
                i <= ks@.len(),
                ks@.to_set() == self.timings@.dom(),
                self.timings@ == c0.timings.insert(s, now),
                forall|r: Replica| #[trigger] self.timings@.contains_key(r) ==> self.timings@[r] >= c0.start_time,
                self.start_time == c0.start_time,
                times@ == durations(self.timings@, c0.start_time, ks@.subrange(0, i as int)),
            decreases ks@.len() - i,
        {
            let r = ks[i];
            assert(ks@.to_set().contains(r));
            let t = *self.timings.get(&r).unwrap();
            times.push(t - self.start_time);
            i = i + 1;
            assert(times@ =~= durations(self.timings@, c0.start_time, ks@.subrange(0, i as int)));
        }
        assert(ks@.subrange(0, ks@.len() as int) =~= ks@);
        let ghost unsorted = times@;
        sort_u128(&mut times);
        let pkeys = keys_of(&self.th_pks);
        let mut consistent = true;
        let mut j: usize = 0;
        while j < pkeys.len()
            invariant
                j <= pkeys@.len(),
                pkeys@.to_set() == self.th_pks@.dom(),
                key@ == pkv,
                consistent == (forall|q: int| 0 <= q < j ==> self.th_pks@[#[trigger] pkeys@[q]]@ == pkv),
            decreases pkeys@.len() - j,
        {
            let r = pkeys[j];
            assert(pkeys@.to_set().contains(r));
            let other = self.th_pks.get(&r).unwrap();
            let same = eq_bytes(other, &key);
            consistent = consistent && same;
            j = j + 1;
        }
        proof {
            let pks = self@.th_pks;
            assert(consistent == (forall|k: Replica| #[trigger] pks.contains_key(k) ==> pks[k] == pkv)) by {
                if consistent {
                    assert forall|k: Replica| #[trigger] pks.contains_key(k) implies pks[k] == pkv by {
                        assert(pkeys@.to_set().contains(k));
                        let q = choose|q: int| 0 <= q < pkeys@.len() && pkeys@[q] == k;
                        assert(self.th_pks@[pkeys@[q]]@ == pkv);
                    }
                } else {
                    let q = choose|q: int| 0 <= q < pkeys@.len() && self.th_pks@[#[trigger] pkeys@[q]]@ != pkv;
                    assert(pks.contains_key(pkeys@[q]));
                }
            }
        }
        acts.push(SyncAction::Report(times, consistent, key));
        acts.push(SyncAction::Stop);
        assert(durations(self@.timings, c0.start_time, ks@) == unsorted);
        acts
    }

    /// Handles a report.
    pub fn handle(&mut self, e: SyncEvent) -> (acts: Vec<SyncAction>)
        requires
            old(self).wf(),
            e matches SyncEvent::Completed(_, _, now) ==> now >= old(self).start_time
                && forall|r: Replica| #[trigger] old(self).timings@.contains_key(r) ==> old(self).timings@[r] >= old(self).start_time,
        ensures
            final(self).wf(),
            match e {
                SyncEvent::Alive(s) => (final(self)@, sync_actions_view(acts@)) == alive_spec(old(self)@, s),
                SyncEvent::Completed(s, pk, now) => completed_ok(old(self)@, s, pk@, now, final(self)@, sync_actions_view(acts@)),
            },
    {
        match e {
            SyncEvent::Alive(s) => self.handle_alive(s),
            SyncEvent::Completed(s, pk, now) => self.handle_completed(s, pk, now),
        }
    }
}

/// Whether two byte strings are equal.
fn eq_bytes(a: &Vec<u8>, b: &Vec<u8>) -> (r: bool)
    ensures
        r == (a@ == b@),
{
    if a.len() != b.len() {
        return false;
    }
    let mut i: usize = 0;
    while i < a.len()
        invariant
            a@.len() == b@.len(),
            i <= a@.len(),
            forall|k: int| 0 <= k < i ==> a@[k] == b@[k],
        decreases a@.len() - i,
    {
        if a[i] != b[i] {
            return false;
        }
        i = i + 1;
    }
    assert(a@ =~= b@);
    true
}

/// What a node hears from the synchronizer, or its own boot.
pub enum NodeSyncEvent {
    Boot,
    Start,
    Stop,
    Other,
}

/// What a node does in its handshake with the synchronizer: report that it
/// is alive, start its protocol, report that it started, or exit.
pub enum NodeSyncAction {
    SendAlive,
    StartProtocol,
    SendStarted,
    Exit,
}

/// A node's side of the handshake: whether it still runs, and whether it
/// reports STARTED after starting (the agreement protocols do, the DKG does
/// not).
pub struct NodeSync {
    pub running: bool,
    pub reports_started: bool,
}

/// The actions of a node for one event: on boot it reports that it is alive;
/// on START it starts its protocol (and reports STARTED where it does so); on
/// STOP it exits; after exiting it does nothing.
pub open spec fn node_sync_spec(running: bool, reports_started: bool, e: NodeSyncEvent) -> (bool, Seq<NodeSyncAction>) {
    if !running {
        (false, Seq::empty())
    } else {
        match e {
            NodeSyncEvent::Boot => (true, seq![NodeSyncAction::SendAlive]),
            NodeSyncEvent::Start => (true, if reports_started {
                seq![NodeSyncAction::StartProtocol, NodeSyncAction::SendStarted]
            } else {
                seq![NodeSyncAction::StartProtocol]
            }),
            NodeSyncEvent::Stop => (false, seq![NodeSyncAction::Exit]),
            NodeSyncEvent::Other => (true, Seq::empty()),
        }
    }
}

impl NodeSync {
    /// A node that has not heard from the synchronizer.
    pub fn new(reports_started: bool) -> (n: NodeSync)
        ensures
            n.running,
            n.reports_started == reports_started,
    {
        NodeSync { running: true, reports_started }
    }

    /// Handles one event of the handshake.
    pub fn step(&mut self, e: NodeSyncEvent) -> (acts: Vec<NodeSyncAction>)
        ensures
            final(self).reports_started == old(self).reports_started,
            (final(self).running, acts@) == node_sync_spec(old(self).running, old(self).reports_started, e),
    {
        let mut acts: Vec<NodeSyncAction> = Vec::new();
        if !self.running {
            return acts;
        }
        match e {
            NodeSyncEvent::Boot => acts.push(NodeSyncAction::SendAlive),
            NodeSyncEvent::Start => {
                acts.push(NodeSyncAction::StartProtocol);
                if self.reports_started {
                    acts.push(NodeSyncAction::SendStarted);
                }
            },
            NodeSyncEvent::Stop => {
                acts.push(NodeSyncAction::Exit);
                self.running = false;
            },
            NodeSyncEvent::Other => {},
        }
        assert(acts@ =~= node_sync_spec(old(self).running, old(self).reports_started, e).1);
        acts
    }
}

/// Whether a sequence of events holds a STOP before position `k`.
pub open spec fn stopped_before(es: Seq<NodeSyncEvent>, k: int) -> bool {
    exists|j: int| 0 <= j < k && es[j] is Stop
}

/// Law: a running node handling a sequence of events starts its protocol at
/// exactly the START events that come before any STOP, and after a STOP it
/// does nothing more.
pub proof fn lemma_node_starts_only_on_start(reports_started: bool, es: Seq<NodeSyncEvent>, k: int)
    requires
        0 <= k < es.len(),
    ensures
        ({
            let running = !stopped_before(es, k);
            let acts = node_sync_spec(running, reports_started, es[k]).1;
            &&& acts.contains(NodeSyncAction::StartProtocol) <==> (es[k] is Start && !stopped_before(es, k))
            &&& stopped_before(es, k) ==> acts.len() == 0
            &&& node_sync_spec(running, reports_started, es[k]).0 == !stopped_before(es, k + 1)
        }),
{
    let running = !stopped_before(es, k);
    let acts = node_sync_spec(running, reports_started, es[k]).1;
    if es[k] is Start && running {
        assert(acts[0] == NodeSyncAction::StartProtocol);
    }
    if es[k] is Stop {
        assert(stopped_before(es, k + 1));
    } else {
        if stopped_before(es, k + 1) {
            let j = choose|j: int| 0 <= j < k + 1 && es[j] is Stop;
            assert(j < k);
        }
    }
}

} // verus!
