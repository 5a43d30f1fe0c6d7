//! The reliable broadcast with which Delphi nodes exchange the rounds at which
//! they are ready to finish. Each handler takes the node's state and an event
//! and returns the actions to perform, in order; the caller handles each
//! `Deliver` action at once, before the actions that follow it.

use vstd::prelude::*;
use crate::types::{Replica, Round, Msg, MsgView};
use crate::votes::add_vote_spec;
use crate::appxcon::msg::{ProtMsg, ProtMsgView};
use crate::fin::rbc_state::{RBCState, RBCStateView, empty_rbc_view};
use crate::fin::context::{phase_init, phase_echo, phase_ready, phase_accept};

verus! {

/// An event of the broadcast: the start of a broadcast, or an ECHO or READY
/// for the broadcast of the first node, sent by the second.
pub enum RbcEvent {
    RbcInit(Msg, Replica),
    Echo(Msg, Replica, Replica),
    Ready(Msg, Replica, Replica),
}

pub enum RbcEventView {
    RbcInit(MsgView, Replica),
    Echo(MsgView, Replica, Replica),
    Ready(MsgView, Replica, Replica),
}

impl View for RbcEvent {
    type V = RbcEventView;

    open spec fn view(&self) -> RbcEventView {
        match self {
            RbcEvent::RbcInit(m, o) => RbcEventView::RbcInit(m@, *o),
            RbcEvent::Echo(m, o, s) => RbcEventView::Echo(m@, *o, *s),
            RbcEvent::Ready(m, o, s) => RbcEventView::Ready(m@, *o, *s),
        }
    }
}

/// What a handler asks of the node: send a message to all other nodes,
/// handle one of its own events at once, or aggregate the agreement's outputs
/// up to the given round and report the result to the synchronizer.
pub enum RbcAction {
    Broadcast(ProtMsg),
    Deliver(RbcEvent),
    Aggregate(Round),
}

pub enum RbcActionView {
    Broadcast(ProtMsgView),
    Deliver(RbcEventView),
    Aggregate(Round),
}

impl View for RbcAction {
    type V = RbcActionView;

    open spec fn view(&self) -> RbcActionView {
        match self {
            RbcAction::Broadcast(m) => RbcActionView::Broadcast(m@),
            RbcAction::Deliver(e) => RbcActionView::Deliver(e@),
            RbcAction::Aggregate(r) => RbcActionView::Aggregate(*r),
        }
    }
}

/// The views of a list of actions.
pub open spec fn rbc_actions_view(a: Seq<RbcAction>) -> Seq<RbcActionView> {
    a.map_values(|x: RbcAction| x@)
}

/// The greatest of a list of values, `0` for none.
pub open spec fn max_of(s: Seq<u64>) -> u64
    decreases s.len(),
{
    if s.len() == 0 {
        0
    } else {
        let m = max_of(s.drop_last());
        if s.last() > m { s.last() } else { m }
    }
}

/// The state of a node's reliable broadcasts: the thresholds, its current
/// agreement round, and whether it has finished.
pub struct Context {
    pub num_nodes: usize,
    pub myid: Replica,
    pub num_faults: usize,
    pub round: Round,
    pub terminated: bool,
    pub rbc_state: RBCState,
}

/// The mathematical content of a [`Context`].
pub struct ContextView {
    pub num_nodes: usize,
    pub myid: Replica,
    pub num_faults: usize,
    pub round: Round,
    pub terminated: bool,
    pub rbc_state: RBCStateView,
}

impl View for Context {
    type V = ContextView;

    open spec fn view(&self) -> ContextView {
        ContextView {
            num_nodes: self.num_nodes,
            myid: self.myid,
            num_faults: self.num_faults,
            round: self.round,
            terminated: self.terminated,
            rbc_state: self.rbc_state@,
        }
    }
}

/// The start of the broadcast of `m`: the message is stored with this node's
/// ECHO and READY votes, and this node echoes it.
pub open spec fn rbc_init_spec(c: ContextView, m: MsgView, rbc_origin: Replica) -> (ContextView, Seq<RbcActionView>) {
    let p = c.rbc_state;
    let s = m.origin;
    let p2 = RBCStateView {
        node_msgs: p.node_msgs.insert(s, m),
        echos: add_vote_spec(p.echos, s, c.myid),
        readys: add_vote_spec(p.readys, s, c.myid),
        ..p
    };
    (ContextView { rbc_state: p2, ..c }, seq![
        RbcActionView::Broadcast(ProtMsgView::ECHO(m, m.origin, c.myid)),
        RbcActionView::Deliver(RbcEventView::Echo(m, rbc_origin, c.myid)),
    ])
}

/// An ECHO of `sender` for the broadcast of `origin`: once it has exactly
/// `n - f` ECHOs and its message is known, this node sends READY. An accepted
/// broadcast ignores it.
pub open spec fn rbc_echo_spec(c: ContextView, m: MsgView, origin: Replica, sender: Replica) -> (ContextView, Seq<RbcActionView>) {
    let p = c.rbc_state;
    if p.terminated_rbcs.contains(origin) {
        (c, Seq::empty())
    } else {
        let echos = add_vote_spec(p.echos, origin, sender);
        let c2 = ContextView { rbc_state: RBCStateView { echos, ..p }, ..c };
        if echos[origin].len() == c.num_nodes - c.num_faults && p.node_msgs.contains_key(origin) {
            (c2, seq![
                RbcActionView::Broadcast(ProtMsgView::READY(m, m.origin, c.myid)),
                RbcActionView::Deliver(RbcEventView::Ready(m, origin, c.myid)),
            ])
        } else {
            (c2, Seq::empty())
        }
    }
}

/// A READY of `sender` for the broadcast of `origin`. With `f + 1` READYs
/// this node sends its own; with `n - f` the broadcast is accepted with the
/// round carried by `m`. Once `n - f` broadcasts are accepted, a node that has
/// not finished and whose round has reached the greatest accepted round
/// aggregates up to that round and finishes.
pub open spec fn rbc_ready_spec(c: ContextView, m: MsgView, origin: Replica, sender: Replica) -> (ContextView, Seq<RbcActionView>) {
    let n = c.num_nodes;
    let f = c.num_faults;
    let p = c.rbc_state;
    if p.terminated_rbcs.contains(origin) {
        (c, Seq::empty())
    } else {
        let readys = add_vote_spec(p.readys, origin, sender);
        let p1 = RBCStateView { readys, ..p };
        let cnt = readys[origin].len();
        let has = p.node_msgs.contains_key(origin);
        if cnt == f + 1 && has {
            (ContextView { rbc_state: p1, ..c }, seq![RbcActionView::Broadcast(ProtMsgView::READY(m, origin, c.myid))])
        } else if cnt >= n - f && has {
            let p2 = RBCStateView {
                terminated_rbcs: p.terminated_rbcs.insert(origin),
                terminated_order: p.terminated_order.push(origin),
                accepted_vals: p.accepted_vals.push(m.value),
                ..p1
            };
            let c2 = ContextView { rbc_state: p2, ..c };
            let max_round = max_of(p2.accepted_vals);
            if p2.terminated_rbcs.len() >= n - f && !c.terminated && max_round <= c.round {
                (ContextView { terminated: true, ..c2 }, seq![RbcActionView::Aggregate(max_round)])
            } else {
                (c2, Seq::empty())
            }
        } else {
            (ContextView { rbc_state: p1, ..c }, Seq::empty())
        }
    }
}

/// The handling of any event.
pub open spec fn rbc_step_spec(c: ContextView, e: RbcEventView) -> (ContextView, Seq<RbcActionView>) {
    match e {
        RbcEventView::RbcInit(m, o) => rbc_init_spec(c, m, o),
        RbcEventView::Echo(m, o, s) => rbc_echo_spec(c, m, o, s),
        RbcEventView::Ready(m, o, s) => rbc_ready_spec(c, m, o, s),
    }
}

/// The greatest value of a list.
fn max_accepted(v: &Vec<u64>) -> (m: u64)
    ensures
        m == max_of(v@),
{
    let mut m: u64 = 0;
    let mut i: usize = 0;
    while i < v.len()
        invariant
            i <= v@.len(),
            m == max_of(v@.subrange(0, i as int)),
        decreases v@.len() - i,
    {
        assert(v@.subrange(0, i + 1).drop_last() =~= v@.subrange(0, i as int));
        if v[i] > m {
            m = v[i];
        }
        i = i + 1;
    }
    assert(v@.subrange(0, v@.len() as int) =~= v@);
    m
}

impl Context {
    /// The thresholds are meaningful and the broadcasts' state is well formed.
    pub open spec fn wf(&self) -> bool {
        &&& self.num_faults < self.num_nodes
        &&& self.rbc_state.wf()
    }

    /// A node at round `0` that has seen no broadcast.
    pub fn new(num_nodes: usize, myid: Replica, num_faults: usize) -> (c: Context)
        requires
            num_faults < num_nodes,
        ensures
            c.wf(),
            c@ == (ContextView {
                num_nodes, myid, num_faults, round: 0, terminated: false, rbc_state: empty_rbc_view(),
            }),
    {
        Context { num_nodes, myid, num_faults, round: 0, terminated: false, rbc_state: RBCState::new() }
    }

    /// Handles the start of the broadcast of `main_msg`, received from
    /// `rbc_origin`.
    pub fn process_rbc_init(&mut self, main_msg: Msg, rbc_origin: Replica) -> (acts: Vec<RbcAction>)
        requires
            old(self).wf(),
        ensures
            final(self).wf(),
            (final(self)@, rbc_actions_view(acts@)) == rbc_init_spec(old(self)@, main_msg@, rbc_origin),
    {
        let myid = self.myid;
        let o = main_msg.origin;
        let m2 = main_msg.duplicate();
        let m3 = main_msg.duplicate();
        phase_init(&mut self.rbc_state, main_msg, myid);
        let mut acts: Vec<RbcAction> = Vec::new();
        acts.push(RbcAction::Broadcast(ProtMsg::ECHO(m2, o, myid)));
        acts.push(RbcAction::Deliver(RbcEvent::Echo(m3, rbc_origin, myid)));
        assert(rbc_actions_view(acts@) =~= rbc_init_spec(old(self)@, main_msg@, rbc_origin).1);
        acts
    }

    /// Handles an ECHO of `echo_sender` for the broadcast of `rbc_origin`.
    pub fn process_echo(&mut self, main_msg: Msg, rbc_origin: Replica, echo_sender: Replica) -> (acts: Vec<RbcAction>)
        requires
            old(self).wf(),
        ensures
            final(self).wf(),
            (final(self)@, rbc_actions_view(acts@)) == rbc_echo_spec(old(self)@, main_msg@, rbc_origin, echo_sender),
    {
        let r = phase_echo(&mut self.rbc_state, rbc_origin, echo_sender);
        let mut acts: Vec<RbcAction> = Vec::new();
        match r {
            Some((cnt, has)) => {
                if cnt == self.num_nodes - self.num_faults && has {
                    let o = main_msg.origin;
                    acts.push(RbcAction::Broadcast(ProtMsg::READY(main_msg.duplicate(), o, self.myid)));
                    acts.push(RbcAction::Deliver(RbcEvent::Ready(main_msg, rbc_origin, self.myid)));
                }
            },
            None => {},
        }
        assert(rbc_actions_view(acts@) =~= rbc_echo_spec(old(self)@, main_msg@, rbc_origin, echo_sender).1);
        acts
    }

    /// Handles a READY of `ready_sender` for the broadcast of `rbc_origin`.
    pub fn process_ready(&mut self, msg: Msg, rbc_origin: Replica, ready_sender: Replica) -> (acts: Vec<RbcAction>)
        requires
            old(self).wf(),
        ensures
            final(self).wf(),
            (final(self)@, rbc_actions_view(acts@)) == rbc_ready_spec(old(self)@, msg@, rbc_origin, ready_sender),
    {
        let ghost c0 = self@;
        let n = self.num_nodes;
        let f = self.num_faults;
        let myid = self.myid;
        let mut acts: Vec<RbcAction> = Vec::new();
        let r = phase_ready(&mut self.rbc_state, rbc_origin, ready_sender);
        let (cnt, has) = match r {
            Some(x) => x,
            None => {
                assert(rbc_actions_view(acts@) =~= Seq::<RbcActionView>::empty());
                return acts;
            },
        };
        if cnt == f + 1 && has {
            acts.push(RbcAction::Broadcast(ProtMsg::READY(msg, rbc_origin, myid)));
            assert(rbc_actions_view(acts@) =~= rbc_ready_spec(c0, msg@, rbc_origin, ready_sender).1);
            return acts;
        }
        if !(cnt >= n - f && has) {
            assert(rbc_actions_view(acts@) =~= Seq::<RbcActionView>::empty());
            return acts;
        }
        let tl = phase_accept(&mut self.rbc_state, rbc_origin, msg.value);
        if tl >= n - f && !self.terminated {
            let max_round = max_accepted(&self.rbc_state.accepted_vals);
            if max_round <= self.round {
                acts.push(RbcAction::Aggregate(max_round));
                self.terminated = true;
            }
        }
        assert(rbc_actions_view(acts@) =~= rbc_ready_spec(c0, msg@, rbc_origin, ready_sender).1);
        acts
    }

    /// Handles any event.
    pub fn step(&mut self, e: RbcEvent) -> (acts: Vec<RbcAction>)
        requires
            old(self).wf(),
        ensures
            final(self).wf(),
            (final(self)@, rbc_actions_view(acts@)) == rbc_step_spec(old(self)@, e@),
    {
        match e {
            RbcEvent::RbcInit(m, o) => self.process_rbc_init(m, o),
            RbcEvent::Echo(m, o, s) => self.process_echo(m, o, s),
            RbcEvent::Ready(m, o, s) => self.process_ready(m, o, s),
        }
    }
}

/// A node aggregates at most once: once it has finished, no event makes it
/// aggregate again, and it stays finished. When an event makes it aggregate up
/// to round `r`, at least `n - f` broadcasts are accepted, `r` is the greatest
/// accepted round, and the node's own round has reached `r`.
pub proof fn lemma_aggregates_once(c: ContextView, e: RbcEventView)
    ensures
        c.terminated ==> {
            let (c2, acts) = rbc_step_spec(c, e);
            &&& c2.terminated
            &&& forall|i: int| 0 <= i < acts.len() ==> !(#[trigger] acts[i] is Aggregate)
        },
        forall|i: int| 0 <= i < rbc_step_spec(c, e).1.len() && (#[trigger] rbc_step_spec(c, e).1[i]) is Aggregate ==> {
            let (c2, acts) = rbc_step_spec(c, e);
            &&& !c.terminated
            &&& c2.terminated
            &&& c2.rbc_state.terminated_rbcs.len() >= c.num_nodes - c.num_faults
            &&& acts[i]->Aggregate_0 == max_of(c2.rbc_state.accepted_vals)
            &&& acts[i]->Aggregate_0 <= c.round
        },
{
}

} // verus!
