//! The decisions of a node running approximate agreement: each handler takes
//! the node's state and an event and returns the actions to perform, in
//! order. Sending messages and reporting to the synchronizer are left to the
//! caller, which handles each `Deliver` action at once, before the actions
//! that follow it.

use std::collections::HashMap;
use vstd::prelude::*;
use crate::types::{Replica, Msg, MsgView, NodeSet};
use crate::votes::{add_vote, add_vote_spec, votes_view};
use crate::witness::{wmap_insert, count_covered};
use crate::sorting::{sort_u64, sorted_u64};
use crate::arith::mid_u64;
use crate::appxcon::msg::{ProtMsg, ProtMsgView, Event, EventView, Action, ActionView, actions_view};
use crate::appxcon::roundvals::{RoundState, RoundStateView, empty_round_view, created_round_view};
use crate::appxcon::echo::create_roundstate;

verus! {

broadcast use vstd::std_specs::hash::group_hash_axioms;

/// The last round whose end starts another round.
pub const LAST_ROUND: u64 = 10;

/// The protocol state of a node.
pub struct Context {
    pub num_nodes: usize,
    pub myid: usize,
    pub num_faults: usize,
    pub payload: usize,
    pub round: u64,
    pub value: u64,
    pub epsilon: u64,
    pub round_state: HashMap<u64, RoundState>,
}

/// The mathematical content of a [`Context`].
pub struct ContextView {
    pub num_nodes: usize,
    pub myid: usize,
    pub num_faults: usize,
    pub payload: usize,
    pub round: u64,
    pub value: u64,
    pub epsilon: u64,
    pub round_state: Map<u64, RoundStateView>,
}

impl View for Context {
    type V = ContextView;

    open spec fn view(&self) -> ContextView {
        ContextView {
            num_nodes: self.num_nodes,
            myid: self.myid,
            num_faults: self.num_faults,
            payload: self.payload,
            round: self.round,
            value: self.value,
            epsilon: self.epsilon,
            round_state: self.round_state@.map_values(|r: RoundState| r@),
        }
    }
}

/// The state with the state of round `r` replaced.
pub open spec fn with_round(c: ContextView, r: u64, rs: RoundStateView) -> ContextView {
    ContextView { round_state: c.round_state.insert(r, rs), ..c }
}

/// The message with which a node starts its broadcast of `value` in `round`.
pub open spec fn init_msg(value: u64, origin: Replica, round: u64) -> MsgView {
    MsgView { value, origin, round, rnd_estm: false, message: Seq::empty() }
}

/// The actions that start this node's broadcast of `value` in `round`.
pub open spec fn start_rbc_actions(value: u64, myid: Replica, round: u64) -> Seq<ActionView> {
    seq![
        ActionView::Broadcast(ProtMsgView::RBCInit(init_msg(value, myid, round), myid)),
        ActionView::Deliver(EventView::RbcInit(init_msg(value, myid, round))),
    ]
}

/// The start of the broadcast of `m`: the message is stored with this
/// node's ECHO and READY votes, and this node echoes it.
pub open spec fn rbc_init_spec(c: ContextView, m: MsgView) -> (ContextView, Seq<ActionView>) {
    let r = m.round;
    let o = m.origin;
    let rs2 = if c.round_state.contains_key(r) {
        let rs = c.round_state[r];
        RoundStateView {
            node_msgs: rs.node_msgs.insert(o, m),
            echos: add_vote_spec(rs.echos, o, c.myid),
            readys: add_vote_spec(rs.readys, o, c.myid),
            ..rs
        }
    } else {
        created_round_view(o, m, c.myid)
    };
    (with_round(c, r, rs2), seq![
        ActionView::Broadcast(ProtMsgView::ECHO(m, o, c.myid)),
        ActionView::Deliver(EventView::Echo(m, c.myid)),
    ])
}

/// An ECHO of `sender` for the broadcast of `m`: once the broadcast has
/// exactly `n - f` ECHOs and its message is known, this node sends READY.
/// A broadcast already accepted ignores it.
pub open spec fn echo_spec(c: ContextView, m: MsgView, sender: Replica) -> (ContextView, Seq<ActionView>) {
    let r = m.round;
    let o = m.origin;
    if c.round_state.contains_key(r) {
        let rs = c.round_state[r];
        if rs.terminated_rbcs.contains(o) {
            (c, Seq::empty())
        } else {
            let echos = add_vote_spec(rs.echos, o, sender);
            let c2 = with_round(c, r, RoundStateView { echos, ..rs });
            if echos[o].len() == c.num_nodes - c.num_faults && rs.node_msgs.contains_key(o) {
                (c2, seq![
                    ActionView::Broadcast(ProtMsgView::READY(m, o, c.myid)),
                    ActionView::Deliver(EventView::Ready(m, c.myid)),
                ])
            } else {
                (c2, Seq::empty())
            }
        }
    } else {
        let rs = created_round_view(o, m, c.myid);
        (with_round(c, r, RoundStateView { echos: add_vote_spec(rs.echos, o, sender), ..rs }), Seq::empty())
    }
}

/// A READY of `sender` for the broadcast of `m`: with `f + 1` READYs this
/// node sends its own; with `n - f` the broadcast is accepted with the value of
/// `m`. Once `n - f` broadcasts are accepted, the node checks its witnesses and
/// (once per round) announces the broadcasts it accepted.
pub open spec fn ready_spec(c: ContextView, m: MsgView, sender: Replica) -> (ContextView, Seq<ActionView>) {
    let r = m.round;
    let o = m.origin;
    let n = c.num_nodes;
    let f = c.num_faults;
    if c.round_state.contains_key(r) {
        let rs = c.round_state[r];
        if rs.terminated_rbcs.contains(o) {
            (c, Seq::empty())
        } else {
            let readys = add_vote_spec(rs.readys, o, sender);
            let rs1 = RoundStateView { readys, ..rs };
            let cnt = readys[o].len();
            let has = rs.node_msgs.contains_key(o);
            if cnt == f + 1 && has {
                (with_round(c, r, rs1), seq![ActionView::Broadcast(ProtMsgView::READY(m, o, c.myid))])
            } else if cnt >= n - f && has {
                let rs2 = RoundStateView {
                    terminated_rbcs: rs.terminated_rbcs.insert(o),
                    terminated_order: rs.terminated_order.push(o),
                    accepted_vals: rs.accepted_vals.push(m.value),
                    ..rs1
                };
                if rs2.terminated_rbcs.len() >= n - f {
                    if !rs2.witness_sent {
                        (with_round(c, r, RoundStateView { witness_sent: true, ..rs2 }), seq![
                            ActionView::Deliver(EventView::CheckWitnesses(r)),
                            ActionView::Broadcast(ProtMsgView::WITNESS(rs2.terminated_order, c.myid, c.round)),
                            ActionView::Deliver(EventView::Witness(rs2.terminated_order, c.round, c.myid)),
                        ])
                    } else {
                        (with_round(c, r, rs2), seq![ActionView::Deliver(EventView::CheckWitnesses(r))])
                    }
                } else {
                    (with_round(c, r, rs2), Seq::empty())
                }
            } else {
                (with_round(c, r, rs1), Seq::empty())
            }
        }
    } else {
        let rs = created_round_view(o, m, c.myid);
        (with_round(c, r, RoundStateView { readys: add_vote_spec(rs.readys, o, sender), ..rs }), Seq::empty())
    }
}

/// The witness list `v` announced by `sender` for `round`.
pub open spec fn witness_spec(c: ContextView, v: Seq<Replica>, round: u64, sender: Replica) -> (ContextView, Seq<ActionView>) {
    if c.round_state.contains_key(round) {
        let rs = c.round_state[round];
        (with_round(c, round, RoundStateView { witnesses: wmap_insert(rs.witnesses, sender, v), ..rs }),
            seq![ActionView::Deliver(EventView::CheckWitnesses(round))])
    } else {
        (with_round(c, round, RoundStateView { witnesses: wmap_insert(Seq::empty(), sender, v), ..empty_round_view() }), Seq::empty())
    }
}

/// The number of announced witness lists of `round` that are wholly among
/// the broadcasts this node accepted.
pub open spec fn witness_count(rs: RoundStateView) -> nat {
    count_covered(rs.witnesses, rs.terminated_rbcs, rs.witnesses.len())
}

/// Whether the round is over: more than `f + 1` values accepted and `n - f`
/// witness lists wholly accepted.
pub open spec fn round_complete(c: ContextView, round: u64) -> bool {
    let rs = c.round_state[round];
    &&& rs.accepted_vals.len() > c.num_faults + 1
    &&& witness_count(rs) >= c.num_nodes - c.num_faults
}

/// The value of the next round, from the accepted values in sorted order:
/// the midpoint of the `(f+1)`-th smallest and the `(f+1)`-th largest.
pub open spec fn trimmed_midpoint(s: Seq<u64>, f: int) -> int {
    (s[f] + s[s.len() - f - 1]) / 2
}

/// The check of the witnesses of `round`: when the round is over, the accepted
/// values are sorted, the node's value becomes their trimmed midpoint, and the
/// next round starts (up to [`LAST_ROUND`]); after the last round the value is
/// reported. Otherwise nothing changes.
pub open spec fn check_spec(c: ContextView, round: u64, c2: ContextView, acts: Seq<ActionView>) -> bool {
    if round_complete(c, round) {
        let rs = c.round_state[round];
        let rs2 = c2.round_state[round];
        let v = trimmed_midpoint(rs2.accepted_vals, c.num_faults as int);
        &&& sorted_u64(rs2.accepted_vals)
        &&& rs2.accepted_vals.to_multiset() == rs.accepted_vals.to_multiset()
        &&& c2 == (ContextView { value: v as u64, round: (round + 1) as u64, ..with_round(c, round, RoundStateView { accepted_vals: rs2.accepted_vals, ..rs }) })
        &&& acts == if round + 1 <= LAST_ROUND { start_rbc_actions(v as u64, c.myid, (round + 1) as u64) } else { seq![ActionView::Completed(v as u64)] }
    } else {
        c2 == c && acts == Seq::<ActionView>::empty()
    }
}

/// A protocol message received: messages of rounds before the node's
/// current round are dropped.
pub open spec fn process_msg_spec(c: ContextView, pm: ProtMsgView) -> (ContextView, Seq<ActionView>) {
    match pm {
        ProtMsgView::RBCInit(m, _) => if c.round <= m.round { rbc_init_spec(c, m) } else { (c, Seq::empty()) },
        ProtMsgView::ECHO(m, _, s) => if c.round <= m.round { echo_spec(c, m, s) } else { (c, Seq::empty()) },
        ProtMsgView::READY(m, _, s) => if c.round <= m.round { ready_spec(c, m, s) } else { (c, Seq::empty()) },
        ProtMsgView::WITNESS(v, s, r) => if c.round <= r { witness_spec(c, v, r, s) } else { (c, Seq::empty()) },
    }
}

impl Context {
    /// The thresholds are meaningful, and every round state is well formed.
    pub open spec fn wf(&self) -> bool {
        &&& self.num_faults < self.num_nodes
        &&& forall|r: u64| #[trigger] self.round_state@.contains_key(r) ==> self.round_state@[r].wf()
    }

    /// A node that has not started: round zero, with its input value.
    pub fn new(num_nodes: usize, myid: usize, num_faults: usize, payload: usize, value: u64, epsilon: u64) -> (c: Context)
        requires
            num_faults < num_nodes,
        ensures
            c.wf(),
            c@ == (ContextView { num_nodes, myid, num_faults, payload, round: 0, value, epsilon, round_state: Map::empty() }),
    {
        let c = Context { num_nodes, myid, num_faults, payload, round: 0, value, epsilon, round_state: HashMap::new() };
        assert(c@.round_state =~= Map::<u64, RoundStateView>::empty());
        c
    }

    /// Starts this node's broadcast of its value for its current round.
    pub fn start_rbc(&self) -> (acts: Vec<Action>)
        ensures
            actions_view(acts@) == start_rbc_actions(self.value, self.myid, self.round),
    {
        start_actions(self.value, self.myid, self.round)
    }

    /// Handles the start of the broadcast of `main_msg`.
    pub fn process_rbc_init(&mut self, main_msg: Msg) -> (acts: Vec<Action>)
        requires
            old(self).wf(),
        ensures
            final(self).wf(),
            (final(self)@, actions_view(acts@)) == rbc_init_spec(old(self)@, main_msg@),
    {
        let ghost c0 = self@;
        let r = main_msg.round;
        let o = main_msg.origin;
        let myid = self.myid;
        let rs2 = match self.round_state.remove(&r) {
            Some(mut rs) => {
                let ghost rsv = rs@;
                rs.insert_node_as(o, main_msg.duplicate());
                let _ = add_vote(&mut rs.echos, o, myid);
                let _ = add_vote(&mut rs.readys, o, myid);
                assert(rs@ == (RoundStateView {
                    node_msgs: rsv.node_msgs.insert(o, main_msg@),
                    echos: add_vote_spec(rsv.echos, o, myid),
                    readys: add_vote_spec(rsv.readys, o, myid),
                    ..rsv
                }));
                rs
            },
            None => create_roundstate(o, &main_msg, myid),
        };
        let ghost rs2v = rs2@;
        self.round_state.insert(r, rs2);
        assert(self@ == with_round(c0, r, rs2v)) by {
            assert(self@.round_state =~= c0.round_state.insert(r, rs2v));
        }
        let mut acts: Vec<Action> = Vec::new();
        acts.push(Action::Broadcast(ProtMsg::ECHO(main_msg.duplicate(), o, myid)));
        acts.push(Action::Deliver(Event::Echo(main_msg, myid)));
        assert(actions_view(acts@) =~= rbc_init_spec(c0, main_msg@).1);
        acts
    }
}

impl Context {
    /// Handles an ECHO of `echo_sender` for the broadcast of `main_msg`.
    pub fn process_echo(&mut self, main_msg: Msg, echo_sender: Replica) -> (acts: Vec<Action>)
        requires
            old(self).wf(),
        ensures
            final(self).wf(),
            (final(self)@, actions_view(acts@)) == echo_spec(old(self)@, main_msg@, echo_sender),
    {
        let ghost c0 = self@;
        let r = main_msg.round;
        let o = main_msg.origin;
        let myid = self.myid;
        let mut acts: Vec<Action> = Vec::new();
        match self.round_state.remove(&r) {
            Some(mut rs) => {
                if rs.terminated_rbcs.contains(o) {
                    self.round_state.insert(r, rs);
                    assert(self@.round_state =~= c0.round_state);
                    return acts;
                }
                let ghost rsv = rs@;
                let cnt = add_vote(&mut rs.echos, o, echo_sender);
                let has = rs.node_msgs.contains_key(&o);
                assert(rs@ == (RoundStateView { echos: add_vote_spec(rsv.echos, o, echo_sender), ..rsv }));
                let ghost rs2v = rs@;
                self.round_state.insert(r, rs);
                assert(self@.round_state =~= c0.round_state.insert(r, rs2v));
                if cnt == self.num_nodes - self.num_faults && has {
                    acts.push(Action::Broadcast(ProtMsg::READY(main_msg.duplicate(), o, myid)));
                    acts.push(Action::Deliver(Event::Ready(main_msg, myid)));
                }
                assert(actions_view(acts@) =~= echo_spec(c0, main_msg@, echo_sender).1);
                acts
            },
            None => {
                let mut rs = create_roundstate(o, &main_msg, myid);
                let ghost rsv = rs@;
                let _ = add_vote(&mut rs.echos, o, echo_sender);
                assert(rs@ == (RoundStateView { echos: add_vote_spec(rsv.echos, o, echo_sender), ..rsv }));
                let ghost rs2v = rs@;
                self.round_state.insert(r, rs);
                assert(self@.round_state =~= c0.round_state.insert(r, rs2v));
                assert(actions_view(acts@) =~= Seq::<ActionView>::empty());
                acts
            },
        }
    }

    /// Handles a READY of `ready_sender` for the broadcast of `main_msg`.
    pub fn process_ready(&mut self, main_msg: Msg, ready_sender: Replica) -> (acts: Vec<Action>)
        requires
            old(self).wf(),
        ensures
            final(self).wf(),
            (final(self)@, actions_view(acts@)) == ready_spec(old(self)@, main_msg@, ready_sender),
    {
        let ghost c0 = self@;
        let r = main_msg.round;
        let o = main_msg.origin;
        let myid = self.myid;
        let n = self.num_nodes;
        let f = self.num_faults;
        let mut acts: Vec<Action> = Vec::new();
        match self.round_state.remove(&r) {
            Some(mut rs) => {
                if rs.terminated_rbcs.contains(o) {
                    self.round_state.insert(r, rs);
                    assert(self@.round_state =~= c0.round_state);
                    return acts;
                }
                let ghost rsv = rs@;
                let cnt = add_vote(&mut rs.readys, o, ready_sender);
                let has = rs.node_msgs.contains_key(&o);
                let ghost rs1v = rs@;
                assert(rs1v == (RoundStateView { readys: add_vote_spec(rsv.readys, o, ready_sender), ..rsv }));
                if cnt == f + 1 && has {
                    acts.push(Action::Broadcast(ProtMsg::READY(main_msg.duplicate(), o, myid)));
                } else if cnt >= n - f && has {
                    proof { rs.terminated_rbcs.lemma_finite(); }
                    rs.terminated_rbcs.insert(o);
                    rs.accepted_vals.push(main_msg.value);
                    proof { rs.terminated_rbcs.lemma_finite(); }
                    let tl = rs.terminated_rbcs.len();
                    if tl >= n - f {
                        let ghost order = rs.terminated_rbcs.elems();
                        acts.push(Action::Deliver(Event::CheckWitnesses(r)));
                        if !rs.witness_sent {
                            let vec_rbcs = rs.terminated_rbcs.to_vec();
                            let vec2 = rs.terminated_rbcs.to_vec();
                            rs.witness_sent = true;
                            acts.push(Action::Broadcast(ProtMsg::WITNESS(vec_rbcs, myid, self.round)));
                            acts.push(Action::Deliver(Event::Witness(vec2, self.round, myid)));
                        }
                    }
                }
                let ghost rs2v = rs@;
                self.round_state.insert(r, rs);
                assert(self@.round_state =~= c0.round_state.insert(r, rs2v));
                assert(self@ == ready_spec(c0, main_msg@, ready_sender).0);
                assert(actions_view(acts@) =~= ready_spec(c0, main_msg@, ready_sender).1);
                acts
            },
            None => {
                let mut rs = create_roundstate(o, &main_msg, myid);
                let ghost rsv = rs@;
                let _ = add_vote(&mut rs.readys, o, ready_sender);
                assert(rs@ == (RoundStateView { readys: add_vote_spec(rsv.readys, o, ready_sender), ..rsv }));
                let ghost rs2v = rs@;
                self.round_state.insert(r, rs);
                assert(self@.round_state =~= c0.round_state.insert(r, rs2v));
                assert(actions_view(acts@) =~= Seq::<ActionView>::empty());
                acts
            },
        }
    }

    /// Handles the witness list `vec_rbc_indices` that `witness_sender`
    /// announced for `round`.
    pub fn handle_witness(&mut self, vec_rbc_indices: Vec<Replica>, round: u64, witness_sender: Replica) -> (acts: Vec<Action>)
        requires
            old(self).wf(),
        ensures
            final(self).wf(),
            (final(self)@, actions_view(acts@)) == witness_spec(old(self)@, vec_rbc_indices@, round, witness_sender),
    {
        let ghost c0 = self@;
        let ghost v = vec_rbc_indices@;
        let mut acts: Vec<Action> = Vec::new();
        match self.round_state.remove(&round) {
            Some(mut rs) => {
                rs.witnesses.insert(witness_sender, vec_rbc_indices);
                let ghost rs2v = rs@;
                self.round_state.insert(round, rs);
                assert(self@.round_state =~= c0.round_state.insert(round, rs2v));
                acts.push(Action::Deliver(Event::CheckWitnesses(round)));
            },
            None => {
                let mut rs = RoundState::new();
                rs.witnesses.insert(witness_sender, vec_rbc_indices);
                let ghost rs2v = rs@;
                self.round_state.insert(round, rs);
                assert(self@.round_state =~= c0.round_state.insert(round, rs2v));
            },
        }
        assert(actions_view(acts@) =~= witness_spec(c0, v, round, witness_sender).1);
        acts
    }

    /// Checks whether `round` is over; if so, moves to the next round.
    pub fn check_for_ht_witnesses(&mut self, round: u64) -> (acts: Vec<Action>)
        requires
            old(self).wf(),
            old(self)@.round_state.contains_key(round),
            round < u64::MAX,
        ensures
            final(self).wf(),
            check_spec(old(self)@, round, final(self)@, actions_view(acts@)),
    {
        let ghost c0 = self@;
        let f = self.num_faults;
        let n = self.num_nodes;
        let mut rs = self.round_state.remove(&round).unwrap();
        let len = rs.accepted_vals.len();
        if len <= f + 1 {
            self.round_state.insert(round, rs);
            assert(self@.round_state =~= c0.round_state);
            let acts: Vec<Action> = Vec::new();
            assert(actions_view(acts@) =~= Seq::<ActionView>::empty());
            return acts;
        }
        let high_threshold = len - f - 1;
        let i = rs.witnesses.count_covered(&rs.terminated_rbcs);
        if i >= n - f {
            let ghost rsv = rs@;
            sort_u64(&mut rs.accepted_vals);
            let nr_val = mid_u64(rs.accepted_vals[f], rs.accepted_vals[high_threshold]);
            let ghost rs2v = rs@;
            assert(rs2v == (RoundStateView { accepted_vals: rs2v.accepted_vals, ..rsv }));
            self.round_state.insert(round, rs);
            assert(self@.round_state =~= c0.round_state.insert(round, rs2v));
            self.value = nr_val;
            self.round = round + 1;
            if self.round <= LAST_ROUND {
                start_actions(nr_val, self.myid, self.round)
            } else {
                let mut acts: Vec<Action> = Vec::new();
                acts.push(Action::Completed(nr_val));
                assert(actions_view(acts@) =~= seq![ActionView::Completed(nr_val)]);
                acts
            }
        } else {
            self.round_state.insert(round, rs);
            assert(self@.round_state =~= c0.round_state);
            let acts: Vec<Action> = Vec::new();
            assert(actions_view(acts@) =~= Seq::<ActionView>::empty());
            acts
        }
    }

    /// Handles a protocol message whose authenticity was checked: messages of
    /// rounds before the node's current round are dropped.
    pub fn process_msg(&mut self, protmsg: ProtMsg) -> (acts: Vec<Action>)
        requires
            old(self).wf(),
        ensures
            final(self).wf(),
            (final(self)@, actions_view(acts@)) == process_msg_spec(old(self)@, protmsg@),
    {
        proof { assert(actions_view(Seq::<Action>::empty()) =~= Seq::<ActionView>::empty()); }
        match protmsg {
            ProtMsg::RBCInit(main_msg, _rep) => {
                if self.round <= main_msg.round { self.process_rbc_init(main_msg) } else { Vec::new() }
            },
            ProtMsg::ECHO(main_msg, _orig, sender) => {
                if self.round <= main_msg.round { self.process_echo(main_msg, sender) } else { Vec::new() }
            },
            ProtMsg::READY(main_msg, _orig, sender) => {
                if self.round <= main_msg.round { self.process_ready(main_msg, sender) } else { Vec::new() }
            },
            ProtMsg::WITNESS(v, sender, round) => {
                if self.round <= round { self.handle_witness(v, round, sender) } else { Vec::new() }
            },
        }
    }

    /// Handles an event that a handler asked for. A check of a round that has
    /// no state, or of the last representable round, does nothing.
    pub fn step(&mut self, ev: Event) -> (acts: Vec<Action>)
        requires
            old(self).wf(),
        ensures
            final(self).wf(),
            match ev@ {
                EventView::RbcInit(m) => (final(self)@, actions_view(acts@)) == rbc_init_spec(old(self)@, m),
                EventView::Echo(m, s) => (final(self)@, actions_view(acts@)) == echo_spec(old(self)@, m, s),
                EventView::Ready(m, s) => (final(self)@, actions_view(acts@)) == ready_spec(old(self)@, m, s),
                EventView::Witness(v, r, s) => (final(self)@, actions_view(acts@)) == witness_spec(old(self)@, v, r, s),
                EventView::CheckWitnesses(r) =>
                    if old(self)@.round_state.contains_key(r) && r < u64::MAX {
                        check_spec(old(self)@, r, final(self)@, actions_view(acts@))
                    } else {
                        final(self)@ == old(self)@ && acts@.len() == 0
                    },
            },
    {
        match ev {
            Event::RbcInit(m) => self.process_rbc_init(m),
            Event::Echo(m, s) => self.process_echo(m, s),
            Event::Ready(m, s) => self.process_ready(m, s),
            Event::Witness(v, r, s) => self.handle_witness(v, r, s),
            Event::CheckWitnesses(r) => {
                if r < u64::MAX && self.round_state.contains_key(&r) {
                    self.check_for_ht_witnesses(r)
                } else {
                    Vec::new()
                }
            },
        }
    }
}

/// The trimmed midpoint of sorted values lies between the two values it is
/// the midpoint of; when at least `2f + 1` values are sorted, these are the
/// `(f+1)`-th smallest and the `(f+1)`-th largest, in that order.
pub proof fn lemma_trimmed_midpoint(s: Seq<u64>, f: int)
    requires
        sorted_u64(s),
        0 <= f,
        s.len() > f + 1,
    ensures
        s.len() >= 2 * f + 1 ==> s[f] <= trimmed_midpoint(s, f) <= s[s.len() - f - 1],
        s.len() < 2 * f + 1 ==> s[s.len() - f - 1] <= trimmed_midpoint(s, f) <= s[f],
{
    if s.len() >= 2 * f + 1 {
        assert(s[f] <= s[s.len() - f - 1]);
    } else {
        assert(s[s.len() - f - 1] <= s[f]);
    }
}

/// Law (validity of approximate agreement): when a round ends, the node's
/// value for the next round lies between two of the values accepted in the
/// round; with at least `2f + 1` accepted values, between the `(f+1)`-th
/// smallest and the `(f+1)`-th largest, so that `f` faulty values at either
/// end cannot pull it outside the range of the others.
pub proof fn lemma_next_value_within_accepted(c: ContextView, round: u64, c2: ContextView, acts: Seq<ActionView>)
    requires
        check_spec(c, round, c2, acts),
        round_complete(c, round),
    ensures
        ({
            let s = c2.round_state[round].accepted_vals;
            let f = c.num_faults as int;
            s.len() >= 2 * f + 1 ==> s[f] <= c2.value <= s[s.len() - f - 1]
        }),
        exists|i: int, j: int| 0 <= i < c.round_state[round].accepted_vals.len()
            && 0 <= j < c.round_state[round].accepted_vals.len()
            && #[trigger] c.round_state[round].accepted_vals[i] <= c2.value
            && c2.value <= #[trigger] c.round_state[round].accepted_vals[j],
{
    broadcast use vstd::seq_lib::group_to_multiset_ensures;
    let acc = c.round_state[round].accepted_vals;
    let s = c2.round_state[round].accepted_vals;
    let f = c.num_faults as int;
    assert(s.len() == acc.len()) by {
        assert(s.to_multiset().len() == acc.to_multiset().len());
    }
    lemma_trimmed_midpoint(s, f);
    let lo = s[f];
    let hi = s[s.len() - f - 1];
    assert(s.contains(lo));
    assert(s.contains(hi));
    assert(acc.to_multiset().count(lo) > 0);
    assert(acc.to_multiset().count(hi) > 0);
    assert(acc.contains(lo));
    assert(acc.contains(hi));
    let i = choose|i: int| 0 <= i < acc.len() && acc[i] == lo;
    let j = choose|j: int| 0 <= j < acc.len() && acc[j] == hi;
    if s.len() >= 2 * f + 1 {
        assert(acc[i] <= c2.value <= acc[j]);
    } else {
        assert(acc[j] <= c2.value <= acc[i]);
    }
}

/// The actions that start the broadcast of `value` in `round`.
fn start_actions(value: u64, myid: Replica, round: u64) -> (acts: Vec<Action>)
    ensures
        actions_view(acts@) == start_rbc_actions(value, myid, round),
{
    let m1 = Msg { value, origin: myid, round, rnd_estm: false, message: Vec::new() };
    let m2 = Msg { value, origin: myid, round, rnd_estm: false, message: Vec::new() };
    let mut acts: Vec<Action> = Vec::new();
    acts.push(Action::Broadcast(ProtMsg::RBCInit(m1, myid)));
    acts.push(Action::Deliver(Event::RbcInit(m2)));
    assert(m1@ == init_msg(value, myid, round)) by { assert(m1@.message =~= Seq::<Replica>::empty()); }
    assert(m2@ == init_msg(value, myid, round)) by { assert(m2@.message =~= Seq::<Replica>::empty()); }
    assert(actions_view(acts@) =~= start_rbc_actions(value, myid, round));
    acts
}

} // verus!

verus! {

/// The state of round `r`, where there is one, keeps one accepted value per
/// accepted broadcast, lists each accepted broadcast once in the order of
/// acceptance, and has announced its witness list exactly when `n - f`
/// broadcasts are accepted.
pub open spec fn round_inv(c: ContextView, r: u64) -> bool {
    c.round_state.contains_key(r) ==> {
        let rs = c.round_state[r];
        &&& rs.terminated_order.no_duplicates()
        &&& rs.terminated_order.to_set() == rs.terminated_rbcs
        &&& rs.accepted_vals.len() == rs.terminated_order.len()
        &&& rs.witness_sent == (rs.terminated_order.len() >= c.num_nodes - c.num_faults)
    }
}

/// Round `r` has announced its witness list.
pub open spec fn witness_done(c: ContextView, r: u64) -> bool {
    c.round_state.contains_key(r) && c.round_state[r].witness_sent
}

/// The actions broadcast a witness list.
pub open spec fn sends_witness(acts: Seq<ActionView>) -> bool {
    exists|i: int| 0 <= i < acts.len() && (#[trigger] acts[i]) matches ActionView::Broadcast(ProtMsgView::WITNESS(_, _, _))
}

/// Every witness list that the actions broadcast is `l`, announced by `me`.
pub open spec fn witness_lists_are(acts: Seq<ActionView>, l: Seq<Replica>, me: Replica) -> bool {
    forall|i: int| 0 <= i < acts.len() ==> match #[trigger] acts[i] {
        ActionView::Broadcast(ProtMsgView::WITNESS(w, s, _)) => w == l && s == me,
        _ => true,
    }
}

proof fn lemma_ready_step(c: ContextView, m: MsgView, sender: Replica, r: u64)
    requires
        c.num_faults < c.num_nodes,
        round_inv(c, r),
    ensures
        ({
            let (c2, acts) = ready_spec(c, m, sender);
            &&& round_inv(c2, r)
            &&& c2.num_nodes == c.num_nodes && c2.num_faults == c.num_faults && c2.myid == c.myid
            &&& c.round_state.contains_key(r) ==> c2.round_state.contains_key(r)
                && c.round_state[r].terminated_order.is_prefix_of(c2.round_state[r].terminated_order)
            &&& m.round != r ==> (c2.round_state.contains_key(r) == c.round_state.contains_key(r)
                && (c.round_state.contains_key(r) ==> c2.round_state[r] == c.round_state[r]))
            &&& witness_done(c, r) ==> witness_done(c2, r)
            &&& m.round != r ==> witness_done(c2, r) == witness_done(c, r)
            &&& m.round == r ==> (sends_witness(acts) <==> (!witness_done(c, r) && witness_done(c2, r)))
            &&& m.round == r && sends_witness(acts) ==> {
                &&& c2.round_state[r].terminated_order.len() == c.num_nodes - c.num_faults
                &&& witness_lists_are(acts, c2.round_state[r].terminated_order, c.myid)
            }
        }),
{
    let (c2, acts) = ready_spec(c, m, sender);
    let rr = m.round;
    let o = m.origin;
    let n = c.num_nodes;
    let f = c.num_faults;
    if c.round_state.contains_key(rr) {
        let rs = c.round_state[rr];
        if !rs.terminated_rbcs.contains(o) {
            let readys = add_vote_spec(rs.readys, o, sender);
            let cnt = readys[o].len();
            let has = rs.node_msgs.contains_key(o);
            if !(cnt == f + 1 && has) && cnt >= n - f && has {
                let ord = rs.terminated_order.push(o);
                if rr == r {
                    assert(!rs.terminated_order.contains(o)) by {
                        if rs.terminated_order.contains(o) {
                            assert(rs.terminated_order.to_set().contains(o));
                        }
                    }
                    assert(ord.to_set() =~= rs.terminated_rbcs.insert(o)) by {
                        assert forall|x: Replica| ord.to_set().contains(x) <==> rs.terminated_rbcs.insert(o).contains(x) by {
                            if ord.contains(x) {
                                let i = choose|i: int| 0 <= i < ord.len() && ord[i] == x;
                                if i < rs.terminated_order.len() {
                                    assert(rs.terminated_order[i] == x);
                                    assert(rs.terminated_order.to_set().contains(x));
                                }
                            }
                            if rs.terminated_rbcs.insert(o).contains(x) {
                                if x == o {
                                    assert(ord[ord.len() - 1] == o);
                                } else {
                                    assert(rs.terminated_order.to_set().contains(x));
                                    let i = choose|i: int| 0 <= i < rs.terminated_order.len() && rs.terminated_order[i] == x;
                                    assert(ord[i] == x);
                                }
                            }
                        }
                    }
                    assert(ord.no_duplicates()) by {
                        assert forall|i: int, j: int| 0 <= i < ord.len() && 0 <= j < ord.len() && i != j implies ord[i] != ord[j] by {
                            if j == ord.len() - 1 && i < rs.terminated_order.len() {
                                assert(rs.terminated_order[i] == ord[i]);
                            } else if i == ord.len() - 1 && j < rs.terminated_order.len() {
                                assert(rs.terminated_order[j] == ord[j]);
                            }
                        }
                    }
                    assert(rs.terminated_order.is_prefix_of(ord));
                    ord.unique_seq_to_set();
                    if sends_witness(acts) {
                        assert(!rs.witness_sent) by {
                            if rs.witness_sent {
                                let i = choose|i: int| 0 <= i < acts.len() && (#[trigger] acts[i]) matches ActionView::Broadcast(ProtMsgView::WITNESS(_, _, _));
                            }
                        }
                    }
                    if !rs.witness_sent && rs.terminated_rbcs.insert(o).len() >= n - f {
                        assert(acts[1] matches ActionView::Broadcast(ProtMsgView::WITNESS(_, _, _)));
                    }
                } else {
                    assert(c2.round_state[r] == c.round_state[r]);
                }
            } else {
                if c.round_state.contains_key(r) {
                    assert(c2.round_state[r].terminated_order == c.round_state[r].terminated_order);
                    assert(c.round_state[r].terminated_order.is_prefix_of(c2.round_state[r].terminated_order));
                }
                if rr == r && sends_witness(acts) {
                    let i = choose|i: int| 0 <= i < acts.len() && (#[trigger] acts[i]) matches ActionView::Broadcast(ProtMsgView::WITNESS(_, _, _));
                }
            }
        } else {
            if c.round_state.contains_key(r) {
                assert(c.round_state[r].terminated_order.is_prefix_of(c2.round_state[r].terminated_order));
            }
        }
    } else {
        if c.round_state.contains_key(r) {
            assert(c2.round_state[r] == c.round_state[r]);
            assert(c.round_state[r].terminated_order.is_prefix_of(c2.round_state[r].terminated_order));
        }
        if rr == r {
            assert(c2.round_state[r].terminated_order.to_set() =~= Set::<Replica>::empty());
        }
    }
}

} // verus!

verus! {

/// An input of a node: a message from the network, or one of its own events.
pub enum AppxInput {
    Net(ProtMsgView),
    Own(EventView),
}

/// What a node does with an input, as `process_msg` and `step` state it.
pub open spec fn appx_step_ok(c: ContextView, i: AppxInput, c2: ContextView, acts: Seq<ActionView>) -> bool {
    match i {
        AppxInput::Net(pm) => (c2, acts) == process_msg_spec(c, pm),
        AppxInput::Own(ev) => match ev {
            EventView::RbcInit(m) => (c2, acts) == rbc_init_spec(c, m),
            EventView::Echo(m, s) => (c2, acts) == echo_spec(c, m, s),
            EventView::Ready(m, s) => (c2, acts) == ready_spec(c, m, s),
            EventView::Witness(v, r, s) => (c2, acts) == witness_spec(c, v, r, s),
            EventView::CheckWitnesses(r) =>
                if c.round_state.contains_key(r) && r < u64::MAX {
                    check_spec(c, r, c2, acts)
                } else {
                    c2 == c && acts.len() == 0
                },
        },
    }
}

/// The round of the READY that an input carries, if it is one.
pub open spec fn ready_round(i: AppxInput) -> Option<u64> {
    match i {
        AppxInput::Net(ProtMsgView::READY(m, _, _)) => Some(m.round),
        AppxInput::Own(EventView::Ready(m, _)) => Some(m.round),
        _ => None,
    }
}

/// An input other than a READY leaves round `r`'s accepted broadcasts and
/// its announcement as they were, and announces no witness list.
proof fn lemma_other_step(c: ContextView, i: AppxInput, c2: ContextView, acts: Seq<ActionView>, r: u64)
    requires
        c.num_faults < c.num_nodes,
        round_inv(c, r),
        appx_step_ok(c, i, c2, acts),
        ready_round(i) is None,
    ensures
        round_inv(c2, r),
        c2.num_nodes == c.num_nodes && c2.num_faults == c.num_faults && c2.myid == c.myid,
        c.round_state.contains_key(r) ==> c2.round_state.contains_key(r)
            && c2.round_state[r].terminated_order == c.round_state[r].terminated_order,
        witness_done(c2, r) == witness_done(c, r),
        !sends_witness(acts),
{
    broadcast use vstd::seq_lib::to_multiset_len;
    if sends_witness(acts) {
        let k = choose|k: int| 0 <= k < acts.len() && (#[trigger] acts[k]) matches ActionView::Broadcast(ProtMsgView::WITNESS(_, _, _));
    }
    match i {
        AppxInput::Own(EventView::CheckWitnesses(rr)) => {
            if c.round_state.contains_key(rr) && rr < u64::MAX && round_complete(c, rr) && rr == r {
                let rs2 = c2.round_state[r];
                assert(rs2.accepted_vals.len() == c.round_state[r].accepted_vals.len()) by {
                    assert(rs2.accepted_vals.to_multiset().len() == c.round_state[r].accepted_vals.to_multiset().len());
                }
            }
        },
        AppxInput::Net(ProtMsgView::RBCInit(m, _)) | AppxInput::Own(EventView::RbcInit(m)) => {
            if m.round == r && !c.round_state.contains_key(r) && c2 != c {
                assert(c2.round_state[r].terminated_order.to_set() =~= Set::<Replica>::empty());
            }
        },
        AppxInput::Net(ProtMsgView::ECHO(m, _, _)) | AppxInput::Own(EventView::Echo(m, _)) => {
            if m.round == r && !c.round_state.contains_key(r) && c2 != c {
                assert(c2.round_state[r].terminated_order.to_set() =~= Set::<Replica>::empty());
            }
        },
        AppxInput::Net(ProtMsgView::WITNESS(_, _, rr)) | AppxInput::Own(EventView::Witness(_, rr, _)) => {
            if rr == r && !c.round_state.contains_key(r) && c2 != c {
                assert(c2.round_state[r].terminated_order.to_set() =~= Set::<Replica>::empty());
            }
        },
        _ => {},
    }
}

/// Whether the `k`-th input of a run is a READY of round `r` whose actions
/// announce a witness list.
pub open spec fn announced_at(ins: Seq<AppxInput>, acts: Seq<Seq<ActionView>>, r: u64, k: int) -> bool {
    ready_round(ins[k]) == Some(r) && sends_witness(acts[k])
}

/// Law of `Context::process_ready` over runs: over any run of a node
/// (messages from the network and its own events,
/// interleaved in any order), starting where round `r` is well kept (one
/// accepted value per accepted broadcast, each accepted broadcast listed once,
/// the witness list announced exactly when `n - f` broadcasts are accepted),
/// round `r` stays so at every step; its READYs announce its witness list at
/// most once, exactly when `n - f` broadcasts are first accepted, and the list
/// announced is that of the first `n - f` broadcasts accepted, in the order of
/// acceptance.
pub proof fn lemma_witness_once_run(cs: Seq<ContextView>, ins: Seq<AppxInput>, acts: Seq<Seq<ActionView>>, r: u64)
    requires
        cs.len() == ins.len() + 1,
        acts.len() == ins.len(),
        forall|q: int| 0 <= q < ins.len() ==> appx_step_ok(cs[q], #[trigger] ins[q], cs[q + 1], acts[q]),
        cs[0].num_faults < cs[0].num_nodes,
        round_inv(cs[0], r),
    ensures
        forall|q: int| 0 <= q < cs.len() ==> round_inv(#[trigger] cs[q], r),
        witness_done(cs.last(), r) == (witness_done(cs[0], r) || exists|k: int| 0 <= k < ins.len() && #[trigger] announced_at(ins, acts, r, k)),
        forall|k: int| 0 <= k < ins.len() && #[trigger] announced_at(ins, acts, r, k) ==> {
            &&& !witness_done(cs[0], r)
            &&& witness_lists_are(acts[k], cs.last().round_state[r].terminated_order.take(cs[0].num_nodes - cs[0].num_faults), cs[0].myid)
        },
        forall|j: int, k: int| 0 <= j < k < ins.len() && #[trigger] announced_at(ins, acts, r, j) ==> !#[trigger] announced_at(ins, acts, r, k),
    decreases ins.len(),
{
    if ins.len() == 0 {
        assert(cs.last() == cs[0]);
    } else {
        let n = ins.len() - 1;
        let cs0 = cs.drop_last();
        let ins0 = ins.drop_last();
        let acts0 = acts.drop_last();
        assert forall|q: int| 0 <= q < ins0.len() implies appx_step_ok(cs0[q], #[trigger] ins0[q], cs0[q + 1], acts0[q]) by {
            assert(ins0[q] == ins[q]);
            assert(appx_step_ok(cs[q], ins[q], cs[q + 1], acts[q]));
        }
        lemma_witness_once_run(cs0, ins0, acts0, r);
        let c = cs[n];
        let c2 = cs[n + 1];
        assert(cs0.last() == c);
        assert(cs0[0] == cs[0]);
        assert(cs.last() == c2);
        assert(appx_step_ok(c, ins[n], c2, acts[n]));
        let t = (cs[0].num_nodes - cs[0].num_faults) as int;
        // The thresholds and the node never change.
        assert(c.num_nodes == cs[0].num_nodes && c.num_faults == cs[0].num_faults && c.myid == cs[0].myid) by {
            lemma_run_keeps(cs, ins, acts, n);
        }
        assert(round_inv(c, r));
        if ready_round(ins[n]) is None {
            lemma_other_step(c, ins[n], c2, acts[n], r);
            if c.round_state.contains_key(r) {
                assert(c.round_state[r].terminated_order.is_prefix_of(c2.round_state[r].terminated_order));
            }
        } else {
            let (m, s) = match ins[n] {
                AppxInput::Net(ProtMsgView::READY(m, _, s)) => (m, s),
                AppxInput::Own(EventView::Ready(m, s)) => (m, s),
                _ => (arbitrary(), arbitrary()),
            };
            let handled = match ins[n] {
                AppxInput::Net(_) => c.round <= m.round,
                _ => true,
            };
            if handled {
                lemma_ready_step(c, m, s, r);
                assert((c2, acts[n]) == ready_spec(c, m, s));
            } else {
                assert(c2 == c && acts[n] == Seq::<ActionView>::empty());
                if c.round_state.contains_key(r) {
                    assert(c.round_state[r].terminated_order.is_prefix_of(c2.round_state[r].terminated_order));
                }
            }
        }
        assert forall|q: int| 0 <= q < cs.len() implies round_inv(#[trigger] cs[q], r) by {
            if q < cs.len() - 1 {
                assert(cs[q] == cs0[q]);
            }
        }
        assert forall|k: int| 0 <= k < n implies #[trigger] announced_at(ins, acts, r, k) == announced_at(ins0, acts0, r, k) by {
            assert(ins[k] == ins0[k]);
            assert(acts[k] == acts0[k]);
        }
        assert forall|k: int| 0 <= k < ins.len() && #[trigger] announced_at(ins, acts, r, k) implies {
            &&& !witness_done(cs[0], r)
            &&& witness_lists_are(acts[k], c2.round_state[r].terminated_order.take(t), cs[0].myid)
        } by {
            if k < n {
                assert(announced_at(ins0, acts0, r, k));
                let o1 = c.round_state[r].terminated_order;
                let o2 = c2.round_state[r].terminated_order;
                assert(witness_done(c, r));
                assert(o1.len() >= t);
                assert(o1.take(t) =~= o2.take(t));
            } else {
                let o2 = c2.round_state[r].terminated_order;
                assert(o2.take(t) =~= o2);
            }
        }
        assert forall|j: int, k: int| 0 <= j < k < ins.len() && #[trigger] announced_at(ins, acts, r, j) implies !#[trigger] announced_at(ins, acts, r, k) by {
            if k == n && announced_at(ins, acts, r, k) {
                assert(announced_at(ins0, acts0, r, j));
                assert(witness_done(c, r));
            } else if k < n {
                assert(announced_at(ins0, acts0, r, j));
            }
        }
        if witness_done(c2, r) && !witness_done(cs[0], r) {
            if witness_done(c, r) {
                let k = choose|k: int| 0 <= k < ins0.len() && #[trigger] announced_at(ins0, acts0, r, k);
                assert(announced_at(ins, acts, r, k));
            } else {
                assert(announced_at(ins, acts, r, n));
            }
        }
        if exists|k: int| 0 <= k < ins.len() && #[trigger] announced_at(ins, acts, r, k) {
            let k = choose|k: int| 0 <= k < ins.len() && #[trigger] announced_at(ins, acts, r, k);
            if k < n {
                assert(announced_at(ins0, acts0, r, k));
            }
        }
    }
}

proof fn lemma_run_keeps(cs: Seq<ContextView>, ins: Seq<AppxInput>, acts: Seq<Seq<ActionView>>, k: int)
    requires
        cs.len() == ins.len() + 1,
        acts.len() == ins.len(),
        forall|q: int| 0 <= q < ins.len() ==> appx_step_ok(cs[q], #[trigger] ins[q], cs[q + 1], acts[q]),
        0 <= k < cs.len(),
    ensures
        cs[k].num_nodes == cs[0].num_nodes && cs[k].num_faults == cs[0].num_faults && cs[k].myid == cs[0].myid,
    decreases k,
{
    if k > 0 {
        lemma_run_keeps(cs, ins, acts, k - 1);
        assert(appx_step_ok(cs[k - 1], ins[k - 1], cs[k], acts[k - 1]));
    }
}

} // verus!
