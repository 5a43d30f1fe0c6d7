//! The state of a FIN node and its reliable-broadcast handlers. Each handler
//! takes the node's state and an event and returns the actions to perform, in
//! order; the caller handles each `Deliver` action at once, before the actions
//! that follow it.

use std::collections::HashMap;
use vstd::prelude::*;
use crate::types::{Replica, Val, Round, Msg, MsgView, NodeSet};
use crate::votes::{add_vote, add_vote_spec};
use crate::witness::covered;
use crate::fin::rbc_state::{RBCState, RBCStateView, empty_rbc_view};
use crate::fin::roundvals_bin::{RoundStateBin, RoundStateBinView};
use crate::fin::msg::{FinMsg, FinMsgView, Event, EventView, Action, ActionView, actions_view};

verus! {

broadcast use vstd::std_specs::hash::group_hash_axioms;

/// The protocol state of a FIN node. `leaders` holds, for each leader round
/// whose election started, the leader once elected.
pub struct Context {
    pub num_nodes: usize,
    pub myid: Replica,
    pub num_faults: usize,
    pub input_val: Val,
    pub rbc_state: RBCState,
    pub mvba_state: RBCState,
    pub leaders: HashMap<Round, Option<Replica>>,
    pub witnesses: NodeSet,
    pub round_state: HashMap<Round, HashMap<Round, RoundStateBin>>,
    pub leader_round: Round,
    pub baa_round: Round,
    pub terminated: bool,
}

/// The mathematical content of a [`Context`].
pub struct ContextView {
    pub num_nodes: usize,
    pub myid: Replica,
    pub num_faults: usize,
    pub input_val: Val,
    pub rbc_state: RBCStateView,
    pub mvba_state: RBCStateView,
    pub leaders: Map<Round, Option<Replica>>,
    pub witnesses: Set<Replica>,
    pub round_state: Map<Round, Map<Round, RoundStateBinView>>,
    pub leader_round: Round,
    pub baa_round: Round,
    pub terminated: bool,
}

/// The views of the states of the agreement rounds of one leader round.
pub open spec fn bins_view(m: Map<Round, RoundStateBin>) -> Map<Round, RoundStateBinView> {
    m.map_values(|r: RoundStateBin| r@)
}

impl View for Context {
    type V = ContextView;

    open spec fn view(&self) -> ContextView {
        ContextView {
            num_nodes: self.num_nodes,
            myid: self.myid,
            num_faults: self.num_faults,
            input_val: self.input_val,
            rbc_state: self.rbc_state@,
            mvba_state: self.mvba_state@,
            leaders: self.leaders@,
            witnesses: self.witnesses@,
            round_state: self.round_state@.map_values(|m: HashMap<Round, RoundStateBin>| bins_view(m@)),
            leader_round: self.leader_round,
            baa_round: self.baa_round,
            terminated: self.terminated,
        }
    }
}

/// The broadcasts of the first phase, or of the second (`rnd_estm`).
pub open spec fn phase(c: ContextView, rnd_estm: bool) -> RBCStateView {
    if rnd_estm { c.mvba_state } else { c.rbc_state }
}

/// The state with the broadcasts of one phase replaced.
pub open spec fn with_phase(c: ContextView, rnd_estm: bool, p: RBCStateView) -> ContextView {
    if rnd_estm { ContextView { mvba_state: p, ..c } } else { ContextView { rbc_state: p, ..c } }
}

/// The start of the broadcast of `m`: the message is stored with this node's
/// ECHO and READY votes, and this node echoes it.
pub open spec fn fin_rbc_init_spec(c: ContextView, m: MsgView, rbc_origin: Replica) -> (ContextView, Seq<ActionView>) {
    let s = m.origin;
    let p = phase(c, m.rnd_estm);
    let p2 = RBCStateView {
        node_msgs: p.node_msgs.insert(s, m),
        echos: add_vote_spec(p.echos, s, c.myid),
        readys: add_vote_spec(p.readys, s, c.myid),
        ..p
    };
    (with_phase(c, m.rnd_estm, p2), seq![
        ActionView::Broadcast(FinMsgView::ECHO(m, m.origin, c.myid)),
        ActionView::Deliver(EventView::Echo(m, rbc_origin, c.myid)),
    ])
}

/// An ECHO of `sender` for the broadcast of `origin`: once it has exactly
/// `n - f` ECHOs and its message is known, this node sends READY. An accepted
/// broadcast ignores it.
pub open spec fn fin_echo_spec(c: ContextView, m: MsgView, origin: Replica, sender: Replica) -> (ContextView, Seq<ActionView>) {
    let p = phase(c, m.rnd_estm);
    if p.terminated_rbcs.contains(origin) {
        (c, Seq::empty())
    } else {
        let echos = add_vote_spec(p.echos, origin, sender);
        let c2 = with_phase(c, m.rnd_estm, RBCStateView { echos, ..p });
        if echos[origin].len() == c.num_nodes - c.num_faults && p.node_msgs.contains_key(origin) {
            (c2, seq![
                ActionView::Broadcast(FinMsgView::READY(m, m.origin, c.myid)),
                ActionView::Deliver(EventView::Ready(m, origin, c.myid)),
            ])
        } else {
            (c2, Seq::empty())
        }
    }
}

/// The message with which a node starts its second-phase broadcast: its
/// input, and the first-phase broadcasts it accepted.
pub open spec fn mvba_msg(c: ContextView, accepted: Seq<Replica>) -> MsgView {
    MsgView { value: c.input_val as u64, origin: c.myid, round: 0, rnd_estm: true, message: accepted }
}

/// A READY of `sender` for the broadcast of `origin`. With `f + 1` READYs
/// this node sends its own; with `n - f` the broadcast is accepted with the
/// value of `m`. In the first phase, accepting the `(n-f)`-th broadcast starts
/// this node's second-phase broadcast, and the witnesses are brought up to
/// date. In the second phase, the originator becomes a witness when every
/// broadcast it lists is accepted, and the `(n-f)`-th witness starts the
/// leader election.
pub open spec fn fin_ready_spec(c: ContextView, m: MsgView, origin: Replica, sender: Replica) -> (ContextView, Seq<ActionView>) {
    let n = c.num_nodes;
    let f = c.num_faults;
    let p = phase(c, m.rnd_estm);
    if p.terminated_rbcs.contains(origin) {
        (c, Seq::empty())
    } else {
        let readys = add_vote_spec(p.readys, origin, sender);
        let p1 = RBCStateView { readys, ..p };
        let cnt = readys[origin].len();
        let has = p.node_msgs.contains_key(origin);
        if cnt == f + 1 && has {
            (with_phase(c, m.rnd_estm, p1), seq![ActionView::Broadcast(FinMsgView::READY(m, origin, c.myid))])
        } else if cnt >= n - f && has {
            let p2 = RBCStateView {
                terminated_rbcs: p.terminated_rbcs.insert(origin),
                terminated_order: p.terminated_order.push(origin),
                accepted_vals: p.accepted_vals.push(m.value),
                ..p1
            };
            let c2 = with_phase(c, m.rnd_estm, p2);
            if !m.rnd_estm {
                if p2.terminated_rbcs.len() == n - f {
                    let mv = mvba_msg(c, p2.terminated_order);
                    (c2, seq![
                        ActionView::Broadcast(FinMsgView::RBCInit(mv, c.myid)),
                        ActionView::Deliver(EventView::RbcInit(mv, c.myid)),
                        ActionView::Deliver(EventView::UpdateWitnesses),
                    ])
                } else {
                    (c2, seq![ActionView::Deliver(EventView::UpdateWitnesses)])
                }
            } else {
                let w = if covered(m.message, c.rbc_state.terminated_rbcs) { c.witnesses.insert(m.origin) } else { c.witnesses };
                let c3 = ContextView { witnesses: w, ..c2 };
                if w.len() == n - f {
                    (c3, seq![ActionView::ElectLeader(c.leader_round)])
                } else {
                    (c3, Seq::empty())
                }
            }
        } else {
            (with_phase(c, m.rnd_estm, p1), Seq::empty())
        }
    }
}

/// A node whose accepted second-phase broadcast lists only accepted
/// first-phase broadcasts.
pub open spec fn is_witness(c: ContextView, i: Replica) -> bool {
    &&& c.mvba_state.terminated_rbcs.contains(i)
    &&& c.mvba_state.node_msgs.contains_key(i)
    &&& covered(c.mvba_state.node_msgs[i].message, c.rbc_state.terminated_rbcs)
}

/// The witnesses brought up to date.
pub open spec fn update_witnesses_spec(c: ContextView) -> ContextView {
    ContextView { witnesses: c.witnesses.union(Set::new(|i: Replica| is_witness(c, i))), ..c }
}

/// `x` is among the first `k` of `s`.
pub open spec fn seen_before(s: Seq<Replica>, k: int, x: Replica) -> bool {
    exists|j: int| 0 <= j < k && #[trigger] s[j] == x
}

/// The actions that start this node's broadcast of `m`.
pub open spec fn fin_start_rbc_actions(m: MsgView, myid: Replica) -> Seq<ActionView> {
    seq![
        ActionView::Broadcast(FinMsgView::RBCInit(m, myid)),
        ActionView::Deliver(EventView::RbcInit(m, myid)),
    ]
}

impl Context {
    /// The thresholds are meaningful, and every part of the state is well
    /// formed.
    pub open spec fn wf(&self) -> bool {
        &&& self.num_faults < self.num_nodes
        &&& self.rbc_state.wf()
        &&& self.mvba_state.wf()
        &&& self.witnesses.wf()
        &&& forall|l: Round| #[trigger] self.round_state@.contains_key(l) ==>
            forall|b: Round| #[trigger] self.round_state@[l]@.contains_key(b) ==> self.round_state@[l]@[b].wf()
    }

    /// A node that has not started, with its input value.
    pub fn new(num_nodes: usize, myid: Replica, num_faults: usize, input_val: Val) -> (c: Context)
        requires
            num_faults < num_nodes,
        ensures
            c.wf(),
            c@ == (ContextView {
                num_nodes, myid, num_faults, input_val,
                rbc_state: empty_rbc_view(),
                mvba_state: empty_rbc_view(),
                leaders: Map::empty(),
                witnesses: Set::empty(),
                round_state: Map::empty(),
                leader_round: 0,
                baa_round: 0,
                terminated: false,
            }),
    {
        let c = Context {
            num_nodes, myid, num_faults, input_val,
            rbc_state: RBCState::new(),
            mvba_state: RBCState::new(),
            leaders: HashMap::new(),
            witnesses: NodeSet::new(),
            round_state: HashMap::new(),
            leader_round: 0,
            baa_round: 0,
            terminated: false,
        };
        assert(c@.round_state =~= Map::<Round, Map<Round, RoundStateBinView>>::empty());
        assert(c@.leaders =~= Map::<Round, Option<Replica>>::empty());
        c
    }

    /// Starts this node's reliable broadcast of `msg`.
    pub fn start_rbc(&self, msg: Msg) -> (acts: Vec<Action>)
        ensures
            actions_view(acts@) == fin_start_rbc_actions(msg@, self.myid),
    {
        let mut acts: Vec<Action> = Vec::new();
        acts.push(Action::Broadcast(FinMsg::RBCInit(msg.duplicate(), self.myid)));
        acts.push(Action::Deliver(Event::RbcInit(msg, self.myid)));
        assert(actions_view(acts@) =~= fin_start_rbc_actions(msg@, self.myid));
        acts
    }
}

/// Stores the message of a broadcast with this node's ECHO and READY votes.
pub(crate) fn phase_init(p: &mut RBCState, m: Msg, myid: Replica)
    requires
        old(p).wf(),
    ensures
        final(p).wf(),
        final(p)@ == (RBCStateView {
            node_msgs: old(p)@.node_msgs.insert(m.origin, m@),
            echos: add_vote_spec(old(p)@.echos, m.origin, myid),
            readys: add_vote_spec(old(p)@.readys, m.origin, myid),
            ..old(p)@
        }),
{
    let s = m.origin;
    p.insert_node(m);
    let _ = add_vote(&mut p.echos, s, myid);
    let _ = add_vote(&mut p.readys, s, myid);
}

/// Records an ECHO for the broadcast of `origin` unless it is accepted;
/// returns the number of ECHOs and whether its message is known.
pub(crate) fn phase_echo(p: &mut RBCState, origin: Replica, sender: Replica) -> (r: Option<(usize, bool)>)
    requires
        old(p).wf(),
    ensures
        final(p).wf(),
        old(p)@.terminated_rbcs.contains(origin) ==> r is None && final(p)@ == old(p)@,
        !old(p)@.terminated_rbcs.contains(origin) ==> {
            let echos = add_vote_spec(old(p)@.echos, origin, sender);
            &&& final(p)@ == (RBCStateView { echos, ..old(p)@ })
            &&& r matches Some((cnt, has))
            &&& cnt == echos[origin].len()
            &&& has == old(p)@.node_msgs.contains_key(origin)
        },
{
    if p.terminated_rbcs.contains(origin) {
        return None;
    }
    let cnt = add_vote(&mut p.echos, origin, sender);
    let has = p.node_msgs.contains_key(&origin);
    Some((cnt, has))
}

/// Records a READY for the broadcast of `origin` unless it is accepted;
/// returns the number of READYs and whether its message is known.
pub(crate) fn phase_ready(p: &mut RBCState, origin: Replica, sender: Replica) -> (r: Option<(usize, bool)>)
    requires
        old(p).wf(),
    ensures
        final(p).wf(),
        old(p)@.terminated_rbcs.contains(origin) ==> r is None && final(p)@ == old(p)@,
        !old(p)@.terminated_rbcs.contains(origin) ==> {
            let readys = add_vote_spec(old(p)@.readys, origin, sender);
            &&& final(p)@ == (RBCStateView { readys, ..old(p)@ })
            &&& r matches Some((cnt, has))
            &&& cnt == readys[origin].len()
            &&& has == old(p)@.node_msgs.contains_key(origin)
        },
{
    if p.terminated_rbcs.contains(origin) {
        return None;
    }
    let cnt = add_vote(&mut p.readys, origin, sender);
    let has = p.node_msgs.contains_key(&origin);
    Some((cnt, has))
}

/// Accepts the broadcast of `origin` with `value`; returns how many
/// broadcasts are accepted.
pub(crate) fn phase_accept(p: &mut RBCState, origin: Replica, value: u64) -> (n: usize)
    requires
        old(p).wf(),
        !old(p)@.terminated_rbcs.contains(origin),
    ensures
        final(p).wf(),
        final(p)@ == (RBCStateView {
            terminated_rbcs: old(p)@.terminated_rbcs.insert(origin),
            terminated_order: old(p)@.terminated_order.push(origin),
            accepted_vals: old(p)@.accepted_vals.push(value),
            ..old(p)@
        }),
        n == old(p)@.terminated_rbcs.insert(origin).len(),
{
    proof { p.terminated_rbcs.lemma_finite(); }
    p.terminated_rbcs.insert(origin);
    p.accepted_vals.push(value);
    proof { p.terminated_rbcs.lemma_finite(); }
    p.terminated_rbcs.len()
}

/// Whether every listed node's broadcast is accepted.
fn all_accepted(l: &Vec<Replica>, t: &NodeSet) -> (b: bool)
    ensures
        b == covered(l@, t@),
{
    let mut i: usize = 0;
    while i < l.len()
        invariant
            i <= l@.len(),
            forall|j: int| 0 <= j < i ==> t@.contains(#[trigger] l@[j]),
        decreases l@.len() - i,
    {
        if !t.contains(l[i]) {
            return false;
        }
        i = i + 1;
    }
    true
}

impl Context {
    /// Handles the start of the broadcast of `main_msg`, received from
    /// `rbc_origin`.
    pub fn process_rbc_init(&mut self, main_msg: Msg, rbc_origin: Replica) -> (acts: Vec<Action>)
        requires
            old(self).wf(),
        ensures
            final(self).wf(),
            (final(self)@, actions_view(acts@)) == fin_rbc_init_spec(old(self)@, main_msg@, rbc_origin),
    {
        let myid = self.myid;
        let o = main_msg.origin;
        let m2 = main_msg.duplicate();
        let m3 = main_msg.duplicate();
        if main_msg.rnd_estm {
            phase_init(&mut self.mvba_state, main_msg, myid);
        } else {
            phase_init(&mut self.rbc_state, main_msg, myid);
        }
        let mut acts: Vec<Action> = Vec::new();
        acts.push(Action::Broadcast(FinMsg::ECHO(m2, o, myid)));
        acts.push(Action::Deliver(Event::Echo(m3, rbc_origin, myid)));
        assert(actions_view(acts@) =~= fin_rbc_init_spec(old(self)@, main_msg@, rbc_origin).1);
        acts
    }

    /// Handles an ECHO of `echo_sender` for the broadcast of `rbc_origin`.
    pub fn process_echo(&mut self, main_msg: Msg, rbc_origin: Replica, echo_sender: Replica) -> (acts: Vec<Action>)
        requires
            old(self).wf(),
        ensures
            final(self).wf(),
            (final(self)@, actions_view(acts@)) == fin_echo_spec(old(self)@, main_msg@, rbc_origin, echo_sender),
    {
        let r = if main_msg.rnd_estm {
            phase_echo(&mut self.mvba_state, rbc_origin, echo_sender)
        } else {
            phase_echo(&mut self.rbc_state, rbc_origin, echo_sender)
        };
        let mut acts: Vec<Action> = Vec::new();
        match r {
            Some((cnt, has)) => {
                if cnt == self.num_nodes - self.num_faults && has {
                    let o = main_msg.origin;
                    acts.push(Action::Broadcast(FinMsg::READY(main_msg.duplicate(), o, self.myid)));
                    acts.push(Action::Deliver(Event::Ready(main_msg, rbc_origin, self.myid)));
                }
            },
            None => {},
        }
        assert(actions_view(acts@) =~= fin_echo_spec(old(self)@, main_msg@, rbc_origin, echo_sender).1);
        acts
    }

    /// Handles a READY of `ready_sender` for the broadcast of `rbc_origin`.
    pub fn process_ready(&mut self, msg: Msg, rbc_origin: Replica, ready_sender: Replica) -> (acts: Vec<Action>)
        requires
            old(self).wf(),
        ensures
            final(self).wf(),
            (final(self)@, actions_view(acts@)) == fin_ready_spec(old(self)@, msg@, rbc_origin, ready_sender),
    {
        let ghost c0 = self@;
        let n = self.num_nodes;
        let f = self.num_faults;
        let myid = self.myid;
        let mut acts: Vec<Action> = Vec::new();
        let est = msg.rnd_estm;
        let r = if est {
            phase_ready(&mut self.mvba_state, rbc_origin, ready_sender)
        } else {
            phase_ready(&mut self.rbc_state, rbc_origin, ready_sender)
        };
        let (cnt, has) = match r {
            Some(x) => x,
            None => {
                assert(actions_view(acts@) =~= Seq::<ActionView>::empty());
                return acts;
            },
        };
        if cnt == f + 1 && has {
            acts.push(Action::Broadcast(FinMsg::READY(msg, rbc_origin, myid)));
            assert(actions_view(acts@) =~= fin_ready_spec(c0, msg@, rbc_origin, ready_sender).1);
            return acts;
        }
        if !(cnt >= n - f && has) {
            assert(actions_view(acts@) =~= Seq::<ActionView>::empty());
            return acts;
        }
        if !est {
            let tl = phase_accept(&mut self.rbc_state, rbc_origin, msg.value);
            if tl == n - f {
                let term_vec = self.rbc_state.terminated_rbcs.to_vec();
                let mv = Msg { value: #[verifier::truncate] (self.input_val as u64), origin: myid, round: 0, rnd_estm: true, message: term_vec };
                assert(mv@ == mvba_msg(c0, self@.rbc_state.terminated_order));
                let mut sacts = self.start_rbc(mv);
                acts.append(&mut sacts);
                assert(actions_view(acts@) =~= fin_start_rbc_actions(mvba_msg(c0, self@.rbc_state.terminated_order), myid));
            }
            acts.push(Action::Deliver(Event::UpdateWitnesses));
            assert(actions_view(acts@) =~= fin_ready_spec(c0, msg@, rbc_origin, ready_sender).1);
            acts
        } else {
            let _ = phase_accept(&mut self.mvba_state, rbc_origin, msg.value);
            let avail = all_accepted(&msg.message, &self.rbc_state.terminated_rbcs);
            if avail {
                self.witnesses.insert(msg.origin);
            }
            proof { self.witnesses.lemma_finite(); }
            if self.witnesses.len() == n - f {
                acts.push(Action::ElectLeader(self.leader_round));
            }
            assert(actions_view(acts@) =~= fin_ready_spec(c0, msg@, rbc_origin, ready_sender).1);
            acts
        }
    }

    /// Adds as witnesses the nodes whose accepted second-phase broadcast lists
    /// only accepted first-phase broadcasts.
    pub fn update_witnesses(&mut self)
        requires
            old(self).wf(),
        ensures
            final(self).wf(),
            final(self)@ == update_witnesses_spec(old(self)@),
    {
        let ghost c0 = self@;
        let idx = self.mvba_state.terminated_rbcs.to_vec();
        proof { self.mvba_state.terminated_rbcs.lemma_finite(); }
        let mut i: usize = 0;
        while i < idx.len()
            invariant
                self.wf(),
                c0.num_faults < c0.num_nodes,
                idx@ == c0.mvba_state.terminated_order,
                idx@.to_set() == c0.mvba_state.terminated_rbcs,
                i <= idx@.len(),
                self@ == (ContextView { witnesses: self@.witnesses, ..c0 }),
                self@.witnesses == c0.witnesses.union(Set::new(|x: Replica| is_witness(c0, x) && seen_before(idx@, i as int, x))),
            decreases idx@.len() - i,
        {
            let x = idx[i];
            let ok = match self.mvba_state.node_msgs.get(&x) {
                Some(m) => all_accepted(&m.message, &self.rbc_state.terminated_rbcs),
                None => false,
            };
            if ok {
                self.witnesses.insert(x);
            }
            proof {
                assert(idx@.to_set().contains(x));
                assert forall|y: Replica| seen_before(idx@, i + 1, y) <==> (seen_before(idx@, i as int, y) || y == x) by {
                    if y == x {
                        assert(idx@[i as int] == y);
                    }
                }
                assert(self@.witnesses =~= c0.witnesses.union(Set::new(|y: Replica| is_witness(c0, y) && seen_before(idx@, i + 1, y))));
            }
            i = i + 1;
        }
        proof {
            assert(self@.witnesses =~= c0.witnesses.union(Set::new(|x: Replica| is_witness(c0, x)))) by {
                assert forall|x: Replica| is_witness(c0, x) implies seen_before(idx@, i as int, x) by {
                    assert(idx@.to_set().contains(x));
                    let k = choose|k: int| 0 <= k < idx@.len() && idx@[k] == x;
                    assert(idx@[k] == x);
                }
            }
        }
    }
}

} // verus!
