//! The binary-agreement handlers of a FIN node: ECHO1, ECHO2 and ECHO3
//! votes, partial signatures of the coin, the coin itself, and the start of
//! the next agreement round or leader round.

use std::collections::HashMap;
use vstd::prelude::*;
use crate::types::{Replica, Val, Round};
use crate::sorting::{sorted_of, sorted_copy, sorted_u64, lemma_sorted_of};
use crate::hyb_appxcon::witness::{msg_values, all_known, msg_values_of};
use crate::delphi_rbc::roundvals_bin::fresh_votes;
use crate::fin::roundvals_bin::{
    RoundStateBin, RoundStateBinView, empty_bin_view, fin_add_echo_spec, fin_add_echo2_spec,
    add_echo3_spec, add_echo3_ok, coin_decision,
};
use crate::fin::msg::{FinMsg, FinMsgView, Event, EventView, Action, ActionView, actions_view};
use crate::fin::context::{
    Context, ContextView, bins_view, fin_rbc_init_spec, fin_echo_spec, fin_ready_spec, update_witnesses_spec,
};

verus! {

broadcast use vstd::std_specs::hash::group_hash_axioms;

/// The node already moved past the leader round or the agreement round.
pub open spec fn stale(c: ContextView, l: Round, b: Round) -> bool {
    c.leader_round > l || c.baa_round > b
}

/// The node has a state for agreement round `b` of leader round `l`.
pub open spec fn has_bin(c: ContextView, l: Round, b: Round) -> bool {
    c.round_state.contains_key(l) && c.round_state[l].contains_key(b)
}

/// The state of agreement round `b` of leader round `l`.
pub open spec fn bin(c: ContextView, l: Round, b: Round) -> RoundStateBinView {
    c.round_state[l][b]
}

/// The node's state with the state of agreement round `b` of leader round
/// `l` set to `s`.
pub open spec fn with_bin(c: ContextView, l: Round, b: Round, s: RoundStateBinView) -> ContextView {
    let inner = if c.round_state.contains_key(l) { c.round_state[l] } else { Map::empty() };
    ContextView { round_state: c.round_state.insert(l, inner.insert(b, s)), ..c }
}

/// The node's state without the state of agreement round `b` of leader
/// round `l`.
pub open spec fn without_bin(c: ContextView, l: Round, b: Round) -> ContextView {
    if c.round_state.contains_key(l) {
        ContextView { round_state: c.round_state.insert(l, c.round_state[l].remove(b)), ..c }
    } else {
        c
    }
}

/// A round state created by an ECHO1.
pub open spec fn bin_with_echo(v: Val, s: Replica) -> RoundStateBinView {
    RoundStateBinView { state: seq![fresh_votes(v, Some(s), None)], ..empty_bin_view() }
}

/// A round state created by an ECHO2.
pub open spec fn bin_with_echo2(v: Val, s: Replica) -> RoundStateBinView {
    RoundStateBinView { state: seq![fresh_votes(v, None, Some(s))], ..empty_bin_view() }
}

/// A round state created by an ECHO3.
pub open spec fn bin_with_echo3(v: Val, s: Replica) -> RoundStateBinView {
    RoundStateBinView { state: seq![fresh_votes(v, None, None)], echo3vals: Map::empty().insert(s, v), ..empty_bin_view() }
}

/// A round state created by a partial signature.
pub open spec fn bin_with_psig(p: Seq<u8>, s: Replica) -> RoundStateBinView {
    RoundStateBinView { partial_sigs: Map::empty().insert(s, p), ..empty_bin_view() }
}

/// The ECHO2 to send, if any.
pub open spec fn echo2_msgs(o: Option<Val>, me: Replica, l: Round, b: Round) -> Seq<ActionView> {
    match o {
        Some(v) => seq![ActionView::Broadcast(FinMsgView::FinBinAAEcho2(v, me, l, b))],
        None => Seq::empty(),
    }
}

/// The ECHO3 to send, if any.
pub open spec fn echo3_msgs(o: Option<Val>, me: Replica, l: Round, b: Round) -> Seq<ActionView> {
    match o {
        Some(v) => seq![ActionView::Broadcast(FinMsgView::FinBinAAEcho3(v, me, l, b))],
        None => Seq::empty(),
    }
}

/// The node's own ECHO1, when it has one to send: its votes are added to the
/// round, and it sends the ECHO1 with the ECHO2 and ECHO3 that follow from it.
pub open spec fn own_echo_step(s: RoundStateBinView, e1: Option<Val>, me: Replica, f: int, n: int, l: Round, b: Round)
    -> (RoundStateBinView, Seq<ActionView>)
{
    match e1 {
        Some(v) => {
            let r = fin_add_echo_spec(s, v, me, f + 1, n - f);
            (r.0, seq![ActionView::Broadcast(FinMsgView::FinBinAAEcho(v, me, l, b))] + echo2_msgs(r.2, me, l, b) + echo3_msgs(r.3, me, l, b))
        },
        None => (s, Seq::empty()),
    }
}

/// The node's own ECHO2, when it has one to send: its vote is added, and the
/// ECHO3 that follows from it is sent.
pub open spec fn own_echo2_step(s: RoundStateBinView, e2: Option<Val>, me: Replica, f: int, n: int, l: Round, b: Round)
    -> (RoundStateBinView, Seq<ActionView>)
{
    match e2 {
        Some(v) => {
            let r = fin_add_echo2_spec(s, v, me, n - f);
            (r.0, seq![ActionView::Broadcast(FinMsgView::FinBinAAEcho2(v, me, l, b))] + echo3_msgs(r.1, me, l, b))
        },
        None => (s, Seq::empty()),
    }
}

/// The node's own ECHO3, when it has one to send: its vote is added, and once
/// the round has its value the node signs the coin, unless it already did.
pub open spec fn own_echo3_step(s: RoundStateBinView, e3: Option<Val>, me: Replica, f: int, n: int, l: Round, b: Round)
    -> (RoundStateBinView, Seq<ActionView>)
{
    match e3 {
        Some(v) => {
            let r = add_echo3_spec(s, v, me, n - f);
            (r.0, seq![ActionView::Broadcast(FinMsgView::FinBinAAEcho3(v, me, l, b))]
                + if r.1 && !s.partial_sigs.contains_key(me) { seq![ActionView::SignCoin(l, b)] } else { Seq::empty() })
        },
        None => (s, Seq::empty()),
    }
}

/// An ECHO1 for `v` from `sender` in agreement round `b` of leader round `l`.
/// Thresholds are `f + 1` and `n - f`. The node's own ECHO1, ECHO2 and ECHO3
/// that result are counted at once (an ECHO2 or ECHO3 that its own ECHO1
/// gives is sent without being counted).
pub open spec fn baa_echo_spec(c: ContextView, v: Val, sender: Replica, l: Round, b: Round) -> (ContextView, Seq<ActionView>) {
    if stale(c, l, b) {
        (c, Seq::empty())
    } else if !has_bin(c, l, b) {
        (with_bin(c, l, b, bin_with_echo(v, sender)), Seq::empty())
    } else {
        let f = c.num_faults as int;
        let n = c.num_nodes as int;
        let me = c.myid;
        let r = fin_add_echo_spec(bin(c, l, b), v, sender, f + 1, n - f);
        let x1 = own_echo_step(r.0, r.1, me, f, n, l, b);
        let x2 = own_echo2_step(x1.0, r.2, me, f, n, l, b);
        let x3 = own_echo3_step(x2.0, r.3, me, f, n, l, b);
        (with_bin(c, l, b, x3.0), x1.1 + x2.1 + x3.1)
    }
}

/// The ECHO1 handler has the value it counts for.
pub open spec fn baa_echo_ok(c: ContextView, l: Round, b: Round) -> bool {
    !stale(c, l, b) && has_bin(c, l, b) ==> bin(c, l, b).state.len() >= 1
}

/// An ECHO2 for `v` from `sender`: the ECHO3 that results is counted at once
/// and sent, and once the round has its value the node signs the coin.
pub open spec fn baa_echo2_spec(c: ContextView, v: Val, sender: Replica, l: Round, b: Round) -> (ContextView, Seq<ActionView>) {
    if stale(c, l, b) {
        (c, Seq::empty())
    } else if !has_bin(c, l, b) {
        (with_bin(c, l, b, bin_with_echo2(v, sender)), Seq::empty())
    } else {
        let f = c.num_faults as int;
        let n = c.num_nodes as int;
        let me = c.myid;
        let r = fin_add_echo2_spec(bin(c, l, b), v, sender, n - f);
        match r.1 {
            Some(e3) => {
                let r2 = add_echo3_spec(r.0, e3, me, n - f);
                (with_bin(c, l, b, r2.0), seq![ActionView::Broadcast(FinMsgView::FinBinAAEcho3(e3, me, l, b))]
                    + if r2.1 { seq![ActionView::SignCoin(l, b)] } else { Seq::empty() })
            },
            None => (with_bin(c, l, b, r.0), Seq::empty()),
        }
    }
}

/// The ECHO2 handler has the value it counts for, and the ECHO3 it counts
/// finds a value if it ends the round.
pub open spec fn baa_echo2_ok(c: ContextView, v: Val, sender: Replica, l: Round, b: Round) -> bool {
    !stale(c, l, b) && has_bin(c, l, b) ==> {
        let f = c.num_faults as int;
        let n = c.num_nodes as int;
        let r = fin_add_echo2_spec(bin(c, l, b), v, sender, n - f);
        &&& bin(c, l, b).state.len() >= 1
        &&& r.1 is Some ==> add_echo3_ok(r.0, c.myid, n - f)
    }
}

/// An ECHO3 for `v` from `sender`: once the round has its value the node
/// signs the coin.
pub open spec fn baa_echo3_spec(c: ContextView, v: Val, sender: Replica, l: Round, b: Round) -> (ContextView, Seq<ActionView>) {
    if stale(c, l, b) {
        (c, Seq::empty())
    } else if !has_bin(c, l, b) {
        (with_bin(c, l, b, bin_with_echo3(v, sender)), Seq::empty())
    } else {
        let f = c.num_faults as int;
        let n = c.num_nodes as int;
        let r = add_echo3_spec(bin(c, l, b), v, sender, n - f);
        (with_bin(c, l, b, r.0), if r.1 { seq![ActionView::SignCoin(l, b)] } else { Seq::empty() })
    }
}

/// The ECHO3 handler finds a value if the vote ends the round.
pub open spec fn baa_echo3_ok(c: ContextView, sender: Replica, l: Round, b: Round) -> bool {
    !stale(c, l, b) && has_bin(c, l, b) ==> add_echo3_ok(bin(c, l, b), sender, (c.num_nodes - c.num_faults) as int)
}

/// A partial signature `p` of `sender`, which verified when `ok`. While the
/// round has fewer than `f + 1` signatures, a verified one is stored and the
/// coin is tried; a round not yet seen stores it unchecked.
pub open spec fn partial_sig_spec(c: ContextView, p: Seq<u8>, ok: bool, sender: Replica, l: Round, b: Round) -> (ContextView, Seq<ActionView>) {
    if stale(c, l, b) {
        (c, Seq::empty())
    } else if !has_bin(c, l, b) {
        (with_bin(c, l, b, bin_with_psig(p, sender)), Seq::empty())
    } else {
        let s = bin(c, l, b);
        if s.partial_sigs.len() < c.num_faults + 1 && ok {
            (with_bin(c, l, b, RoundStateBinView { partial_sigs: s.partial_sigs.insert(sender, p), ..s }),
                seq![ActionView::Aggregate(l, b)])
        } else {
            (c, Seq::empty())
        }
    }
}

/// The value the node outputs when leader `ld`'s proposal is agreed on: the
/// `(f+2)`-th smallest of the values of the broadcasts that `ld` listed.
pub open spec fn leader_output(c: ContextView, ld: Replica) -> u64 {
    sorted_of(msg_values(c.mvba_state.node_msgs[ld].message, c.rbc_state.node_msgs))[c.num_faults + 1]
}

/// Starting agreement round `b` of leader round `l` with value `v`, or, when
/// `terminate`, ending the leader round: on value 2 the leader's proposal is
/// taken and the node outputs its value (once the leader is known); on any
/// other value the next leader is elected.
pub open spec fn start_baa_spec(c: ContextView, l: Round, b: Round, v: Val, terminate: bool) -> (ContextView, Seq<ActionView>) {
    if c.terminated {
        (c, Seq::empty())
    } else if !terminate {
        (c, seq![
            ActionView::Deliver(EventView::BaaEcho(v, c.myid, l, b)),
            ActionView::Broadcast(FinMsgView::FinBinAAEcho(v, c.myid, l, b)),
            ActionView::Deliver(EventView::BaaRound(b)),
        ])
    } else if v == 2 {
        if c.leaders.contains_key(l) {
            let out = leader_output(c, c.leaders[l]->0);
            (ContextView { terminated: true, ..c }, seq![ActionView::Completed(out as Val)])
        } else {
            (c, Seq::empty())
        }
    } else {
        (c, seq![ActionView::ElectLeader((l + 1) as Round), ActionView::Deliver(EventView::LeaderRound((l + 1) as Round))])
    }
}

/// Everything that ending a leader round reads is there.
pub open spec fn start_baa_ok(c: ContextView, l: Round, v: Val, terminate: bool) -> bool {
    !c.terminated && terminate ==> if v == 2 {
        c.leaders.contains_key(l) ==> {
            let ld = c.leaders[l];
            &&& ld is Some
            &&& c.mvba_state.node_msgs.contains_key(ld->0)
            &&& all_known(c.mvba_state.node_msgs[ld->0].message, c.rbc_state.node_msgs)
            &&& c.mvba_state.node_msgs[ld->0].message.len() > c.num_faults + 1
        }
    } else {
        l < u64::MAX
    }
}

/// The coin `coin` of agreement round `b` of leader round `l`: what the
/// round decides with it starts the next agreement round or ends the leader
/// round.
pub open spec fn coin_spec(c: ContextView, l: Round, b: Round, coin: bool) -> (ContextView, Seq<ActionView>) {
    if !has_bin(c, l, b) {
        (c, Seq::empty())
    } else {
        match coin_decision(bin(c, l, b), c.num_faults + 1, coin) {
            Some(d) => start_baa_spec(c, l, (b + 1) as Round, d.1, d.0),
            None => (c, Seq::empty()),
        }
    }
}

/// What the coin handler reads is there.
pub open spec fn coin_ok(c: ContextView, l: Round, b: Round, coin: bool) -> bool {
    has_bin(c, l, b) ==> match coin_decision(bin(c, l, b), c.num_faults + 1, coin) {
        Some(d) => b < u64::MAX && start_baa_ok(c, l, d.1, d.0),
        None => true,
    }
}

/// Removing the state of a round and setting it again is setting it.
pub proof fn lemma_with_without(c: ContextView, l: Round, b: Round, s: RoundStateBinView)
    ensures
        with_bin(without_bin(c, l, b), l, b, s) == with_bin(c, l, b, s),
{
    if c.round_state.contains_key(l) {
        assert(c.round_state[l].remove(b).insert(b, s) =~= c.round_state[l].insert(b, s));
        assert(without_bin(c, l, b).round_state.insert(l, c.round_state[l].remove(b).insert(b, s))
            =~= c.round_state.insert(l, c.round_state[l].insert(b, s)));
    }
}

impl Context {
    /// Removes the state of agreement round `b` of leader round `l`.
    fn take_bin(&mut self, l: Round, b: Round) -> (r: Option<RoundStateBin>)
        requires
            old(self).wf(),
        ensures
            final(self).wf(),
            final(self)@ == without_bin(old(self)@, l, b),
            has_bin(old(self)@, l, b) ==> r is Some && r->0.wf() && r->0@ == bin(old(self)@, l, b),
            !has_bin(old(self)@, l, b) ==> r is None,
    {
        let ghost c0 = self@;
        match self.round_state.remove(&l) {
            Some(mut inner) => {
                let ghost iv = inner@;
                let r = inner.remove(&b);
                let ghost iv2 = inner@;
                self.round_state.insert(l, inner);
                proof {
                    assert(bins_view(iv2) =~= c0.round_state[l].remove(b));
                    assert(self@.round_state =~= c0.round_state.insert(l, c0.round_state[l].remove(b)));
                    assert forall|x: Round| #[trigger] self.round_state@.contains_key(x) implies
                        forall|y: Round| #[trigger] self.round_state@[x]@.contains_key(y) ==> self.round_state@[x]@[y].wf() by {
                        if x == l {
                            assert forall|y: Round| #[trigger] self.round_state@[x]@.contains_key(y) implies self.round_state@[x]@[y].wf() by {
                                assert(iv.contains_key(y));
                            }
                        }
                    }
                }
                r
            },
            None => {
                assert(self@.round_state =~= c0.round_state);
                None
            },
        }
    }

    /// Sets the state of agreement round `b` of leader round `l`.
    fn put_bin(&mut self, l: Round, b: Round, s: RoundStateBin)
        requires
            old(self).wf(),
            s.wf(),
        ensures
            final(self).wf(),
            final(self)@ == with_bin(old(self)@, l, b, s@),
    {
        let ghost c0 = self@;
        let ghost sv = s@;
        let mut inner = match self.round_state.remove(&l) {
            Some(m) => m,
            None => HashMap::new(),
        };
        let ghost iv = inner@;
        inner.insert(b, s);
        let ghost iv2 = inner@;
        self.round_state.insert(l, inner);
        proof {
            let old_inner = if c0.round_state.contains_key(l) { c0.round_state[l] } else { Map::empty() };
            assert(bins_view(iv) =~= old_inner);
            assert(bins_view(iv2) =~= old_inner.insert(b, sv));
            assert(self@.round_state =~= c0.round_state.insert(l, old_inner.insert(b, sv)));
            assert forall|x: Round| #[trigger] self.round_state@.contains_key(x) implies
                forall|y: Round| #[trigger] self.round_state@[x]@.contains_key(y) ==> self.round_state@[x]@[y].wf() by {
                if x == l {
                    assert forall|y: Round| #[trigger] self.round_state@[x]@.contains_key(y) implies self.round_state@[x]@[y].wf() by {
                        if y != b {
                            assert(iv.contains_key(y));
                        }
                    }
                }
            }
        }
    }

    /// Handles an ECHO1 for `msg` from `echo_sender` in agreement round
    /// `baa_round` of leader round `leader_round`.
    pub fn process_baa_echo(&mut self, msg: Val, echo_sender: Replica, leader_round: Round, baa_round: Round) -> (acts: Vec<Action>)
        requires
            old(self).wf(),
            baa_echo_ok(old(self)@, leader_round, baa_round),
        ensures
            final(self).wf(),
            (final(self)@, actions_view(acts@)) == baa_echo_spec(old(self)@, msg, echo_sender, leader_round, baa_round),
    {
        let ghost c0 = self@;
        let l = leader_round;
        let b = baa_round;
        let mut acts: Vec<Action> = Vec::new();
        if self.leader_round > l || self.baa_round > b {
            assert(actions_view(acts@) =~= Seq::<ActionView>::empty());
            return acts;
        }
        let n = self.num_nodes;
        let f = self.num_faults;
        let me = self.myid;
        match self.take_bin(l, b) {
            None => {
                self.put_bin(l, b, RoundStateBin::new_with_echo(msg, echo_sender));
                proof { lemma_with_without(c0, l, b, bin_with_echo(msg, echo_sender)); }
                assert(actions_view(acts@) =~= Seq::<ActionView>::empty());
                acts
            },
            Some(mut rs) => {
                let ghost s0 = rs@;
                let (e1, e2, e3) = rs.add_echo(msg, echo_sender, f + 1, n - f);
                let ghost r = fin_add_echo_spec(s0, msg, echo_sender, f + 1, n - f);
                proof {
                    if r.3 is Some {
                        assert(r.0.echo1vals.len() == 2);
                    }
                }
                let ghost x1 = own_echo_step(r.0, r.1, me, f as int, n as int, l, b);
                match e1 {
                    Some(v1) => {
                        acts.push(Action::Broadcast(FinMsg::FinBinAAEcho(v1, me, l, b)));
                        let (_a1, a2, a3) = rs.add_echo(v1, me, f + 1, n - f);
                        match a2 {
                            Some(x) => { acts.push(Action::Broadcast(FinMsg::FinBinAAEcho2(x, me, l, b))); },
                            None => {},
                        }
                        match a3 {
                            Some(x) => { acts.push(Action::Broadcast(FinMsg::FinBinAAEcho3(x, me, l, b))); },
                            None => {},
                        }
                    },
                    None => {},
                }
                assert(rs@ == x1.0);
                assert(actions_view(acts@) =~= x1.1);
                proof {
                    if r.3 is Some {
                        assert(rs@.echo1vals.len() >= 2);
                    }
                }
                let ghost acts1 = actions_view(acts@);
                let ghost x2 = own_echo2_step(x1.0, r.2, me, f as int, n as int, l, b);
                match e2 {
                    Some(v2) => {
                        acts.push(Action::Broadcast(FinMsg::FinBinAAEcho2(v2, me, l, b)));
                        let e3b = rs.add_echo2(v2, me, n - f);
                        match e3b {
                            Some(x) => { acts.push(Action::Broadcast(FinMsg::FinBinAAEcho3(x, me, l, b))); },
                            None => {},
                        }
                    },
                    None => {},
                }
                assert(rs@ == x2.0);
                assert(actions_view(acts@) =~= acts1 + x2.1);
                let ghost acts2 = actions_view(acts@);
                let ghost x3 = own_echo3_step(x2.0, r.3, me, f as int, n as int, l, b);
                match e3 {
                    Some(v3) => {
                        acts.push(Action::Broadcast(FinMsg::FinBinAAEcho3(v3, me, l, b)));
                        let has_sig = rs.contains_sig(me);
                        let term = rs.add_echo3(v3, me, n - f);
                        if term && !has_sig {
                            acts.push(Action::SignCoin(l, b));
                        }
                    },
                    None => {},
                }
                assert(rs@ == x3.0);
                assert(actions_view(acts@) =~= acts2 + x3.1);
                self.put_bin(l, b, rs);
                proof { lemma_with_without(c0, l, b, x3.0); }
                assert(actions_view(acts@) =~= x1.1 + x2.1 + x3.1);
                acts
            },
        }
    }

    /// Handles an ECHO2 for `msg` from `echo2_sender`.
    pub fn process_baa_echo2(&mut self, msg: Val, echo2_sender: Replica, leader_round: Round, baa_round: Round) -> (acts: Vec<Action>)
        requires
            old(self).wf(),
            baa_echo2_ok(old(self)@, msg, echo2_sender, leader_round, baa_round),
        ensures
            final(self).wf(),
            (final(self)@, actions_view(acts@)) == baa_echo2_spec(old(self)@, msg, echo2_sender, leader_round, baa_round),
    {
        let ghost c0 = self@;
        let l = leader_round;
        let b = baa_round;
        let mut acts: Vec<Action> = Vec::new();
        if self.leader_round > l || self.baa_round > b {
            assert(actions_view(acts@) =~= Seq::<ActionView>::empty());
            return acts;
        }
        let n = self.num_nodes;
        let f = self.num_faults;
        let me = self.myid;
        match self.take_bin(l, b) {
            None => {
                self.put_bin(l, b, RoundStateBin::new_with_echo2(msg, echo2_sender));
                proof { lemma_with_without(c0, l, b, bin_with_echo2(msg, echo2_sender)); }
                assert(actions_view(acts@) =~= Seq::<ActionView>::empty());
                acts
            },
            Some(mut rs) => {
                let echo3 = rs.add_echo2(msg, echo2_sender, n - f);
                match echo3 {
                    Some(v3) => {
                        let term = rs.add_echo3(v3, me, n - f);
                        acts.push(Action::Broadcast(FinMsg::FinBinAAEcho3(v3, me, l, b)));
                        if term {
                            acts.push(Action::SignCoin(l, b));
                        }
                    },
                    None => {},
                }
                let ghost sv = rs@;
                self.put_bin(l, b, rs);
                proof { lemma_with_without(c0, l, b, sv); }
                assert(actions_view(acts@) =~= baa_echo2_spec(c0, msg, echo2_sender, l, b).1);
                acts
            },
        }
    }

    /// Handles an ECHO3 for `msg` from `echo3_sender`.
    pub fn process_baa_echo3(&mut self, msg: Val, echo3_sender: Replica, leader_round: Round, baa_round: Round) -> (acts: Vec<Action>)
        requires
            old(self).wf(),
            baa_echo3_ok(old(self)@, echo3_sender, leader_round, baa_round),
        ensures
            final(self).wf(),
            (final(self)@, actions_view(acts@)) == baa_echo3_spec(old(self)@, msg, echo3_sender, leader_round, baa_round),
    {
        let ghost c0 = self@;
        let l = leader_round;
        let b = baa_round;
        let mut acts: Vec<Action> = Vec::new();
        if self.leader_round > l || self.baa_round > b {
            assert(actions_view(acts@) =~= Seq::<ActionView>::empty());
            return acts;
        }
        let n = self.num_nodes;
        let f = self.num_faults;
        match self.take_bin(l, b) {
            None => {
                self.put_bin(l, b, RoundStateBin::new_with_echo3(msg, echo3_sender));
                proof { lemma_with_without(c0, l, b, bin_with_echo3(msg, echo3_sender)); }
                assert(actions_view(acts@) =~= Seq::<ActionView>::empty());
                acts
            },
            Some(mut rs) => {
                let term = rs.add_echo3(msg, echo3_sender, n - f);
                if term {
                    acts.push(Action::SignCoin(l, b));
                }
                let ghost sv = rs@;
                self.put_bin(l, b, rs);
                proof { lemma_with_without(c0, l, b, sv); }
                assert(actions_view(acts@) =~= baa_echo3_spec(c0, msg, echo3_sender, l, b).1);
                acts
            },
        }
    }

    /// Handles the partial signature `psig` of `sig_sender`; `valid` tells
    /// whether it verified against the sender's public key share.
    pub fn process_partial_sig(&mut self, psig: Vec<u8>, valid: bool, sig_sender: Replica, leader_round: Round, baa_round: Round) -> (acts: Vec<Action>)
        requires
            old(self).wf(),
        ensures
            final(self).wf(),
            (final(self)@, actions_view(acts@)) == partial_sig_spec(old(self)@, psig@, valid, sig_sender, leader_round, baa_round),
    {
        let ghost c0 = self@;
        let l = leader_round;
        let b = baa_round;
        let mut acts: Vec<Action> = Vec::new();
        if self.leader_round > l || self.baa_round > b {
            assert(actions_view(acts@) =~= Seq::<ActionView>::empty());
            return acts;
        }
        let f = self.num_faults;
        let ghost p = psig@;
        match self.take_bin(l, b) {
            None => {
                self.put_bin(l, b, RoundStateBin::new_with_psig(psig, sig_sender));
                proof { lemma_with_without(c0, l, b, bin_with_psig(p, sig_sender)); }
                assert(actions_view(acts@) =~= Seq::<ActionView>::empty());
                acts
            },
            Some(mut rs) => {
                proof { assert(rs@.partial_sigs.dom() =~= rs.partial_sig_vec@.dom()); }
                if rs.partial_sig_vec.len() < f + 1 && valid {
                    rs.add_partial_sig(sig_sender, psig);
                    acts.push(Action::Aggregate(l, b));
                    let ghost sv = rs@;
                    self.put_bin(l, b, rs);
                    proof { lemma_with_without(c0, l, b, sv); }
                    assert(actions_view(acts@) =~= partial_sig_spec(c0, p, valid, sig_sender, l, b).1);
                    acts
                } else {
                    let ghost sv = rs@;
                    self.put_bin(l, b, rs);
                    proof {
                        lemma_with_without(c0, l, b, sv);
                        assert(c0.round_state[l].insert(b, sv) =~= c0.round_state[l]);
                        assert(c0.round_state.insert(l, c0.round_state[l]) =~= c0.round_state);
                    }
                    assert(actions_view(acts@) =~= Seq::<ActionView>::empty());
                    acts
                }
            },
        }
    }

    /// Starts agreement round `baa_round` of `leader_round` with `term_val`,
    /// or ends the leader round when `terminate`.
    pub fn start_baa(&mut self, leader_round: Round, baa_round: Round, term_val: Val, terminate: bool) -> (acts: Vec<Action>)
        requires
            old(self).wf(),
            start_baa_ok(old(self)@, leader_round, term_val, terminate),
        ensures
            final(self).wf(),
            (final(self)@, actions_view(acts@)) == start_baa_spec(old(self)@, leader_round, baa_round, term_val, terminate),
    {
        let ghost c0 = self@;
        let mut acts: Vec<Action> = Vec::new();
        if self.terminated {
            assert(actions_view(acts@) =~= Seq::<ActionView>::empty());
            return acts;
        }
        if !terminate {
            acts.push(Action::Deliver(Event::BaaEcho(term_val, self.myid, leader_round, baa_round)));
            acts.push(Action::Broadcast(FinMsg::FinBinAAEcho(term_val, self.myid, leader_round, baa_round)));
            acts.push(Action::Deliver(Event::BaaRound(baa_round)));
            assert(actions_view(acts@) =~= start_baa_spec(c0, leader_round, baa_round, term_val, terminate).1);
            return acts;
        }
        if term_val == 2 {
            match self.leaders.get(&leader_round) {
                Some(ld) => {
                    let leader = ld.unwrap();
                    let indices = &self.mvba_state.node_msgs.get(&leader).unwrap().message;
                    let vals = msg_values_of(indices, &self.rbc_state.node_msgs);
                    let sorted = sorted_copy(&vals);
                    let output = sorted[self.num_faults + 1];
                    self.terminated = true;
                    acts.push(Action::Completed(#[verifier::truncate] (output as Val)));
                },
                None => {},
            }
        } else {
            acts.push(Action::ElectLeader(leader_round + 1));
            acts.push(Action::Deliver(Event::LeaderRound(leader_round + 1)));
        }
        assert(actions_view(acts@) =~= start_baa_spec(c0, leader_round, baa_round, term_val, terminate).1);
        acts
    }

    /// Handles the coin `coin` of agreement round `baa_round` of
    /// `leader_round`.
    pub fn process_coin(&mut self, leader_round: Round, baa_round: Round, coin: bool) -> (acts: Vec<Action>)
        requires
            old(self).wf(),
            coin_ok(old(self)@, leader_round, baa_round, coin),
        ensures
            final(self).wf(),
            (final(self)@, actions_view(acts@)) == coin_spec(old(self)@, leader_round, baa_round, coin),
    {
        let d = match self.round_state.get(&leader_round) {
            Some(inner) => match inner.get(&baa_round) {
                Some(rs) => rs.aggregate_psigs(self.num_faults + 1, coin),
                None => {
                    let acts: Vec<Action> = Vec::new();
                    assert(actions_view(acts@) =~= Seq::<ActionView>::empty());
                    return acts;
                },
            },
            None => {
                let acts: Vec<Action> = Vec::new();
                assert(actions_view(acts@) =~= Seq::<ActionView>::empty());
                return acts;
            },
        };
        match d {
            Some((t, v)) => self.start_baa(leader_round, baa_round + 1, v, t),
            None => {
                let acts: Vec<Action> = Vec::new();
                assert(actions_view(acts@) =~= Seq::<ActionView>::empty());
                acts
            },
        }
    }

    /// Moves this node to agreement round `b`.
    pub fn set_baa_round(&mut self, b: Round)
        requires
            old(self).wf(),
        ensures
            final(self).wf(),
            final(self)@ == (ContextView { baa_round: b, ..old(self)@ }),
    {
        self.baa_round = b;
    }

    /// Moves this node to leader round `l`.
    pub fn set_leader_round(&mut self, l: Round)
        requires
            old(self).wf(),
        ensures
            final(self).wf(),
            final(self)@ == (ContextView { leader_round: l, ..old(self)@ }),
    {
        self.leader_round = l;
    }
}

/// A node outputs at most once: ending a leader round does nothing once the
/// node terminated, and the output leaves it terminated.
pub proof fn lemma_completes_once(c: ContextView, l: Round, b: Round, v: Val, terminate: bool)
    ensures
        ({
            let r = start_baa_spec(c, l, b, v, terminate);
            &&& c.terminated ==> r.0 == c && r.1.len() == 0
            &&& (exists|i: int| 0 <= i < r.1.len() && #[trigger] r.1[i] is Completed) ==> !c.terminated && r.0.terminated
        }),
{
}

/// Whether a handler has everything it reads for the event.
pub open spec fn step_ok(c: ContextView, e: EventView) -> bool {
    match e {
        EventView::BaaEcho(_, _, l, b) => baa_echo_ok(c, l, b),
        EventView::BaaEcho2(v, s, l, b) => baa_echo2_ok(c, v, s, l, b),
        EventView::BaaEcho3(_, s, l, b) => baa_echo3_ok(c, s, l, b),
        EventView::Coin(l, b, coin) => coin_ok(c, l, b, coin),
        _ => true,
    }
}

/// What the node does with an event.
pub open spec fn step_spec(c: ContextView, e: EventView) -> (ContextView, Seq<ActionView>) {
    match e {
        EventView::RbcInit(m, o) => fin_rbc_init_spec(c, m, o),
        EventView::Echo(m, o, s) => fin_echo_spec(c, m, o, s),
        EventView::Ready(m, o, s) => fin_ready_spec(c, m, o, s),
        EventView::UpdateWitnesses => (update_witnesses_spec(c), Seq::empty()),
        EventView::BaaEcho(v, s, l, b) => baa_echo_spec(c, v, s, l, b),
        EventView::BaaEcho2(v, s, l, b) => baa_echo2_spec(c, v, s, l, b),
        EventView::BaaEcho3(v, s, l, b) => baa_echo3_spec(c, v, s, l, b),
        EventView::PartialSig(p, ok, s, l, b) => partial_sig_spec(c, p, ok, s, l, b),
        EventView::Coin(l, b, coin) => coin_spec(c, l, b, coin),
        EventView::BaaRound(b) => (ContextView { baa_round: b, ..c }, Seq::empty()),
        EventView::LeaderRound(l) => (ContextView { leader_round: l, ..c }, Seq::empty()),
    }
}

impl Context {
    /// Handles one event.
    pub fn step(&mut self, e: Event) -> (acts: Vec<Action>)
        requires
            old(self).wf(),
            step_ok(old(self)@, e@),
        ensures
            final(self).wf(),
            (final(self)@, actions_view(acts@)) == step_spec(old(self)@, e@),
    {
        match e {
            Event::RbcInit(m, o) => self.process_rbc_init(m, o),
            Event::Echo(m, o, s) => self.process_echo(m, o, s),
            Event::Ready(m, o, s) => self.process_ready(m, o, s),
            Event::UpdateWitnesses => {
                self.update_witnesses();
                let acts: Vec<Action> = Vec::new();
                assert(actions_view(acts@) =~= Seq::<ActionView>::empty());
                acts
            },
            Event::BaaEcho(v, s, l, b) => self.process_baa_echo(v, s, l, b),
            Event::BaaEcho2(v, s, l, b) => self.process_baa_echo2(v, s, l, b),
            Event::BaaEcho3(v, s, l, b) => self.process_baa_echo3(v, s, l, b),
            Event::PartialSig(p, ok, s, l, b) => self.process_partial_sig(p, ok, s, l, b),
            Event::Coin(l, b, coin) => self.process_coin(l, b, coin),
            Event::BaaRound(b) => {
                self.set_baa_round(b);
                let acts: Vec<Action> = Vec::new();
                assert(actions_view(acts@) =~= Seq::<ActionView>::empty());
                acts
            },
            Event::LeaderRound(l) => {
                self.set_leader_round(l);
                let acts: Vec<Action> = Vec::new();
                assert(actions_view(acts@) =~= Seq::<ActionView>::empty());
                acts
            },
        }
    }
}

} // verus!

verus! {

/// Law of `Context::start_baa` when the agreement decides 2: the node ends,
/// outputting the `(f+2)`-th smallest of the values that the elected leader's
/// proposal lists: the element at position `f + 1` of those values in sorted
/// order, whichever way they are arranged and however many there are.
pub proof fn lemma_output_is_f_plus_two_smallest(c: ContextView, l: Round, b: Round, ld: Replica, t: Seq<u64>)
    requires
        !c.terminated,
        c.leaders.contains_key(l),
        c.leaders[l] == Some(ld),
        sorted_u64(t),
        t.to_multiset() == msg_values(c.mvba_state.node_msgs[ld].message, c.rbc_state.node_msgs).to_multiset(),
    ensures
        start_baa_spec(c, l, b, 2, true) == (ContextView { terminated: true, ..c }, seq![ActionView::Completed(t[c.num_faults + 1] as Val)]),
{
    lemma_sorted_of(msg_values(c.mvba_state.node_msgs[ld].message, c.rbc_state.node_msgs), t);
}

} // verus!
