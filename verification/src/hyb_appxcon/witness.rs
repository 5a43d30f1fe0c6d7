//! The witness step of the hybrid approximate agreement, and the decisions
//! that end a round: estimate the number of rounds, move to the next round,
//! or switch to binary agreement.

use std::collections::HashMap;
use vstd::prelude::*;
use crate::types::{Replica, Msg, MsgView, NodeSet, copy_replicas};
use crate::witness::{WitnessMap, wmap_insert, wmap_get, covered, entries_view};
use crate::sorting::{sort_u64, sorted_u64, sorted_of, lemma_sorted_of, sorted_copy};
use crate::arith::mid_u64;
use crate::appxcon::context::{trimmed_midpoint, lemma_trimmed_midpoint};
use crate::sorting::lemma_sorted_of_exists;
use crate::hyb_appxcon::roundvals::{RoundState, RoundStateView, empty_round_view};

verus! {

broadcast use vstd::std_specs::hash::group_hash_axioms;

/// What a handler asks of the node: start its reliable broadcast of a
/// message, or start binary agreement on the given values in a round.
pub enum Action {
    StartRbc(Msg),
    StartBaa(Vec<(Replica, u64)>, u64),
}

pub enum ActionView {
    StartRbc(MsgView),
    StartBaa(Seq<(Replica, u64)>, u64),
}

impl View for Action {
    type V = ActionView;

    open spec fn view(&self) -> ActionView {
        match self {
            Action::StartRbc(m) => ActionView::StartRbc(m@),
            Action::StartBaa(v, r) => ActionView::StartBaa(v@, *r),
        }
    }
}

pub open spec fn actions_view(a: Seq<Action>) -> Seq<ActionView> {
    a.map_values(|x: Action| x@)
}

/// The protocol state of a node.
pub struct Context {
    pub num_nodes: usize,
    pub myid: usize,
    pub num_faults: usize,
    pub round: u64,
    pub value: u64,
    pub delta: u64,
    pub rounds_delta: u64,
    pub rounds_bin: u64,
    pub round_state: HashMap<u64, RoundState>,
}

pub struct ContextView {
    pub num_nodes: usize,
    pub myid: usize,
    pub num_faults: usize,
    pub round: u64,
    pub value: u64,
    pub delta: u64,
    pub rounds_delta: u64,
    pub rounds_bin: u64,
    pub round_state: Map<u64, RoundStateView>,
}

impl View for Context {
    type V = ContextView;

    open spec fn view(&self) -> ContextView {
        ContextView {
            num_nodes: self.num_nodes,
            myid: self.myid,
            num_faults: self.num_faults,
            round: self.round,
            value: self.value,
            delta: self.delta,
            rounds_delta: self.rounds_delta,
            rounds_bin: self.rounds_bin,
            round_state: self.round_state@.map_values(|r: RoundState| r@),
        }
    }
}

pub open spec fn with_round(c: ContextView, r: u64, rs: RoundStateView) -> ContextView {
    ContextView { round_state: c.round_state.insert(r, rs), ..c }
}

/// The message of a reliable broadcast of this node.
pub open spec fn rbc_msg(value: u64, origin: Replica, round: u64, rnd_estm: bool, message: Seq<Replica>) -> MsgView {
    MsgView { value, origin, round, rnd_estm, message }
}

/// The announced lists, among the first `k`, that are wholly in `t`.
pub open spec fn covered_entries(w: Seq<(Replica, Seq<Replica>)>, t: Set<Replica>, k: nat) -> Seq<(Replica, Seq<Replica>)>
    decreases k,
{
    if k == 0 || k > w.len() {
        Seq::empty()
    } else {
        let p = covered_entries(w, t, (k - 1) as nat);
        if covered(w[k - 1].1, t) { p.push(w[k - 1]) } else { p }
    }
}

/// The lists of the round's kind of witnesses that are wholly accepted.
pub open spec fn accepted_entries(rs: RoundStateView) -> Seq<(Replica, Seq<Replica>)> {
    if rs.wround == 1 {
        covered_entries(rs.witnesses, rs.terminated_rbcs, rs.witnesses.len())
    } else {
        covered_entries(rs.witnesses2, rs.terminated_rbcs, rs.witnesses2.len())
    }
}

/// The values of the broadcasts of the listed nodes.
pub open spec fn msg_values(l: Seq<Replica>, nm: Map<Replica, MsgView>) -> Seq<u64> {
    l.map_values(|x: Replica| nm[x].value)
}

/// Every listed node's broadcast message is known.
pub open spec fn all_known(l: Seq<Replica>, nm: Map<Replica, MsgView>) -> bool {
    forall|i: int| 0 <= i < l.len() ==> nm.contains_key(#[trigger] l[i])
}

/// The median of the values (the lower one of an even count).
pub open spec fn median_of(v: Seq<u64>) -> u64 {
    sorted_of(v)[(v.len() - 1) / 2]
}

/// The value that a second witness list proposes: the midpoint of the values
/// of its `(f+1)`-th and `(high+1)`-th nodes, in list order.
pub open spec fn r_value(l: Seq<Replica>, nm: Map<Replica, MsgView>, f: int, high: int) -> u64 {
    ((nm[l[f]].value + nm[l[high]].value) / 2) as u64
}

/// The inputs on which the end-of-round check has every value it reads.
pub open spec fn hyb_check_ok(c: ContextView, round: u64) -> bool {
    &&& c.round_state.contains_key(round)
    &&& {
        let rs = c.round_state[round];
        let f = c.num_faults as int;
        let len = rs.accepted_vals.len() as int;
        let high = len - f - 1;
        let es = accepted_entries(rs);
        len > f + 1 ==> {
            &&& rs.wround != 1 ==> forall|i: int| 0 <= i < es.len() ==> {
                &&& (#[trigger] es[i]).1.len() > f
                &&& es[i].1.len() > high
                &&& all_known(es[i].1, rs.node_msgs)
            }
            &&& es.len() >= c.num_nodes - c.num_faults ==> {
                &&& c.round == 0 ==> forall|i: int| 0 <= i < es.len() ==> {
                    &&& wmap_get(rs.witnesses, (#[trigger] es[i]).0) is Some
                    &&& wmap_get(rs.witnesses, es[i].0)->0.len() > 0
                    &&& all_known(wmap_get(rs.witnesses, es[i].0)->0, rs.node_msgs)
                }
                &&& (c.round != 0 && rs.wround == 1) ==> round < u64::MAX
                    && (c.round == c.rounds_delta ==> c.round + c.rounds_bin <= u64::MAX)
                &&& (c.round != 0 && rs.wround == 2) ==> c.round < u64::MAX
                    && (rs.term_values.len() >= f + 1 ==> c.round + 1 + c.rounds_bin <= u64::MAX)
            }
        }
    }
}

/// The end-of-round check of `round`. With more than `f + 1` accepted values
/// and `n - f` wholly accepted witness lists of the round's kind:
/// - in round zero, the node takes the median of the medians of the values
///   that the accepted witnesses accepted first, and starts round one;
/// - after first witness lists, the node takes the trimmed midpoint of the
///   accepted values and starts the next round, or binary agreement once the
///   estimated number of rounds has passed;
/// - after second witness lists, the node starts binary agreement on the
///   median of the reported values once `f + 1` were reported, and otherwise
///   starts the next round, marked as final once the proposed values lie within
///   half of `delta`.
/// Otherwise nothing changes.
pub open spec fn hyb_check_spec(c: ContextView, round: u64) -> (ContextView, Seq<ActionView>) {
    let rs = c.round_state[round];
    let f = c.num_faults as int;
    let len = rs.accepted_vals.len() as int;
    let high = len - f - 1;
    let es = accepted_entries(rs);
    if len <= f + 1 || es.len() < c.num_nodes - c.num_faults {
        (c, Seq::empty())
    } else if c.round == 0 {
        let meds = es.map_values(|e: (Replica, Seq<Replica>)| median_of(msg_values(wmap_get(rs.witnesses, e.0)->0, rs.node_msgs)));
        let v = median_of(meds);
        (ContextView { value: v, round: 1, ..c }, seq![ActionView::StartRbc(rbc_msg(v, c.myid, 1, false, Seq::empty()))])
    } else {
        let s = sorted_of(rs.accepted_vals);
        let c1 = with_round(c, round, RoundStateView { accepted_vals: s, ..rs });
        if rs.wround == 1 {
            let v = trimmed_midpoint(s, f) as u64;
            if c.round == c.rounds_delta {
                (ContextView { value: v, rounds_bin: (c.round + c.rounds_bin) as u64, round: (round + 1) as u64, ..c1 },
                    seq![ActionView::StartBaa(seq![(0usize, v)], (round + 1) as u64)])
            } else {
                (ContextView { value: v, round: (round + 1) as u64, ..c1 },
                    seq![ActionView::StartRbc(rbc_msg(v, c.myid, (round + 1) as u64, false, Seq::empty()))])
            }
        } else if rs.wround == 2 {
            let r2 = (c.round + 1) as u64;
            if rs.term_values.len() >= f + 1 {
                let tv = sorted_of(rs.term_values.map_values(|p: (Replica, u64)| p.1));
                let v = tv[(tv.len() / 2) as int];
                (ContextView { round: r2, value: v, rounds_bin: (r2 + c.rounds_bin) as u64, ..c1 },
                    seq![ActionView::StartBaa(seq![(0usize, v)], r2)])
            } else {
                let rv = sorted_of(es.map_values(|e: (Replica, Seq<Replica>)| r_value(e.1, rs.node_msgs, f, high)));
                let delta = rv.last() - rv.first();
                (ContextView { round: r2, ..c1 },
                    seq![ActionView::StartRbc(rbc_msg(c.value, c.myid, r2, delta <= c.delta / 2, Seq::empty()))])
            }
        } else {
            (c1, Seq::empty())
        }
    }
}

/// The state after the witness list `v` of `sender`, of the given kind, is
/// recorded for `round`.
pub open spec fn after_witness(c: ContextView, v: Seq<Replica>, round: u64, sender: Replica, wround: u32) -> ContextView {
    let rs = if c.round_state.contains_key(round) { c.round_state[round] } else { empty_round_view() };
    let rs2 = if wround == 1 {
        RoundStateView { witnesses: wmap_insert(rs.witnesses, sender, v), ..rs }
    } else {
        RoundStateView { witnesses2: wmap_insert(rs.witnesses2, sender, v), ..rs }
    };
    with_round(c, round, rs2)
}

/// The accepted lists, computed.
fn accepted_lists(w: &WitnessMap, t: &NodeSet) -> (r: Vec<(Replica, Vec<Replica>)>)
    ensures
        entries_view(r@) == covered_entries(w@, t@, w@.len()),
{
    let mut r: Vec<(Replica, Vec<Replica>)> = Vec::new();
    let mut i: usize = 0;
    while i < w.entries.len()
        invariant
            i <= w.entries@.len(),
            entries_view(r@) == covered_entries(w@, t@, i as nat),
        decreases w.entries@.len() - i,
    {
        let l = &w.entries[i].1;
        let mut all = true;
        let mut j: usize = 0;
        while j < l.len()
            invariant
                j <= l@.len(),
                all == (forall|x: int| 0 <= x < j ==> t@.contains(#[trigger] l@[x])),
            decreases l@.len() - j,
        {
            let c = t.contains(l[j]);
            proof {
                if all && !c { assert(!t@.contains(l@[j as int])); }
            }
            all = all && c;
            j = j + 1;
        }
        assert(w@[i as int] == (w.entries@[i as int].0, l@));
        if all {
            let ghost before = entries_view(r@);
            r.push((w.entries[i].0, copy_replicas(l)));
            assert(entries_view(r@) =~= before.push(w@[i as int]));
        }
        i = i + 1;
    }
    r
}

/// The values of the broadcasts of the listed nodes, computed.
pub(crate) fn msg_values_of(l: &Vec<Replica>, nm: &HashMap<Replica, Msg>) -> (r: Vec<u64>)
    requires
        all_known(l@, nm@.map_values(|m: Msg| m@)),
    ensures
        r@ == msg_values(l@, nm@.map_values(|m: Msg| m@)),
{
    let ghost nmv = nm@.map_values(|m: Msg| m@);
    let mut r: Vec<u64> = Vec::new();
    let mut i: usize = 0;
    while i < l.len()
        invariant
            i <= l@.len(),
            all_known(l@, nmv),
            nmv == nm@.map_values(|m: Msg| m@),
            r@ == msg_values(l@.subrange(0, i as int), nmv),
        decreases l@.len() - i,
    {
        assert(nmv.contains_key(l@[i as int]));
        let m = nm.get(&l[i]).unwrap();
        r.push(m.value);
        i = i + 1;
        assert(r@ =~= msg_values(l@.subrange(0, i as int), nmv));
    }
    assert(l@.subrange(0, i as int) =~= l@);
    r
}

/// The median of the values, computed.
fn median(v: &Vec<u64>) -> (m: u64)
    requires
        v@.len() > 0,
    ensures
        m == median_of(v@),
{
    let s = sorted_copy(v);
    s[(s.len() - 1) / 2]
}

impl Context {
    /// The thresholds are meaningful, and every round state is well formed.
    pub open spec fn wf(&self) -> bool {
        &&& self.num_faults < self.num_nodes
        &&& forall|r: u64| #[trigger] self.round_state@.contains_key(r) ==> self.round_state@[r].wf()
    }

    /// Starts this node's broadcast of its value for its current round; `term`
    /// marks it as final.
    pub fn start_rbc(&self, term: bool) -> (a: Action)
        ensures
            a@ == ActionView::StartRbc(rbc_msg(self.value, self.myid, self.round, term, Seq::empty())),
    {
        let m = Msg { value: self.value, origin: self.myid, round: self.round, rnd_estm: term, message: Vec::new() };
        assert(m@.message =~= Seq::<Replica>::empty());
        Action::StartRbc(m)
    }

    /// Starts this node's round-estimation broadcast, with the broadcasts it
    /// accepted.
    pub fn estimate_rounds(&self, ls_rbcs: Vec<Replica>) -> (a: Action)
        ensures
            a@ == ActionView::StartRbc(rbc_msg(self.value, self.myid, self.round, true, ls_rbcs@)),
    {
        Action::StartRbc(Msg { value: self.value, origin: self.myid, round: self.round, rnd_estm: true, message: ls_rbcs })
    }

    /// Checks whether `round` is over; if so, decides what comes next.
    pub fn check_for_ht_witnesses(&mut self, round: u64) -> (acts: Vec<Action>)
        requires
            old(self).wf(),
            hyb_check_ok(old(self)@, round),
        ensures
            final(self).wf(),
            (final(self)@, actions_view(acts@)) == hyb_check_spec(old(self)@, round),
    {
        let ghost c0 = self@;
        let f = self.num_faults;
        let n = self.num_nodes;
        let mut rs = self.round_state.remove(&round).unwrap();
        let ghost rsv = rs@;
        let len = rs.accepted_vals.len();
        let mut acts: Vec<Action> = Vec::new();
        if len <= f + 1 {
            self.round_state.insert(round, rs);
            assert(self@.round_state =~= c0.round_state);
            assert(actions_view(acts@) =~= Seq::<ActionView>::empty());
            return acts;
        }
        let high = len - f - 1;
        let es = if rs.wround == 1 {
            accepted_lists(&rs.witnesses, &rs.terminated_rbcs)
        } else {
            accepted_lists(&rs.witnesses2, &rs.terminated_rbcs)
        };
        assert(entries_view(es@) == accepted_entries(rsv));
        // The values that second witness lists propose.
        let mut rvals: Vec<u64> = Vec::new();
        if rs.wround != 1 {
            let mut i: usize = 0;
            while i < es.len()
                invariant
                    i <= es@.len(),
                    entries_view(es@) == accepted_entries(rsv),
                    rsv == rs@,
                    rsv.wround != 1,
                    len == rsv.accepted_vals.len(),
                    high == len - f - 1,
                    len > f + 1,
                    f == c0.num_faults,
                    hyb_check_ok(c0, round),
                    c0.round_state[round] == rsv,
                    rvals@ == entries_view(es@).subrange(0, i as int).map_values(|e: (Replica, Seq<Replica>)| r_value(e.1, rsv.node_msgs, f as int, high as int)),
                decreases es@.len() - i,
            {
                let l = &es[i].1;
                assert(entries_view(es@)[i as int] == (es@[i as int].0, l@));
                assert(l@.len() > f && l@.len() > high && all_known(l@, rsv.node_msgs));
                assert(rsv.node_msgs.contains_key(l@[f as int]));
                assert(rsv.node_msgs.contains_key(l@[high as int]));
                let a = rs.node_msgs.get(&l[f]).unwrap().value;
                let b = rs.node_msgs.get(&l[high]).unwrap().value;
                rvals.push(mid_u64(a, b));
                i = i + 1;
                assert(rvals@ =~= entries_view(es@).subrange(0, i as int).map_values(|e: (Replica, Seq<Replica>)| r_value(e.1, rsv.node_msgs, f as int, high as int)));
            }
            assert(entries_view(es@).subrange(0, es@.len() as int) =~= entries_view(es@));
        }
        if es.len() < n - f {
            self.round_state.insert(round, rs);
            assert(self@.round_state =~= c0.round_state);
            assert(actions_view(acts@) =~= Seq::<ActionView>::empty());
            return acts;
        }
        if self.round == 0 {
            // Round estimation: the median of the medians.
            let mut value_set: Vec<u64> = Vec::new();
            let mut i: usize = 0;
            while i < es.len()
                invariant
                    i <= es@.len(),
                    entries_view(es@) == accepted_entries(rsv),
                    rsv == rs@,
                    rs.wf(),
                    es@.len() >= n - f,
                    c0.round == 0,
                    len == rsv.accepted_vals.len(),
                    len > f + 1,
                    f == c0.num_faults,
                    n == c0.num_nodes,
                    hyb_check_ok(c0, round),
                    c0.round_state[round] == rsv,
                    value_set@ == entries_view(es@).subrange(0, i as int).map_values(|e: (Replica, Seq<Replica>)|
                        median_of(msg_values(wmap_get(rsv.witnesses, e.0)->0, rsv.node_msgs))),
                decreases es@.len() - i,
            {
                let key = es[i].0;
                assert(entries_view(es@)[i as int].0 == key);
                proof {
                    let e = accepted_entries(rsv)[i as int];
                    assert(wmap_get(rsv.witnesses, e.0) is Some);
                    assert(all_known(wmap_get(rsv.witnesses, e.0)->0, rsv.node_msgs));
                }
                let l = rs.witnesses.get(key).unwrap();
                let vals = msg_values_of(&l, &rs.node_msgs);
                value_set.push(median(&vals));
                i = i + 1;
                assert(value_set@ =~= entries_view(es@).subrange(0, i as int).map_values(|e: (Replica, Seq<Replica>)|
                    median_of(msg_values(wmap_get(rsv.witnesses, e.0)->0, rsv.node_msgs))));
            }
            assert(entries_view(es@).subrange(0, es@.len() as int) =~= entries_view(es@));
            let v = median(&value_set);
            self.round_state.insert(round, rs);
            assert(self@.round_state =~= c0.round_state);
            self.value = v;
            self.round = self.round + 1;
            acts.push(self.start_rbc(false));
            assert(actions_view(acts@) =~= hyb_check_spec(c0, round).1);
            return acts;
        }
        sort_u64(&mut rs.accepted_vals);
        proof { lemma_sorted_of(rsv.accepted_vals, rs.accepted_vals@); }
        let wround = rs.wround;
        if wround == 1 {
            let nr_val = mid_u64(rs.accepted_vals[f], rs.accepted_vals[high]);
            let ghost rs2v = rs@;
            self.round_state.insert(round, rs);
            assert(self@.round_state =~= c0.round_state.insert(round, rs2v));
            self.value = nr_val;
            if self.round == self.rounds_delta {
                let mut transmit_vector: Vec<(Replica, u64)> = Vec::new();
                transmit_vector.push((0, self.value));
                self.rounds_bin = self.round + self.rounds_bin;
                self.round = round + 1;
                acts.push(Action::StartBaa(transmit_vector, self.round));
                assert(actions_view(acts@) =~= hyb_check_spec(c0, round).1);
            } else {
                self.round = round + 1;
                acts.push(self.start_rbc(false));
                assert(actions_view(acts@) =~= hyb_check_spec(c0, round).1);
            }
            acts
        } else if wround == 2 {
            self.round = self.round + 1;
            let tl = rs.term_values.len();
            if tl >= f + 1 {
                let tvals = rs.term_values.values();
                let tv = sorted_copy(&tvals);
                let val_nxt_rnd = tv[tv.len() / 2];
                self.value = val_nxt_rnd;
                let mut transmit_vector: Vec<(Replica, u64)> = Vec::new();
                transmit_vector.push((0, self.value));
                self.rounds_bin = self.round + self.rounds_bin;
                let ghost rs2v = rs@;
                self.round_state.insert(round, rs);
                assert(self@.round_state =~= c0.round_state.insert(round, rs2v));
                acts.push(Action::StartBaa(transmit_vector, self.round));
                assert(actions_view(acts@) =~= hyb_check_spec(c0, round).1);
                acts
            } else {
                let range = sorted_copy(&rvals);
                let delta = range[range.len() - 1] - range[0];
                let ghost rs2v = rs@;
                self.round_state.insert(round, rs);
                assert(self@.round_state =~= c0.round_state.insert(round, rs2v));
                if delta > self.delta / 2 {
                    acts.push(self.start_rbc(false));
                } else {
                    acts.push(self.start_rbc(true));
                }
                assert(actions_view(acts@) =~= hyb_check_spec(c0, round).1);
                acts
            }
        } else {
            let ghost rs2v = rs@;
            self.round_state.insert(round, rs);
            assert(self@.round_state =~= c0.round_state.insert(round, rs2v));
            assert(actions_view(acts@) =~= Seq::<ActionView>::empty());
            acts
        }
    }

    /// Handles the witness list `vec_rbc_indices` of `witness_sender` for
    /// `round`; `wround` tells the first kind of list from the second.
    pub fn handle_witness(&mut self, vec_rbc_indices: Vec<Replica>, round: u64, witness_sender: Replica, wround: u32) -> (acts: Vec<Action>)
        requires
            old(self).wf(),
            old(self)@.round_state.contains_key(round)
                ==> hyb_check_ok(after_witness(old(self)@, vec_rbc_indices@, round, witness_sender, wround), round),
        ensures
            final(self).wf(),
            old(self)@.round_state.contains_key(round) ==> (final(self)@, actions_view(acts@)) == hyb_check_spec(
                after_witness(old(self)@, vec_rbc_indices@, round, witness_sender, wround), round),
            !old(self)@.round_state.contains_key(round) ==> final(self)@ == after_witness(
                old(self)@, vec_rbc_indices@, round, witness_sender, wround) && acts@.len() == 0,
    {
        let ghost c0 = self@;
        let ghost v = vec_rbc_indices@;
        let (mut rs, existed) = match self.round_state.remove(&round) {
            Some(rs) => (rs, true),
            None => (RoundState::new(), false),
        };
        if wround == 1 {
            rs.witnesses.insert(witness_sender, vec_rbc_indices);
        } else {
            rs.witnesses2.insert(witness_sender, vec_rbc_indices);
        }
        let ghost rs2v = rs@;
        self.round_state.insert(round, rs);
        assert(self@.round_state =~= after_witness(c0, v, round, witness_sender, wround).round_state);
        if existed {
            self.check_for_ht_witnesses(round)
        } else {
            Vec::new()
        }
    }
}

/// When a round with first witness lists ends after round zero, the node's
/// next value lies between two of the values it accepted in that round; with
/// at least `2f + 1` accepted values, between the `(f+1)`-th smallest and the
/// `(f+1)`-th largest.
pub proof fn lemma_hyb_value_within_accepted(c: ContextView, round: u64)
    requires
        c.round_state.contains_key(round),
        c.round != 0,
        c.round_state[round].wround == 1,
        c.round_state[round].accepted_vals.len() > c.num_faults + 1,
        accepted_entries(c.round_state[round]).len() >= c.num_nodes - c.num_faults,
    ensures
        ({
            let a = c.round_state[round].accepted_vals;
            let v = hyb_check_spec(c, round).0.value;
            let s = sorted_of(a);
            &&& exists|i: int, j: int| 0 <= i < a.len() && 0 <= j < a.len() && #[trigger] a[i] <= v && v <= #[trigger] a[j]
            &&& a.len() >= 2 * c.num_faults + 1 ==> s[c.num_faults as int] <= v <= s[a.len() - c.num_faults - 1]
        }),
{
    broadcast use vstd::seq_lib::group_to_multiset_ensures;
    let a = c.round_state[round].accepted_vals;
    let f = c.num_faults as int;
    let s = sorted_of(a);
    lemma_sorted_of_exists(a);
    lemma_trimmed_midpoint(s, f);
    let lo = s[f];
    let hi = s[s.len() - f - 1];
    assert(s.contains(lo) && s.contains(hi));
    assert(s.to_multiset().count(lo) > 0 && s.to_multiset().count(hi) > 0);
    assert(a.contains(lo) && a.contains(hi));
    let i = choose|i: int| 0 <= i < a.len() && a[i] == lo;
    let j = choose|j: int| 0 <= j < a.len() && a[j] == hi;
    let t = trimmed_midpoint(s, f);
    assert(0 <= t <= u64::MAX);
    if s.len() >= 2 * f + 1 {
        assert(a[i] <= t as u64 && t as u64 <= a[j]);
    } else {
        assert(a[j] <= t as u64 && t as u64 <= a[i]);
    }
}

} // verus!

verus! {

/// `x` is the lower median of `v`: the middle element (the lower one of an
/// even count) of every sorted arrangement of `v`'s values.
pub open spec fn is_lower_median(x: u64, v: Seq<u64>) -> bool {
    forall|u: Seq<u64>| #[trigger] sorted_u64(u) && u.to_multiset() == v.to_multiset() ==> x == u[(v.len() - 1) / 2]
}

proof fn lemma_median_is_lower_median(v: Seq<u64>, x: u64)
    requires
        is_lower_median(x, v),
    ensures
        x == median_of(v),
{
    lemma_sorted_of_exists(v);
    assert(sorted_u64(sorted_of(v)));
}

/// Every sequence has a lower median, so the law below applies to every
/// round: the medians that the end-of-round check takes are lower medians.
pub proof fn lemma_median_of_is_lower_median(v: Seq<u64>)
    ensures
        is_lower_median(median_of(v), v),
{
    assert forall|u: Seq<u64>| #[trigger] sorted_u64(u) && u.to_multiset() == v.to_multiset() implies median_of(v) == u[(v.len() - 1) / 2] by {
        lemma_sorted_of(v, u);
    }
}

/// The values of the broadcasts listed by the `i`-th accepted first witness
/// list of round `round`.
pub open spec fn witness_values(c: ContextView, round: u64, i: int) -> Seq<u64> {
    let rs = c.round_state[round];
    msg_values(wmap_get(rs.witnesses, accepted_entries(rs)[i].0)->0, rs.node_msgs)
}

/// Law of `Context::check_for_ht_witnesses` in round zero: once more than
/// `f + 1` values and `n - f` witness lists are accepted, the node's new value
/// is the lower median of the medians: for the lower median `m[i]` of the
/// values each accepted witness list names, the new value is the middle
/// element (the lower one of an even count) of the `m[i]` in sorted order,
/// whichever way they are arranged. It is one of those medians, and the node
/// starts round one by broadcasting it.
pub proof fn lemma_round_zero_median_of_medians(c: ContextView, round: u64, m: Seq<u64>, t: Seq<u64>)
    requires
        c.round == 0,
        c.round_state.contains_key(round),
        c.round_state[round].accepted_vals.len() > c.num_faults + 1,
        accepted_entries(c.round_state[round]).len() >= c.num_nodes - c.num_faults,
        m.len() == accepted_entries(c.round_state[round]).len(),
        forall|i: int| 0 <= i < m.len() ==> is_lower_median(#[trigger] m[i], witness_values(c, round, i)),
        sorted_u64(t),
        t.to_multiset() == m.to_multiset(),
    ensures
        hyb_check_spec(c, round).0.value == t[(m.len() - 1) / 2],
        m.len() > 0 ==> m.contains(hyb_check_spec(c, round).0.value),
        hyb_check_spec(c, round).0.round == 1,
        hyb_check_spec(c, round).1 == seq![ActionView::StartRbc(rbc_msg(t[(m.len() - 1) / 2], c.myid, 1, false, Seq::empty()))],
{
    broadcast use vstd::seq_lib::group_to_multiset_ensures;
    let rs = c.round_state[round];
    let es = accepted_entries(rs);
    let meds = es.map_values(|e: (Replica, Seq<Replica>)| median_of(msg_values(wmap_get(rs.witnesses, e.0)->0, rs.node_msgs)));
    assert forall|i: int| 0 <= i < m.len() implies #[trigger] m[i] == meds[i] by {
        lemma_median_is_lower_median(witness_values(c, round, i), m[i]);
    }
    assert(m =~= meds);
    lemma_sorted_of(meds, t);
    vstd::seq_lib::to_multiset_len(t);
    vstd::seq_lib::to_multiset_len(m);
    if m.len() > 0 {
        let k = (m.len() - 1) / 2;
        assert(t.contains(t[k]));
        assert(t.to_multiset().count(t[k]) > 0);
        assert(m.to_multiset().count(t[k]) > 0);
    }
}

} // verus!
