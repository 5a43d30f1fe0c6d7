//! A binary approximate agreement instance over one interval of checkpoints,
//! with one round state per round.

use std::collections::HashMap;
use vstd::prelude::*;
use crate::types::{Replica, Val, Point, Lev, Round};
use crate::delphi_rbc::roundvals_bin::{
    RoundStateBin, RoundStateBinView, add_echo_spec, add_echo2_spec, new_echo_view,
    new_echo2_view, one_value_spec,
};

verus! {

broadcast use vstd::std_specs::hash::group_hash_axioms;

/// The instance for the checkpoints from `start` to `end` at level `level`.
#[derive(Clone, Debug)]
pub struct Interval {
    pub state: HashMap<Round, RoundStateBin>,
    pub start: Point,
    pub end: Point,
    pub level: Lev,
    pub minthreshold: usize,
    pub highthreshold: usize,
}

/// The mathematical content of an [`Interval`].
pub struct IntervalView {
    pub state: Map<Round, RoundStateBinView>,
    pub start: Point,
    pub end: Point,
    pub level: Lev,
    pub minthreshold: usize,
    pub highthreshold: usize,
}

impl View for Interval {
    type V = IntervalView;

    open spec fn view(&self) -> IntervalView {
        IntervalView {
            state: self.state@.map_values(|r: RoundStateBin| r@),
            start: self.start,
            end: self.end,
            level: self.level,
            minthreshold: self.minthreshold,
            highthreshold: self.highthreshold,
        }
    }
}

/// Whether `round` of the instance has terminated.
pub open spec fn round_terminated(iv: IntervalView, round: Round) -> bool {
    iv.state.contains_key(round) && iv.state[round].term_val is Some
}

/// The effect of an ECHO1 vote on the instance: a round that has not begun
/// begins with the vote; otherwise the round's state records it.
pub open spec fn interval_add_echo_spec(iv: IntervalView, round: Round, msg: Val, sender: Replica) -> (IntervalView, Option<Val>, Option<Val>) {
    if !iv.state.contains_key(round) {
        (IntervalView { state: iv.state.insert(round, new_echo_view(msg, sender, iv.start, iv.end, iv.level)), ..iv }, None, None)
    } else {
        let r = add_echo_spec(iv.state[round], msg, sender, iv.minthreshold as int, iv.highthreshold as int);
        (IntervalView { state: iv.state.insert(round, r.0), ..iv }, r.1, r.2)
    }
}

/// The effect of an ECHO2 vote on the instance, and whether the round has
/// terminated after it.
pub open spec fn interval_add_echo2_spec(iv: IntervalView, round: Round, msg: Val, sender: Replica) -> (IntervalView, bool) {
    if !iv.state.contains_key(round) {
        (IntervalView { state: iv.state.insert(round, new_echo2_view(msg, sender, iv.start, iv.end, iv.level)), ..iv }, false)
    } else {
        let r = add_echo2_spec(iv.state[round], msg, sender, iv.highthreshold as int);
        (IntervalView { state: iv.state.insert(round, r), ..iv }, r.term_val is Some)
    }
}

/// The effect of starting `round` on the instance, and the ECHO1 that this
/// node sends for it: the value that the previous round terminated with; in
/// round zero, `max_val` where the node's value lies in the interval and `0`
/// elsewhere. A round whose predecessor has not terminated is not started.
pub open spec fn interval_start_round_spec(iv: IntervalView, round: Round, myid: Replica, val: Val, max_val: Val) -> (IntervalView, (Point, Point, Val)) {
    if round > 0 && round_terminated(iv, (round - 1) as Round) {
        let v = iv.state[(round - 1) as Round].term_val->0;
        (IntervalView { state: iv.state.insert(round, new_echo_view(v, myid, iv.start, iv.end, iv.level)), ..iv }, (iv.start, iv.end, v))
    } else if round == 0 {
        let v = if iv.start <= val && val <= iv.end { max_val } else { 0 };
        (IntervalView { state: iv.state.insert(round, new_echo_view(v, myid, iv.start, iv.end, iv.level)), ..iv }, (iv.start, iv.end, v))
    } else {
        (iv, (0, 0, 0))
    }
}

impl Interval {
    /// Every round state is well formed.
    pub open spec fn wf(&self) -> bool {
        forall|r: Round| #[trigger] self.state@.contains_key(r) ==> self.state@[r].wf()
    }

    /// A new instance with no round begun.
    pub fn new(start: Point, end: Point, lev: Lev, minth: usize, highth: usize) -> (i: Interval)
        ensures
            i.wf(),
            i@ == (IntervalView { state: Map::empty(), start, end, level: lev, minthreshold: minth, highthreshold: highth }),
    {
        let i = Interval { state: HashMap::new(), start, end, level: lev, minthreshold: minth, highthreshold: highth };
        assert(i@.state =~= Map::<Round, RoundStateBinView>::empty());
        i
    }

    /// Whether `round` has terminated.
    pub fn round_terminate(&self, round: Round) -> (b: bool)
        ensures
            b == round_terminated(self@, round),
    {
        match self.state.get(&round) {
            Some(r) => r.terminated(),
            None => false,
        }
    }

    /// The value that `round` terminated with.
    pub fn term_value(&self, round: Round) -> (v: Val)
        requires
            round_terminated(self@, round),
        ensures
            v == self@.state[round].term_val->0,
    {
        let r = self.state.get(&round).unwrap();
        r.term_val.unwrap()
    }

    /// Whether this node echoed one value alone in `round`.
    pub fn one_value_termination(&self, round: Round) -> (b: bool)
        requires
            self@.state.contains_key(round),
        ensures
            b == one_value_spec(self@.state[round]),
    {
        self.state.get(&round).unwrap().num_values_one_two()
    }

    /// Splits the instance at `index` into the instance up to `index` and the
    /// one from `index` on; both keep the round states.
    pub fn split(&self, index: Point) -> (res: (Interval, Interval))
        requires
            self.wf(),
        ensures
            res.0.wf(),
            res.1.wf(),
            res.0@ == (IntervalView { end: index, ..self@ }),
            res.1@ == (IntervalView { start: index, ..self@ }),
    {
        let int_st = Interval {
            state: self.state.clone(),
            start: self.start,
            end: index,
            level: self.level,
            minthreshold: self.minthreshold,
            highthreshold: self.highthreshold,
        };
        let int_en = Interval {
            state: self.state.clone(),
            start: index,
            end: self.end,
            level: self.level,
            minthreshold: self.minthreshold,
            highthreshold: self.highthreshold,
        };
        assert(int_st@.state =~= self@.state);
        assert(int_en@.state =~= self@.state);
        (int_st, int_en)
    }

    /// Records an ECHO1 vote for `msg` from `echo_sender` in `round`; returns
    /// the ECHO1 and ECHO2 that this node must send.
    pub fn add_echo(&mut self, round: Round, msg: Val, echo_sender: Replica) -> (res: (Option<Val>, Option<Val>))
        requires
            old(self).wf(),
        ensures
            final(self).wf(),
            (final(self)@, res.0, res.1) == interval_add_echo_spec(old(self)@, round, msg, echo_sender),
    {
        let ghost old_v = self@;
        match self.state.remove(&round) {
            None => {
                let r = RoundStateBin::new_with_echo(msg, echo_sender, self.start, self.end, self.level);
                self.state.insert(round, r);
                assert(self@.state =~= old_v.state.insert(round, new_echo_view(msg, echo_sender, old_v.start, old_v.end, old_v.level)));
                (None, None)
            },
            Some(mut r) => {
                let res = r.add_echo(msg, echo_sender, self.minthreshold, self.highthreshold);
                let ghost rv = r@;
                self.state.insert(round, r);
                assert(self@.state =~= old_v.state.insert(round, rv));
                res
            },
        }
    }

    /// Records an ECHO2 vote for `msg` from `echo2_sender` in `round`;
    /// returns whether the round has terminated.
    pub fn add_echo2(&mut self, round: Round, msg: Val, echo2_sender: Replica) -> (b: bool)
        requires
            old(self).wf(),
        ensures
            final(self).wf(),
            (final(self)@, b) == interval_add_echo2_spec(old(self)@, round, msg, echo2_sender),
    {
        let ghost old_v = self@;
        match self.state.remove(&round) {
            None => {
                let r = RoundStateBin::new_with_echo2(msg, echo2_sender, self.start, self.end, self.level);
                self.state.insert(round, r);
                assert(self@.state =~= old_v.state.insert(round, new_echo2_view(msg, echo2_sender, old_v.start, old_v.end, old_v.level)));
                false
            },
            Some(mut r) => {
                r.add_echo2(msg, echo2_sender, self.highthreshold);
                let t = r.terminated();
                let ghost rv = r@;
                self.state.insert(round, r);
                assert(self@.state =~= old_v.state.insert(round, rv));
                t
            },
        }
    }

    /// Starts `round`: returns the ECHO1 that this node sends for the whole
    /// interval, `(start, end, value)`.
    pub fn start_round(&mut self, round: Round, myid: Replica, val: Val, max_val: Val) -> (res: (Point, Point, Val))
        requires
            old(self).wf(),
        ensures
            final(self).wf(),
            (final(self)@, res) == interval_start_round_spec(old(self)@, round, myid, val, max_val),
    {
        let ghost old_v = self@;
        if round > 0 && self.round_terminate(round - 1) {
            let v = self.term_value(round - 1);
            let r = RoundStateBin::new_with_echo(v, myid, self.start, self.end, self.level);
            self.state.insert(round, r);
            assert(self@.state =~= old_v.state.insert(round, new_echo_view(v, myid, old_v.start, old_v.end, old_v.level)));
            (self.start, self.end, v)
        } else if round == 0 {
            let v: Val = if val >= self.start && val <= self.end { max_val } else { 0 };
            let r = RoundStateBin::new_with_echo(v, myid, self.start, self.end, self.level);
            self.state.insert(round, r);
            assert(self@.state =~= old_v.state.insert(round, new_echo_view(v, myid, old_v.start, old_v.end, old_v.level)));
            (self.start, self.end, v)
        } else {
            (0, 0, 0)
        }
    }
}

} // verus!

verus! {

/// Law of `Interval::start_round` in round zero: the instance votes for its
/// whole range, and its ECHO1 value is `max_val` when the node's value lies
/// within the interval (ends included) and `0` when it lies below or above
/// it; the round starts with exactly this node's vote for that value.
pub proof fn lemma_round_zero_vote(iv: IntervalView, myid: Replica, val: Val, max_val: Val)
    ensures
        ({
            let (iv2, t) = interval_start_round_spec(iv, 0, myid, val, max_val);
            &&& t.0 == iv.start && t.1 == iv.end
            &&& iv.start <= val && val <= iv.end ==> t.2 == max_val
            &&& val < iv.start ==> t.2 == 0
            &&& val > iv.end ==> t.2 == 0
            &&& iv2.state.contains_key(0)
            &&& iv2.state[0].state.len() == 1
            &&& iv2.state[0].state[0].value == t.2
            &&& iv2.state[0].state[0].echos == set![myid]
            &&& iv2.start == iv.start && iv2.end == iv.end
        }),
{
}

/// Law of `Interval::start_round` in a later round: once the previous round
/// has terminated, the instance votes for its whole range with the value the
/// previous round ended with, and the round starts with exactly this node's
/// vote; before that, nothing changes.
pub proof fn lemma_later_round_vote(iv: IntervalView, round: Round, myid: Replica, val: Val, max_val: Val)
    requires
        round > 0,
    ensures
        ({
            let (iv2, t) = interval_start_round_spec(iv, round, myid, val, max_val);
            &&& round_terminated(iv, (round - 1) as Round) ==> {
                &&& t == (iv.start, iv.end, iv.state[(round - 1) as Round].term_val->0)
                &&& iv2.state.contains_key(round)
                &&& iv2.state[round].state.len() == 1
                &&& iv2.state[round].state[0].value == t.2
                &&& iv2.state[round].state[0].echos == set![myid]
                &&& iv2.state[(round - 1) as Round] == iv.state[(round - 1) as Round]
            }
            &&& !round_terminated(iv, (round - 1) as Round) ==> iv2 == iv
        }),
{
}

} // verus!
