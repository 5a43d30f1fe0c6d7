//! One round of one binary approximate agreement instance: the votes for the
//! (at most two) values that the instance has seen.

use vstd::prelude::*;
use crate::arith::{midpoint, mid_i64};
use crate::types::{Replica, Val, Point, Lev, NodeSet};

verus! {

/// The votes for one value: the nodes that sent ECHO1 and ECHO2 for it, and
/// whether this node already sent its own ECHO1 and ECHO2 for it.
#[derive(Clone, Debug)]
pub struct BinValue {
    pub value: Val,
    pub echos: NodeSet,
    pub echo2s: NodeSet,
    pub echo_sent: bool,
    pub echo2_sent: bool,
}

/// The mathematical content of a [`BinValue`].
pub struct BinValueView {
    pub value: Val,
    pub echos: Set<Replica>,
    pub echo2s: Set<Replica>,
    pub echo_sent: bool,
    pub echo2_sent: bool,
}

impl View for BinValue {
    type V = BinValueView;

    open spec fn view(&self) -> BinValueView {
        BinValueView {
            value: self.value,
            echos: self.echos@,
            echo2s: self.echo2s@,
            echo_sent: self.echo_sent,
            echo2_sent: self.echo2_sent,
        }
    }
}

impl BinValue {
    pub open spec fn wf(&self) -> bool {
        self.echos.wf() && self.echo2s.wf()
    }

    /// A copy of the votes.
    pub fn duplicate(&self) -> (c: BinValue)
        requires
            self.wf(),
        ensures
            c.wf(),
            c@ == self@,
    {
        BinValue {
            value: self.value,
            echos: self.echos.duplicate(),
            echo2s: self.echo2s.duplicate(),
            echo_sent: self.echo_sent,
            echo2_sent: self.echo2_sent,
        }
    }
}

/// The state of one round of a binary approximate agreement instance over the
/// interval from `start` to `end` at level `level`.
#[derive(Clone, Debug)]
pub struct RoundStateBin {
    pub state: Vec<BinValue>,
    pub echo1vals: Vec<Val>,
    pub echo2vals: Vec<Val>,
    pub term_val: Option<Val>,
    pub start: Point,
    pub end: Point,
    pub level: Lev,
}

/// The mathematical content of a [`RoundStateBin`].
pub struct RoundStateBinView {
    pub state: Seq<BinValueView>,
    pub echo1vals: Seq<Val>,
    pub echo2vals: Seq<Val>,
    pub term_val: Option<Val>,
    pub start: Point,
    pub end: Point,
    pub level: Lev,
}

impl View for RoundStateBin {
    type V = RoundStateBinView;

    open spec fn view(&self) -> RoundStateBinView {
        RoundStateBinView {
            state: self.state@.map_values(|b: BinValue| b@),
            echo1vals: self.echo1vals@,
            echo2vals: self.echo2vals@,
            term_val: self.term_val,
            start: self.start,
            end: self.end,
            level: self.level,
        }
    }
}

/// Adds `v` to a sequence that is used as a set.
pub open spec fn insert_val(s: Seq<Val>, v: Val) -> Seq<Val> {
    if s.contains(v) {
        s
    } else {
        s.push(v)
    }
}

/// The fresh votes for a value, with one sender.
pub open spec fn fresh_votes(value: Val, echo_sender: Option<Replica>, echo2_sender: Option<Replica>) -> BinValueView {
    BinValueView {
        value,
        echos: match echo_sender { Some(r) => set![r], None => Set::empty() },
        echo2s: match echo2_sender { Some(r) => set![r], None => Set::empty() },
        echo_sent: false,
        echo2_sent: false,
    }
}

/// What an ECHO1 vote for one value does to that value's votes and to the
/// instance: `(votes, echo1 to send, echo2 to send, echo1vals, term_val)`.
pub open spec fn vote_echo(
    b: BinValueView,
    msg: Val,
    sender: Replica,
    minthreshold: int,
    highthreshold: int,
    vals: Seq<Val>,
    term: Option<Val>,
) -> (BinValueView, Option<Val>, Option<Val>, Seq<Val>, Option<Val>) {
    let echos = b.echos.insert(sender);
    if echos.len() >= minthreshold && !b.echo_sent {
        (BinValueView { echos, echo_sent: true, ..b }, Some(msg), None, vals, term)
    } else if echos.len() >= highthreshold && !b.echo2_sent {
        let vals2 = insert_val(vals, msg);
        let term2 = if vals2.len() == 2 {
            Some(midpoint(vals2[0] as int, vals2[1] as int) as Val)
        } else {
            term
        };
        (BinValueView { echos, echo2_sent: true, ..b }, None, Some(msg), vals2, term2)
    } else {
        (BinValueView { echos, ..b }, None, None, vals, term)
    }
}

/// A fresh round state after its first ECHO1, for `msg` from `sender`.
pub open spec fn new_echo_view(msg: Val, sender: Replica, start: Point, end: Point, level: Lev) -> RoundStateBinView {
    RoundStateBinView {
        state: seq![fresh_votes(msg, Some(sender), None)],
        echo1vals: Seq::empty(),
        echo2vals: Seq::empty(),
        term_val: None,
        start,
        end,
        level,
    }
}

/// A fresh round state after its first ECHO2, for `msg` from `sender`.
pub open spec fn new_echo2_view(msg: Val, sender: Replica, start: Point, end: Point, level: Lev) -> RoundStateBinView {
    RoundStateBinView {
        state: seq![fresh_votes(msg, None, Some(sender))],
        echo1vals: Seq::empty(),
        echo2vals: Seq::empty(),
        term_val: None,
        start,
        end,
        level,
    }
}

/// The effect of an ECHO1 vote for `msg` from `sender` on a round state:
/// the new state, and the ECHO1 and ECHO2 messages that this node must send.
pub open spec fn add_echo_spec(
    s: RoundStateBinView,
    msg: Val,
    sender: Replica,
    minthreshold: int,
    highthreshold: int,
) -> (RoundStateBinView, Option<Val>, Option<Val>) {
    if s.term_val is Some {
        (s, None, None)
    } else if s.state[0].value == msg || s.state.len() != 1 {
        let i: int = if s.state[0].value == msg { 0 } else { 1 };
        let r = vote_echo(s.state[i], msg, sender, minthreshold, highthreshold, s.echo1vals, s.term_val);
        (RoundStateBinView { state: s.state.update(i, r.0), echo1vals: r.3, term_val: r.4, ..s }, r.1, r.2)
    } else {
        (RoundStateBinView { state: s.state.push(fresh_votes(msg, Some(sender), None)), ..s }, None, None)
    }
}

/// The effect of an ECHO2 vote for `msg` from `sender` on a round state.
pub open spec fn add_echo2_spec(
    s: RoundStateBinView,
    msg: Val,
    sender: Replica,
    highthreshold: int,
) -> RoundStateBinView {
    if s.state[0].value == msg || s.state.len() != 1 {
        let i: int = if s.state[0].value == msg { 0 } else { 1 };
        let b = s.state[i];
        let echo2s = b.echo2s.insert(sender);
        let s2 = RoundStateBinView { state: s.state.update(i, BinValueView { echo2s, ..b }), ..s };
        if echo2s.len() >= highthreshold {
            RoundStateBinView { echo2vals: s.echo2vals.push(msg), term_val: Some(b.value), ..s2 }
        } else {
            s2
        }
    } else {
        RoundStateBinView { state: s.state.push(fresh_votes(msg, None, Some(sender))), ..s }
    }
}

/// Whether exactly one of the two values seen was echoed by this node.
pub open spec fn one_value_spec(s: RoundStateBinView) -> bool {
    if s.state.len() == 2 {
        s.state[0].echo_sent != s.state[1].echo_sent
    } else {
        true
    }
}

impl RoundStateBin {
    /// The instance holds one or two values, distinct, with their votes, and
    /// the values echoed twice are distinct.
    pub open spec fn wf(&self) -> bool {
        &&& 1 <= self.state@.len() <= 2
        &&& forall|i: int| 0 <= i < self.state@.len() ==> (#[trigger] self.state@[i]).wf()
        &&& self.echo1vals@.no_duplicates()
    }

    /// Creates the state of a round from the first ECHO1 received, for `msg`
    /// from `echo_sender`.
    pub fn new_with_echo(msg: Val, echo_sender: Replica, start: Point, end: Point, level: Lev) -> (r: RoundStateBin)
        ensures
            r.wf(),
            r@ == new_echo_view(msg, echo_sender, start, end, level),
    {
        let b = BinValue {
            value: Self::to_target_type(msg),
            echos: NodeSet::singleton(echo_sender),
            echo2s: NodeSet::new(),
            echo_sent: false,
            echo2_sent: false,
        };
        let mut state: Vec<BinValue> = Vec::new();
        state.push(b);
        let r = RoundStateBin { state, echo1vals: Vec::new(), echo2vals: Vec::new(), term_val: None, start, end, level };
        assert(r@.state =~= seq![fresh_votes(msg, Some(echo_sender), None)]);
        assert(r@.echo1vals =~= Seq::<Val>::empty());
        assert(r@.echo2vals =~= Seq::<Val>::empty());
        r
    }

    /// Creates the state of a round from the first ECHO2 received, for `msg`
    /// from `echo_sender`.
    pub fn new_with_echo2(msg: Val, echo_sender: Replica, start: Point, end: Point, level: Lev) -> (r: RoundStateBin)
        ensures
            r.wf(),
            r@ == new_echo2_view(msg, echo_sender, start, end, level),
    {
        let b = BinValue {
            value: Self::to_target_type(msg),
            echos: NodeSet::new(),
            echo2s: NodeSet::singleton(echo_sender),
            echo_sent: false,
            echo2_sent: false,
        };
        let mut state: Vec<BinValue> = Vec::new();
        state.push(b);
        let r = RoundStateBin { state, echo1vals: Vec::new(), echo2vals: Vec::new(), term_val: None, start, end, level };
        assert(r@.state =~= seq![fresh_votes(msg, None, Some(echo_sender))]);
        assert(r@.echo1vals =~= Seq::<Val>::empty());
        assert(r@.echo2vals =~= Seq::<Val>::empty());
        r
    }

    /// Records an ECHO1 vote; returns the value to echo once it has
    /// `minthreshold` votes, and the value to send ECHO2 for once it has
    /// `highthreshold` votes. A terminated round ignores the vote.
    pub fn add_echo(&mut self, msg: Val, echo_sender: Replica, minthreshold: usize, highthreshold: usize) -> (res: (Option<Val>, Option<Val>))
        requires
            old(self).wf(),
        ensures
            final(self).wf(),
            (final(self)@, res.0, res.1) == add_echo_spec(old(self)@, msg, echo_sender, minthreshold as int, highthreshold as int),
    {
        if self.term_val.is_some() {
            return (None, None);
        }
        let parsed = Self::to_target_type(msg);
        if self.state[0].value == parsed || self.state.len() != 1 {
            let i: usize = if self.state[0].value == parsed { 0 } else { 1 };
            let ghost old_s = self@;
            let mut b = self.state.remove(i);
            let mut echo1: Option<Val> = None;
            let mut echo2: Option<Val> = None;
            b.echos.insert(echo_sender);
            let n = b.echos.len();
            if n >= minthreshold && !b.echo_sent {
                echo1 = Some(msg);
                b.echo_sent = true;
            } else if n >= highthreshold && !b.echo2_sent {
                echo2 = Some(msg);
                if !vec_contains(&self.echo1vals, parsed) {
                    self.echo1vals.push(parsed);
                }
                if self.echo1vals.len() == 2 {
                    let next_round_val = mid_i64(self.echo1vals[0], self.echo1vals[1]);
                    self.term_val = Some(next_round_val);
                }
                b.echo2_sent = true;
            }
            self.state.insert(i, b);
            proof {
                let r = vote_echo(old_s.state[i as int], msg, echo_sender, minthreshold as int, highthreshold as int, old_s.echo1vals, old_s.term_val);
                assert(self@.state =~= old_s.state.update(i as int, r.0));
                assert(self.echo1vals@ =~= r.3);
                assert forall|j: int| 0 <= j < self.state@.len() implies (#[trigger] self.state@[j]).wf() by {}
            }
            (echo1, echo2)
        } else {
            let ghost old_s = self@;
            let b = BinValue {
                value: parsed,
                echos: NodeSet::singleton(echo_sender),
                echo2s: NodeSet::new(),
                echo_sent: false,
                echo2_sent: false,
            };
            self.state.push(b);
            assert(self@.state =~= old_s.state.push(fresh_votes(msg, Some(echo_sender), None)));
            (None, None)
        }
    }

    /// Records an ECHO2 vote; the round terminates with the value once it has
    /// `highthreshold` ECHO2 votes.
    pub fn add_echo2(&mut self, msg: Val, echo2_sender: Replica, highthreshold: usize)
        requires
            old(self).wf(),
        ensures
            final(self).wf(),
            final(self)@ == add_echo2_spec(old(self)@, msg, echo2_sender, highthreshold as int),
    {
        let parsed = Self::to_target_type(msg);
        let ghost old_s = self@;
        if self.state[0].value == parsed || self.state.len() != 1 {
            let i: usize = if self.state[0].value == parsed { 0 } else { 1 };
            let mut b = self.state.remove(i);
            b.echo2s.insert(echo2_sender);
            let n = b.echo2s.len();
            let bv = b.value;
            self.state.insert(i, b);
            if n >= highthreshold {
                self.echo2vals.push(parsed);
                self.term_val = Some(bv);
            }
            proof {
                let ob = old_s.state[i as int];
                assert(self@.state =~= old_s.state.update(i as int, BinValueView { echo2s: ob.echo2s.insert(echo2_sender), ..ob }));
                assert forall|j: int| 0 <= j < self.state@.len() implies (#[trigger] self.state@[j]).wf() by {}
            }
        } else {
            let b = BinValue {
                value: parsed,
                echos: NodeSet::new(),
                echo2s: NodeSet::singleton(echo2_sender),
                echo_sent: false,
                echo2_sent: false,
            };
            self.state.push(b);
            assert(self@.state =~= old_s.state.push(fresh_votes(msg, None, Some(echo2_sender))));
        }
    }

    /// Whether the round has terminated with a value.
    pub fn terminated(&self) -> (b: bool)
        ensures
            b == self.term_val.is_some(),
    {
        self.term_val.is_some()
    }

    /// Converts a received value to the type that the votes are kept in.
    pub fn to_target_type(msg: Val) -> (v: Val)
        ensures
            v == msg,
    {
        msg
    }

    /// Whether this node echoed exactly one of two values seen, or only one
    /// value was seen.
    pub fn num_values_one_two(&self) -> (b: bool)
        ensures
            b == one_value_spec(self@),
    {
        if self.state.len() == 2 {
            self.state[0].echo_sent != self.state[1].echo_sent
        } else {
            true
        }
    }

    /// A copy of the round state.
    pub fn duplicate(&self) -> (c: RoundStateBin)
        requires
            self.wf(),
        ensures
            c.wf(),
            c@ == self@,
    {
        let mut state: Vec<BinValue> = Vec::new();
        let mut i: usize = 0;
        while i < self.state.len()
            invariant
                self.wf(),
                i <= self.state@.len(),
                state@.len() == i,
                forall|j: int| 0 <= j < i ==> (#[trigger] state@[j]).wf() && state@[j]@ == self.state@[j]@,
            decreases self.state@.len() - i,
        {
            state.push(self.state[i].duplicate());
            i = i + 1;
        }
        let c = RoundStateBin {
            state,
            echo1vals: copy_vals(&self.echo1vals),
            echo2vals: copy_vals(&self.echo2vals),
            term_val: self.term_val,
            start: self.start,
            end: self.end,
            level: self.level,
        };
        assert(c@.state =~= self@.state);
        c
    }
}

/// Whether `v` holds `x`.
pub fn vec_contains(v: &Vec<Val>, x: Val) -> (b: bool)
    ensures
        b == v@.contains(x),
{
    let mut i: usize = 0;
    while i < v.len()
        invariant
            i <= v@.len(),
            forall|j: int| 0 <= j < i ==> v@[j] != x,
        decreases v@.len() - i,
    {
        if v[i] == x {
            assert(v@[i as int] == x);
            return true;
        }
        i = i + 1;
    }
    false
}

/// A copy of a vector of values.
pub fn copy_vals(v: &Vec<Val>) -> (c: Vec<Val>)
    ensures
        c@ == v@,
{
    let mut c: Vec<Val> = Vec::new();
    let mut i: usize = 0;
    while i < v.len()
        invariant
            i <= v@.len(),
            c@ == v@.subrange(0, i as int),
        decreases v@.len() - i,
    {
        c.push(v[i]);
        i = i + 1;
        assert(c@ =~= v@.subrange(0, i as int));
    }
    assert(v@.subrange(0, v@.len() as int) =~= v@);
    c
}

/// The effect of a sequence of ECHO1 votes `(value, sender)` on a round
/// state, with the ECHO1 and ECHO2 that each call returns.
pub open spec fn echo_run(s: RoundStateBinView, votes: Seq<(Val, Replica)>, minthreshold: int, highthreshold: int)
    -> (RoundStateBinView, Seq<(Option<Val>, Option<Val>)>)
    decreases votes.len(),
{
    if votes.len() == 0 {
        (s, Seq::empty())
    } else {
        let p = echo_run(s, votes.drop_last(), minthreshold, highthreshold);
        let r = add_echo_spec(p.0, votes.last().0, votes.last().1, minthreshold, highthreshold);
        (r.0, p.1.push((r.1, r.2)))
    }
}

/// Some call among the first `n` returned `v` as its ECHO1.
pub open spec fn sent_echo1(outs: Seq<(Option<Val>, Option<Val>)>, n: int, v: Val) -> bool {
    exists|j: int| 0 <= j < n && #[trigger] outs[j].0 == Some(v)
}

/// Some call among the first `n` returned `v` as its ECHO2.
pub open spec fn sent_echo2(outs: Seq<(Option<Val>, Option<Val>)>, n: int, v: Val) -> bool {
    exists|j: int| 0 <= j < n && #[trigger] outs[j].1 == Some(v)
}

/// What holds of a round state over a run of ECHO1 votes for the values `a`
/// (the first seen) and `b`: one slot per value, the flags of each slot tell
/// whether its ECHO1 and ECHO2 were returned, and the round has its value
/// exactly when two values reached the ECHO2 threshold.
pub open spec fn echo_run_inv(st: RoundStateBinView, outs: Seq<(Option<Val>, Option<Val>)>, a: Val, b: Val) -> bool {
    &&& 1 <= st.state.len() <= 2
    &&& st.state[0].value == a
    &&& st.state.len() == 2 ==> st.state[1].value == b && a != b
    &&& st.echo1vals.len() <= 2
    &&& (st.term_val is Some) == (st.echo1vals.len() == 2)
    &&& forall|i: int| 0 <= i < st.state.len() ==> {
        &&& (#[trigger] st.state[i]).echo2_sent ==> st.state[i].echo_sent
        &&& st.state[i].echo_sent == sent_echo1(outs, outs.len() as int, st.state[i].value)
        &&& st.state[i].echo2_sent == sent_echo2(outs, outs.len() as int, st.state[i].value)
    }
    &&& forall|j: int| 0 <= j < outs.len() && (#[trigger] outs[j]).0 is Some ==>
        exists|i: int| 0 <= i < st.state.len() && (#[trigger] st.state[i]).value == outs[j].0->0
    &&& forall|j: int| 0 <= j < outs.len() && (#[trigger] outs[j]).1 is Some ==>
        exists|i: int| 0 <= i < st.state.len() && (#[trigger] st.state[i]).value == outs[j].1->0
}

/// What the calls of a run of ECHO1 votes return: never an ECHO1 and an ECHO2
/// at once; only the call's own value; each value at most once as ECHO1 and
/// at most once as ECHO2, the ECHO2 only after its ECHO1.
pub open spec fn echo_run_outputs(votes: Seq<(Val, Replica)>, outs: Seq<(Option<Val>, Option<Val>)>) -> bool {
    &&& outs.len() == votes.len()
    &&& forall|k: int| 0 <= k < outs.len() ==> !((#[trigger] outs[k]).0 is Some && outs[k].1 is Some)
    &&& forall|k: int| 0 <= k < outs.len() && (#[trigger] outs[k]).0 is Some ==> outs[k].0 == Some(votes[k].0)
    &&& forall|k: int| 0 <= k < outs.len() && (#[trigger] outs[k]).1 is Some ==> outs[k].1 == Some(votes[k].0)
    &&& forall|j: int, k: int| 0 <= j < k < outs.len() && (#[trigger] outs[j]).0 is Some && (#[trigger] outs[k]).0 is Some
        ==> outs[j].0 != outs[k].0
    &&& forall|j: int, k: int| 0 <= j < k < outs.len() && (#[trigger] outs[j]).1 is Some && (#[trigger] outs[k]).1 is Some
        ==> outs[j].1 != outs[k].1
    &&& forall|k: int| 0 <= k < outs.len() && (#[trigger] outs[k]).1 is Some ==> sent_echo1(outs, k, votes[k].0)
}

/// A new round, created by an ECHO1 or an ECHO2 for `msg`, has returned
/// nothing yet.
pub proof fn lemma_new_round_fresh(msg: Val, sender: Replica, start: Point, end: Point, level: Lev, b: Val)
    ensures
        echo_run_inv(new_echo_view(msg, sender, start, end, level), Seq::empty(), msg, b),
        echo_run_inv(new_echo2_view(msg, sender, start, end, level), Seq::empty(), msg, b),
{
}

/// Law of `RoundStateBin::add_echo` over a sequence of calls: for ECHO1
/// votes for at most two values `a` (the first the round holds) and `b`, with
/// thresholds `minthreshold <= highthreshold`, on a round that has returned
/// nothing yet (a new round, whether created by an ECHO1 or an ECHO2, is
/// such): no call returns both an ECHO1 and an ECHO2; a returned value is the
/// call's own; each value is returned at most once as ECHO1 and at most once
/// as ECHO2, the ECHO2 in a later call than the ECHO1; the round holds at most
/// two values; and it has its value exactly when two values reached the ECHO2
/// threshold. Each of these holds after every prefix of the sequence too.
pub proof fn lemma_echo_run(s: RoundStateBinView, votes: Seq<(Val, Replica)>, minthreshold: int, highthreshold: int, b: Val)
    requires
        minthreshold <= highthreshold,
        echo_run_inv(s, Seq::empty(), s.state[0].value, b),
        forall|k: int| 0 <= k < votes.len() ==> (#[trigger] votes[k]).0 == s.state[0].value || votes[k].0 == b,
    ensures
        echo_run_inv(echo_run(s, votes, minthreshold, highthreshold).0, echo_run(s, votes, minthreshold, highthreshold).1, s.state[0].value, b),
        echo_run_outputs(votes, echo_run(s, votes, minthreshold, highthreshold).1),
    decreases votes.len(),
{
    let a = s.state[0].value;
    if votes.len() == 0 {
    } else {
        let pv = votes.drop_last();
        assert forall|k: int| 0 <= k < pv.len() implies (#[trigger] pv[k]).0 == a || pv[k].0 == b by {
            assert(pv[k] == votes[k]);
        }
        lemma_echo_run(s, pv, minthreshold, highthreshold, b);
        let p = echo_run(s, pv, minthreshold, highthreshold);
        let st = p.0;
        let po = p.1;
        let n = po.len() as int;
        let (m, snd) = votes.last();
        assert(votes[n] == (m, snd));
        assert(m == a || m == b);
        let r = add_echo_spec(st, m, snd, minthreshold, highthreshold);
        let outs = po.push((r.1, r.2));
        assert(echo_run(s, votes, minthreshold, highthreshold) == (r.0, outs));
        assert forall|k: int| 0 <= k < n implies #[trigger] votes[k] == pv[k] by {}
        assert forall|k: int| 0 <= k < n implies #[trigger] outs[k] == po[k] by {}
        // Earlier sends stay visible in the longer list.
        assert forall|v: Val| sent_echo1(po, n, v) implies sent_echo1(outs, n + 1, v) by {
            let j = choose|j: int| 0 <= j < n && #[trigger] po[j].0 == Some(v);
            assert(outs[j] == po[j]);
        }
        assert forall|v: Val| sent_echo2(po, n, v) implies sent_echo2(outs, n + 1, v) by {
            let j = choose|j: int| 0 <= j < n && #[trigger] po[j].1 == Some(v);
            assert(outs[j] == po[j]);
        }
        assert forall|v: Val| #![trigger sent_echo1(outs, n + 1, v)] sent_echo1(outs, n + 1, v) && outs[n].0 != Some(v) implies sent_echo1(po, n, v) by {
            let j = choose|j: int| 0 <= j < n + 1 && #[trigger] outs[j].0 == Some(v);
            assert(po[j] == outs[j]);
        }
        assert forall|v: Val| #![trigger sent_echo2(outs, n + 1, v)] sent_echo2(outs, n + 1, v) && outs[n].1 != Some(v) implies sent_echo2(po, n, v) by {
            let j = choose|j: int| 0 <= j < n + 1 && #[trigger] outs[j].1 == Some(v);
            assert(po[j] == outs[j]);
        }
        let st2 = r.0;
        if st.term_val is Some {
            assert(st2 == st);
            assert(echo_run_inv(st2, outs, a, b));
        } else if st.state[0].value == m || st.state.len() != 1 {
            let i: int = if st.state[0].value == m { 0 } else { 1 };
            assert(st.state[i].value == m);
            let bv = st.state[i];
            let vr = vote_echo(bv, m, snd, minthreshold, highthreshold, st.echo1vals, st.term_val);
            assert(st2.state == st.state.update(i, vr.0));
            if vr.1 is Some {
                assert(!bv.echo_sent);
                assert(!sent_echo1(po, n, m));
            }
            if vr.2 is Some {
                assert(bv.echo_sent);
                assert(!bv.echo2_sent);
                assert(sent_echo1(po, n, m));
                assert(!sent_echo2(po, n, m));
            }
            assert forall|q: int| 0 <= q < st2.state.len() implies {
                &&& (#[trigger] st2.state[q]).echo2_sent ==> st2.state[q].echo_sent
                &&& st2.state[q].echo_sent == sent_echo1(outs, outs.len() as int, st2.state[q].value)
                &&& st2.state[q].echo2_sent == sent_echo2(outs, outs.len() as int, st2.state[q].value)
            } by {
                if q == i {
                    if vr.1 is Some { assert(outs[n].0 == Some(m)); }
                    if vr.2 is Some { assert(outs[n].1 == Some(m)); }
                } else {
                    assert(st2.state[q] == st.state[q]);
                    assert(st.state[q].value != m);
                }
            }
            assert forall|j: int| 0 <= j < outs.len() && (#[trigger] outs[j]).0 is Some implies
                exists|q: int| 0 <= q < st2.state.len() && (#[trigger] st2.state[q]).value == outs[j].0->0 by {
                if j < n {
                    let q = choose|q: int| 0 <= q < st.state.len() && (#[trigger] st.state[q]).value == po[j].0->0;
                    assert(st2.state[q].value == st.state[q].value);
                } else {
                    assert(st2.state[i].value == m);
                }
            }
            assert forall|j: int| 0 <= j < outs.len() && (#[trigger] outs[j]).1 is Some implies
                exists|q: int| 0 <= q < st2.state.len() && (#[trigger] st2.state[q]).value == outs[j].1->0 by {
                if j < n {
                    let q = choose|q: int| 0 <= q < st.state.len() && (#[trigger] st.state[q]).value == po[j].1->0;
                    assert(st2.state[q].value == st.state[q].value);
                } else {
                    assert(st2.state[i].value == m);
                }
            }
            assert(echo_run_inv(st2, outs, a, b));
        } else {
            assert(m == b && a != b);
            let nb = fresh_votes(m, Some(snd), None);
            assert(st2.state == st.state.push(nb));
            assert(!sent_echo1(po, n, m)) by {
                if sent_echo1(po, n, m) {
                    let j = choose|j: int| 0 <= j < n && #[trigger] po[j].0 == Some(m);
                    let q = choose|q: int| 0 <= q < st.state.len() && (#[trigger] st.state[q]).value == po[j].0->0;
                }
            }
            assert(!sent_echo2(po, n, m)) by {
                if sent_echo2(po, n, m) {
                    let j = choose|j: int| 0 <= j < n && #[trigger] po[j].1 == Some(m);
                    let q = choose|q: int| 0 <= q < st.state.len() && (#[trigger] st.state[q]).value == po[j].1->0;
                }
            }
            assert forall|q: int| 0 <= q < st2.state.len() implies {
                &&& (#[trigger] st2.state[q]).echo2_sent ==> st2.state[q].echo_sent
                &&& st2.state[q].echo_sent == sent_echo1(outs, outs.len() as int, st2.state[q].value)
                &&& st2.state[q].echo2_sent == sent_echo2(outs, outs.len() as int, st2.state[q].value)
            } by {
                if q == 0 {
                    assert(st2.state[0] == st.state[0]);
                }
            }
            assert forall|j: int| 0 <= j < outs.len() && (#[trigger] outs[j]).0 is Some implies
                exists|q: int| 0 <= q < st2.state.len() && (#[trigger] st2.state[q]).value == outs[j].0->0 by {
                let q = choose|q: int| 0 <= q < st.state.len() && (#[trigger] st.state[q]).value == po[j].0->0;
                assert(st2.state[q] == st.state[q]);
            }
            assert forall|j: int| 0 <= j < outs.len() && (#[trigger] outs[j]).1 is Some implies
                exists|q: int| 0 <= q < st2.state.len() && (#[trigger] st2.state[q]).value == outs[j].1->0 by {
                let q = choose|q: int| 0 <= q < st.state.len() && (#[trigger] st.state[q]).value == po[j].1->0;
                assert(st2.state[q] == st.state[q]);
            }
            assert(echo_run_inv(st2, outs, a, b));
        }
        // The outputs of the new call against those before it.
        assert forall|j: int, k: int| 0 <= j < k < outs.len() && (#[trigger] outs[j]).0 is Some && (#[trigger] outs[k]).0 is Some
            implies outs[j].0 != outs[k].0 by {
            if k == n {
                assert(!sent_echo1(po, n, m));
                assert(outs[k].0 == Some(m));
                if outs[j].0 == Some(m) { assert(po[j].0 == Some(m)); }
            }
        }
        assert forall|j: int, k: int| 0 <= j < k < outs.len() && (#[trigger] outs[j]).1 is Some && (#[trigger] outs[k]).1 is Some
            implies outs[j].1 != outs[k].1 by {
            if k == n {
                assert(!sent_echo2(po, n, m));
                assert(outs[k].1 == Some(m));
                if outs[j].1 == Some(m) { assert(po[j].1 == Some(m)); }
            }
        }
        assert forall|k: int| 0 <= k < outs.len() && (#[trigger] outs[k]).1 is Some implies sent_echo1(outs, k, votes[k].0) by {
            if k < n {
                assert(sent_echo1(po, k, pv[k].0));
                let j = choose|j: int| 0 <= j < k && #[trigger] po[j].0 == Some(pv[k].0);
                assert(outs[j] == po[j]);
            } else {
                assert(sent_echo1(po, n, m));
                let j = choose|j: int| 0 <= j < n && #[trigger] po[j].0 == Some(m);
                assert(outs[j] == po[j]);
            }
        }
        assert(echo_run_outputs(votes, outs));
    }
}

} // verus!

verus! {

/// Law of `RoundStateBin::add_echo`: when an ECHO1 vote ends the round (its
/// value was not set before and is set after), the round holds exactly two
/// distinct values that reached the ECHO2 threshold, and its value is their
/// midpoint, rounded toward zero: the same whichever of the two reached the
/// threshold first, and between the two.
pub proof fn lemma_echo_ends_at_midpoint(s: RoundStateBinView, msg: Val, sender: Replica, minthreshold: int, highthreshold: int)
    requires
        s.echo1vals.no_duplicates(),
        1 <= s.state.len() <= 2,
    ensures
        ({
            let r = add_echo_spec(s, msg, sender, minthreshold, highthreshold).0;
            s.term_val is None && r.term_val is Some ==> {
                &&& r.echo1vals.len() == 2
                &&& r.echo1vals[0] != r.echo1vals[1]
                &&& forall|a: Val, b: Val| #![trigger r.echo1vals.to_set().contains(a), r.echo1vals.to_set().contains(b)]
                    a != b && r.echo1vals.to_set().contains(a) && r.echo1vals.to_set().contains(b)
                    ==> r.term_val == Some(midpoint(a as int, b as int) as Val)
                &&& r.term_val == Some(midpoint(r.echo1vals[0] as int, r.echo1vals[1] as int) as Val)
                &&& r.term_val == Some(midpoint(r.echo1vals[1] as int, r.echo1vals[0] as int) as Val)
                &&& (r.echo1vals[0] <= r.term_val->0 <= r.echo1vals[1] || r.echo1vals[1] <= r.term_val->0 <= r.echo1vals[0])
                &&& r.echo1vals[0] + r.echo1vals[1] >= 0 ==> 0 <= r.echo1vals[0] + r.echo1vals[1] - 2 * r.term_val->0 <= 1
                &&& r.echo1vals[0] + r.echo1vals[1] < 0 ==> 0 <= 2 * r.term_val->0 - (r.echo1vals[0] + r.echo1vals[1]) <= 1
            }
        }),
{
    let r = add_echo_spec(s, msg, sender, minthreshold, highthreshold).0;
    if s.term_val is None && r.term_val is Some {
        let a0 = r.echo1vals[0];
        let a1 = r.echo1vals[1];
        assert(midpoint(a0 as int, a1 as int) == midpoint(a1 as int, a0 as int));
        if a0 <= a1 {
            crate::arith::lemma_midpoint_between(a0 as int, a1 as int);
        } else {
            crate::arith::lemma_midpoint_between(a1 as int, a0 as int);
        }
        assert forall|a: Val, b: Val| #![trigger r.echo1vals.to_set().contains(a), r.echo1vals.to_set().contains(b)]
            a != b && r.echo1vals.to_set().contains(a) && r.echo1vals.to_set().contains(b)
            implies r.term_val == Some(midpoint(a as int, b as int) as Val) by {
            assert(r.echo1vals.contains(a));
            assert(r.echo1vals.contains(b));
            let i = choose|i: int| 0 <= i < r.echo1vals.len() && r.echo1vals[i] == a;
            let j = choose|j: int| 0 <= j < r.echo1vals.len() && r.echo1vals[j] == b;
        }
    }
}

} // verus!

verus! {

/// Law of `RoundStateBin::add_echo2`: an ECHO2 vote for a value the round
/// holds ends the round with that value once the value has at least
/// `highthreshold` distinct ECHO2 voters, recording it among the values with
/// enough ECHO2 votes; with fewer voters the round's value is unchanged.
pub proof fn lemma_echo2_ends_with_value(s: RoundStateBinView, msg: Val, sender: Replica, highthreshold: int, i: int)
    requires
        1 <= s.state.len() <= 2,
        0 <= i < s.state.len(),
        s.state[i].value == msg,
        s.state.len() == 2 ==> s.state[0].value != s.state[1].value,
    ensures
        ({
            let r = add_echo2_spec(s, msg, sender, highthreshold);
            &&& r.state.len() == s.state.len()
            &&& r.state[i].value == msg
            &&& r.state[i].echo2s == s.state[i].echo2s.insert(sender)
            &&& r.state[i].echo2s.len() >= highthreshold ==> r.term_val == Some(msg) && r.echo2vals == s.echo2vals.push(msg)
            &&& r.state[i].echo2s.len() < highthreshold ==> r.term_val == s.term_val && r.echo2vals == s.echo2vals
        }),
{
}

} // verus!
