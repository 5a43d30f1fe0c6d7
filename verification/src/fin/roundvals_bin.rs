//! One round of the binary agreement that FIN runs after electing a leader
//! (Abraham, Ben-David and Yandamuri's protocol): ECHO1, ECHO2 and ECHO3
//! votes, the value the round ends with, and the partial signatures of the
//! round's common coin.

use std::collections::HashMap;
use vstd::prelude::*;
use crate::arith::{midpoint, mid_i64, lemma_midpoint_between};
use crate::types::{Replica, Val, NodeSet};
use crate::delphi_rbc::roundvals_bin::{BinValue, BinValueView, fresh_votes, insert_val, vec_contains};

verus! {

broadcast use vstd::std_specs::hash::group_hash_axioms;

/// The state of one round. `echo1vals` holds, without repetition, the values
/// that reached `2f + 1` ECHO1 votes; `partial_sig_vec` holds each node's
/// serialized partial signature on the round's coin.
pub struct RoundStateBin {
    pub state: Vec<BinValue>,
    pub echo1vals: Vec<Val>,
    pub echo2vals: Vec<Val>,
    pub echo3vals: HashMap<Replica, Val>,
    pub echo3sent: bool,
    pub termval: Option<Val>,
    pub partial_sig_vec: HashMap<Replica, Vec<u8>>,
    pub coin_state: Option<bool>,
}

/// The mathematical content of a [`RoundStateBin`].
pub struct RoundStateBinView {
    pub state: Seq<BinValueView>,
    pub echo1vals: Seq<Val>,
    pub echo2vals: Seq<Val>,
    pub echo3vals: Map<Replica, Val>,
    pub echo3sent: bool,
    pub termval: Option<Val>,
    pub partial_sigs: Map<Replica, Seq<u8>>,
    pub coin_state: Option<bool>,
}

impl View for RoundStateBin {
    type V = RoundStateBinView;

    open spec fn view(&self) -> RoundStateBinView {
        RoundStateBinView {
            state: self.state@.map_values(|b: BinValue| b@),
            echo1vals: self.echo1vals@,
            echo2vals: self.echo2vals@,
            echo3vals: self.echo3vals@,
            echo3sent: self.echo3sent,
            termval: self.termval,
            partial_sigs: self.partial_sig_vec@.map_values(|v: Vec<u8>| v@),
            coin_state: self.coin_state,
        }
    }
}

/// A round state that has seen nothing yet.
pub open spec fn empty_bin_view() -> RoundStateBinView {
    RoundStateBinView {
        state: Seq::empty(),
        echo1vals: Seq::empty(),
        echo2vals: Seq::empty(),
        echo3vals: Map::empty(),
        echo3sent: false,
        termval: None,
        partial_sigs: Map::empty(),
        coin_state: None,
    }
}

/// How many of the values seen already had this node's ECHO2.
pub open spec fn sent2_count(state: Seq<BinValueView>) -> int {
    (if state.len() >= 1 && state[0].echo2_sent { 1int } else { 0int })
        + (if state.len() >= 2 && state[1].echo2_sent { 1int } else { 0int })
}

/// The midpoint of the values that reached `2f + 1` ECHO1 votes when there
/// are two of them, the value itself when there is one.
pub open spec fn echo1_value(vals: Seq<Val>) -> Val {
    if vals.len() == 1 {
        vals[0]
    } else {
        midpoint(vals[0] as int, vals[vals.len() - 1] as int) as Val
    }
}

/// What an ECHO1 vote for one value does: `(votes, ECHO1 to send, ECHO2 to
/// send, ECHO3 to send, echo1vals)`. A value with `f + 1` votes is echoed;
/// one with `2f + 1` votes enters `echo1vals`, and the node sends ECHO2 for
/// it, or ECHO3 for the midpoint once two values are there.
pub open spec fn fin_vote_echo(
    b: BinValueView,
    msg: Val,
    sender: Replica,
    minthreshold: int,
    highthreshold: int,
    vals: Seq<Val>,
) -> (BinValueView, Option<Val>, Option<Val>, Option<Val>, Seq<Val>) {
    let echos = b.echos.insert(sender);
    if echos.len() >= minthreshold && !b.echo_sent {
        (BinValueView { echos, echo_sent: true, ..b }, Some(msg), None, None, vals)
    } else if echos.len() >= highthreshold && !b.echo2_sent {
        let vals2 = insert_val(vals, msg);
        if vals2.len() == 2 {
            (BinValueView { echos, echo2_sent: true, ..b }, None, None,
                Some(midpoint(vals2[0] as int, vals2[1] as int) as Val), vals2)
        } else {
            (BinValueView { echos, echo2_sent: true, ..b }, None, Some(msg), None, vals2)
        }
    } else {
        (BinValueView { echos, ..b }, None, None, None, vals)
    }
}

/// The effect of an ECHO1 vote for `msg` from `sender`: the new state and
/// the ECHO1, ECHO2 and ECHO3 messages this node must send. A value other
/// than the first one seen is counted as the second one.
pub open spec fn fin_add_echo_spec(
    s: RoundStateBinView,
    msg: Val,
    sender: Replica,
    minthreshold: int,
    highthreshold: int,
) -> (RoundStateBinView, Option<Val>, Option<Val>, Option<Val>) {
    if s.state[0].value == msg || s.state.len() != 1 {
        let i: int = if s.state[0].value == msg { 0 } else { 1 };
        let r = fin_vote_echo(s.state[i], msg, sender, minthreshold, highthreshold, s.echo1vals);
        (RoundStateBinView { state: s.state.update(i, r.0), echo1vals: r.4, ..s }, r.1, r.2, r.3)
    } else {
        (RoundStateBinView { state: s.state.push(fresh_votes(msg, Some(sender), None)), ..s }, None, None, None)
    }
}

/// The effect of an ECHO2 vote for `msg` from `sender`: once the value has
/// `2f + 1` ECHO2 votes it is recorded, and the first such value is the
/// node's ECHO3.
pub open spec fn fin_add_echo2_spec(
    s: RoundStateBinView,
    msg: Val,
    sender: Replica,
    highthreshold: int,
) -> (RoundStateBinView, Option<Val>) {
    if s.state[0].value == msg || s.state.len() != 1 {
        let i: int = if s.state[0].value == msg { 0 } else { 1 };
        let b = s.state[i];
        let echo2s = b.echo2s.insert(sender);
        let s2 = RoundStateBinView { state: s.state.update(i, BinValueView { echo2s, ..b }), ..s };
        if echo2s.len() >= highthreshold {
            let s3 = RoundStateBinView { echo2vals: s.echo2vals.push(msg), ..s2 };
            if !s.echo3sent {
                (RoundStateBinView { echo3sent: true, ..s3 }, Some(msg))
            } else {
                (s3, None)
            }
        } else {
            (s2, None)
        }
    } else {
        (RoundStateBinView { state: s.state.push(fresh_votes(msg, None, Some(sender))), ..s }, None)
    }
}

/// The effect of an ECHO3 vote for `msg` from `sender`, and whether the round
/// has its value. The first vote of each sender counts; with `2f + 1` of them
/// the round takes the value of `echo1vals`.
pub open spec fn add_echo3_spec(
    s: RoundStateBinView,
    msg: Val,
    sender: Replica,
    highthreshold: int,
) -> (RoundStateBinView, bool) {
    if !s.echo3vals.contains_key(sender) {
        let e3 = s.echo3vals.insert(sender, msg);
        if e3.len() >= highthreshold && s.termval is None {
            (RoundStateBinView { echo3vals: e3, termval: Some(echo1_value(s.echo1vals)), ..s }, true)
        } else {
            (RoundStateBinView { echo3vals: e3, ..s }, false)
        }
    } else {
        (s, s.termval is Some)
    }
}

/// An ECHO3 vote that ends the round finds a value in `echo1vals`.
pub open spec fn add_echo3_ok(s: RoundStateBinView, sender: Replica, highthreshold: int) -> bool {
    (!s.echo3vals.contains_key(sender) && s.echo3vals.len() + 1 >= highthreshold && s.termval is None)
        ==> s.echo1vals.len() > 0
}

/// What the round decides once `minthreshold` partial signatures are there
/// and the coin they combine to is `coin`: `(terminate, value)`. The round
/// terminates when its value is 2 and the coin is heads, or 0 and tails;
/// otherwise the next round starts with the coin's value (two values seen)
/// or with the one value seen.
pub open spec fn coin_decision(s: RoundStateBinView, minthreshold: int, coin: bool) -> Option<(bool, Val)> {
    if s.partial_sigs.len() < minthreshold {
        None
    } else if s.termval is Some {
        let t = s.termval->0;
        if (t == 2 && coin) || (t == 0 && !coin) {
            Some((true, t))
        } else if s.echo1vals.len() == 2 {
            Some((false, if coin { 2 } else { 0 }))
        } else {
            Some((false, s.echo1vals[0]))
        }
    } else {
        None
    }
}

impl RoundStateBin {
    /// At most two values are seen, `echo1vals` holds no value twice and no
    /// more values than were sent ECHO2, and a round with a value has one in
    /// `echo1vals`.
    pub open spec fn wf(&self) -> bool {
        &&& self.state@.len() <= 2
        &&& forall|i: int| 0 <= i < self.state@.len() ==> (#[trigger] self.state@[i]).wf()
        &&& self.echo1vals@.no_duplicates()
        &&& self.echo1vals@.len() <= sent2_count(self@.state)
        &&& self.termval is Some ==> self.echo1vals@.len() > 0
    }

    fn empty() -> (r: RoundStateBin)
        ensures
            r.wf(),
            r@ == empty_bin_view(),
    {
        let r = RoundStateBin {
            state: Vec::new(),
            echo1vals: Vec::new(),
            echo2vals: Vec::new(),
            echo3vals: HashMap::new(),
            echo3sent: false,
            termval: None,
            partial_sig_vec: HashMap::new(),
            coin_state: None,
        };
        assert(r@.state =~= Seq::<BinValueView>::empty());
        assert(r@.echo1vals =~= Seq::<Val>::empty());
        assert(r@.echo2vals =~= Seq::<Val>::empty());
        assert(r@.partial_sigs =~= Map::<Replica, Seq<u8>>::empty());
        r
    }

    /// The state of a round whose first message is an ECHO1 for `msg` from
    /// `echo_sender`.
    pub fn new_with_echo(msg: Val, echo_sender: Replica) -> (r: RoundStateBin)
        ensures
            r.wf(),
            r@ == (RoundStateBinView { state: seq![fresh_votes(msg, Some(echo_sender), None)], ..empty_bin_view() }),
    {
        let mut r = Self::empty();
        r.state.push(BinValue {
            value: Self::to_target_type(msg),
            echos: NodeSet::singleton(echo_sender),
            echo2s: NodeSet::new(),
            echo_sent: false,
            echo2_sent: false,
        });
        assert(r@.state =~= seq![fresh_votes(msg, Some(echo_sender), None)]);
        r
    }

    /// The state of a round whose first message is an ECHO2 for `msg` from
    /// `echo2_sender`.
    pub fn new_with_echo2(msg: Val, echo2_sender: Replica) -> (r: RoundStateBin)
        ensures
            r.wf(),
            r@ == (RoundStateBinView { state: seq![fresh_votes(msg, None, Some(echo2_sender))], ..empty_bin_view() }),
    {
        let mut r = Self::empty();
        r.state.push(BinValue {
            value: Self::to_target_type(msg),
            echos: NodeSet::new(),
            echo2s: NodeSet::singleton(echo2_sender),
            echo_sent: false,
            echo2_sent: false,
        });
        assert(r@.state =~= seq![fresh_votes(msg, None, Some(echo2_sender))]);
        r
    }

    /// The state of a round whose first message is an ECHO3 for `msg` from
    /// `echo3_sender`: the vote is recorded, and `msg` is the first value seen.
    pub fn new_with_echo3(msg: Val, echo3_sender: Replica) -> (r: RoundStateBin)
        ensures
            r.wf(),
            r@ == (RoundStateBinView {
                state: seq![fresh_votes(msg, None, None)],
                echo3vals: Map::empty().insert(echo3_sender, msg),
                ..empty_bin_view()
            }),
    {
        let mut r = Self::empty();
        r.echo3vals.insert(echo3_sender, msg);
        r.state.push(BinValue {
            value: Self::to_target_type(msg),
            echos: NodeSet::new(),
            echo2s: NodeSet::new(),
            echo_sent: false,
            echo2_sent: false,
        });
        assert(r@.state =~= seq![fresh_votes(msg, None, None)]);
        assert(r@.echo3vals =~= Map::empty().insert(echo3_sender, msg));
        r
    }

    /// The state of a round whose first message is the partial signature
    /// `psig` of `sig_sender`; no value is seen yet.
    pub fn new_with_psig(psig: Vec<u8>, sig_sender: Replica) -> (r: RoundStateBin)
        ensures
            r.wf(),
            r@ == (RoundStateBinView { partial_sigs: Map::empty().insert(sig_sender, psig@), ..empty_bin_view() }),
    {
        let mut r = Self::empty();
        let ghost p = psig@;
        r.partial_sig_vec.insert(sig_sender, psig);
        assert(r@.partial_sigs =~= Map::empty().insert(sig_sender, p));
        r
    }

    /// Records an ECHO1 vote; returns the ECHO1, ECHO2 and ECHO3 messages
    /// that this node must send.
    pub fn add_echo(&mut self, msg: Val, echo_sender: Replica, minthreshold: usize, highthreshold: usize)
        -> (res: (Option<Val>, Option<Val>, Option<Val>))
        requires
            old(self).wf(),
            old(self).state@.len() >= 1,
        ensures
            final(self).wf(),
            (final(self)@, res.0, res.1, res.2) == fin_add_echo_spec(old(self)@, msg, echo_sender, minthreshold as int, highthreshold as int),
    {
        let ghost old_s = self@;
        let parsed = Self::to_target_type(msg);
        if self.state[0].value == parsed || self.state.len() != 1 {
            let i: usize = if self.state[0].value == parsed { 0 } else { 1 };
            let mut b = self.state.remove(i);
            let mut echo1: Option<Val> = None;
            let mut echo2: Option<Val> = None;
            let mut echo3: Option<Val> = None;
            b.echos.insert(echo_sender);
            let n = b.echos.len();
            if n >= minthreshold && !b.echo_sent {
                echo1 = Some(msg);
                b.echo_sent = true;
            } else if n >= highthreshold && !b.echo2_sent {
                if !vec_contains(&self.echo1vals, parsed) {
                    let ghost before = self.echo1vals@;
                    self.echo1vals.push(parsed);
                    assert forall|x: int, y: int| 0 <= x < y < self.echo1vals@.len()
                        implies self.echo1vals@[x] != self.echo1vals@[y] by {
                        if y == self.echo1vals@.len() - 1 {
                            assert(before.contains(self.echo1vals@[x]));
                        }
                    }
                }
                if self.echo1vals.len() == 2 {
                    echo3 = Some(mid_i64(self.echo1vals[0], self.echo1vals[1]));
                } else {
                    echo2 = Some(msg);
                }
                b.echo2_sent = true;
            }
            self.state.insert(i, b);
            proof {
                let r = fin_vote_echo(old_s.state[i as int], msg, echo_sender, minthreshold as int, highthreshold as int, old_s.echo1vals);
                assert(self@.state =~= old_s.state.update(i as int, r.0));
                assert(self.echo1vals@ =~= r.4);
                assert forall|j: int| 0 <= j < self.state@.len() implies (#[trigger] self.state@[j]).wf() by {}
            }
            (echo1, echo2, echo3)
        } else {
            self.state.push(BinValue {
                value: parsed,
                echos: NodeSet::singleton(echo_sender),
                echo2s: NodeSet::new(),
                echo_sent: false,
                echo2_sent: false,
            });
            assert(self@.state =~= old_s.state.push(fresh_votes(msg, Some(echo_sender), None)));
            (None, None, None)
        }
    }

    /// Records an ECHO2 vote; returns the ECHO3 this node must send.
    pub fn add_echo2(&mut self, msg: Val, echo2_sender: Replica, highthreshold: usize) -> (echo3: Option<Val>)
        requires
            old(self).wf(),
            old(self).state@.len() >= 1,
        ensures
            final(self).wf(),
            (final(self)@, echo3) == fin_add_echo2_spec(old(self)@, msg, echo2_sender, highthreshold as int),
    {
        let ghost old_s = self@;
        let parsed = Self::to_target_type(msg);
        if self.state[0].value == parsed || self.state.len() != 1 {
            let i: usize = if self.state[0].value == parsed { 0 } else { 1 };
            let mut b = self.state.remove(i);
            b.echo2s.insert(echo2_sender);
            let n = b.echo2s.len();
            self.state.insert(i, b);
            proof {
                let ob = old_s.state[i as int];
                assert(self@.state =~= old_s.state.update(i as int, BinValueView { echo2s: ob.echo2s.insert(echo2_sender), ..ob }));
                assert forall|j: int| 0 <= j < self.state@.len() implies (#[trigger] self.state@[j]).wf() by {}
            }
            let mut echo3: Option<Val> = None;
            if n >= highthreshold {
                self.echo2vals.push(parsed);
                if !self.echo3sent {
                    echo3 = Some(parsed);
                    self.echo3sent = true;
                }
            }
            echo3
        } else {
            self.state.push(BinValue {
                value: parsed,
                echos: NodeSet::new(),
                echo2s: NodeSet::singleton(echo2_sender),
                echo_sent: false,
                echo2_sent: false,
            });
            assert(self@.state =~= old_s.state.push(fresh_votes(msg, None, Some(echo2_sender))));
            None
        }
    }

    /// Records an ECHO3 vote; returns whether the round has its value.
    pub fn add_echo3(&mut self, msg: Val, echo3_sender: Replica, highthreshold: usize) -> (done: bool)
        requires
            old(self).wf(),
            add_echo3_ok(old(self)@, echo3_sender, highthreshold as int),
        ensures
            final(self).wf(),
            (final(self)@, done) == add_echo3_spec(old(self)@, msg, echo3_sender, highthreshold as int),
    {
        if !self.echo3vals.contains_key(&echo3_sender) {
            self.echo3vals.insert(echo3_sender, msg);
            if self.echo3vals.len() >= highthreshold && self.termval.is_none() {
                if self.echo1vals.len() == 1 {
                    self.termval = Some(self.echo1vals[0]);
                } else {
                    let last = self.echo1vals.len() - 1;
                    self.termval = Some(mid_i64(self.echo1vals[0], self.echo1vals[last]));
                }
                return true;
            } else {
                return false;
            }
        }
        self.termval.is_some()
    }

    /// Converts a received value to the type that the votes are kept in.
    pub fn to_target_type(msg: Val) -> (v: Val)
        ensures
            v == msg,
    {
        msg
    }

    /// What the round decides once `minthreshold` partial signatures are
    /// there, given the value `coin` of the common coin that they combine to;
    /// `None` while signatures are missing or the round has no value yet.
    pub fn aggregate_psigs(&self, minthreshold: usize, coin: bool) -> (d: Option<(bool, Val)>)
        requires
            self.wf(),
        ensures
            d == coin_decision(self@, minthreshold as int, coin),
    {
        assert(self@.partial_sigs.dom() =~= self.partial_sig_vec@.dom());
        if self.partial_sig_vec.len() < minthreshold {
            return None;
        }
        match self.termval {
            Some(t) => {
                if (t == 2 && coin) || (t == 0 && !coin) {
                    Some((true, t))
                } else if self.echo1vals.len() == 2 {
                    if coin {
                        Some((false, 2))
                    } else {
                        Some((false, 0))
                    }
                } else {
                    Some((false, self.echo1vals[0]))
                }
            },
            None => None,
        }
    }

    /// Stores the partial signature of node `id`.
    pub fn add_partial_sig(&mut self, id: Replica, partial_sig: Vec<u8>)
        requires
            old(self).wf(),
        ensures
            final(self).wf(),
            final(self)@ == (RoundStateBinView { partial_sigs: old(self)@.partial_sigs.insert(id, partial_sig@), ..old(self)@ }),
    {
        let ghost old_s = self@;
        let ghost p = partial_sig@;
        self.partial_sig_vec.insert(id, partial_sig);
        assert(self@.partial_sigs =~= old_s.partial_sigs.insert(id, p));
    }

    /// Whether node `id`'s partial signature is stored.
    pub fn contains_sig(&self, id: Replica) -> (b: bool)
        ensures
            b == self@.partial_sigs.contains_key(id),
    {
        self.partial_sig_vec.contains_key(&id)
    }
}

/// The value a round ends with lies between two of the values that reached
/// `2f + 1` ECHO1 votes.
pub proof fn lemma_round_value_within_echoed(s: RoundStateBinView, msg: Val, sender: Replica, highthreshold: int)
    requires
        add_echo3_ok(s, sender, highthreshold),
        s.termval is None,
        s.echo3vals.dom().finite(),
    ensures
        ({
            let r = add_echo3_spec(s, msg, sender, highthreshold);
            r.1 ==> exists|i: int, j: int| 0 <= i < s.echo1vals.len() && 0 <= j < s.echo1vals.len()
                && #[trigger] s.echo1vals[i] <= r.0.termval->0 && r.0.termval->0 <= #[trigger] s.echo1vals[j]
        }),
{
    let r = add_echo3_spec(s, msg, sender, highthreshold);
    if r.1 {
        assert(!s.echo3vals.contains_key(sender));
        assert(s.echo3vals.insert(sender, msg).len() == s.echo3vals.len() + 1);
        let v = s.echo1vals;
        let last = v.len() - 1;
        if v.len() == 1 {
            assert(v[0] <= r.0.termval->0 <= v[0]);
        } else if v[0] <= v[last] {
            lemma_midpoint_between(v[0] as int, v[last] as int);
            assert(v[0] <= r.0.termval->0 <= v[last]);
        } else {
            lemma_midpoint_between(v[last] as int, v[0] as int);
            assert(midpoint(v[0] as int, v[last] as int) == midpoint(v[last] as int, v[0] as int));
            assert(v[last] <= r.0.termval->0 <= v[0]);
        }
    }
}

/// A round ends the leader round only on value 2 with the coin heads, or on
/// value 0 with the coin tails; otherwise the next round starts with the
/// coin's value (0 or 2) or with a value that reached `2f + 1` ECHO1 votes.
pub proof fn lemma_coin_decision(s: RoundStateBinView, minthreshold: int, coin: bool)
    requires
        s.termval is Some ==> s.echo1vals.len() > 0,
    ensures
        match coin_decision(s, minthreshold, coin) {
            Some((true, v)) => (v == 2 && coin) || (v == 0 && !coin),
            Some((false, v)) => v == 0 || v == 2 || s.echo1vals.contains(v),
            None => true,
        },
{
    match coin_decision(s, minthreshold, coin) {
        Some((false, v)) => {
            if s.echo1vals.len() != 2 {
                assert(s.echo1vals[0] == v);
            }
        },
        _ => {},
    }
}

/// The effect of a sequence of ECHO2 votes `(value, sender)` on a round, with
/// what each call returns.
pub open spec fn echo2_run(s: RoundStateBinView, votes: Seq<(Val, Replica)>, highthreshold: int)
    -> (RoundStateBinView, Seq<Option<Val>>)
    decreases votes.len(),
{
    if votes.len() == 0 {
        (s, Seq::empty())
    } else {
        let p = echo2_run(s, votes.drop_last(), highthreshold);
        let r = fin_add_echo2_spec(p.0, votes.last().0, votes.last().1, highthreshold);
        (r.0, p.1.push(r.1))
    }
}

/// Law: over any sequence of ECHO2 votes on a round that has seen a value,
/// at most one call returns a value, and only if the round had not sent its
/// ECHO3 before; that value is the call's own vote and is recorded among the
/// values with enough ECHO2 votes; after it the round has sent its ECHO3.
/// ECHO2 votes never change the ECHO1 values or the round's value.
pub proof fn lemma_echo3_sent_once(s: RoundStateBinView, votes: Seq<(Val, Replica)>, highthreshold: int)
    requires
        s.state.len() >= 1,
    ensures
        ({
            let (s2, outs) = echo2_run(s, votes, highthreshold);
            &&& outs.len() == votes.len()
            &&& s2.state.len() >= 1
            &&& s2.echo1vals == s.echo1vals
            &&& s2.termval == s.termval
            &&& forall|j: int, k: int| 0 <= j < k < outs.len() && (#[trigger] outs[j]) is Some ==> (#[trigger] outs[k]) is None
            &&& forall|k: int| 0 <= k < outs.len() && (#[trigger] outs[k]) is Some ==> {
                &&& !s.echo3sent
                &&& outs[k] == Some(votes[k].0)
                &&& s2.echo2vals.contains(votes[k].0)
            }
            &&& s2.echo3sent == (s.echo3sent || exists|k: int| 0 <= k < outs.len() && (#[trigger] outs[k]) is Some)
        }),
    decreases votes.len(),
{
    if votes.len() > 0 {
        let pv = votes.drop_last();
        lemma_echo3_sent_once(s, pv, highthreshold);
        let p = echo2_run(s, pv, highthreshold);
        let (m, snd) = votes.last();
        let r = fin_add_echo2_spec(p.0, m, snd, highthreshold);
        let outs = p.1.push(r.1);
        assert(echo2_run(s, votes, highthreshold) == (r.0, outs));
        let n = pv.len() as int;
        assert forall|k: int| 0 <= k < n implies #[trigger] votes[k] == pv[k] by {}
        assert(votes[n] == (m, snd));
        assert(forall|k: int| 0 <= k < n ==> #[trigger] outs[k] == p.1[k]);
        assert forall|j: int, k: int| 0 <= j < k < outs.len() && (#[trigger] outs[j]) is Some implies (#[trigger] outs[k]) is None by {
            if k == n {
                assert(p.0.echo3sent);
            }
        }
        assert forall|k: int| 0 <= k < outs.len() && (#[trigger] outs[k]) is Some implies {
            &&& !s.echo3sent
            &&& outs[k] == Some(votes[k].0)
            &&& r.0.echo2vals.contains(votes[k].0)
        } by {
            if k < n {
                assert(p.0.echo2vals.contains(pv[k].0));
                let w = choose|w: int| 0 <= w < p.0.echo2vals.len() && p.0.echo2vals[w] == pv[k].0;
                assert(r.0.echo2vals[w] == pv[k].0);
            } else {
                assert(r.0.echo2vals[r.0.echo2vals.len() - 1] == m);
            }
        }
        if r.0.echo3sent && !s.echo3sent {
            if p.0.echo3sent {
                let k = choose|k: int| 0 <= k < p.1.len() && (#[trigger] p.1[k]) is Some;
                assert(outs[k] is Some);
            } else {
                assert(outs[n] is Some);
            }
        }
        if exists|k: int| 0 <= k < outs.len() && (#[trigger] outs[k]) is Some {
            let k = choose|k: int| 0 <= k < outs.len() && (#[trigger] outs[k]) is Some;
            if k < n {
                assert(p.1[k] is Some);
            }
        }
    }
}

} // verus!
