//! A level of checkpoints of one Delphi instance. It keeps the same intervals
//! as [`crate::delphi_rbc::level::Level`] and records which instance it
//! belongs to.

use vstd::prelude::*;
use crate::types::{Replica, Val, Lev, Round};
use crate::arith::trunc_div;
use crate::delphi_rbc::interval::Interval;
use crate::delphi_rbc::level::{
    Triple, LevelView, ivs_view, all_wf, sorted_starts, three_interval_vec, three_intervals,
    intervals_terminated, intervals_start_round, add_votes, add_votes_spec, compress_votes,
    compress_spec, all_terminated, level_start_round_spec, ranges_ordered, partitioned,
};
use crate::delphi_rbc::partition::lemma_votes_keep_partition;
use crate::delphi_rbc::partition::{lemma_three_partition, bounds_eq};
use crate::delphi_rbc::refine::{refines, is_key, lemma_votes_refine};
use crate::delphi_rbc::compressed::{good_list, lemma_vote_lists_compressed};
use crate::delphi_rbc::shape::lemma_echo2_splits_as_echo1;
use crate::arith::div_i64;
use crate::types::Point;
use crate::delphi_rbc::interval::IntervalView;

verus! {

/// The intervals of one level from `i64::MIN` to `i64::MAX`, the checkpoints of
/// this level spaced by `sep`, for the Delphi instance `del_inst_id`.
pub struct Level {
    pub num: Lev,
    pub intervals: Vec<Interval>,
    pub sep: Val,
    pub del_inst_id: usize,
}

/// The checkpoint of a value: its multiple of `sep` toward zero.
pub open spec fn checkpoint_of(sep: Val, val: Val) -> int {
    trunc_div(val as int, sep as int) * sep
}

/// The intervals of a new level around the checkpoint `v` of the node's
/// value: from `i64::MIN` to `v - sep`, from `v - sep` to `v + sep`, and from
/// `v + sep` to `i64::MAX`.
pub open spec fn delphi_level_intervals(sep: Val, num: Lev, val: Val, minth: usize, highth: usize) -> Seq<IntervalView> {
    three_intervals((checkpoint_of(sep, val) - sep) as Point, (checkpoint_of(sep, val) + sep) as Point, num, minth, highth)
}

proof fn lemma_floor_mul(x: int, y: int)
    by (nonlinear_arith)
    requires
        x >= 0,
        y > 0,
    ensures
        0 <= (x / y) * y <= x,
        x - y < (x / y) * y,
{
}

/// The checkpoint of a value lies between zero and the value, less than one
/// separation away from it.
proof fn lemma_checkpoint_bounds(a: int, b: int)
    requires
        b != 0,
    ensures
        a >= 0 ==> 0 <= trunc_div(a, b) * b <= a,
        a < 0 ==> a <= trunc_div(a, b) * b <= 0,
        b > 0 ==> a - b < trunc_div(a, b) * b <= a || a <= trunc_div(a, b) * b < a + b,
{
    if a >= 0 {
        if b > 0 {
            lemma_floor_mul(a, b);
        } else {
            lemma_floor_mul(a, -b);
            assert(trunc_div(a, b) * b == (a / (-b)) * (-b)) by (nonlinear_arith)
                requires trunc_div(a, b) == -(a / (-b));
        }
    } else {
        if b > 0 {
            lemma_floor_mul(-a, b);
            assert(trunc_div(a, b) * b == -(((-a) / b) * b)) by (nonlinear_arith)
                requires trunc_div(a, b) == -((-a) / b);
        } else {
            lemma_floor_mul(-a, -b);
            assert(trunc_div(a, b) * b == -(((-a) / (-b)) * (-b))) by (nonlinear_arith)
                requires trunc_div(a, b) == (-a) / (-b);
        }
    }
}

impl Level {
    /// The intervals of the level as a map keyed by their starts.
    pub open spec fn view_level(&self) -> LevelView {
        LevelView { num: self.num, intervals: ivs_view(self.intervals@), sep: self.sep }
    }

    /// The intervals form a map keyed by their starts, each well formed.
    pub open spec fn wf(&self) -> bool {
        sorted_starts(ivs_view(self.intervals@)) && all_wf(self.intervals@)
    }

    /// A new level of instance `inst_id` for a node with value `val`: three
    /// intervals, from `i64::MIN` to `v - sep`, from `v - sep` to `v + sep`,
    /// and from `v + sep` to `i64::MAX`, where `v` is the checkpoint of the
    /// node's value (its multiple of `sep` toward zero). With a positive
    /// separation the node's value lies in the middle interval.
    pub fn new(sep: Val, num: Lev, val: Val, minth: usize, highth: usize, inst_id: usize) -> (l: Level)
        requires
            sep != 0,
            !(val == i64::MIN && sep == -1),
            i64::MIN <= checkpoint_of(sep, val) - sep <= i64::MAX,
            i64::MIN <= checkpoint_of(sep, val) + sep <= i64::MAX,
        ensures
            l.wf(),
            l.view_level() == (LevelView { num, intervals: delphi_level_intervals(sep, num, val, minth, highth), sep }),
            l.del_inst_id == inst_id,
            sep > 0 ==> checkpoint_of(sep, val) - sep <= val < checkpoint_of(sep, val) + sep,
            sep > 0 && checkpoint_of(sep, val) + sep < i64::MAX ==> partitioned(l.view_level().intervals),
    {
        let q = div_i64(val, sep);
        proof { lemma_checkpoint_bounds(val as int, sep as int); }
        let v = q * sep;
        assert(v == checkpoint_of(sep, val));
        let lo = v - sep;
        let hi = v + sep;
        proof {
            if sep > 0 && hi < i64::MAX {
                lemma_three_partition(lo, hi, num, minth, highth);
            }
        }
        Level { num, intervals: three_interval_vec(lo, hi, num, minth, highth), sep, del_inst_id: inst_id }
    }

    /// Whether every interval has terminated `round`.
    pub fn terminated_round(&self, round: Round) -> (b: bool)
        ensures
            b == all_terminated(ivs_view(self.intervals@), round),
    {
        intervals_terminated(&self.intervals, round)
    }

    /// Handles ECHO1 votes of `echo_sender` for ranges of checkpoints; returns
    /// the ECHO1 and ECHO2 votes that this node must send, compressed. The
    /// intervals remain a partition of the number line if they were one; then
    /// every old checkpoint stays, each range's ends become checkpoints, and
    /// no vote is recorded outside the ranges.
    pub fn add_echo(&mut self, interval_vals: Vec<Triple>, round: Round, echo_sender: Replica) -> (res: (Vec<Triple>, Vec<Triple>))
        requires
            old(self).wf(),
            ranges_ordered(interval_vals@),
        ensures
            final(self).wf(),
            final(self).num == old(self).num,
            final(self).sep == old(self).sep,
            final(self).del_inst_id == old(self).del_inst_id,
            (ivs_view(final(self).intervals@), res.0@, res.1@) == add_votes_spec(
                ivs_view(old(self).intervals@), interval_vals@, interval_vals@.len(), round, echo_sender, false),
            partitioned(ivs_view(old(self).intervals@)) ==> partitioned(ivs_view(final(self).intervals@)),
            partitioned(ivs_view(old(self).intervals@)) ==> refines(ivs_view(final(self).intervals@), ivs_view(old(self).intervals@), interval_vals@, interval_vals@.len() as int),
            partitioned(ivs_view(old(self).intervals@)) ==> forall|q: int| 0 <= q < interval_vals@.len() ==> {
                &&& (#[trigger] interval_vals@[q]).0 < i64::MAX ==> is_key(ivs_view(final(self).intervals@), interval_vals@[q].0)
                &&& interval_vals@[q].1 < i64::MAX ==> is_key(ivs_view(final(self).intervals@), interval_vals@[q].1)
            },
            good_list(res.0@, interval_vals@, interval_vals@.len() as int),
            good_list(res.1@, interval_vals@, interval_vals@.len() as int),
    {
        proof {
            if partitioned(ivs_view(self.intervals@)) {
                lemma_votes_keep_partition(ivs_view(self.intervals@), interval_vals@, round, echo_sender, false);
                lemma_votes_refine(ivs_view(self.intervals@), interval_vals@, round, echo_sender, false);
            }
            lemma_vote_lists_compressed(ivs_view(self.intervals@), interval_vals@, round, echo_sender, false);
        }
        let lev = self.num;
        add_votes(&mut self.intervals, &interval_vals, round, echo_sender, false, lev)
    }

    /// Handles ECHO2 votes of `echo_sender` for ranges of checkpoints. The
    /// intervals remain a partition of the number line if they were one, and
    /// are split exactly as ECHO1 votes for the same ranges would split them.
    pub fn add_echo2(&mut self, interval_vals: Vec<Triple>, round: Round, echo_sender: Replica)
        requires
            old(self).wf(),
            ranges_ordered(interval_vals@),
        ensures
            final(self).wf(),
            final(self).num == old(self).num,
            final(self).sep == old(self).sep,
            final(self).del_inst_id == old(self).del_inst_id,
            ivs_view(final(self).intervals@) == add_votes_spec(
                ivs_view(old(self).intervals@), interval_vals@, interval_vals@.len(), round, echo_sender, true).0,
            partitioned(ivs_view(old(self).intervals@)) ==> partitioned(ivs_view(final(self).intervals@)),
            partitioned(ivs_view(old(self).intervals@)) ==> refines(ivs_view(final(self).intervals@), ivs_view(old(self).intervals@), interval_vals@, interval_vals@.len() as int),
            partitioned(ivs_view(old(self).intervals@)) ==> forall|q: int| 0 <= q < interval_vals@.len() ==> {
                &&& (#[trigger] interval_vals@[q]).0 < i64::MAX ==> is_key(ivs_view(final(self).intervals@), interval_vals@[q].0)
                &&& interval_vals@[q].1 < i64::MAX ==> is_key(ivs_view(final(self).intervals@), interval_vals@[q].1)
            },
            bounds_eq(ivs_view(final(self).intervals@), add_votes_spec(ivs_view(old(self).intervals@), interval_vals@, interval_vals@.len(), round, echo_sender, false).0),
    {
        proof {
            if partitioned(ivs_view(self.intervals@)) {
                lemma_votes_keep_partition(ivs_view(self.intervals@), interval_vals@, round, echo_sender, true);
                lemma_votes_refine(ivs_view(self.intervals@), interval_vals@, round, echo_sender, true);
            }
            lemma_echo2_splits_as_echo1(ivs_view(self.intervals@), ivs_view(self.intervals@), interval_vals@, round, echo_sender, true, round, echo_sender, false);
        }
        let lev = self.num;
        let _ = add_votes(&mut self.intervals, &interval_vals, round, echo_sender, true, lev);
    }

    /// Merges the last two votes of a list when they are for the same value and
    /// the first ends where the second begins.
    pub fn compress(interval_vals: Vec<Triple>, lev: Lev) -> (r: Vec<Triple>)
        ensures
            r@ == compress_spec(interval_vals@),
    {
        compress_votes(interval_vals, lev)
    }

    /// Starts `round` on every interval; returns the ECHO1 votes to send.
    pub fn start_round(&mut self, round: Round, myid: Replica, val: Val, max_val: Val) -> (r: Vec<Triple>)
        requires
            old(self).wf(),
        ensures
            final(self).wf(),
            final(self).num == old(self).num,
            final(self).sep == old(self).sep,
            final(self).del_inst_id == old(self).del_inst_id,
            (ivs_view(final(self).intervals@), r@) == level_start_round_spec(ivs_view(old(self).intervals@), round, myid, val, max_val),
    {
        let lev = self.num;
        intervals_start_round(&mut self.intervals, round, myid, val, max_val, lev)
    }
}

} // verus!
