//! A level of checkpoints: the intervals that cover the number line from
//! `i64::MIN` to `i64::MAX`, each with its binary approximate agreement
//! instance. Votes arrive for ranges of checkpoints; a range that begins or
//! ends inside an interval splits it, so that every interval receives the
//! votes for all of its checkpoints alike.

use vstd::prelude::*;
use crate::types::{Replica, Val, Point, Lev, Round};
use crate::arith::{trunc_div, div_i64};
use crate::delphi_rbc::interval::{
    Interval, IntervalView, interval_add_echo_spec, interval_add_echo2_spec,
    interval_start_round_spec, round_terminated,
};
use crate::delphi_rbc::roundvals_bin::one_value_spec;
use crate::delphi_rbc::partition::{lemma_votes_keep_partition, bounds_eq};
use crate::delphi_rbc::refine::{refines, is_key, lemma_votes_refine};
use crate::delphi_rbc::compressed::{good_list, lemma_vote_lists_compressed};
use crate::delphi_rbc::shape::lemma_echo2_splits_as_echo1;
use crate::delphi_rbc::partition::lemma_new_level_partition;

verus! {

/// A vote for the checkpoints from the first point to the second, for a value.
pub type Triple = (Point, Point, Val);

/// The views of a sequence of intervals.
pub open spec fn ivs_view(v: Seq<Interval>) -> Seq<IntervalView> {
    v.map_values(|i: Interval| i@)
}

/// Every interval is well formed.
pub open spec fn all_wf(v: Seq<Interval>) -> bool {
    forall|i: int| 0 <= i < v.len() ==> (#[trigger] v[i]).wf()
}

/// The intervals are ordered by their starts, no two with the same start: the
/// shape of a map keyed by the start of each interval.
pub open spec fn sorted_starts(s: Seq<IntervalView>) -> bool {
    forall|i: int, j: int| 0 <= i < j < s.len() ==> s[i].start < s[j].start
}

/// Inserting an interval into a map keyed by starts: it replaces the interval
/// with the same start, or goes where its start belongs.
pub open spec fn map_insert(ivs: Seq<IntervalView>, iv: IntervalView) -> Seq<IntervalView>
    decreases ivs.len(),
{
    if ivs.len() == 0 {
        seq![iv]
    } else if ivs[0].start == iv.start {
        ivs.update(0, iv)
    } else if iv.start < ivs[0].start {
        seq![iv] + ivs
    } else {
        seq![ivs[0]] + map_insert(ivs.drop_first(), iv)
    }
}

/// Inserting the first `k` intervals of `nmap`, in order.
pub open spec fn merge_upto(ivs: Seq<IntervalView>, nmap: Seq<IntervalView>, k: nat) -> Seq<IntervalView>
    decreases k,
{
    if k == 0 || k > nmap.len() {
        ivs
    } else {
        map_insert(merge_upto(ivs, nmap, (k - 1) as nat), nmap[k - 1])
    }
}

/// Inserting all intervals of `nmap`, in order.
pub open spec fn merge_all(ivs: Seq<IntervalView>, nmap: Seq<IntervalView>) -> Seq<IntervalView> {
    merge_upto(ivs, nmap, nmap.len())
}

/// Merges the last two votes of a list into one when they are for the same
/// value and the first ends where the second begins.
pub open spec fn compress_spec(v: Seq<Triple>) -> Seq<Triple> {
    if v.len() > 1 {
        let last = v[v.len() - 1];
        let lb = v[v.len() - 2];
        if lb.2 == last.2 && lb.1 == last.0 {
            v.drop_last().update(v.len() - 2, (lb.0, last.1, lb.2))
        } else {
            v
        }
    } else {
        v
    }
}

/// Appends a vote to a list of votes to send, if there is one, and compresses.
pub open spec fn push_msg(v: Seq<Triple>, m: Option<Val>, a: Point, b: Point) -> Seq<Triple> {
    match m {
        Some(x) => compress_spec(v.push((a, b, x))),
        None => v,
    }
}

/// A vote of `sender` for `value` on the checkpoints from `start` to `end`,
/// in `round`; an ECHO2 where `echo2`, an ECHO1 otherwise.
pub struct Vote {
    pub start: Point,
    pub end: Point,
    pub value: Val,
    pub round: Round,
    pub sender: Replica,
    pub echo2: bool,
}

/// The effect of a vote on one interval, with the ECHO1 and ECHO2 to send.
pub open spec fn apply_vote_spec(iv: IntervalView, vote: Vote) -> (IntervalView, Option<Val>, Option<Val>) {
    if vote.echo2 {
        (interval_add_echo2_spec(iv, vote.round, vote.value, vote.sender).0, None, None)
    } else {
        interval_add_echo_spec(iv, vote.round, vote.value, vote.sender)
    }
}

/// The first pass of a vote: the interval that the vote's range begins
/// strictly inside is split at the range's start (and at its end, where the
/// end lies inside it too), and the piece inside the range receives the
/// vote. Returns the pieces keyed by start, and the votes to send.
pub open spec fn phase1_step(acc: (Seq<IntervalView>, Seq<Triple>, Seq<Triple>), iv: IntervalView, vote: Vote)
    -> (Seq<IntervalView>, Seq<Triple>, Seq<Triple>)
{
    let s = vote.start;
    let e = vote.end;
    if iv.start < s && iv.end > s {
        let int_s = IntervalView { end: s, ..iv };
        let int_e = IntervalView { start: s, ..iv };
        if iv.end > e {
            let sub_s = IntervalView { end: e, ..int_e };
            let sub_e = IntervalView { start: e, ..int_e };
            let r = apply_vote_spec(sub_s, vote);
            (map_insert(map_insert(map_insert(acc.0, int_s), r.0), sub_e), push_msg(acc.1, r.1, s, r.0.end), push_msg(acc.2, r.2, s, r.0.end))
        } else {
            let r = apply_vote_spec(int_e, vote);
            (map_insert(map_insert(acc.0, int_s), r.0), push_msg(acc.1, r.1, s, r.0.end), push_msg(acc.2, r.2, s, r.0.end))
        }
    } else {
        acc
    }
}

/// The first pass over the first `k` intervals.
pub open spec fn phase1(ivs: Seq<IntervalView>, k: nat, e1: Seq<Triple>, e2: Seq<Triple>, vote: Vote)
    -> (Seq<IntervalView>, Seq<Triple>, Seq<Triple>)
    decreases k,
{
    if k == 0 || k > ivs.len() {
        (Seq::empty(), e1, e2)
    } else {
        phase1_step(phase1(ivs, (k - 1) as nat, e1, e2, vote), ivs[k - 1], vote)
    }
}

/// The second pass of a vote at position `i`: an interval that starts in the
/// vote's range receives the vote, after a split at the range's end where it
/// reaches beyond it. Returns the intervals (changed in place), the split
/// pieces keyed by start, and the votes to send.
pub open spec fn phase2_step(
    acc: (Seq<IntervalView>, Seq<IntervalView>, Seq<Triple>, Seq<Triple>),
    i: int,
    vote: Vote,
) -> (Seq<IntervalView>, Seq<IntervalView>, Seq<Triple>, Seq<Triple>) {
    let iv = acc.0[i];
    if vote.start <= iv.start && iv.start < vote.end {
        if iv.end <= vote.end {
            let r = apply_vote_spec(iv, vote);
            (acc.0.update(i, r.0), acc.1, push_msg(acc.2, r.1, r.0.start, r.0.end), push_msg(acc.3, r.2, r.0.start, r.0.end))
        } else {
            let s_int = IntervalView { end: vote.end, ..iv };
            let l_int = IntervalView { start: vote.end, ..iv };
            let r = apply_vote_spec(s_int, vote);
            (acc.0, map_insert(map_insert(acc.1, r.0), l_int), push_msg(acc.2, r.1, r.0.start, r.0.end), push_msg(acc.3, r.2, r.0.start, r.0.end))
        }
    } else {
        acc
    }
}

/// The second pass over the first `k` positions.
pub open spec fn phase2(ivs: Seq<IntervalView>, k: nat, e1: Seq<Triple>, e2: Seq<Triple>, vote: Vote)
    -> (Seq<IntervalView>, Seq<IntervalView>, Seq<Triple>, Seq<Triple>)
    decreases k,
{
    if k == 0 || k > ivs.len() {
        (ivs, Seq::empty(), e1, e2)
    } else {
        phase2_step(phase2(ivs, (k - 1) as nat, e1, e2, vote), k - 1, vote)
    }
}

/// The effect of one vote on the intervals of a level, with the votes to send.
pub open spec fn one_vote_spec(ivs: Seq<IntervalView>, e1: Seq<Triple>, e2: Seq<Triple>, vote: Vote)
    -> (Seq<IntervalView>, Seq<Triple>, Seq<Triple>)
{
    let p1 = phase1(ivs, ivs.len(), e1, e2, vote);
    let ivs1 = merge_all(ivs, p1.0);
    let p2 = phase2(ivs1, ivs1.len(), p1.1, p1.2, vote);
    (merge_all(p2.0, p2.1), p2.2, p2.3)
}

/// The vote of the `k`-th range of `vals`.
pub open spec fn vote_at(vals: Seq<Triple>, k: int, round: Round, sender: Replica, echo2: bool) -> Vote {
    Vote { start: vals[k].0, end: vals[k].1, value: vals[k].2, round, sender, echo2 }
}

/// The effect of the votes for the first `k` ranges of `vals`.
pub open spec fn add_votes_spec(ivs: Seq<IntervalView>, vals: Seq<Triple>, k: nat, round: Round, sender: Replica, echo2: bool)
    -> (Seq<IntervalView>, Seq<Triple>, Seq<Triple>)
    decreases k,
{
    if k == 0 || k > vals.len() {
        (ivs, Seq::empty(), Seq::empty())
    } else {
        let prev = add_votes_spec(ivs, vals, (k - 1) as nat, round, sender, echo2);
        one_vote_spec(prev.0, prev.1, prev.2, vote_at(vals, k - 1, round, sender, echo2))
    }
}

/// The ranges are well formed: none begins after it ends.
pub open spec fn ranges_ordered(vals: Seq<Triple>) -> bool {
    forall|k: int| 0 <= k < vals.len() ==> (#[trigger] vals[k]).0 <= vals[k].1
}

/// Where the insertion of `iv` goes: the intervals before `p` start before it,
/// the one at `p` (if any) starts at or after it.
pub open spec fn insert_position(ivs: Seq<IntervalView>, start: Point, p: int) -> bool {
    &&& 0 <= p <= ivs.len()
    &&& forall|j: int| 0 <= j < p ==> ivs[j].start < start
    &&& p < ivs.len() ==> ivs[p].start >= start
}

pub proof fn lemma_map_insert_at(ivs: Seq<IntervalView>, iv: IntervalView, p: int)
    requires
        sorted_starts(ivs),
        insert_position(ivs, iv.start, p),
    ensures
        map_insert(ivs, iv) == (if p < ivs.len() && ivs[p].start == iv.start {
            ivs.update(p, iv)
        } else {
            ivs.insert(p, iv)
        }),
        sorted_starts(map_insert(ivs, iv)),
    decreases ivs.len(),
{
    if ivs.len() == 0 {
        assert(seq![iv] =~= ivs.insert(p, iv));
    } else if p == 0 {
        if ivs[0].start == iv.start {
        } else {
            assert(seq![iv] + ivs =~= ivs.insert(0, iv));
        }
    } else {
        let rest = ivs.drop_first();
        assert(sorted_starts(rest));
        assert(insert_position(rest, iv.start, p - 1));
        lemma_map_insert_at(rest, iv, p - 1);
        if p < ivs.len() && ivs[p].start == iv.start {
            assert(seq![ivs[0]] + rest.update(p - 1, iv) =~= ivs.update(p, iv));
        } else {
            assert(seq![ivs[0]] + rest.insert(p - 1, iv) =~= ivs.insert(p, iv));
        }
    }
    let r = map_insert(ivs, iv);
    if p < ivs.len() && ivs[p].start == iv.start {
        assert(sorted_starts(r));
    } else {
        assert forall|i: int, j: int| 0 <= i < j < r.len() implies r[i].start < r[j].start by {
            if j < p {
            } else if j == p {
            } else if i < p {
            } else if i == p {
            } else {
            }
        }
    }
}

/// Inserts an interval into a vector kept as a map keyed by starts.
fn insert_interval(v: &mut Vec<Interval>, iv: Interval)
    requires
        sorted_starts(ivs_view(old(v)@)),
        all_wf(old(v)@),
        iv.wf(),
    ensures
        ivs_view(final(v)@) == map_insert(ivs_view(old(v)@), iv@),
        sorted_starts(ivs_view(final(v)@)),
        all_wf(final(v)@),
{
    let ghost old_v = ivs_view(v@);
    let mut p: usize = 0;
    while p < v.len() && v[p].start < iv.start
        invariant
            p <= v@.len(),
            old_v == ivs_view(v@),
            forall|j: int| 0 <= j < p ==> old_v[j].start < iv.start,
        decreases v@.len() - p,
    {
        p = p + 1;
    }
    proof {
        lemma_map_insert_at(old_v, iv@, p as int);
    }
    if p < v.len() && v[p].start == iv.start {
        let _ = v.remove(p);
        v.insert(p, iv);
        assert(ivs_view(v@) =~= old_v.update(p as int, iv@));
    } else {
        v.insert(p, iv);
        assert(ivs_view(v@) =~= old_v.insert(p as int, iv@));
    }
}

/// Inserts the intervals of `nmap` in order.
fn merge_intervals(v: &mut Vec<Interval>, nmap: Vec<Interval>)
    requires
        sorted_starts(ivs_view(old(v)@)),
        all_wf(old(v)@),
        all_wf(nmap@),
    ensures
        ivs_view(final(v)@) == merge_all(ivs_view(old(v)@), ivs_view(nmap@)),
        sorted_starts(ivs_view(final(v)@)),
        all_wf(final(v)@),
{
    let ghost old_v = ivs_view(v@);
    let ghost orig = ivs_view(nmap@);
    let mut rest = nmap;
    let ghost mut i: int = 0;
    while rest.len() > 0
        invariant
            i <= orig.len(),
            0 <= i,
            ivs_view(rest@) == orig.skip(i),
            all_wf(rest@),
            ivs_view(v@) == merge_upto(old_v, orig, i as nat),
            sorted_starts(ivs_view(v@)),
            all_wf(v@),
        decreases rest@.len(),
    {
        let ghost before = rest@;
        assert(ivs_view(before).len() == before.len());
        assert(i < orig.len());
        assert(ivs_view(before)[0] == orig[i]);
        let iv = rest.remove(0);
        assert(ivs_view(rest@) =~= orig.skip(i + 1)) by {
            assert forall|k: int| 0 <= k < rest@.len() implies ivs_view(rest@)[k] == orig.skip(i + 1)[k] by {
                assert(rest@[k] == before[k + 1]);
                assert(ivs_view(before)[k + 1] == orig.skip(i)[k + 1]);
            }
        }
        assert(iv@ == orig[i]);
        insert_interval(v, iv);
        proof { i = i + 1; }
    }
    assert(i == orig.len());
}

/// Applies a vote to one interval.
fn apply_vote(iv: &mut Interval, vote: Ghost<Vote>, round: Round, value: Val, sender: Replica, echo2: bool) -> (res: (Option<Val>, Option<Val>))
    requires
        old(iv).wf(),
        vote@.round == round,
        vote@.value == value,
        vote@.sender == sender,
        vote@.echo2 == echo2,
    ensures
        final(iv).wf(),
        (final(iv)@, res.0, res.1) == apply_vote_spec(old(iv)@, vote@),
{
    if echo2 {
        let _ = iv.add_echo2(round, value, sender);
        (None, None)
    } else {
        iv.add_echo(round, value, sender)
    }
}

/// Appends a vote to send, if there is one, and compresses the list.
fn push_msg_exec(v: Vec<Triple>, m: Option<Val>, a: Point, b: Point, lev: Lev) -> (r: Vec<Triple>)
    ensures
        r@ == push_msg(v@, m, a, b),
{
    match m {
        Some(x) => {
            let mut v = v;
            v.push((a, b, x));
            compress_votes(v, lev)
        },
        None => v,
    }
}

/// Merges the last two votes of the list when they are for the same value and
/// adjacent.
pub(crate) fn compress_votes(interval_vals: Vec<Triple>, lev: Lev) -> (r: Vec<Triple>)
    ensures
        r@ == compress_spec(interval_vals@),
{
    let mut interval_vals = interval_vals;
    if interval_vals.len() > 1 {
        let num = interval_vals.len();
        let last_val = interval_vals[num - 1];
        let last_but_one = interval_vals[num - 2];
        if last_but_one.2 == last_val.2 && last_but_one.1 == last_val.0 {
            let ghost before = interval_vals@;
            interval_vals.set(num - 2, (last_but_one.0, last_val.1, last_but_one.2));
            let _ = interval_vals.pop();
            assert(interval_vals@ =~= before.drop_last().update(before.len() - 2, (last_but_one.0, last_val.1, last_but_one.2)));
        }
        interval_vals
    } else {
        interval_vals
    }
}

/// Applies one vote for the range from `start` to `end` to the intervals.
fn one_vote(
    ivs: &mut Vec<Interval>,
    e1: Vec<Triple>,
    e2: Vec<Triple>,
    start: Point,
    end: Point,
    value: Val,
    round: Round,
    sender: Replica,
    echo2: bool,
    lev: Lev,
) -> (res: (Vec<Triple>, Vec<Triple>))
    requires
        sorted_starts(ivs_view(old(ivs)@)),
        all_wf(old(ivs)@),
        start <= end,
    ensures
        sorted_starts(ivs_view(final(ivs)@)),
        all_wf(final(ivs)@),
        (ivs_view(final(ivs)@), res.0@, res.1@) == one_vote_spec(
            ivs_view(old(ivs)@), e1@, e2@,
            Vote { start, end, value, round, sender, echo2 }),
{
    let ghost vote = Vote { start, end, value, round, sender, echo2 };
    let ghost ivs0 = ivs_view(ivs@);
    let ghost e10 = e1@;
    let ghost e20 = e2@;
    let mut e1 = e1;
    let mut e2 = e2;
    // First pass: split the interval that the range begins inside.
    let mut nmap: Vec<Interval> = Vec::new();
    let n = ivs.len();
    let mut i: usize = 0;
    while i < n
        invariant
            vote == (Vote { start, end, value, round, sender, echo2 }),
            n == ivs@.len(),
            ivs0 == ivs_view(ivs@),
            all_wf(ivs@),
            sorted_starts(ivs0),
            i <= n,
            sorted_starts(ivs_view(nmap@)),
            all_wf(nmap@),
            (ivs_view(nmap@), e1@, e2@) == phase1(ivs0, i as nat, e10, e20, vote),
        decreases n - i,
    {
        let interval = &ivs[i];
        assert(interval@ == ivs0[i as int]);
        if interval.start < start && interval.end > start {
            let (int_s, int_e) = interval.split(start);
            if interval.end > end {
                let (mut sub_s, sub_e) = int_e.split(end);
                let (echo1, echo2m) = apply_vote(&mut sub_s, Ghost(vote), round, value, sender, echo2);
                let se = sub_s.end;
                e1 = push_msg_exec(e1, echo1, start, se, lev);
                e2 = push_msg_exec(e2, echo2m, start, se, lev);
                insert_interval(&mut nmap, int_s);
                insert_interval(&mut nmap, sub_s);
                insert_interval(&mut nmap, sub_e);
            } else {
                let mut int_e = int_e;
                let (echo1, echo2m) = apply_vote(&mut int_e, Ghost(vote), round, value, sender, echo2);
                let ee = int_e.end;
                e1 = push_msg_exec(e1, echo1, start, ee, lev);
                e2 = push_msg_exec(e2, echo2m, start, ee, lev);
                insert_interval(&mut nmap, int_s);
                insert_interval(&mut nmap, int_e);
            }
        }
        i = i + 1;
    }
    merge_intervals(ivs, nmap);
    // Second pass: every interval that starts in the range receives the vote.
    let ghost ivs1 = ivs_view(ivs@);
    let ghost e11 = e1@;
    let ghost e21 = e2@;
    let mut nmap2: Vec<Interval> = Vec::new();
    let n2 = ivs.len();
    let mut i: usize = 0;
    while i < n2
        invariant
            vote == (Vote { start, end, value, round, sender, echo2 }),
            n2 == ivs@.len(),
            n2 == ivs1.len(),
            all_wf(ivs@),
            sorted_starts(ivs_view(ivs@)),
            forall|k: int| 0 <= k < n2 ==> (#[trigger] ivs_view(ivs@)[k]).start == ivs1[k].start && ivs_view(ivs@)[k].end == ivs1[k].end,
            i <= n2,
            sorted_starts(ivs_view(nmap2@)),
            all_wf(nmap2@),
            (ivs_view(ivs@), ivs_view(nmap2@), e1@, e2@) == phase2(ivs1, i as nat, e11, e21, vote),
        decreases n2 - i,
    {
        let st = ivs[i].start;
        let en = ivs[i].end;
        if st >= start && st < end {
            if en <= end {
                let ghost before = ivs_view(ivs@);
                let mut iv = ivs.remove(i);
                let (echo1, echo2m) = apply_vote(&mut iv, Ghost(vote), round, value, sender, echo2);
                let (a, b) = (iv.start, iv.end);
                e1 = push_msg_exec(e1, echo1, a, b, lev);
                e2 = push_msg_exec(e2, echo2m, a, b, lev);
                let ghost ivv = iv@;
                ivs.insert(i, iv);
                assert(ivs_view(ivs@) =~= before.update(i as int, ivv));
                assert(ivv.start == before[i as int].start && ivv.end == before[i as int].end);
                assert forall|k: int| 0 <= k < n2 implies (#[trigger] ivs_view(ivs@)[k]).start == ivs1[k].start && ivs_view(ivs@)[k].end == ivs1[k].end by {
                    if k != i {
                        assert(ivs_view(ivs@)[k] == before[k]);
                    }
                }
                assert(sorted_starts(ivs_view(ivs@))) by {
                    assert forall|x: int, y: int| 0 <= x < y < ivs_view(ivs@).len() implies ivs_view(ivs@)[x].start < ivs_view(ivs@)[y].start by {
                        assert(ivs_view(ivs@)[x].start == before[x].start);
                        assert(ivs_view(ivs@)[y].start == before[y].start);
                    }
                }
            } else {
                let (mut s_int, l_int) = ivs[i].split(end);
                let (echo1, echo2m) = apply_vote(&mut s_int, Ghost(vote), round, value, sender, echo2);
                let (a, b) = (s_int.start, s_int.end);
                e1 = push_msg_exec(e1, echo1, a, b, lev);
                e2 = push_msg_exec(e2, echo2m, a, b, lev);
                insert_interval(&mut nmap2, s_int);
                insert_interval(&mut nmap2, l_int);
            }
        }
        i = i + 1;
    }
    merge_intervals(ivs, nmap2);
    (e1, e2)
}

/// Applies the votes for all ranges of `vals`, in order.
pub fn add_votes(
    ivs: &mut Vec<Interval>,
    interval_vals: &Vec<Triple>,
    round: Round,
    sender: Replica,
    echo2: bool,
    lev: Lev,
) -> (res: (Vec<Triple>, Vec<Triple>))
    requires
        sorted_starts(ivs_view(old(ivs)@)),
        all_wf(old(ivs)@),
        ranges_ordered(interval_vals@),
    ensures
        sorted_starts(ivs_view(final(ivs)@)),
        all_wf(final(ivs)@),
        (ivs_view(final(ivs)@), res.0@, res.1@) == add_votes_spec(
            ivs_view(old(ivs)@), interval_vals@, interval_vals@.len(), round, sender, echo2),
{
    let ghost ivs0 = ivs_view(ivs@);
    let mut e1: Vec<Triple> = Vec::new();
    let mut e2: Vec<Triple> = Vec::new();
    let mut k: usize = 0;
    while k < interval_vals.len()
        invariant
            k <= interval_vals@.len(),
            ranges_ordered(interval_vals@),
            sorted_starts(ivs_view(ivs@)),
            all_wf(ivs@),
            (ivs_view(ivs@), e1@, e2@) == add_votes_spec(ivs0, interval_vals@, k as nat, round, sender, echo2),
        decreases interval_vals@.len() - k,
    {
        let (start, end, value) = interval_vals[k];
        assert(interval_vals@[k as int].0 <= interval_vals@[k as int].1);
        let r = one_vote(ivs, e1, e2, start, end, value, round, sender, echo2, lev);
        e1 = r.0;
        e2 = r.1;
        k = k + 1;
    }
    (e1, e2)
}

/// A level of checkpoints spaced by `sep`.
pub struct Level {
    pub num: Lev,
    pub intervals: Vec<Interval>,
    pub sep: Val,
}

/// The mathematical content of a [`Level`].
pub struct LevelView {
    pub num: Lev,
    pub intervals: Seq<IntervalView>,
    pub sep: Val,
}

impl View for Level {
    type V = LevelView;

    open spec fn view(&self) -> LevelView {
        LevelView { num: self.num, intervals: ivs_view(self.intervals@), sep: self.sep }
    }
}

/// A new instance for the checkpoints from `start` to `end`.
pub open spec fn fresh_interval(start: Point, end: Point, lev: Lev, minth: usize, highth: usize) -> IntervalView {
    IntervalView { state: Map::empty(), start, end, level: lev, minthreshold: minth, highthreshold: highth }
}

/// The first checkpoint of the middle interval of a new level: the multiple
/// of `sep` one below the node's value's (rounded toward zero).
pub open spec fn level_low(sep: Val, val: Val) -> int {
    (trunc_div(val as int, sep as int) - 1) * sep
}

/// The last checkpoint of the middle interval of a new level.
pub open spec fn level_high(sep: Val, val: Val) -> int {
    (trunc_div(val as int, sep as int) + 2) * sep
}

/// Three fresh intervals: from `i64::MIN` to `lo`, from `lo` to `hi`, and from
/// `hi` to `i64::MAX`, inserted in that order into a map keyed by their starts.
pub open spec fn three_intervals(lo: Point, hi: Point, num: Lev, minth: usize, highth: usize) -> Seq<IntervalView> {
    map_insert(
        map_insert(map_insert(Seq::empty(), fresh_interval(i64::MIN, lo, num, minth, highth)),
            fresh_interval(lo, hi, num, minth, highth)),
        fresh_interval(hi, i64::MAX, num, minth, highth))
}

/// The intervals of a new level: from `i64::MIN` to the low checkpoint, from
/// there to the high checkpoint, and from there to `i64::MAX`.
pub open spec fn new_level_intervals(sep: Val, num: Lev, val: Val, minth: usize, highth: usize) -> Seq<IntervalView> {
    three_intervals(level_low(sep, val) as Point, level_high(sep, val) as Point, num, minth, highth)
}

/// Every interval has terminated `round`.
pub open spec fn all_terminated(ivs: Seq<IntervalView>, round: Round) -> bool {
    forall|i: int| 0 <= i < ivs.len() ==> round_terminated(#[trigger] ivs[i], round)
}

/// Starting `round` on the first `k` intervals: each starts the round and its
/// ECHO1 joins the list, compressed.
pub open spec fn start_round_upto(ivs: Seq<IntervalView>, k: nat, round: Round, myid: Replica, val: Val, max_val: Val)
    -> (Seq<IntervalView>, Seq<Triple>)
    decreases k,
{
    if k == 0 || k > ivs.len() {
        (ivs, Seq::empty())
    } else {
        let prev = start_round_upto(ivs, (k - 1) as nat, round, myid, val, max_val);
        let r = interval_start_round_spec(prev.0[k - 1], round, myid, val, max_val);
        (prev.0.update(k - 1, r.0), compress_spec(prev.1.push(r.1)))
    }
}

/// The effect of starting `round` on a level, with the ECHO1 votes to send: a
/// round whose predecessor has not terminated everywhere is not started.
pub open spec fn level_start_round_spec(ivs: Seq<IntervalView>, round: Round, myid: Replica, val: Val, max_val: Val)
    -> (Seq<IntervalView>, Seq<Triple>)
{
    if (round > 0 && all_terminated(ivs, (round - 1) as Round)) || round == 0 {
        start_round_upto(ivs, ivs.len(), round, myid, val, max_val)
    } else {
        (ivs, Seq::empty())
    }
}

/// Whether the level may stop early in `round`: it still has its three first
/// intervals, the outer two terminated with `0` and the middle one with
/// `max_value`, each having echoed one value only.
pub open spec fn early_terminate_spec(ivs: Seq<IntervalView>, round: Round, max_value: Val) -> bool {
    &&& ivs.len() == 3
    &&& forall|i: int| 0 <= i < 3 ==> {
        &&& round_terminated(#[trigger] ivs[i], round)
        &&& ivs[i].state[round].term_val->0 == (if i == 1 { max_value } else { 0 })
        &&& one_value_spec(ivs[i].state[round])
    }
}

/// The intervals cover the number line from `i64::MIN` to `i64::MAX` without
/// gaps or overlaps, none of them empty.
pub open spec fn partitioned(ivs: Seq<IntervalView>) -> bool {
    &&& ivs.len() >= 1
    &&& ivs[0].start == i64::MIN
    &&& ivs[ivs.len() - 1].end == i64::MAX
    &&& forall|i: int| 0 <= i < ivs.len() ==> (#[trigger] ivs[i]).start < ivs[i].end
    &&& forall|i: int| 0 <= i < ivs.len() - 1 ==> (#[trigger] ivs[i]).end == ivs[i + 1].start
}

/// The intervals of a new level for a node with value `val`.
pub fn new_level_vec(sep: Val, num: Lev, val: Val, minth: usize, highth: usize) -> (v: Vec<Interval>)
    requires
        sep != 0,
        !(val == i64::MIN && sep == -1),
        i64::MIN <= trunc_div(val as int, sep as int) - 1,
        trunc_div(val as int, sep as int) + 2 <= i64::MAX,
        i64::MIN <= level_low(sep, val) <= i64::MAX,
        i64::MIN <= level_high(sep, val) <= i64::MAX,
    ensures
        sorted_starts(ivs_view(v@)),
        all_wf(v@),
        ivs_view(v@) == new_level_intervals(sep, num, val, minth, highth),
{
    let q = div_i64(val, sep);
    let interval_start = (q - 1) * sep;
    let interval_end = (q + 2) * sep;
    three_interval_vec(interval_start, interval_end, num, minth, highth)
}

/// Three fresh intervals split at `lo` and `hi`, keyed by their starts.
pub fn three_interval_vec(lo: Point, hi: Point, num: Lev, minth: usize, highth: usize) -> (v: Vec<Interval>)
    ensures
        sorted_starts(ivs_view(v@)),
        all_wf(v@),
        ivs_view(v@) == three_intervals(lo, hi, num, minth, highth),
{
    let int_s = Interval::new(i64::MIN, lo, num, minth, highth);
    let int_2s = Interval::new(lo, hi, num, minth, highth);
    let int_3s = Interval::new(hi, i64::MAX, num, minth, highth);
    let mut intervals: Vec<Interval> = Vec::new();
    assert(ivs_view(intervals@) =~= Seq::<IntervalView>::empty());
    insert_interval(&mut intervals, int_s);
    insert_interval(&mut intervals, int_2s);
    insert_interval(&mut intervals, int_3s);
    intervals
}

/// Whether every interval has terminated `round`.
pub fn intervals_terminated(ivs: &Vec<Interval>, round: Round) -> (b: bool)
    ensures
        b == all_terminated(ivs_view(ivs@), round),
{
    let mut terminated = true;
    let mut i: usize = 0;
    while i < ivs.len()
        invariant
            i <= ivs@.len(),
            terminated == all_terminated(ivs_view(ivs@).take(i as int), round),
        decreases ivs@.len() - i,
    {
        let t = ivs[i].round_terminate(round);
        proof {
            let a = ivs_view(ivs@).take(i as int);
            let b = ivs_view(ivs@).take(i + 1);
            assert(b =~= a.push(ivs_view(ivs@)[i as int]));
            if terminated && t {
                assert forall|j: int| 0 <= j < b.len() implies round_terminated(#[trigger] b[j], round) by {
                    if j < i { assert(b[j] == a[j]); }
                }
            }
            if !t { assert(!round_terminated(b[i as int], round)); }
            if !terminated {
                let j = choose|j: int| 0 <= j < a.len() && !round_terminated(#[trigger] a[j], round);
                assert(b[j] == a[j]);
            }
        }
        terminated = terminated && t;
        i = i + 1;
    }
    assert(ivs_view(ivs@).take(i as int) =~= ivs_view(ivs@));
    terminated
}

/// Starts `round` on every interval; returns the ECHO1 votes to send.
pub fn intervals_start_round(ivs: &mut Vec<Interval>, round: Round, myid: Replica, val: Val, max_val: Val, lev: Lev) -> (r: Vec<Triple>)
    requires
        sorted_starts(ivs_view(old(ivs)@)),
        all_wf(old(ivs)@),
    ensures
        sorted_starts(ivs_view(final(ivs)@)),
        all_wf(final(ivs)@),
        (ivs_view(final(ivs)@), r@) == level_start_round_spec(ivs_view(old(ivs)@), round, myid, val, max_val),
{
    let mut echo_vec: Vec<Triple> = Vec::new();
    let go = if round > 0 { intervals_terminated(ivs, round - 1) } else { false };
    if go || round == 0 {
        let ghost ivs0 = ivs_view(ivs@);
        let n = ivs.len();
        let mut i: usize = 0;
        while i < n
            invariant
                n == ivs@.len(),
                n == ivs0.len(),
                i <= n,
                all_wf(ivs@),
                forall|k: int| 0 <= k < n ==> (#[trigger] ivs_view(ivs@)[k]).start == ivs0[k].start,
                (ivs_view(ivs@), echo_vec@) == start_round_upto(ivs0, i as nat, round, myid, val, max_val),
            decreases n - i,
        {
            let ghost before = ivs_view(ivs@);
            let mut iv = ivs.remove(i);
            let t = iv.start_round(round, myid, val, max_val);
            let ghost ivv = iv@;
            ivs.insert(i, iv);
            assert(ivs_view(ivs@) =~= before.update(i as int, ivv));
            assert(ivv.start == before[i as int].start);
            assert(before[i as int].start == ivs0[i as int].start);
            echo_vec.push(t);
            echo_vec = compress_votes(echo_vec, lev);
            assert forall|k: int| 0 <= k < n implies (#[trigger] ivs_view(ivs@)[k]).start == ivs0[k].start by {
                if k != i { assert(ivs_view(ivs@)[k] == before[k]); }
            }
            i = i + 1;
        }
        assert(sorted_starts(ivs_view(ivs@))) by {
            assert forall|x: int, y: int| 0 <= x < y < n implies ivs_view(ivs@)[x].start < ivs_view(ivs@)[y].start by {
                assert(ivs_view(ivs@)[x].start == ivs0[x].start);
                assert(ivs_view(ivs@)[y].start == ivs0[y].start);
            }
        }
        echo_vec
    } else {
        echo_vec
    }
}

/// Whether the level may stop early in `round`.
pub fn intervals_early_terminate(ivs: &Vec<Interval>, round: Round, max_value: Val) -> (b: bool)
    ensures
        b == early_terminate_spec(ivs_view(ivs@), round, max_value),
{
    if ivs.len() == 3 {
        let mut index: usize = 0;
        let mut condition = true;
        while index < 3
            invariant
                ivs_view(ivs@).len() == 3,
                index <= 3,
                condition == forall|i: int| 0 <= i < index ==> {
                    &&& round_terminated(#[trigger] ivs_view(ivs@)[i], round)
                    &&& ivs_view(ivs@)[i].state[round].term_val->0 == (if i == 1 { max_value } else { 0 })
                    &&& one_value_spec(ivs_view(ivs@)[i].state[round])
                },
            decreases 3 - index,
        {
            let interval = &ivs[index];
            let expected: Val = if index == 1 { max_value } else { 0 };
            let c = condition && interval.round_terminate(round) && interval.term_value(round) == expected
                && interval.one_value_termination(round);
            proof {
                if condition && !c {
                    assert(!({
                        &&& round_terminated(ivs_view(ivs@)[index as int], round)
                        &&& ivs_view(ivs@)[index as int].state[round].term_val->0 == (if index == 1 { max_value } else { 0 })
                        &&& one_value_spec(ivs_view(ivs@)[index as int].state[round])
                    }));
                }
            }
            condition = c;
            index = index + 1;
        }
        condition
    } else {
        false
    }
}

impl Level {
    /// The intervals form a map keyed by their starts, each well formed.
    pub open spec fn wf(&self) -> bool {
        sorted_starts(ivs_view(self.intervals@)) && all_wf(self.intervals@)
    }

    /// A new level for a node with value `val`: three intervals, the middle
    /// one around the node's value.
    pub fn new(sep: Val, num: Lev, val: Val, minth: usize, highth: usize) -> (l: Level)
        requires
            sep != 0,
            !(val == i64::MIN && sep == -1),
            i64::MIN <= trunc_div(val as int, sep as int) - 1,
            trunc_div(val as int, sep as int) + 2 <= i64::MAX,
            i64::MIN <= level_low(sep, val) <= i64::MAX,
            i64::MIN <= level_high(sep, val) <= i64::MAX,
        ensures
            l.wf(),
            sep > 0 && level_high(sep, val) < i64::MAX ==> partitioned(l@.intervals),
            l@ == (LevelView { num, intervals: new_level_intervals(sep, num, val, minth, highth), sep }),
    {
        proof {
            if sep > 0 && level_high(sep, val) < i64::MAX {
                lemma_new_level_partition(sep, num, val, minth, highth);
            }
        }
        Level { num, intervals: new_level_vec(sep, num, val, minth, highth), sep }
    }

    /// Whether every interval has terminated `round`.
    pub fn terminated_round(&self, round: Round) -> (b: bool)
        ensures
            b == all_terminated(self@.intervals, round),
    {
        intervals_terminated(&self.intervals, round)
    }

    /// Handles ECHO1 votes of `echo_sender` for ranges of checkpoints; returns
    /// the ECHO1 and ECHO2 votes that this node must send, fully compressed and
    /// within the voted ranges. On a partition, every old checkpoint stays,
    /// each range's ends become checkpoints, and no vote is recorded outside
    /// the ranges.
    pub fn add_echo(&mut self, interval_vals: Vec<Triple>, round: Round, echo_sender: Replica) -> (res: (Vec<Triple>, Vec<Triple>))
        requires
            old(self).wf(),
            ranges_ordered(interval_vals@),
        ensures
            final(self).wf(),
            final(self).num == old(self).num,
            final(self).sep == old(self).sep,
            (final(self)@.intervals, res.0@, res.1@) == add_votes_spec(
                old(self)@.intervals, interval_vals@, interval_vals@.len(), round, echo_sender, false),
            partitioned(old(self)@.intervals) ==> partitioned(final(self)@.intervals),
            partitioned(old(self)@.intervals) ==> refines(final(self)@.intervals, old(self)@.intervals, interval_vals@, interval_vals@.len() as int),
            partitioned(old(self)@.intervals) ==> forall|q: int| 0 <= q < interval_vals@.len() ==> {
                &&& (#[trigger] interval_vals@[q]).0 < i64::MAX ==> is_key(final(self)@.intervals, interval_vals@[q].0)
                &&& interval_vals@[q].1 < i64::MAX ==> is_key(final(self)@.intervals, interval_vals@[q].1)
            },
            good_list(res.0@, interval_vals@, interval_vals@.len() as int),
            good_list(res.1@, interval_vals@, interval_vals@.len() as int),
    {
        proof {
            if partitioned(self@.intervals) {
                lemma_votes_keep_partition(self@.intervals, interval_vals@, round, echo_sender, false);
                lemma_votes_refine(self@.intervals, interval_vals@, round, echo_sender, false);
            }
            lemma_vote_lists_compressed(self@.intervals, interval_vals@, round, echo_sender, false);
        }
        let lev = self.num;
        add_votes(&mut self.intervals, &interval_vals, round, echo_sender, false, lev)
    }

    /// Handles ECHO2 votes of `echo_sender` for ranges of checkpoints. They
    /// split the checkpoints exactly as ECHO1 votes for the same ranges would.
    pub fn add_echo2(&mut self, interval_vals: Vec<Triple>, round: Round, echo_sender: Replica)
        requires
            old(self).wf(),
            ranges_ordered(interval_vals@),
        ensures
            final(self).wf(),
            final(self).num == old(self).num,
            final(self).sep == old(self).sep,
            final(self)@.intervals == add_votes_spec(
                old(self)@.intervals, interval_vals@, interval_vals@.len(), round, echo_sender, true).0,
            partitioned(old(self)@.intervals) ==> partitioned(final(self)@.intervals),
            partitioned(old(self)@.intervals) ==> refines(final(self)@.intervals, old(self)@.intervals, interval_vals@, interval_vals@.len() as int),
            partitioned(old(self)@.intervals) ==> forall|q: int| 0 <= q < interval_vals@.len() ==> {
                &&& (#[trigger] interval_vals@[q]).0 < i64::MAX ==> is_key(final(self)@.intervals, interval_vals@[q].0)
                &&& interval_vals@[q].1 < i64::MAX ==> is_key(final(self)@.intervals, interval_vals@[q].1)
            },
            bounds_eq(final(self)@.intervals, add_votes_spec(
                old(self)@.intervals, interval_vals@, interval_vals@.len(), round, echo_sender, false).0),
    {
        proof {
            if partitioned(self@.intervals) {
                lemma_votes_keep_partition(self@.intervals, interval_vals@, round, echo_sender, true);
                lemma_votes_refine(self@.intervals, interval_vals@, round, echo_sender, true);
            }
            lemma_echo2_splits_as_echo1(self@.intervals, self@.intervals, interval_vals@, round, echo_sender, true, round, echo_sender, false);
        }
        let lev = self.num;
        let _ = add_votes(&mut self.intervals, &interval_vals, round, echo_sender, true, lev);
    }

    /// Merges the last two votes of a list when they are for the same value and
    /// the first ends where the second begins.
    pub fn compress(interval_vals: Vec<Triple>, lev: Lev) -> (r: Vec<Triple>)
        ensures
            r@ == compress_spec(interval_vals@),
    {
        compress_votes(interval_vals, lev)
    }

    /// Starts `round` on every interval; returns the ECHO1 votes to send.
    pub fn start_round(&mut self, round: Round, myid: Replica, val: Val, max_val: Val) -> (r: Vec<Triple>)
        requires
            old(self).wf(),
        ensures
            final(self).wf(),
            final(self).num == old(self).num,
            final(self).sep == old(self).sep,
            (final(self)@.intervals, r@) == level_start_round_spec(old(self)@.intervals, round, myid, val, max_val),
    {
        let lev = self.num;
        intervals_start_round(&mut self.intervals, round, myid, val, max_val, lev)
    }

    /// Whether the level may stop early in `round`.
    pub fn early_terminate(&self, round: Round, max_value: Val) -> (b: bool)
        ensures
            b == early_terminate_spec(self@.intervals, round, max_value),
    {
        intervals_early_terminate(&self.intervals, round, max_value)
    }
}

} // verus!
