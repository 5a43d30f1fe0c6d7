//! The intervals of a level always cover the number line from `i64::MIN` to
//! `i64::MAX` without gaps or overlaps: a new level does, and every vote for a
//! well-formed range of checkpoints keeps it so.

use vstd::prelude::*;
use crate::types::{Replica, Val, Point, Lev, Round};
use crate::delphi_rbc::interval::IntervalView;
use crate::delphi_rbc::level::{
    Triple, Vote, map_insert, merge_all, merge_upto, apply_vote_spec, phase1, phase1_step,
    phase2, phase2_step, one_vote_spec, add_votes_spec, vote_at, ranges_ordered, partitioned,
    sorted_starts, insert_position, lemma_map_insert_at, new_level_intervals, fresh_interval,
    level_low, level_high, three_intervals,
};
use crate::arith::trunc_div;

verus! {

/// Two sequences of intervals with the same bounds, position by position.
pub open spec fn bounds_eq(a: Seq<IntervalView>, b: Seq<IntervalView>) -> bool {
    &&& a.len() == b.len()
    &&& forall|i: int| 0 <= i < a.len() ==> (#[trigger] a[i]).start == b[i].start && a[i].end == b[i].end
}

pub(crate) proof fn lemma_bounds_eq_partitioned(a: Seq<IntervalView>, b: Seq<IntervalView>)
    requires
        bounds_eq(a, b),
        partitioned(a),
    ensures
        partitioned(b),
{
    assert forall|i: int| 0 <= i < b.len() implies (#[trigger] b[i]).start < b[i].end by {
        assert(a[i].start < a[i].end);
    }
    assert forall|i: int| 0 <= i < b.len() - 1 implies (#[trigger] b[i]).end == b[i + 1].start by {
        assert(a[i].end == a[i + 1].start);
    }
}

/// In a partition, an interval ends at or before any later one starts.
pub(crate) proof fn lemma_part_order(ivs: Seq<IntervalView>, a: int, b: int)
    requires
        partitioned(ivs),
        0 <= a < b < ivs.len(),
    ensures
        ivs[a].end <= ivs[b].start,
    decreases b - a,
{
    assert(ivs[a].end == ivs[a + 1].start);
    if a + 1 < b {
        assert(ivs[a + 1].start < ivs[a + 1].end);
        lemma_part_order(ivs, a + 1, b);
    }
}

pub(crate) proof fn lemma_part_sorted(ivs: Seq<IntervalView>)
    requires
        partitioned(ivs),
    ensures
        sorted_starts(ivs),
{
    assert forall|i: int, j: int| 0 <= i < j < ivs.len() implies ivs[i].start < ivs[j].start by {
        lemma_part_order(ivs, i, j);
        assert(ivs[i].start < ivs[i].end);
    }
}

/// Splitting an interval of a partition at a point strictly inside it keeps
/// a partition.
pub(crate) proof fn lemma_split_partition(ivs: Seq<IntervalView>, j: int, left: IntervalView, right: IntervalView)
    requires
        partitioned(ivs),
        0 <= j < ivs.len(),
        left.start == ivs[j].start,
        left.end == right.start,
        right.end == ivs[j].end,
        ivs[j].start < left.end < ivs[j].end,
    ensures
        partitioned(ivs.update(j, left).insert(j + 1, right)),
{
    let r = ivs.update(j, left).insert(j + 1, right);
    assert(r.len() == ivs.len() + 1);
    assert forall|i: int| 0 <= i < r.len() implies (#[trigger] r[i]).start < r[i].end by {
        if i < j { assert(r[i] == ivs[i]); } else if i > j + 1 { assert(r[i] == ivs[i - 1]); }
    }
    assert forall|i: int| 0 <= i < r.len() - 1 implies (#[trigger] r[i]).end == r[i + 1].start by {
        if i < j - 1 {
            assert(r[i] == ivs[i]);
            assert(r[i + 1] == ivs[i + 1]);
        } else if i == j - 1 {
            assert(r[i] == ivs[i]);
        } else if i == j {
        } else if i == j + 1 {
            assert(r[i + 1] == ivs[j + 1]);
        } else {
            assert(r[i] == ivs[i - 1]);
            assert(r[i + 1] == ivs[i]);
        }
    }
    if j == 0 {
    } else {
        assert(r[0] == ivs[0]);
    }
    if j == ivs.len() - 1 {
        assert(r[r.len() - 1] == right);
    } else {
        assert(r[r.len() - 1] == ivs[ivs.len() - 1]);
    }
}

/// Inserting into a partition an interval that starts where interval `j`
/// starts replaces interval `j`.
pub(crate) proof fn lemma_insert_same_start(ivs: Seq<IntervalView>, j: int, iv: IntervalView)
    requires
        partitioned(ivs),
        0 <= j < ivs.len(),
        iv.start == ivs[j].start,
    ensures
        map_insert(ivs, iv) == ivs.update(j, iv),
{
    lemma_part_sorted(ivs);
    assert(insert_position(ivs, iv.start, j));
    lemma_map_insert_at(ivs, iv, j);
}

/// Inserting an interval that starts strictly inside interval `j` of a
/// sequence whose intervals are ordered puts it right after `j`.
pub(crate) proof fn lemma_insert_after(ivs: Seq<IntervalView>, j: int, iv: IntervalView)
    requires
        sorted_starts(ivs),
        0 <= j < ivs.len(),
        ivs[j].start < iv.start,
        j + 1 < ivs.len() ==> iv.start < ivs[j + 1].start,
    ensures
        map_insert(ivs, iv) == ivs.insert(j + 1, iv),
{
    assert(insert_position(ivs, iv.start, j + 1));
    lemma_map_insert_at(ivs, iv, j + 1);
}

pub(crate) proof fn lemma_apply_vote_bounds(iv: IntervalView, vote: Vote)
    ensures
        apply_vote_spec(iv, vote).0.start == iv.start,
        apply_vote_spec(iv, vote).0.end == iv.end,
{
}

/// The pieces that the first pass produces from the interval that the range
/// begins strictly inside.
pub open spec fn pieces1(iv: IntervalView, vote: Vote) -> Seq<IntervalView> {
    phase1_step((Seq::empty(), Seq::empty(), Seq::empty()), iv, vote).0
}

pub open spec fn strictly_inside(iv: IntervalView, p: Point) -> bool {
    iv.start < p && p < iv.end
}

proof fn lemma_phase1_step_map(acc: (Seq<IntervalView>, Seq<Triple>, Seq<Triple>), iv: IntervalView, vote: Vote)
    requires
        acc.0 == Seq::<IntervalView>::empty(),
    ensures
        phase1_step(acc, iv, vote).0 == pieces1(iv, vote),
{
}

pub(crate) proof fn lemma_phase1_char(ivs: Seq<IntervalView>, k: nat, e1: Seq<Triple>, e2: Seq<Triple>, vote: Vote)
    requires
        partitioned(ivs),
        k <= ivs.len(),
    ensures
        (forall|j: int| 0 <= j < k ==> !strictly_inside(#[trigger] ivs[j], vote.start))
            ==> phase1(ivs, k, e1, e2, vote).0 == Seq::<IntervalView>::empty(),
        forall|j: int| 0 <= j < k && strictly_inside(#[trigger] ivs[j], vote.start)
            ==> phase1(ivs, k, e1, e2, vote).0 == pieces1(ivs[j], vote),
    decreases k,
{
    if k == 0 {
    } else {
        lemma_phase1_char(ivs, (k - 1) as nat, e1, e2, vote);
        let prev = phase1(ivs, (k - 1) as nat, e1, e2, vote);
        let iv = ivs[k - 1];
        if strictly_inside(iv, vote.start) {
            assert forall|j: int| 0 <= j < k - 1 implies !strictly_inside(#[trigger] ivs[j], vote.start) by {
                lemma_part_order(ivs, j, k - 1);
            }
            lemma_phase1_step_map(prev, iv, vote);
        }
        assert forall|j: int| 0 <= j < k && strictly_inside(#[trigger] ivs[j], vote.start)
            implies phase1(ivs, k, e1, e2, vote).0 == pieces1(ivs[j], vote) by {
            if j < k - 1 {
                if strictly_inside(iv, vote.start) {
                    lemma_part_order(ivs, j, k - 1);
                }
            }
        }
    }
}

pub(crate) proof fn lemma_insert_empty(a: IntervalView)
    ensures
        map_insert(Seq::empty(), a) == seq![a],
{
}

pub(crate) proof fn lemma_insert2(a: IntervalView, b: IntervalView)
    requires
        a.start < b.start,
    ensures
        map_insert(seq![a], b) == seq![a, b],
{
    let s = seq![a];
    assert(s.drop_first() =~= Seq::<IntervalView>::empty());
    assert(map_insert(s.drop_first(), b) == seq![b]);
    assert(seq![s[0]] + seq![b] =~= seq![a, b]);
}

pub(crate) proof fn lemma_insert3(a: IntervalView, b: IntervalView, c: IntervalView)
    requires
        a.start < b.start,
        b.start < c.start,
    ensures
        map_insert(seq![a, b], c) == seq![a, b, c],
{
    let s = seq![a, b];
    assert(s.drop_first() =~= seq![b]);
    lemma_insert2(b, c);
    assert(seq![s[0]] + seq![b, c] =~= seq![a, b, c]);
}

pub(crate) proof fn lemma_insert_replace2(a: IntervalView, b: IntervalView, c: IntervalView)
    requires
        a.start < b.start,
        b.start == c.start,
    ensures
        map_insert(seq![a, b], c) == seq![a, c],
{
    let s = seq![a, b];
    assert(s.drop_first() =~= seq![b]);
    assert(map_insert(seq![b], c) == seq![b].update(0, c));
    assert(seq![b].update(0, c) =~= seq![c]);
    assert(seq![s[0]] + seq![c] =~= seq![a, c]);
}

pub(crate) proof fn lemma_merge3(ivs: Seq<IntervalView>, a: IntervalView, b: IntervalView, c: IntervalView)
    ensures
        merge_all(ivs, seq![a, b, c]) == map_insert(map_insert(map_insert(ivs, a), b), c),
{
    let n = seq![a, b, c];
    assert(n.len() == 3 && n[0] == a && n[1] == b && n[2] == c);
    assert(merge_upto(ivs, n, 0) == ivs);
    assert(merge_upto(ivs, n, 1) == map_insert(ivs, a));
    assert(merge_upto(ivs, n, 2) == map_insert(map_insert(ivs, a), b));
    assert(merge_upto(ivs, n, 3) == map_insert(map_insert(map_insert(ivs, a), b), c));
}

pub(crate) proof fn lemma_merge2(ivs: Seq<IntervalView>, a: IntervalView, b: IntervalView)
    ensures
        merge_all(ivs, seq![a, b]) == map_insert(map_insert(ivs, a), b),
{
    let n = seq![a, b];
    assert(n.len() == 2 && n[0] == a && n[1] == b);
    assert(merge_upto(ivs, n, 0) == ivs);
    assert(merge_upto(ivs, n, 1) == map_insert(ivs, a));
    assert(merge_upto(ivs, n, 2) == map_insert(map_insert(ivs, a), b));
}

/// Replacing interval `j` of a partition by an interval with the same start,
/// then inserting one that starts inside it, puts the new one right after `j`.
pub(crate) proof fn lemma_update_then_insert(ivs: Seq<IntervalView>, j: int, left: IntervalView, right: IntervalView)
    requires
        partitioned(ivs),
        0 <= j < ivs.len(),
        left.start == ivs[j].start,
        ivs[j].start < right.start < ivs[j].end,
    ensures
        map_insert(map_insert(ivs, left), right) == ivs.update(j, left).insert(j + 1, right),
        sorted_starts(ivs.update(j, left).insert(j + 1, right)),
{
    lemma_insert_same_start(ivs, j, left);
    let m1 = ivs.update(j, left);
    lemma_part_sorted(ivs);
    assert(sorted_starts(m1)) by {
        assert forall|x: int, y: int| 0 <= x < y < m1.len() implies m1[x].start < m1[y].start by {
            assert(m1[x].start == ivs[x].start);
            assert(m1[y].start == ivs[y].start);
        }
    }
    if j + 1 < ivs.len() {
        assert(ivs[j].end == ivs[j + 1].start);
    }
    lemma_insert_after(m1, j, right);
    assert(insert_position(m1, right.start, j + 1));
    lemma_map_insert_at(m1, right, j + 1);
}

proof fn lemma_pieces1_merge(ivs: Seq<IntervalView>, j: int, vote: Vote)
    requires
        partitioned(ivs),
        vote.start <= vote.end,
        0 <= j < ivs.len(),
        strictly_inside(ivs[j], vote.start),
    ensures
        partitioned(merge_all(ivs, pieces1(ivs[j], vote))),
{
    let s = vote.start;
    let e = vote.end;
    let iv = ivs[j];
    let int_s = IntervalView { end: s, ..iv };
    let int_e = IntervalView { start: s, ..iv };
    lemma_insert_empty(int_s);
    if iv.end > e {
        if s < e {
            lemma_pieces1_split_twice(ivs, j, vote);
        } else {
            let sub_s = IntervalView { end: e, ..int_e };
            let sub_e = IntervalView { start: e, ..int_e };
            let r0 = apply_vote_spec(sub_s, vote).0;
            lemma_apply_vote_bounds(sub_s, vote);
            lemma_insert2(int_s, r0);
            lemma_insert_replace2(int_s, r0, sub_e);
            assert(pieces1(iv, vote) == seq![int_s, sub_e]);
            lemma_merge2(ivs, int_s, sub_e);
            lemma_update_then_insert(ivs, j, int_s, sub_e);
            lemma_split_partition(ivs, j, int_s, sub_e);
        }
    } else {
        let r0 = apply_vote_spec(int_e, vote).0;
        lemma_apply_vote_bounds(int_e, vote);
        lemma_insert2(int_s, r0);
        assert(pieces1(iv, vote) == seq![int_s, r0]);
        lemma_merge2(ivs, int_s, r0);
        lemma_update_then_insert(ivs, j, int_s, r0);
        lemma_split_partition(ivs, j, int_s, r0);
    }
}

#[verifier::spinoff_prover]
#[verifier::rlimit(40)]
proof fn lemma_pieces1_split_twice(ivs: Seq<IntervalView>, j: int, vote: Vote)
    requires
        partitioned(ivs),
        vote.start < vote.end,
        0 <= j < ivs.len(),
        strictly_inside(ivs[j], vote.start),
        ivs[j].end > vote.end,
    ensures
        partitioned(merge_all(ivs, pieces1(ivs[j], vote))),
{
    let s = vote.start;
    let e = vote.end;
    let iv = ivs[j];
    let int_s = IntervalView { end: s, ..iv };
    let int_e = IntervalView { start: s, ..iv };
    let sub_s = IntervalView { end: e, ..int_e };
    let sub_e = IntervalView { start: e, ..int_e };
    let r0 = apply_vote_spec(sub_s, vote).0;
    lemma_apply_vote_bounds(sub_s, vote);
    lemma_insert_empty(int_s);
    lemma_insert2(int_s, r0);
    lemma_insert3(int_s, r0, sub_e);
    assert(pieces1(iv, vote) == seq![int_s, r0, sub_e]);
    lemma_merge3(ivs, int_s, r0, sub_e);
    lemma_update_then_insert(ivs, j, int_s, r0);
    let m2 = ivs.update(j, int_s).insert(j + 1, r0);
    if j + 1 < ivs.len() {
        assert(ivs[j].end == ivs[j + 1].start);
        assert(m2[j + 2] == ivs[j + 1]);
    }
    lemma_insert_after(m2, j + 1, sub_e);
    lemma_split_partition(ivs, j, int_s, int_e);
    let p1 = ivs.update(j, int_s).insert(j + 1, int_e);
    lemma_split_partition(p1, j + 1, r0, sub_e);
    assert(p1.update(j + 1, r0).insert(j + 2, sub_e) =~= m2.insert(j + 2, sub_e));
}

/// After the first pass, the intervals still partition the line.
pub(crate) proof fn lemma_phase1_merge(ivs: Seq<IntervalView>, e1: Seq<Triple>, e2: Seq<Triple>, vote: Vote)
    requires
        partitioned(ivs),
        vote.start <= vote.end,
    ensures
        partitioned(merge_all(ivs, phase1(ivs, ivs.len(), e1, e2, vote).0)),
{
    lemma_phase1_char(ivs, ivs.len(), e1, e2, vote);
    let nmap = phase1(ivs, ivs.len(), e1, e2, vote).0;
    if exists|j: int| 0 <= j < ivs.len() && strictly_inside(#[trigger] ivs[j], vote.start) {
        let j = choose|j: int| 0 <= j < ivs.len() && strictly_inside(#[trigger] ivs[j], vote.start);
        lemma_pieces1_merge(ivs, j, vote);
    } else {
        assert(nmap == Seq::<IntervalView>::empty());
        assert(merge_upto(ivs, nmap, 0) == ivs);
    }
}

/// An interval that starts inside the vote's range and reaches beyond it.
pub open spec fn overhangs(iv: IntervalView, vote: Vote) -> bool {
    vote.start <= iv.start && iv.start < vote.end && iv.end > vote.end
}

/// The pieces that the second pass produces from such an interval.
pub open spec fn pieces2(iv: IntervalView, vote: Vote) -> Seq<IntervalView> {
    let s_int = IntervalView { end: vote.end, ..iv };
    let l_int = IntervalView { start: vote.end, ..iv };
    map_insert(map_insert(Seq::empty(), apply_vote_spec(s_int, vote).0), l_int)
}

pub(crate) proof fn lemma_phase2_char(ivs: Seq<IntervalView>, k: nat, e1: Seq<Triple>, e2: Seq<Triple>, vote: Vote)
    requires
        partitioned(ivs),
        k <= ivs.len(),
    ensures
        bounds_eq(phase2(ivs, k, e1, e2, vote).0, ivs),
        forall|i: int| k <= i < ivs.len() ==> (#[trigger] phase2(ivs, k, e1, e2, vote).0[i]) == ivs[i],
        (forall|i: int| 0 <= i < k ==> !overhangs(#[trigger] ivs[i], vote))
            ==> phase2(ivs, k, e1, e2, vote).1 == Seq::<IntervalView>::empty(),
        forall|i: int| 0 <= i < k && overhangs(#[trigger] ivs[i], vote)
            ==> phase2(ivs, k, e1, e2, vote).1 == pieces2(ivs[i], vote),
    decreases k,
{
    if k == 0 {
    } else {
        lemma_phase2_char(ivs, (k - 1) as nat, e1, e2, vote);
        let prev = phase2(ivs, (k - 1) as nat, e1, e2, vote);
        let i = k - 1;
        assert(prev.0[i] == ivs[i]);
        let cur = phase2(ivs, k, e1, e2, vote);
        assert(cur == phase2_step(prev, i, vote));
        let iv = ivs[i];
        if vote.start <= iv.start && iv.start < vote.end && iv.end <= vote.end {
            lemma_apply_vote_bounds(iv, vote);
            let r0 = apply_vote_spec(iv, vote).0;
            assert(cur.0 == prev.0.update(i, r0));
            assert forall|x: int| k <= x < ivs.len() implies (#[trigger] cur.0[x]) == ivs[x] by {
                assert(cur.0[x] == prev.0[x]);
            }
        }
        if overhangs(iv, vote) {
            assert forall|x: int| 0 <= x < i implies !overhangs(#[trigger] ivs[x], vote) by {
                lemma_part_order(ivs, x, i);
            }
        }
        assert forall|x: int| 0 <= x < k && overhangs(#[trigger] ivs[x], vote)
            implies cur.1 == pieces2(ivs[x], vote) by {
            if x < i && overhangs(iv, vote) {
                lemma_part_order(ivs, x, i);
            }
        }
    }
}

/// After the second pass, the intervals still partition the line.
proof fn lemma_phase2_merge(ivs: Seq<IntervalView>, e1: Seq<Triple>, e2: Seq<Triple>, vote: Vote)
    requires
        partitioned(ivs),
    ensures
        partitioned(merge_all(phase2(ivs, ivs.len(), e1, e2, vote).0, phase2(ivs, ivs.len(), e1, e2, vote).1)),
{
    lemma_phase2_char(ivs, ivs.len(), e1, e2, vote);
    let p2 = phase2(ivs, ivs.len(), e1, e2, vote);
    lemma_bounds_eq_partitioned(ivs, p2.0);
    if exists|i: int| 0 <= i < ivs.len() && overhangs(#[trigger] ivs[i], vote) {
        let i = choose|i: int| 0 <= i < ivs.len() && overhangs(#[trigger] ivs[i], vote);
        let iv = ivs[i];
        let s_int = IntervalView { end: vote.end, ..iv };
        let l_int = IntervalView { start: vote.end, ..iv };
        let r0 = apply_vote_spec(s_int, vote).0;
        lemma_apply_vote_bounds(s_int, vote);
        lemma_insert_empty(r0);
        lemma_insert2(r0, l_int);
        assert(p2.1 == seq![r0, l_int]);
        lemma_merge2(p2.0, r0, l_int);
        assert(p2.0[i].start == iv.start && p2.0[i].end == iv.end);
        lemma_update_then_insert(p2.0, i, r0, l_int);
        lemma_split_partition(p2.0, i, r0, l_int);
    } else {
        assert(p2.1 == Seq::<IntervalView>::empty());
        assert(merge_upto(p2.0, p2.1, 0) == p2.0);
    }
}

/// A vote for a range that does not begin after it ends keeps the intervals
/// of a level a partition of the number line.
pub proof fn lemma_one_vote_partition(ivs: Seq<IntervalView>, e1: Seq<Triple>, e2: Seq<Triple>, vote: Vote)
    requires
        partitioned(ivs),
        vote.start <= vote.end,
    ensures
        partitioned(one_vote_spec(ivs, e1, e2, vote).0),
{
    lemma_phase1_merge(ivs, e1, e2, vote);
    let p1 = phase1(ivs, ivs.len(), e1, e2, vote);
    let ivs1 = merge_all(ivs, p1.0);
    lemma_phase2_merge(ivs1, p1.1, p1.2, vote);
}

/// Law: votes for well-formed ranges, ECHO1 or ECHO2, keep the intervals of a
/// level a partition of the number line from `i64::MIN` to `i64::MAX`.
pub proof fn lemma_votes_keep_partition(ivs: Seq<IntervalView>, vals: Seq<Triple>, round: Round, sender: Replica, echo2: bool)
    requires
        partitioned(ivs),
        ranges_ordered(vals),
    ensures
        partitioned(add_votes_spec(ivs, vals, vals.len(), round, sender, echo2).0),
{
    lemma_votes_prefix_partition(ivs, vals, vals.len(), round, sender, echo2);
}

pub(crate) proof fn lemma_votes_prefix_partition(ivs: Seq<IntervalView>, vals: Seq<Triple>, k: nat, round: Round, sender: Replica, echo2: bool)
    requires
        partitioned(ivs),
        ranges_ordered(vals),
        k <= vals.len(),
    ensures
        partitioned(add_votes_spec(ivs, vals, k, round, sender, echo2).0),
    decreases k,
{
    if k > 0 {
        lemma_votes_prefix_partition(ivs, vals, (k - 1) as nat, round, sender, echo2);
        let prev = add_votes_spec(ivs, vals, (k - 1) as nat, round, sender, echo2);
        assert(vals[k - 1].0 <= vals[k - 1].1);
        lemma_one_vote_partition(prev.0, prev.1, prev.2, vote_at(vals, k - 1, round, sender, echo2));
    }
}

/// Three fresh intervals split at `lo < hi < i64::MAX` partition the number
/// line.
pub proof fn lemma_three_partition(lo: Point, hi: Point, num: Lev, minth: usize, highth: usize)
    requires
        lo < hi < i64::MAX,
    ensures
        partitioned(three_intervals(lo, hi, num, minth, highth)),
{
    let a = fresh_interval(i64::MIN, lo, num, minth, highth);
    let b = fresh_interval(lo, hi, num, minth, highth);
    let c = fresh_interval(hi, i64::MAX, num, minth, highth);
    lemma_insert_empty(a);
    if lo == i64::MIN {
        assert(map_insert(seq![a], b) == seq![a].update(0, b));
        assert(seq![a].update(0, b) =~= seq![b]);
        lemma_insert2(b, c);
        let r = seq![b, c];
        assert(partitioned(r));
    } else {
        lemma_insert2(a, b);
        lemma_insert3(a, b, c);
        let r = seq![a, b, c];
        assert(partitioned(r));
    }
}

/// Law: a new level with a positive separation, whose middle interval ends
/// below `i64::MAX`, partitions the number line.
pub proof fn lemma_new_level_partition(sep: Val, num: Lev, val: Val, minth: usize, highth: usize)
    requires
        sep > 0,
        i64::MIN <= trunc_div(val as int, sep as int) - 1,
        i64::MIN <= level_low(sep, val),
        level_high(sep, val) < i64::MAX,
    ensures
        partitioned(new_level_intervals(sep, num, val, minth, highth)),
{
    let q = trunc_div(val as int, sep as int);
    assert((q - 1) * sep < (q + 2) * sep) by (nonlinear_arith) requires sep > 0;
    lemma_three_partition(level_low(sep, val) as Point, level_high(sep, val) as Point, num, minth, highth);
}

} // verus!
