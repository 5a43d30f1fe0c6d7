//! What votes do to the checkpoints of a level: every old checkpoint stays,
//! each voted range's ends become checkpoints, and an interval outside all
//! voted ranges is a piece of an old interval with that interval's votes.

use vstd::prelude::*;
use crate::types::{Replica, Round, Point};
use crate::delphi_rbc::interval::IntervalView;
use crate::delphi_rbc::level::{
    Triple, Vote, map_insert, merge_all, merge_upto, phase1, phase2, phase2_step, one_vote_spec,
    add_votes_spec, vote_at, apply_vote_spec, partitioned, ranges_ordered,
};
use crate::delphi_rbc::partition::{
    pieces1, strictly_inside, overhangs, bounds_eq, lemma_part_order, lemma_part_sorted,
    lemma_apply_vote_bounds, lemma_phase1_char, lemma_insert_empty, lemma_insert2, lemma_insert3,
    lemma_merge2, lemma_merge3, lemma_update_then_insert, lemma_phase2_char, lemma_phase1_merge,
    lemma_bounds_eq_partitioned, lemma_insert_after, lemma_one_vote_partition, lemma_split_partition,
};

verus! {

/// The interval lies within one of the first `k` voted ranges.
pub open spec fn in_some(iv: IntervalView, vals: Seq<Triple>, k: int) -> bool {
    exists|q: int| 0 <= q < k && (#[trigger] vals[q]).0 <= iv.start && iv.end <= vals[q].1
}

/// The interval with other bounds.
pub open spec fn with_bounds(iv: IntervalView, start: Point, end: Point) -> IntervalView {
    IntervalView { start, end, ..iv }
}

/// `n` is a piece of `o`: within it, and, unless it lies within one of the
/// first `k` voted ranges, `o` itself with `n`'s bounds.
pub open spec fn piece_of(n: IntervalView, o: IntervalView, vals: Seq<Triple>, k: int) -> bool {
    &&& o.start <= n.start
    &&& n.end <= o.end
    &&& (in_some(n, vals, k) || n == with_bounds(o, n.start, n.end))
}

/// `p` is a checkpoint: some interval starts there.
pub open spec fn is_key(ivs: Seq<IntervalView>, p: Point) -> bool {
    exists|j: int| 0 <= j < ivs.len() && (#[trigger] ivs[j]).start == p
}

/// `n` is a piece of one of the intervals `old`.
pub open spec fn has_parent(n: IntervalView, old: Seq<IntervalView>, vals: Seq<Triple>, k: int) -> bool {
    exists|i: int| 0 <= i < old.len() && #[trigger] piece_of(n, old[i], vals, k)
}

/// The intervals `new` refine `old`: every old checkpoint stays one, and
/// every new interval is a piece of an old one.
#[verifier::opaque]
pub open spec fn refines(new: Seq<IntervalView>, old: Seq<IntervalView>, vals: Seq<Triple>, k: int) -> bool {
    &&& forall|i: int| 0 <= i < old.len() ==> is_key(new, #[trigger] old[i].start)
    &&& forall|j: int| 0 <= j < new.len() ==> has_parent(#[trigger] new[j], old, vals, k)
}

proof fn lemma_refines_refl(ivs: Seq<IntervalView>, vals: Seq<Triple>, k: int)
    ensures
        refines(ivs, ivs, vals, k),
{
    reveal(refines);
    assert forall|i: int| 0 <= i < ivs.len() implies is_key(ivs, #[trigger] ivs[i].start) by {
        assert(ivs[i].start == ivs[i].start);
    }
    assert forall|j: int| 0 <= j < ivs.len() implies has_parent(#[trigger] ivs[j], ivs, vals, k) by {
        assert(ivs[j] == with_bounds(ivs[j], ivs[j].start, ivs[j].end));
        assert(piece_of(ivs[j], ivs[j], vals, k));
    }
}

proof fn lemma_refines_key(new: Seq<IntervalView>, old: Seq<IntervalView>, vals: Seq<Triple>, k: int, i: int)
    requires
        refines(new, old, vals, k),
        0 <= i < old.len(),
    ensures
        is_key(new, old[i].start),
{
    reveal(refines);
}

proof fn lemma_refines_parent(new: Seq<IntervalView>, old: Seq<IntervalView>, vals: Seq<Triple>, k: int, j: int)
    requires
        refines(new, old, vals, k),
        0 <= j < new.len(),
    ensures
        has_parent(new[j], old, vals, k),
{
    reveal(refines);
}

proof fn lemma_refines_intro(new: Seq<IntervalView>, old: Seq<IntervalView>, vals: Seq<Triple>, k: int)
    requires
        forall|i: int| 0 <= i < old.len() ==> is_key(new, #[trigger] old[i].start),
        forall|j: int| 0 <= j < new.len() ==> has_parent(#[trigger] new[j], old, vals, k),
    ensures
        refines(new, old, vals, k),
{
    reveal(refines);
}

proof fn lemma_piece_trans(a: IntervalView, b: IntervalView, c: IntervalView, vals: Seq<Triple>, k: int)
    requires
        piece_of(a, b, vals, k),
        piece_of(b, c, vals, k),
    ensures
        piece_of(a, c, vals, k),
{
    if !in_some(a, vals, k) {
        if in_some(b, vals, k) {
            let q = choose|q: int| 0 <= q < k && (#[trigger] vals[q]).0 <= b.start && b.end <= vals[q].1;
            assert(vals[q].0 <= a.start && a.end <= vals[q].1);
        }
        assert(a == with_bounds(c, a.start, a.end));
    }
}

proof fn lemma_refines_trans(m: Seq<IntervalView>, l: Seq<IntervalView>, o: Seq<IntervalView>, vals: Seq<Triple>, k: int)
    requires
        refines(m, l, vals, k),
        refines(l, o, vals, k),
    ensures
        refines(m, o, vals, k),
{
    assert forall|i: int| 0 <= i < o.len() implies is_key(m, #[trigger] o[i].start) by {
        lemma_refines_key(l, o, vals, k, i);
        let j = choose|j: int| 0 <= j < l.len() && (#[trigger] l[j]).start == o[i].start;
        lemma_refines_key(m, l, vals, k, j);
    }
    assert forall|j: int| 0 <= j < m.len() implies has_parent(#[trigger] m[j], o, vals, k) by {
        lemma_refines_parent(m, l, vals, k, j);
        let a = choose|a: int| 0 <= a < l.len() && #[trigger] piece_of(m[j], l[a], vals, k);
        lemma_refines_parent(l, o, vals, k, a);
        let b = choose|b: int| 0 <= b < o.len() && #[trigger] piece_of(l[a], o[b], vals, k);
        lemma_piece_trans(m[j], l[a], o[b], vals, k);
    }
    lemma_refines_intro(m, o, vals, k);
}

proof fn lemma_refines_grow(new: Seq<IntervalView>, old: Seq<IntervalView>, vals: Seq<Triple>, k: int, k2: int)
    requires
        refines(new, old, vals, k),
        k <= k2,
    ensures
        refines(new, old, vals, k2),
{
    reveal(refines);
    assert forall|j: int| 0 <= j < new.len() implies has_parent(#[trigger] new[j], old, vals, k2) by {
        assert(has_parent(new[j], old, vals, k));
        let i = choose|i: int| 0 <= i < old.len() && #[trigger] piece_of(new[j], old[i], vals, k);
        if in_some(new[j], vals, k) {
            let q = choose|q: int| 0 <= q < k && (#[trigger] vals[q]).0 <= new[j].start && new[j].end <= vals[q].1;
            assert(in_some(new[j], vals, k2));
        }
        assert(piece_of(new[j], old[i], vals, k2));
    }
}

/// Splitting interval `j` into two pieces of it refines the intervals.
proof fn lemma_refines_split(ivs: Seq<IntervalView>, j: int, a: IntervalView, b: IntervalView, vals: Seq<Triple>, k: int)
    requires
        0 <= j < ivs.len(),
        a.start == ivs[j].start,
        piece_of(a, ivs[j], vals, k),
        piece_of(b, ivs[j], vals, k),
    ensures
        refines(ivs.update(j, a).insert(j + 1, b), ivs, vals, k),
{
    reveal(refines);
    let r = ivs.update(j, a).insert(j + 1, b);
    assert forall|i: int| 0 <= i < ivs.len() implies is_key(r, #[trigger] ivs[i].start) by {
        if i < j {
            assert(r[i] == ivs[i]);
        } else if i == j {
            assert(r[j] == a);
        } else {
            assert(r[i + 1] == ivs[i]);
        }
    }
    assert forall|x: int| 0 <= x < r.len() implies has_parent(#[trigger] r[x], ivs, vals, k) by {
        if x < j {
            assert(r[x] == ivs[x]);
            assert(ivs[x] == with_bounds(ivs[x], ivs[x].start, ivs[x].end));
            assert(piece_of(r[x], ivs[x], vals, k));
        } else if x == j {
            assert(piece_of(r[x], ivs[j], vals, k));
        } else if x == j + 1 {
            assert(piece_of(r[x], ivs[j], vals, k));
        } else {
            assert(r[x] == ivs[x - 1]);
            assert(ivs[x - 1] == with_bounds(ivs[x - 1], ivs[x - 1].start, ivs[x - 1].end));
            assert(piece_of(r[x], ivs[x - 1], vals, k));
        }
    }
}

/// Changing intervals in place into pieces of themselves refines them.
proof fn lemma_refines_inplace(new: Seq<IntervalView>, old: Seq<IntervalView>, vals: Seq<Triple>, k: int)
    requires
        new.len() == old.len(),
        forall|i: int| 0 <= i < old.len() ==> (#[trigger] new[i]).start == old[i].start && piece_of(new[i], old[i], vals, k),
    ensures
        refines(new, old, vals, k),
{
    reveal(refines);
    assert forall|i: int| 0 <= i < old.len() implies is_key(new, #[trigger] old[i].start) by {
        assert(new[i].start == old[i].start);
    }
    assert forall|j: int| 0 <= j < new.len() implies has_parent(#[trigger] new[j], old, vals, k) by {
        assert(piece_of(new[j], old[j], vals, k));
    }
}

/// A partition covers every point below `i64::MAX`.
pub(crate) proof fn lemma_covers(ivs: Seq<IntervalView>, p: Point, i: int) -> (j: int)
    requires
        partitioned(ivs),
        0 <= i < ivs.len(),
        ivs[i].start <= p < i64::MAX,
    ensures
        i <= j < ivs.len(),
        ivs[j].start <= p < ivs[j].end,
    decreases ivs.len() - i,
{
    if p < ivs[i].end {
        i
    } else {
        assert(i + 1 < ivs.len());
        assert(ivs[i].end == ivs[i + 1].start);
        lemma_covers(ivs, p, i + 1)
    }
}

/// A point below `i64::MAX` that no interval strictly contains is a
/// checkpoint.
proof fn lemma_key_unless_inside(ivs: Seq<IntervalView>, p: Point)
    requires
        partitioned(ivs),
        p < i64::MAX,
        forall|j: int| 0 <= j < ivs.len() ==> !strictly_inside(#[trigger] ivs[j], p),
    ensures
        is_key(ivs, p),
{
    let j = lemma_covers(ivs, p, 0);
    assert(!strictly_inside(ivs[j], p));
}

/// The vote's range within the first `k` voted ranges.
pub open spec fn vote_of(vote: Vote, vals: Seq<Triple>, k: int) -> bool {
    0 < k <= vals.len() && vote.start == vals[k - 1].0 && vote.end == vals[k - 1].1
}

proof fn lemma_in_vote(iv: IntervalView, vote: Vote, vals: Seq<Triple>, k: int)
    requires
        vote_of(vote, vals, k),
        vote.start <= iv.start,
        iv.end <= vote.end,
    ensures
        in_some(iv, vals, k),
{
    assert(vals[k - 1].0 <= iv.start && iv.end <= vals[k - 1].1);
}

/// The first pass of a vote refines the intervals and makes the range's
/// start a checkpoint.
#[verifier::spinoff_prover]
#[verifier::rlimit(40)]
proof fn lemma_phase1_refines(ivs: Seq<IntervalView>, e1: Seq<Triple>, e2: Seq<Triple>, vote: Vote, vals: Seq<Triple>, k: int)
    requires
        partitioned(ivs),
        vote.start <= vote.end,
        vote_of(vote, vals, k),
    ensures
        refines(merge_all(ivs, phase1(ivs, ivs.len(), e1, e2, vote).0), ivs, vals, k),
        vote.start < i64::MAX ==> is_key(merge_all(ivs, phase1(ivs, ivs.len(), e1, e2, vote).0), vote.start),
{
    lemma_phase1_char(ivs, ivs.len(), e1, e2, vote);
    let nmap = phase1(ivs, ivs.len(), e1, e2, vote).0;
    let s = vote.start;
    let e = vote.end;
    if exists|j: int| 0 <= j < ivs.len() && strictly_inside(#[trigger] ivs[j], s) {
        let j = choose|j: int| 0 <= j < ivs.len() && strictly_inside(#[trigger] ivs[j], s);
        assert(nmap == pieces1(ivs[j], vote));
        let iv = ivs[j];
        let int_s = IntervalView { end: s, ..iv };
        let int_e = IntervalView { start: s, ..iv };
        assert(int_s == with_bounds(iv, iv.start, s));
        assert(int_e == with_bounds(iv, s, iv.end));
        lemma_insert_empty(int_s);
        if iv.end > e {
            let sub_s = IntervalView { end: e, ..int_e };
            let sub_e = IntervalView { start: e, ..int_e };
            let r0 = apply_vote_spec(sub_s, vote).0;
            lemma_apply_vote_bounds(sub_s, vote);
            if s < e {
                lemma_insert2(int_s, r0);
                lemma_insert3(int_s, r0, sub_e);
                assert(nmap == seq![int_s, r0, sub_e]);
                lemma_merge3(ivs, int_s, r0, sub_e);
                lemma_update_then_insert(ivs, j, int_s, r0);
                let m2 = ivs.update(j, int_s).insert(j + 1, r0);
                if j + 1 < ivs.len() {
                    assert(ivs[j].end == ivs[j + 1].start);
                    assert(m2[j + 2] == ivs[j + 1]);
                }
                lemma_insert_after(m2, j + 1, sub_e);
                let x = ivs.update(j, int_s).insert(j + 1, int_e);
                lemma_refines_split(ivs, j, int_s, int_e, vals, k);
                assert(x[j + 1] == int_e);
                lemma_in_vote(r0, vote, vals, k);
                assert(sub_e == with_bounds(int_e, e, int_e.end));
                lemma_refines_split(x, j + 1, r0, sub_e, vals, k);
                assert(x.update(j + 1, r0).insert(j + 2, sub_e) =~= m2.insert(j + 2, sub_e));
                lemma_refines_trans(m2.insert(j + 2, sub_e), x, ivs, vals, k);
                assert(m2.insert(j + 2, sub_e)[j + 1].start == s);
            } else {
                lemma_insert2(int_s, r0);
                crate::delphi_rbc::partition::lemma_insert_replace2(int_s, r0, sub_e);
                assert(nmap == seq![int_s, sub_e]);
                lemma_merge2(ivs, int_s, sub_e);
                lemma_update_then_insert(ivs, j, int_s, sub_e);
                assert(sub_e == with_bounds(iv, s, iv.end));
                lemma_refines_split(ivs, j, int_s, sub_e, vals, k);
                assert(ivs.update(j, int_s).insert(j + 1, sub_e)[j + 1].start == s);
            }
        } else {
            let r0 = apply_vote_spec(int_e, vote).0;
            lemma_apply_vote_bounds(int_e, vote);
            lemma_insert2(int_s, r0);
            assert(nmap == seq![int_s, r0]);
            lemma_merge2(ivs, int_s, r0);
            lemma_update_then_insert(ivs, j, int_s, r0);
            lemma_in_vote(r0, vote, vals, k);
            lemma_refines_split(ivs, j, int_s, r0, vals, k);
            assert(ivs.update(j, int_s).insert(j + 1, r0)[j + 1].start == s);
        }
    } else {
        assert(nmap == Seq::<IntervalView>::empty());
        assert(merge_upto(ivs, nmap, 0) == ivs);
        lemma_refines_refl(ivs, vals, k);
        if s < i64::MAX {
            lemma_key_unless_inside(ivs, s);
        }
    }
}

/// In the second pass, each interval is kept, or (when it lies within the
/// range) receives the vote; one that reaches beyond the range is kept.
proof fn lemma_phase2_inplace(ivs: Seq<IntervalView>, n: nat, e1: Seq<Triple>, e2: Seq<Triple>, vote: Vote)
    requires
        partitioned(ivs),
        n <= ivs.len(),
    ensures
        phase2(ivs, n, e1, e2, vote).0.len() == ivs.len(),
        forall|i: int| 0 <= i < ivs.len() ==> {
            ||| (#[trigger] phase2(ivs, n, e1, e2, vote).0[i]) == ivs[i]
            ||| vote.start <= ivs[i].start && ivs[i].end <= vote.end && phase2(ivs, n, e1, e2, vote).0[i] == apply_vote_spec(ivs[i], vote).0
        },
        forall|i: int| 0 <= i < ivs.len() && overhangs(#[trigger] ivs[i], vote) ==> phase2(ivs, n, e1, e2, vote).0[i] == ivs[i],
    decreases n,
{
    lemma_phase2_char(ivs, n, e1, e2, vote);
    if n > 0 {
        lemma_phase2_inplace(ivs, (n - 1) as nat, e1, e2, vote);
        lemma_phase2_char(ivs, (n - 1) as nat, e1, e2, vote);
        let prev = phase2(ivs, (n - 1) as nat, e1, e2, vote);
        let i = n - 1;
        assert(prev.0[i] == ivs[i]);
        let cur = phase2(ivs, n, e1, e2, vote);
        assert(cur == phase2_step(prev, i, vote));
    }
}

/// The second pass of a vote refines the intervals and makes the range's end
/// a checkpoint, given that its start is one.
#[verifier::spinoff_prover]
#[verifier::rlimit(40)]
proof fn lemma_phase2_refines(ivs: Seq<IntervalView>, e1: Seq<Triple>, e2: Seq<Triple>, vote: Vote, vals: Seq<Triple>, k: int)
    requires
        partitioned(ivs),
        vote.start <= vote.end,
        vote_of(vote, vals, k),
        vote.start < i64::MAX ==> is_key(ivs, vote.start),
    ensures
        ({
            let p2 = phase2(ivs, ivs.len(), e1, e2, vote);
            let m = merge_all(p2.0, p2.1);
            &&& refines(m, ivs, vals, k)
            &&& vote.end < i64::MAX ==> is_key(m, vote.end)
        }),
{
    let s = vote.start;
    let e = vote.end;
    lemma_phase2_char(ivs, ivs.len(), e1, e2, vote);
    lemma_phase2_inplace(ivs, ivs.len(), e1, e2, vote);
    let p2 = phase2(ivs, ivs.len(), e1, e2, vote);
    assert forall|i: int| 0 <= i < ivs.len() implies (#[trigger] p2.0[i]).start == ivs[i].start && piece_of(p2.0[i], ivs[i], vals, k) by {
        lemma_apply_vote_bounds(ivs[i], vote);
        if p2.0[i] == ivs[i] {
            assert(ivs[i] == with_bounds(ivs[i], ivs[i].start, ivs[i].end));
        } else {
            lemma_in_vote(p2.0[i], vote, vals, k);
        }
    }
    lemma_refines_inplace(p2.0, ivs, vals, k);
    lemma_bounds_eq_partitioned(ivs, p2.0);
    if exists|i: int| 0 <= i < ivs.len() && overhangs(#[trigger] ivs[i], vote) {
        let i = choose|i: int| 0 <= i < ivs.len() && overhangs(#[trigger] ivs[i], vote);
        let iv = ivs[i];
        let s_int = IntervalView { end: e, ..iv };
        let l_int = IntervalView { start: e, ..iv };
        let r0 = apply_vote_spec(s_int, vote).0;
        lemma_apply_vote_bounds(s_int, vote);
        lemma_insert_empty(r0);
        lemma_insert2(r0, l_int);
        assert(p2.1 == seq![r0, l_int]);
        lemma_merge2(p2.0, r0, l_int);
        assert(p2.0[i] == iv);
        lemma_update_then_insert(p2.0, i, r0, l_int);
        lemma_in_vote(r0, vote, vals, k);
        assert(l_int == with_bounds(iv, e, iv.end));
        lemma_refines_split(p2.0, i, r0, l_int, vals, k);
        lemma_refines_trans(p2.0.update(i, r0).insert(i + 1, l_int), p2.0, ivs, vals, k);
        assert(p2.0.update(i, r0).insert(i + 1, l_int)[i + 1].start == e);
    } else {
        assert(p2.1 == Seq::<IntervalView>::empty());
        assert(merge_upto(p2.0, p2.1, 0) == p2.0);
        if e < i64::MAX {
            let c = lemma_covers(ivs, e, 0);
            if ivs[c].start < e {
                if ivs[c].start >= s {
                    assert(overhangs(ivs[c], vote));
                } else {
                    let jj = choose|jj: int| 0 <= jj < ivs.len() && (#[trigger] ivs[jj]).start == s;
                    if jj < c {
                        lemma_part_order(ivs, jj, c);
                    } else if jj > c {
                        lemma_part_order(ivs, c, jj);
                    }
                }
            }
            assert(p2.0[c].start == e);
        }
    }
}

/// Law (one vote): a vote for a well-formed range on a partitioned level
/// refines its intervals: every old checkpoint stays one, the range's start
/// and end become checkpoints (where they lie below `i64::MAX`), and every
/// new interval is a piece of an old one that, unless it lies within the
/// range, is that old interval with its votes unchanged.
pub proof fn lemma_one_vote_refines(ivs: Seq<IntervalView>, e1: Seq<Triple>, e2: Seq<Triple>, vote: Vote, vals: Seq<Triple>, k: int)
    requires
        partitioned(ivs),
        vote.start <= vote.end,
        vote_of(vote, vals, k),
    ensures
        refines(one_vote_spec(ivs, e1, e2, vote).0, ivs, vals, k),
        vote.start < i64::MAX ==> is_key(one_vote_spec(ivs, e1, e2, vote).0, vote.start),
        vote.end < i64::MAX ==> is_key(one_vote_spec(ivs, e1, e2, vote).0, vote.end),
{
    lemma_phase1_refines(ivs, e1, e2, vote, vals, k);
    lemma_phase1_merge(ivs, e1, e2, vote);
    let p1 = phase1(ivs, ivs.len(), e1, e2, vote);
    let m1 = merge_all(ivs, p1.0);
    lemma_phase2_refines(m1, p1.1, p1.2, vote, vals, k);
    let p2 = phase2(m1, m1.len(), p1.1, p1.2, vote);
    let m2 = merge_all(p2.0, p2.1);
    lemma_refines_trans(m2, m1, ivs, vals, k);
    if vote.start < i64::MAX {
        let j = choose|j: int| 0 <= j < m1.len() && (#[trigger] m1[j]).start == vote.start;
        lemma_refines_key(m2, m1, vals, k, j);
    }
}

proof fn lemma_votes_refine_prefix(ivs: Seq<IntervalView>, vals: Seq<Triple>, k: nat, round: Round, sender: Replica, echo2: bool)
    requires
        partitioned(ivs),
        ranges_ordered(vals),
        k <= vals.len(),
    ensures
        ({
            let r = add_votes_spec(ivs, vals, k, round, sender, echo2).0;
            &&& partitioned(r)
            &&& refines(r, ivs, vals, k as int)
            &&& forall|q: int| 0 <= q < k && (#[trigger] vals[q]).0 < i64::MAX ==> is_key(r, vals[q].0)
            &&& forall|q: int| 0 <= q < k && (#[trigger] vals[q]).1 < i64::MAX ==> is_key(r, vals[q].1)
        }),
    decreases k,
{
    if k == 0 {
        lemma_refines_refl(ivs, vals, 0);
    } else {
        lemma_votes_refine_prefix(ivs, vals, (k - 1) as nat, round, sender, echo2);
        let prev = add_votes_spec(ivs, vals, (k - 1) as nat, round, sender, echo2);
        let vote = vote_at(vals, k - 1, round, sender, echo2);
        assert(vals[k - 1].0 <= vals[k - 1].1);
        lemma_one_vote_refines(prev.0, prev.1, prev.2, vote, vals, k as int);
        lemma_one_vote_partition(prev.0, prev.1, prev.2, vote);
        let r = one_vote_spec(prev.0, prev.1, prev.2, vote).0;
        assert(add_votes_spec(ivs, vals, k, round, sender, echo2).0 == r);
        lemma_refines_grow(prev.0, ivs, vals, k - 1, k as int);
        lemma_refines_trans(r, prev.0, ivs, vals, k as int);
        assert forall|q: int| 0 <= q < k && (#[trigger] vals[q]).0 < i64::MAX implies is_key(r, vals[q].0) by {
            if q < k - 1 {
                let j = choose|j: int| 0 <= j < prev.0.len() && (#[trigger] prev.0[j]).start == vals[q].0;
                lemma_refines_key(r, prev.0, vals, k as int, j);
            }
        }
        assert forall|q: int| 0 <= q < k && (#[trigger] vals[q]).1 < i64::MAX implies is_key(r, vals[q].1) by {
            if q < k - 1 {
                let j = choose|j: int| 0 <= j < prev.0.len() && (#[trigger] prev.0[j]).start == vals[q].1;
                lemma_refines_key(r, prev.0, vals, k as int, j);
            }
        }
    }
}

/// Law: ECHO1 or ECHO2 votes for well-formed ranges on a partitioned level
/// keep every old checkpoint, make each voted range's start and end
/// checkpoints (where they lie below `i64::MAX`), and leave every interval
/// that lies outside all the voted ranges a piece of an old interval, with
/// that interval's votes: no vote is recorded outside the voted ranges.
pub proof fn lemma_votes_refine(ivs: Seq<IntervalView>, vals: Seq<Triple>, round: Round, sender: Replica, echo2: bool)
    requires
        partitioned(ivs),
        ranges_ordered(vals),
    ensures
        ({
            let r = add_votes_spec(ivs, vals, vals.len(), round, sender, echo2).0;
            &&& refines(r, ivs, vals, vals.len() as int)
            &&& forall|q: int| 0 <= q < vals.len() && (#[trigger] vals[q]).0 < i64::MAX ==> is_key(r, vals[q].0)
            &&& forall|q: int| 0 <= q < vals.len() && (#[trigger] vals[q]).1 < i64::MAX ==> is_key(r, vals[q].1)
        }),
{
    lemma_votes_refine_prefix(ivs, vals, vals.len(), round, sender, echo2);
}

} // verus!
