//! Where votes split a level's intervals depends only on the intervals'
//! bounds and the votes' ranges: not on the recorded votes, the round, the
//! sender, the value, or whether the votes are ECHO1 or ECHO2.

use vstd::prelude::*;
use crate::types::{Replica, Round};
use crate::delphi_rbc::interval::IntervalView;
use crate::delphi_rbc::level::{
    Triple, Vote, map_insert, merge_upto, merge_all, phase1, phase1_step, phase2, phase2_step,
    one_vote_spec, add_votes_spec, vote_at, apply_vote_spec,
};
use crate::delphi_rbc::partition::bounds_eq;

verus! {

/// Two votes for the same range.
pub open spec fn same_range(a: Vote, b: Vote) -> bool {
    a.start == b.start && a.end == b.end
}

proof fn lemma_bounds_eq_tail(a: Seq<IntervalView>, b: Seq<IntervalView>)
    requires
        bounds_eq(a, b),
        a.len() > 0,
    ensures
        bounds_eq(a.drop_first(), b.drop_first()),
{
    assert forall|i: int| 0 <= i < a.len() - 1 implies (#[trigger] a.drop_first()[i]).start == b.drop_first()[i].start
        && a.drop_first()[i].end == b.drop_first()[i].end by {
        assert(a.drop_first()[i] == a[i + 1]);
        assert(b.drop_first()[i] == b[i + 1]);
    }
}

proof fn lemma_bounds_eq_map_insert(a: Seq<IntervalView>, b: Seq<IntervalView>, x: IntervalView, y: IntervalView)
    requires
        bounds_eq(a, b),
        x.start == y.start,
        x.end == y.end,
    ensures
        bounds_eq(map_insert(a, x), map_insert(b, y)),
    decreases a.len(),
{
    if a.len() == 0 {
    } else if a[0].start == x.start {
        assert(b[0].start == y.start);
    } else if x.start < a[0].start {
        let ra = seq![x] + a;
        let rb = seq![y] + b;
        assert forall|i: int| 0 <= i < ra.len() implies (#[trigger] ra[i]).start == rb[i].start && ra[i].end == rb[i].end by {
            if i > 0 {
                assert(ra[i] == a[i - 1]);
                assert(rb[i] == b[i - 1]);
            }
        }
    } else {
        lemma_bounds_eq_tail(a, b);
        lemma_bounds_eq_map_insert(a.drop_first(), b.drop_first(), x, y);
        let ta = map_insert(a.drop_first(), x);
        let tb = map_insert(b.drop_first(), y);
        let ra = seq![a[0]] + ta;
        let rb = seq![b[0]] + tb;
        assert forall|i: int| 0 <= i < ra.len() implies (#[trigger] ra[i]).start == rb[i].start && ra[i].end == rb[i].end by {
            if i > 0 {
                assert(ra[i] == ta[i - 1]);
                assert(rb[i] == tb[i - 1]);
            }
        }
    }
}

proof fn lemma_bounds_eq_merge(a: Seq<IntervalView>, b: Seq<IntervalView>, na: Seq<IntervalView>, nb: Seq<IntervalView>, k: nat)
    requires
        bounds_eq(a, b),
        bounds_eq(na, nb),
    ensures
        bounds_eq(merge_upto(a, na, k), merge_upto(b, nb, k)),
    decreases k,
{
    if k > 0 && k <= na.len() {
        lemma_bounds_eq_merge(a, b, na, nb, (k - 1) as nat);
        lemma_bounds_eq_map_insert(merge_upto(a, na, (k - 1) as nat), merge_upto(b, nb, (k - 1) as nat), na[k - 1], nb[k - 1]);
    }
}

proof fn lemma_bounds_eq_phase1(
    a: Seq<IntervalView>, b: Seq<IntervalView>, k: nat,
    e1a: Seq<Triple>, e2a: Seq<Triple>, e1b: Seq<Triple>, e2b: Seq<Triple>, va: Vote, vb: Vote,
)
    requires
        bounds_eq(a, b),
        same_range(va, vb),
    ensures
        bounds_eq(phase1(a, k, e1a, e2a, va).0, phase1(b, k, e1b, e2b, vb).0),
    decreases k,
{
    if k > 0 && k <= a.len() {
        lemma_bounds_eq_phase1(a, b, (k - 1) as nat, e1a, e2a, e1b, e2b, va, vb);
        let pa = phase1(a, (k - 1) as nat, e1a, e2a, va);
        let pb = phase1(b, (k - 1) as nat, e1b, e2b, vb);
        let ia = a[k - 1];
        let ib = b[k - 1];
        let s = va.start;
        let e = va.end;
        if ia.start < s && ia.end > s {
            let sa = IntervalView { end: s, ..ia };
            let sb = IntervalView { end: s, ..ib };
            let ea = IntervalView { start: s, ..ia };
            let eb = IntervalView { start: s, ..ib };
            lemma_bounds_eq_map_insert(pa.0, pb.0, sa, sb);
            if ia.end > e {
                let ra = apply_vote_spec(IntervalView { end: e, ..ea }, va).0;
                let rb = apply_vote_spec(IntervalView { end: e, ..eb }, vb).0;
                lemma_bounds_eq_map_insert(map_insert(pa.0, sa), map_insert(pb.0, sb), ra, rb);
                lemma_bounds_eq_map_insert(map_insert(map_insert(pa.0, sa), ra), map_insert(map_insert(pb.0, sb), rb),
                    IntervalView { start: e, ..ea }, IntervalView { start: e, ..eb });
            } else {
                let ra = apply_vote_spec(ea, va).0;
                let rb = apply_vote_spec(eb, vb).0;
                lemma_bounds_eq_map_insert(map_insert(pa.0, sa), map_insert(pb.0, sb), ra, rb);
            }
        }
    }
}

proof fn lemma_bounds_eq_phase2(
    a: Seq<IntervalView>, b: Seq<IntervalView>, k: nat,
    e1a: Seq<Triple>, e2a: Seq<Triple>, e1b: Seq<Triple>, e2b: Seq<Triple>, va: Vote, vb: Vote,
)
    requires
        bounds_eq(a, b),
        same_range(va, vb),
    ensures
        bounds_eq(phase2(a, k, e1a, e2a, va).0, phase2(b, k, e1b, e2b, vb).0),
        bounds_eq(phase2(a, k, e1a, e2a, va).1, phase2(b, k, e1b, e2b, vb).1),
        phase2(a, k, e1a, e2a, va).0.len() == a.len(),
    decreases k,
{
    if k > 0 && k <= a.len() {
        lemma_bounds_eq_phase2(a, b, (k - 1) as nat, e1a, e2a, e1b, e2b, va, vb);
        let pa = phase2(a, (k - 1) as nat, e1a, e2a, va);
        let pb = phase2(b, (k - 1) as nat, e1b, e2b, vb);
        let i = k - 1;
        assert(pa.0[i].start == pb.0[i].start && pa.0[i].end == pb.0[i].end);
        let ia = pa.0[i];
        let ib = pb.0[i];
        assert(ia.start == ib.start && ia.end == ib.end);
        if va.start <= ia.start && ia.start < va.end {
            if ia.end <= va.end {
                let ra = apply_vote_spec(ia, va).0;
                let rb = apply_vote_spec(ib, vb).0;
                let ua = pa.0.update(i, ra);
                let ub = pb.0.update(i, rb);
                assert forall|j: int| 0 <= j < ua.len() implies (#[trigger] ua[j]).start == ub[j].start && ua[j].end == ub[j].end by {}
            } else {
                let la = IntervalView { start: va.end, ..ia };
                let lb = IntervalView { start: vb.end, ..ib };
                let ra = apply_vote_spec(IntervalView { end: va.end, ..ia }, va).0;
                let rb = apply_vote_spec(IntervalView { end: vb.end, ..ib }, vb).0;
                lemma_bounds_eq_map_insert(pa.1, pb.1, ra, rb);
                lemma_bounds_eq_map_insert(map_insert(pa.1, ra), map_insert(pb.1, rb), la, lb);
            }
        }
    }
}

proof fn lemma_bounds_eq_one_vote(
    a: Seq<IntervalView>, b: Seq<IntervalView>,
    e1a: Seq<Triple>, e2a: Seq<Triple>, e1b: Seq<Triple>, e2b: Seq<Triple>, va: Vote, vb: Vote,
)
    requires
        bounds_eq(a, b),
        same_range(va, vb),
    ensures
        bounds_eq(one_vote_spec(a, e1a, e2a, va).0, one_vote_spec(b, e1b, e2b, vb).0),
{
    let p1a = phase1(a, a.len(), e1a, e2a, va);
    let p1b = phase1(b, b.len(), e1b, e2b, vb);
    lemma_bounds_eq_phase1(a, b, a.len(), e1a, e2a, e1b, e2b, va, vb);
    let m1a = merge_all(a, p1a.0);
    let m1b = merge_all(b, p1b.0);
    lemma_bounds_eq_merge(a, b, p1a.0, p1b.0, p1a.0.len());
    let p2a = phase2(m1a, m1a.len(), p1a.1, p1a.2, va);
    let p2b = phase2(m1b, m1b.len(), p1b.1, p1b.2, vb);
    lemma_bounds_eq_phase2(m1a, m1b, m1a.len(), p1a.1, p1a.2, p1b.1, p1b.2, va, vb);
    lemma_bounds_eq_merge(p2a.0, p2b.0, p2a.1, p2b.1, p2a.1.len());
}

proof fn lemma_bounds_eq_votes(
    a: Seq<IntervalView>, b: Seq<IntervalView>, vals: Seq<Triple>, k: nat,
    ra: Round, sa: Replica, xa: bool, rb: Round, sb: Replica, xb: bool,
)
    requires
        bounds_eq(a, b),
    ensures
        bounds_eq(add_votes_spec(a, vals, k, ra, sa, xa).0, add_votes_spec(b, vals, k, rb, sb, xb).0),
    decreases k,
{
    if k > 0 && k <= vals.len() {
        lemma_bounds_eq_votes(a, b, vals, (k - 1) as nat, ra, sa, xa, rb, sb, xb);
        let pa = add_votes_spec(a, vals, (k - 1) as nat, ra, sa, xa);
        let pb = add_votes_spec(b, vals, (k - 1) as nat, rb, sb, xb);
        lemma_bounds_eq_one_vote(pa.0, pb.0, pa.1, pa.2, pb.1, pb.2,
            vote_at(vals, k - 1, ra, sa, xa), vote_at(vals, k - 1, rb, sb, xb));
    }
}

/// Law: the same ranges of votes split two levels with the same bounds into
/// intervals with the same bounds, whatever the votes recorded before, the
/// round, the sender, and whether the votes are ECHO1 or ECHO2. In
/// particular ECHO2 votes split checkpoints exactly as ECHO1 votes do.
pub proof fn lemma_echo2_splits_as_echo1(
    a: Seq<IntervalView>, b: Seq<IntervalView>, vals: Seq<Triple>,
    ra: Round, sa: Replica, xa: bool, rb: Round, sb: Replica, xb: bool,
)
    requires
        bounds_eq(a, b),
    ensures
        bounds_eq(add_votes_spec(a, vals, vals.len(), ra, sa, xa).0, add_votes_spec(b, vals, vals.len(), rb, sb, xb).0),
{
    lemma_bounds_eq_votes(a, b, vals, vals.len(), ra, sa, xa, rb, sb, xb);
}

} // verus!
