//! The ECHO1 and ECHO2 lists that votes on a level return: fully compressed,
//! and within the ranges voted on.

use vstd::prelude::*;
use crate::types::{Replica, Round};
use crate::delphi_rbc::level::{
    Triple, Vote, compress_spec, push_msg, phase1, phase2, one_vote_spec, add_votes_spec, vote_at,
    merge_all,
};
use crate::delphi_rbc::interval::IntervalView;

verus! {

/// No two neighbouring votes of the list could be merged: each pair differs
/// in value or leaves a gap.
pub open spec fn fully_compressed(v: Seq<Triple>) -> bool {
    forall|i: int, j: int| 0 <= i && j == i + 1 && j < v.len() ==> !((#[trigger] v[i]).2 == (#[trigger] v[j]).2 && v[i].1 == v[j].0)
}

/// The range of `t` begins no earlier than one of the first `k` voted ranges
/// and ends no later than one of them.
pub open spec fn within_votes(t: Triple, vals: Seq<Triple>, k: int) -> bool {
    exists|a: int, b: int| 0 <= a < k && 0 <= b < k && (#[trigger] vals[a]).0 <= t.0 && t.1 <= (#[trigger] vals[b]).1
}

/// A list of votes to send is fully compressed and within the first `k`
/// voted ranges.
pub open spec fn good_list(v: Seq<Triple>, vals: Seq<Triple>, k: int) -> bool {
    &&& fully_compressed(v)
    &&& forall|i: int| 0 <= i < v.len() ==> within_votes(#[trigger] v[i], vals, k)
}

proof fn lemma_compress_push(v: Seq<Triple>, t: Triple, vals: Seq<Triple>, k: int)
    requires
        good_list(v, vals, k),
        within_votes(t, vals, k),
    ensures
        good_list(compress_spec(v.push(t)), vals, k),
{
    let w = v.push(t);
    let n = v.len() as int;
    if w.len() > 1 {
        let last = w[w.len() - 1];
        let lb = w[w.len() - 2];
        if lb.2 == last.2 && lb.1 == last.0 {
            let r = compress_spec(w);
            let mg = (lb.0, last.1, lb.2);
            assert(r =~= v.update(n - 1, mg));
            assert forall|i: int, j: int| 0 <= i && j == i + 1 && j < r.len()
                implies !((#[trigger] r[i]).2 == (#[trigger] r[j]).2 && r[i].1 == r[j].0) by {
                if j == n - 1 {
                    assert(r[i] == v[i]);
                    assert(lb == v[n - 1]);
                    assert(r[j] == mg);
                    assert(!(v[i].2 == v[j].2 && v[i].1 == v[j].0));
                } else {
                    assert(r[i] == v[i]);
                    assert(r[j] == v[j]);
                }
            }
            assert forall|i: int| 0 <= i < r.len() implies within_votes(#[trigger] r[i], vals, k) by {
                if i == n - 1 {
                    assert(within_votes(v[n - 1], vals, k));
                    let (a, b0) = choose|a: int, b: int| 0 <= a < k && 0 <= b < k && (#[trigger] vals[a]).0 <= v[n - 1].0 && v[n - 1].1 <= (#[trigger] vals[b]).1;
                    let (a1, b) = choose|a: int, b: int| 0 <= a < k && 0 <= b < k && (#[trigger] vals[a]).0 <= t.0 && t.1 <= (#[trigger] vals[b]).1;
                    assert(vals[a].0 <= r[i].0 && r[i].1 <= vals[b].1);
                } else {
                    assert(r[i] == v[i]);
                }
            }
        } else {
            assert forall|i: int, j: int| 0 <= i && j == i + 1 && j < w.len()
                implies !((#[trigger] w[i]).2 == (#[trigger] w[j]).2 && w[i].1 == w[j].0) by {
                if j < n {
                    assert(w[i] == v[i]);
                    assert(w[j] == v[j]);
                }
            }
            assert forall|i: int| 0 <= i < w.len() implies within_votes(#[trigger] w[i], vals, k) by {
                if i < n {
                    assert(w[i] == v[i]);
                }
            }
        }
    } else {
        assert forall|i: int| 0 <= i < w.len() implies within_votes(#[trigger] w[i], vals, k) by {
            if i < n {
                assert(w[i] == v[i]);
            }
        }
    }
}

proof fn lemma_push_msg(v: Seq<Triple>, m: Option<crate::types::Val>, a: crate::types::Point, b: crate::types::Point, vals: Seq<Triple>, k: int)
    requires
        good_list(v, vals, k),
        0 < k <= vals.len(),
        vals[k - 1].0 <= a,
        b <= vals[k - 1].1,
    ensures
        good_list(push_msg(v, m, a, b), vals, k),
{
    if let Some(x) = m {
        assert(within_votes((a, b, x), vals, k)) by {
            assert(vals[k - 1].0 <= a && b <= vals[k - 1].1);
        }
        lemma_compress_push(v, (a, b, x), vals, k);
    }
}

proof fn lemma_phase1_lists(ivs: Seq<IntervalView>, n: nat, e1: Seq<Triple>, e2: Seq<Triple>, vote: Vote, vals: Seq<Triple>, k: int)
    requires
        good_list(e1, vals, k),
        good_list(e2, vals, k),
        0 < k <= vals.len(),
        vote.start == vals[k - 1].0,
        vote.end == vals[k - 1].1,
    ensures
        good_list(phase1(ivs, n, e1, e2, vote).1, vals, k),
        good_list(phase1(ivs, n, e1, e2, vote).2, vals, k),
    decreases n,
{
    if n > 0 && n <= ivs.len() {
        lemma_phase1_lists(ivs, (n - 1) as nat, e1, e2, vote, vals, k);
        let acc = phase1(ivs, (n - 1) as nat, e1, e2, vote);
        let iv = ivs[n - 1];
        let s = vote.start;
        let e = vote.end;
        if iv.start < s && iv.end > s {
            let int_e = IntervalView { start: s, ..iv };
            if iv.end > e {
                let sub_s = IntervalView { end: e, ..int_e };
                let r = crate::delphi_rbc::level::apply_vote_spec(sub_s, vote);
                lemma_push_msg(acc.1, r.1, s, r.0.end, vals, k);
                lemma_push_msg(acc.2, r.2, s, r.0.end, vals, k);
            } else {
                let r = crate::delphi_rbc::level::apply_vote_spec(int_e, vote);
                lemma_push_msg(acc.1, r.1, s, r.0.end, vals, k);
                lemma_push_msg(acc.2, r.2, s, r.0.end, vals, k);
            }
        }
    }
}

proof fn lemma_phase2_lists(ivs: Seq<IntervalView>, n: nat, e1: Seq<Triple>, e2: Seq<Triple>, vote: Vote, vals: Seq<Triple>, k: int)
    requires
        good_list(e1, vals, k),
        good_list(e2, vals, k),
        0 < k <= vals.len(),
        vote.start == vals[k - 1].0,
        vote.end == vals[k - 1].1,
    ensures
        good_list(phase2(ivs, n, e1, e2, vote).2, vals, k),
        good_list(phase2(ivs, n, e1, e2, vote).3, vals, k),
        phase2(ivs, n, e1, e2, vote).0.len() == ivs.len(),
    decreases n,
{
    if n > 0 && n <= ivs.len() {
        lemma_phase2_lists(ivs, (n - 1) as nat, e1, e2, vote, vals, k);
        let acc = phase2(ivs, (n - 1) as nat, e1, e2, vote);
        let iv = acc.0[n - 1];
        if vote.start <= iv.start && iv.start < vote.end {
            if iv.end <= vote.end {
                let r = crate::delphi_rbc::level::apply_vote_spec(iv, vote);
                lemma_push_msg(acc.2, r.1, r.0.start, r.0.end, vals, k);
                lemma_push_msg(acc.3, r.2, r.0.start, r.0.end, vals, k);
            } else {
                let s_int = IntervalView { end: vote.end, ..iv };
                let r = crate::delphi_rbc::level::apply_vote_spec(s_int, vote);
                lemma_push_msg(acc.2, r.1, r.0.start, r.0.end, vals, k);
                lemma_push_msg(acc.3, r.2, r.0.start, r.0.end, vals, k);
            }
        }
    }
}

proof fn lemma_good_list_grow(v: Seq<Triple>, vals: Seq<Triple>, k: int)
    requires
        good_list(v, vals, k),
        k < vals.len(),
    ensures
        good_list(v, vals, k + 1),
{
    assert forall|i: int| 0 <= i < v.len() implies within_votes(#[trigger] v[i], vals, k + 1) by {
        assert(within_votes(v[i], vals, k));
        let (a, b) = choose|a: int, b: int| 0 <= a < k && 0 <= b < k && (#[trigger] vals[a]).0 <= v[i].0 && v[i].1 <= (#[trigger] vals[b]).1;
        assert(vals[a].0 <= v[i].0 && v[i].1 <= vals[b].1);
    }
}

proof fn lemma_votes_lists(ivs: Seq<IntervalView>, vals: Seq<Triple>, k: nat, round: Round, sender: Replica, echo2: bool)
    requires
        k <= vals.len(),
    ensures
        good_list(add_votes_spec(ivs, vals, k, round, sender, echo2).1, vals, k as int),
        good_list(add_votes_spec(ivs, vals, k, round, sender, echo2).2, vals, k as int),
    decreases k,
{
    if k > 0 {
        lemma_votes_lists(ivs, vals, (k - 1) as nat, round, sender, echo2);
        let prev = add_votes_spec(ivs, vals, (k - 1) as nat, round, sender, echo2);
        let vote = vote_at(vals, k - 1, round, sender, echo2);
        lemma_good_list_grow(prev.1, vals, k - 1);
        lemma_good_list_grow(prev.2, vals, k - 1);
        let p1 = phase1(prev.0, prev.0.len(), prev.1, prev.2, vote);
        lemma_phase1_lists(prev.0, prev.0.len(), prev.1, prev.2, vote, vals, k as int);
        let ivs1 = merge_all(prev.0, p1.0);
        lemma_phase2_lists(ivs1, ivs1.len(), p1.1, p1.2, vote, vals, k as int);
        assert(add_votes_spec(ivs, vals, k, round, sender, echo2) == one_vote_spec(prev.0, prev.1, prev.2, vote));
    }
}

/// Law: the ECHO1 and ECHO2 lists that votes on a level return are fully
/// compressed (no two neighbours share a value and meet), and each entry's
/// range begins no earlier than some voted range and ends no later than some
/// voted range.
pub proof fn lemma_vote_lists_compressed(ivs: Seq<IntervalView>, vals: Seq<Triple>, round: Round, sender: Replica, echo2: bool)
    ensures
        good_list(add_votes_spec(ivs, vals, vals.len(), round, sender, echo2).1, vals, vals.len() as int),
        good_list(add_votes_spec(ivs, vals, vals.len(), round, sender, echo2).2, vals, vals.len() as int),
{
    lemma_votes_lists(ivs, vals, vals.len(), round, sender, echo2);
}

} // verus!
