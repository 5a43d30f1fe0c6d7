//! The choice of the ACS leaders from a common coin, and the search for a
//! full set of transcripts.

use std::collections::HashMap;
use rand::SeedableRng;
use rand::seq::SliceRandom;
use rand::rngs::StdRng;
use vstd::prelude::*;
use vstd::std_specs::iter::IteratorSpec;
use crate::types::{Replica, NodeSet};
use crate::dkg::trans::{Transcript, TranscriptView};

verus! {

broadcast use {vstd::std_specs::hash::group_hash_axioms, vstd::seq_lib::group_to_multiset_ensures};

/// The order in which `rand`'s `SliceRandom::shuffle`, driven by a `StdRng`
/// made with `StdRng::seed_from_u64(seed)`, leaves `nums`.
pub uninterp spec fn seeded_shuffle(nums: Seq<usize>, seed: u64) -> Seq<usize>;

/// Shuffles `nums` with `rand`'s `SliceRandom::shuffle`, driven by a
/// `StdRng` seeded by `StdRng::seed_from_u64(seed)`. The result is named by
/// `seeded_shuffle`; since the shuffle only swaps elements (rand's source:
/// one swap per position, from the last down), the result holds the same
/// values as `nums`, each as often.
#[verifier::external_body]
fn shuffle_seeded(nums: Vec<usize>, seed: u64) -> (r: Vec<usize>)
    ensures
        r@ == seeded_shuffle(nums@, seed),
        r@.to_multiset() == nums@.to_multiset(),
{
    let mut nums = nums;
    let mut rng = StdRng::seed_from_u64(seed);
    nums.shuffle(&mut rng);
    nums
}

/// The numbers `0` to `n - 1` in order.
pub open spec fn upto(n: nat) -> Seq<usize> {
    Seq::new(n, |i: int| i as usize)
}

/// The leaders chosen from the coin `seed` among `n` nodes: the first
/// `kappa` nodes of the shuffle of `0..n` seeded by the low 64 bits of `seed`.
pub open spec fn selected(n: usize, kappa: usize, seed: u128) -> Set<usize> {
    seeded_shuffle(upto(n as nat), seed as u64).take(kappa as int).to_set()
}

/// Chooses `kappa` of the `n` nodes from the common coin `seed`.
pub fn select_set(n: usize, kappa: usize, seed: u128) -> (s: NodeSet)
    requires
        kappa <= n,
    ensures
        s.wf(),
        s@ == selected(n, kappa, seed),
        s@.len() == kappa,
        forall|x: usize| s@.contains(x) ==> x < n,
{
    let seed_u64 = #[verifier::truncate] (seed as u64);
    let mut nums: Vec<usize> = Vec::new();
    let mut i: usize = 0;
    while i < n
        invariant
            i <= n,
            nums@ == upto(i as nat),
        decreases n - i,
    {
        nums.push(i);
        i = i + 1;
        assert(nums@ =~= upto(i as nat));
    }
    let ghost orig = nums@;
    let shuffled = shuffle_seeded(nums, seed_u64);
    proof {
        assert(orig.no_duplicates());
        orig.lemma_multiset_has_no_duplicates();
        shuffled@.lemma_multiset_has_no_duplicates_conv();
        assert(shuffled@.len() == shuffled@.to_multiset().len());
        assert(orig.len() == orig.to_multiset().len());
    }
    let mut s = NodeSet::new();
    let mut j: usize = 0;
    while j < kappa
        invariant
            j <= kappa,
            kappa <= n,
            shuffled@.len() == n,
            shuffled@.no_duplicates(),
            shuffled@.to_multiset() == orig.to_multiset(),
            orig == upto(n as nat),
            s.wf(),
            s@ == shuffled@.take(j as int).to_set(),
            s@.len() == j,
        decreases kappa - j,
    {
        proof { s.lemma_finite(); }
        let x = shuffled[j];
        assert(!s@.contains(x)) by {
            if s@.contains(x) {
                let k = choose|k: int| 0 <= k < j && shuffled@.take(j as int)[k] == x;
                assert(shuffled@[k] == shuffled@[j as int]);
            }
        }
        s.insert(x);
        proof { s.lemma_finite(); }
        assert(s@ =~= shuffled@.take(j + 1).to_set()) by {
            assert(shuffled@.take(j + 1) =~= shuffled@.take(j as int).push(x));
            assert forall|y: usize| shuffled@.take(j as int).push(x).to_set().contains(y)
                <==> (shuffled@.take(j as int).to_set().contains(y) || y == x) by {
                if shuffled@.take(j as int).push(x).to_set().contains(y) {
                    let k = choose|k: int| 0 <= k < j + 1 && shuffled@.take(j as int).push(x)[k] == y;
                    if k < j {
                        assert(shuffled@.take(j as int)[k] == y);
                    }
                }
                if shuffled@.take(j as int).to_set().contains(y) {
                    let k = choose|k: int| 0 <= k < j && shuffled@.take(j as int)[k] == y;
                    assert(shuffled@.take(j as int).push(x)[k] == y);
                }
                if y == x {
                    assert(shuffled@.take(j as int).push(x)[j as int] == y);
                }
            }
        }
        j = j + 1;
    }
    assert forall|x: usize| s@.contains(x) implies x < n by {
        let k = choose|k: int| 0 <= k < kappa && shuffled@.take(kappa as int)[k] == x;
        assert(shuffled@.contains(x));
        assert(orig.to_multiset().count(x) > 0);
        assert(orig.contains(x));
    }
    s
}

/// The transcripts as pairs of sender and content.
pub open spec fn entries_view(v: Seq<(Replica, Transcript)>) -> Seq<(Replica, TranscriptView)> {
    v.map_values(|e: (Replica, Transcript)| (e.0, e.1@))
}

/// Every buffered transcript once, with its sender, in some order.
pub open spec fn lists_all(v: Seq<(Replica, TranscriptView)>, m: Map<Replica, TranscriptView>) -> bool {
    &&& v.map_values(|e: (Replica, TranscriptView)| e.0).no_duplicates()
    &&& v.map_values(|e: (Replica, TranscriptView)| e.0).to_set() == m.dom()
    &&& forall|i: int| 0 <= i < v.len() ==> m[(#[trigger] v[i]).0] == v[i].1
}

/// The keys of a map, each once, in the map's order.
pub fn keys_of<V>(m: &HashMap<Replica, V>) -> (v: Vec<Replica>)
    ensures
        v@.to_set() == m@.dom(),
        v@.no_duplicates(),
{
    let ghost rem = m.keys().remaining();
    let mut v: Vec<Replica> = Vec::new();
    for k in it: m.keys()
        invariant
            it.seq() == rem,
            v@ == it.seq().subrange(0, it.index() as int).unref(),
    {
        v.push(*k);
        assert(v@ =~= it.seq().subrange(0, it.index() + 1).unref());
    }
    assert(v@ =~= rem.unref());
    v
}

/// All buffered transcripts with their senders once there are exactly `t`
/// of them; `None` otherwise. The order is that of the map.
pub fn find_t_transcripts(map: &HashMap<Replica, Transcript>, t: usize) -> (r: Option<Vec<(Replica, Transcript)>>)
    ensures
        r is Some <==> map@.len() == t,
        r is Some ==> lists_all(entries_view(r->0@), map@.map_values(|x: Transcript| x@)),
{
    if map.len() != t {
        return None;
    }
    let ks = keys_of(map);
    let ghost mv = map@.map_values(|x: Transcript| x@);
    let mut res: Vec<(Replica, Transcript)> = Vec::new();
    let mut i: usize = 0;
    while i < ks.len()
        invariant
            i <= ks@.len(),
            ks@.to_set() == map@.dom(),
            mv == map@.map_values(|x: Transcript| x@),
            res@.len() == i,
            forall|j: int| 0 <= j < i ==> (#[trigger] res@[j]).0 == ks@[j] && res@[j].1@ == mv[ks@[j]],
        decreases ks@.len() - i,
    {
        let k = ks[i];
        assert(ks@.to_set().contains(k));
        let tr = map.get(&k).unwrap();
        res.push((k, tr.duplicate()));
        i = i + 1;
    }
    proof {
        let ev = entries_view(res@);
        assert(ev.map_values(|e: (Replica, TranscriptView)| e.0) =~= ks@);
        assert forall|j: int| 0 <= j < ev.len() implies mv[(#[trigger] ev[j]).0] == ev[j].1 by {
            assert(res@[j].0 == ks@[j]);
        }
        assert(mv.dom() =~= map@.dom());
        assert(lists_all(ev, mv));
    }
    Some(res)
}

} // verus!
