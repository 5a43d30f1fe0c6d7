//! The transcript of a dealer's verifiable secret sharing, as far as its
//! checks read it: the dealer, the nodes whose signatures certify the public
//! share, and the ids of the supplementary shares that stand in for the nodes
//! that did not sign.

use vstd::prelude::*;
use vstd::set_lib::{set_int_range, lemma_int_range, lemma_subset_equality, lemma_set_disjoint_lens};
use crate::types::Replica;

verus! {

broadcast use vstd::seq_lib::seq_to_set_is_finite;

/// A transcript: its dealer `id`, the signers of its certificate (node ids
/// from `0`), and the ids of its supplementary shares (node ids from `1`).
pub struct Transcript {
    pub id: Replica,
    pub cert: Vec<Replica>,
    pub supple_ids: Vec<i32>,
}

/// The mathematical content of a [`Transcript`].
pub struct TranscriptView {
    pub id: Replica,
    pub cert: Seq<Replica>,
    pub supple_ids: Seq<i32>,
}

impl View for Transcript {
    type V = TranscriptView;

    open spec fn view(&self) -> TranscriptView {
        TranscriptView { id: self.id, cert: self.cert@, supple_ids: self.supple_ids@ }
    }
}

/// The ids of a transcript are consistent for `n` nodes: the signers are
/// distinct nodes below `n`, the supplementary shares have distinct ids from 1
/// to `n`, no signer (counted from 1) also has a supplementary share, and
/// together they number `n`.
pub open spec fn ids_valid(cert: Seq<Replica>, supple: Seq<i32>, n: usize) -> bool {
    &&& cert.no_duplicates()
    &&& forall|i: int| 0 <= i < cert.len() ==> #[trigger] cert[i] < n
    &&& supple.no_duplicates()
    &&& forall|j: int| 0 <= j < supple.len() ==> 1 <= #[trigger] supple[j] && supple[j] <= (n as i32)
    &&& forall|i: int| 0 <= i < cert.len() ==> !supple.contains(((#[trigger] cert[i] + 1) as i32))
    &&& cert.len() + supple.len() == n
}

/// The nodes, counted from 1, that a transcript accounts for: its signers
/// and the holders of its supplementary shares.
pub open spec fn accounted(cert: Seq<Replica>, supple: Seq<i32>) -> Set<int> {
    cert.map_values(|r: Replica| r + 1).to_set() + supple.map_values(|x: i32| x as int).to_set()
}

/// Whether `v` holds `x`.
fn contains_replica(v: &Vec<Replica>, k: usize, x: Replica) -> (b: bool)
    requires
        k <= v@.len(),
    ensures
        b == v@.subrange(0, k as int).contains(x),
{
    let mut i: usize = 0;
    while i < k
        invariant
            k <= v@.len(),
            i <= k,
            forall|j: int| 0 <= j < i ==> v@[j] != x,
        decreases k - i,
    {
        if v[i] == x {
            assert(v@.subrange(0, k as int)[i as int] == x);
            return true;
        }
        i = i + 1;
    }
    false
}

/// Whether the first `k` of `v` hold `x`.
fn contains_id(v: &Vec<i32>, k: usize, x: i32) -> (b: bool)
    requires
        k <= v@.len(),
    ensures
        b == v@.subrange(0, k as int).contains(x),
{
    let mut i: usize = 0;
    while i < k
        invariant
            k <= v@.len(),
            i <= k,
            forall|j: int| 0 <= j < i ==> v@[j] != x,
        decreases k - i,
    {
        if v[i] == x {
            assert(v@.subrange(0, k as int)[i as int] == x);
            return true;
        }
        i = i + 1;
    }
    false
}

/// A prefix of a sequence with no value twice, extended by a value not in it,
/// has no value twice.
proof fn lemma_prefix_no_dup<A>(s: Seq<A>, k: int)
    requires
        0 <= k < s.len(),
        s.subrange(0, k).no_duplicates(),
        !s.subrange(0, k).contains(s[k]),
    ensures
        s.subrange(0, k + 1).no_duplicates(),
{
    let t = s.subrange(0, k + 1);
    assert forall|x: int, y: int| 0 <= x < y < k + 1 implies #[trigger] t[x] != #[trigger] t[y] by {
        if y == k {
            assert(s.subrange(0, k)[x] == s[x]);
        } else {
            assert(s.subrange(0, k)[x] == s[x] && s.subrange(0, k)[y] == s[y]);
        }
    }
}

impl Transcript {
    /// Whether the ids of this transcript are consistent for `n` nodes.
    pub fn is_id_valid(&self, n: usize) -> (b: bool)
        ensures
            b == ids_valid(self.cert@, self.supple_ids@, n),
    {
        let c = &self.cert;
        let s = &self.supple_ids;
        let mut i: usize = 0;
        while i < c.len()
            invariant
                c@ == self.cert@,
                i <= c@.len(),
                c@.subrange(0, i as int).no_duplicates(),
                forall|j: int| 0 <= j < i ==> c@[j] < n,
            decreases c@.len() - i,
        {
            if c[i] >= n {
                assert(!(c@[i as int] < n));
                return false;
            }
            if contains_replica(c, i, c[i]) {
                proof {
                    let j = choose|j: int| 0 <= j < i && c@.subrange(0, i as int)[j] == c@[i as int];
                    assert(c@[j] == c@[i as int]);
                    assert(!c@.no_duplicates());
                }
                return false;
            }
            proof { lemma_prefix_no_dup(c@, i as int); }
            i = i + 1;
        }
        assert(c@.subrange(0, c@.len() as int) =~= c@);
        let mut j: usize = 0;
        while j < s.len()
            invariant
                s@ == self.supple_ids@,
                j <= s@.len(),
                s@.subrange(0, j as int).no_duplicates(),
                forall|k: int| 0 <= k < j ==> 1 <= s@[k] && s@[k] <= #[verifier::truncate] (n as i32),
            decreases s@.len() - j,
        {
            if s[j] < 1 || s[j] > #[verifier::truncate] (n as i32) {
                assert(!(1 <= s@[j as int] && s@[j as int] <= #[verifier::truncate] (n as i32)));
                return false;
            }
            if contains_id(s, j, s[j]) {
                proof {
                    let k = choose|k: int| 0 <= k < j && s@.subrange(0, j as int)[k] == s@[j as int];
                    assert(s@[k] == s@[j as int]);
                    assert(!s@.no_duplicates());
                }
                return false;
            }
            proof { lemma_prefix_no_dup(s@, j as int); }
            j = j + 1;
        }
        assert(s@.subrange(0, s@.len() as int) =~= s@);
        let mut k: usize = 0;
        while k < c.len()
            invariant
                c@ == self.cert@,
                s@ == self.supple_ids@,
                k <= c@.len(),
                forall|x: int| 0 <= x < c@.len() ==> c@[x] < n,
                forall|x: int| 0 <= x < k ==> !s@.contains(#[verifier::truncate] ((#[trigger] c@[x] + 1) as i32)),
            decreases c@.len() - k,
        {
            let t = #[verifier::truncate] ((c[k] + 1) as i32);
            if contains_id(s, s.len(), t) {
                assert(s@.subrange(0, s@.len() as int) =~= s@);
                assert(s@.contains(#[verifier::truncate] ((c@[k as int] + 1) as i32)));
                return false;
            }
            assert(s@.subrange(0, s@.len() as int) =~= s@);
            k = k + 1;
        }
        c.len() as u128 + s.len() as u128 == n as u128
    }

    /// Whether the transcript is valid for `n` nodes: its ids are consistent,
    /// `cert_ok[i]` (the `i`-th certificate signature verified under its
    /// signer's key) holds for every signer, and `shares_ok[j]` (the `j`-th
    /// supplementary share verified under its node's encryption key and the
    /// committed value) holds for every share.
    pub fn verify(&self, n: usize, cert_ok: &Vec<bool>, shares_ok: &Vec<bool>) -> (b: bool)
        requires
            cert_ok@.len() == self.cert@.len(),
            shares_ok@.len() == self.supple_ids@.len(),
        ensures
            b == (ids_valid(self.cert@, self.supple_ids@, n)
                && (forall|i: int| 0 <= i < cert_ok@.len() ==> cert_ok@[i])
                && (forall|j: int| 0 <= j < shares_ok@.len() ==> shares_ok@[j])),
    {
        if !self.is_id_valid(n) {
            return false;
        }
        let mut i: usize = 0;
        while i < cert_ok.len()
            invariant
                i <= cert_ok@.len(),
                forall|x: int| 0 <= x < i ==> cert_ok@[x],
            decreases cert_ok@.len() - i,
        {
            if !cert_ok[i] {
                return false;
            }
            i = i + 1;
        }
        let mut j: usize = 0;
        while j < shares_ok.len()
            invariant
                j <= shares_ok@.len(),
                forall|x: int| 0 <= x < j ==> shares_ok@[x],
            decreases shares_ok@.len() - j,
        {
            if !shares_ok[j] {
                return false;
            }
            j = j + 1;
        }
        true
    }

    /// A copy of the transcript.
    pub fn duplicate(&self) -> (t: Transcript)
        ensures
            t@ == self@,
    {
        Transcript {
            id: self.id,
            cert: crate::types::copy_replicas(&self.cert),
            supple_ids: copy_ids(&self.supple_ids),
        }
    }
}

/// A copy of a vector of share ids.
fn copy_ids(v: &Vec<i32>) -> (c: Vec<i32>)
    ensures
        c@ == v@,
{
    let mut c: Vec<i32> = Vec::new();
    let mut i: usize = 0;
    while i < v.len()
        invariant
            i <= v@.len(),
            c@ == v@.subrange(0, i as int),
        decreases v@.len() - i,
    {
        c.push(v[i]);
        i = i + 1;
        assert(c@ =~= v@.subrange(0, i as int));
    }
    assert(v@.subrange(0, v@.len() as int) =~= v@);
    c
}

/// A transcript with consistent ids for `n` nodes accounts for every node
/// exactly once: its signers (counted from 1) and its supplementary shares
/// are disjoint and together are the nodes 1 to `n`.
pub proof fn lemma_valid_ids_cover_all(cert: Seq<Replica>, supple: Seq<i32>, n: usize)
    requires
        ids_valid(cert, supple, n),
        n <= i32::MAX,
    ensures
        accounted(cert, supple) == set_int_range(1, n + 1),
        cert.map_values(|r: Replica| r + 1).to_set().disjoint(supple.map_values(|x: i32| x as int).to_set()),
{
    let cs = cert.map_values(|r: Replica| r + 1);
    let ss = supple.map_values(|x: i32| x as int);
    let a = cs.to_set();
    let b = ss.to_set();
    let range = set_int_range(1, n + 1);
    assert(cs.no_duplicates()) by {
        assert forall|x: int, y: int| 0 <= x < y < cs.len() implies cs[x] != cs[y] by {
            assert(cert[x] != cert[y]);
        }
    }
    assert(ss.no_duplicates()) by {
        assert forall|x: int, y: int| 0 <= x < y < ss.len() implies ss[x] != ss[y] by {
            assert(supple[x] != supple[y]);
        }
    }
    cs.unique_seq_to_set();
    ss.unique_seq_to_set();
    assert(a.disjoint(b)) by {
        assert forall|v: int| a.contains(v) implies !b.contains(v) by {
            let i = choose|i: int| 0 <= i < cs.len() && cs[i] == v;
            if b.contains(v) {
                let j = choose|j: int| 0 <= j < ss.len() && ss[j] == v;
                assert(((cert[i] + 1) as i32) == supple[j]);
                assert(supple[j] == supple[j]);
                assert(supple.contains(supple[j]));
                assert(!supple.contains(((cert[i] + 1) as i32)));
            }
        }
    }
    lemma_set_disjoint_lens(a, b);
    lemma_int_range(1, n + 1);
    assert((a + b).subset_of(range)) by {
        assert forall|v: int| (a + b).contains(v) implies range.contains(v) by {
            if a.contains(v) {
                let i = choose|i: int| 0 <= i < cs.len() && cs[i] == v;
                assert(cert[i] < n);
            } else {
                let j = choose|j: int| 0 <= j < ss.len() && ss[j] == v;
                assert(1 <= supple[j] && supple[j] <= (n as i32));
            }
        }
    }
    lemma_subset_equality(a + b, range);
}

} // verus!
