//! The dealer's side of the key generation: which nodes its transcript must
//! cover with supplementary shares.

use vstd::prelude::*;
use vstd::set_lib::{set_int_range, lemma_int_range};
use crate::types::Replica;
use crate::dkg::trans::ids_valid;
use crate::fin::context::seen_before;

verus! {

broadcast use vstd::seq_lib::seq_to_set_is_finite;

/// The nodes below `k` that did not sign, in increasing order.
pub open spec fn missing(cert: Seq<Replica>, k: nat) -> Seq<Replica>
    decreases k,
{
    if k == 0 {
        Seq::empty()
    } else {
        let p = missing(cert, (k - 1) as nat);
        if cert.contains((k - 1) as Replica) { p } else { p.push((k - 1) as Replica) }
    }
}

/// The ids (counted from 1) of the supplementary shares for the nodes that
/// did not sign; a node whose id does not fit in an `i32` has none.
pub open spec fn supple_ids_for(m: Seq<Replica>) -> Seq<i32>
    decreases m.len(),
{
    if m.len() == 0 {
        Seq::empty()
    } else {
        let p = supple_ids_for(m.drop_last());
        if m.last() + 1 <= i32::MAX { p.push((m.last() + 1) as i32) } else { p }
    }
}

/// The nodes among the first `n` that did not sign the certificate.
pub fn find_missing_replicas(cert: &Vec<Replica>, n: usize) -> (r: Vec<Replica>)
    ensures
        r@ == missing(cert@, n as nat),
{
    let mut r: Vec<Replica> = Vec::new();
    let mut i: usize = 0;
    while i < n
        invariant
            i <= n,
            r@ == missing(cert@, i as nat),
        decreases n - i,
    {
        let mut signed = false;
        let mut j: usize = 0;
        while j < cert.len()
            invariant
                j <= cert@.len(),
                signed == seen_before(cert@, j as int, i),
            decreases cert@.len() - j,
        {
            if cert[j] == i {
                signed = true;
            }
            proof {
                assert(seen_before(cert@, j + 1, i) == (seen_before(cert@, j as int, i) || cert@[j as int] == i)) by {
                    if cert@[j as int] == i {
                        assert(cert@[j as int] == i);
                    }
                }
            }
            j = j + 1;
        }
        proof {
            assert(signed == cert@.contains(i)) by {
                if cert@.contains(i) {
                    let q = choose|q: int| 0 <= q < cert@.len() && cert@[q] == i;
                    assert(cert@[q] == i);
                }
            }
        }
        if !signed {
            r.push(i);
        }
        i = i + 1;
    }
    r
}

/// The supplementary-share ids for the nodes that did not sign.
pub fn supple_ids(m: &Vec<Replica>) -> (r: Vec<i32>)
    ensures
        r@ == supple_ids_for(m@),
{
    let mut r: Vec<i32> = Vec::new();
    let mut i: usize = 0;
    while i < m.len()
        invariant
            i <= m@.len(),
            r@ == supple_ids_for(m@.subrange(0, i as int)),
        decreases m@.len() - i,
    {
        assert(m@.subrange(0, i + 1).drop_last() =~= m@.subrange(0, i as int));
        if m[i] < i32::MAX as usize {
            r.push((m[i] + 1) as i32);
        }
        i = i + 1;
    }
    assert(m@.subrange(0, m@.len() as int) =~= m@);
    r
}

proof fn lemma_missing_facts(cert: Seq<Replica>, k: nat)
    requires
        k <= usize::MAX,
    ensures
        forall|i: int| 0 <= i < missing(cert, k).len() ==> #[trigger] missing(cert, k)[i] < k && !cert.contains(missing(cert, k)[i]),
        forall|i: int, j: int| 0 <= i < j < missing(cert, k).len() ==> #[trigger] missing(cert, k)[i] < #[trigger] missing(cert, k)[j],
        forall|x: Replica| x < k && !cert.contains(x) ==> #[trigger] missing(cert, k).contains(x),
    decreases k,
{
    if k > 0 {
        lemma_missing_facts(cert, (k - 1) as nat);
        let p = missing(cert, (k - 1) as nat);
        assert forall|x: Replica| x < k && !cert.contains(x) implies #[trigger] missing(cert, k).contains(x) by {
            if x < k - 1 {
                assert(p.contains(x));
                let q = choose|q: int| 0 <= q < p.len() && p[q] == x;
                assert(missing(cert, k)[q] == x);
            } else {
                assert(missing(cert, k)[p.len() as int] == x);
            }
        }
    }
}

proof fn lemma_supple_ids_small(m: Seq<Replica>)
    requires
        forall|i: int| 0 <= i < m.len() ==> #[trigger] m[i] + 1 <= i32::MAX,
    ensures
        supple_ids_for(m) == m.map_values(|r: Replica| (r + 1) as i32),
    decreases m.len(),
{
    if m.len() > 0 {
        lemma_supple_ids_small(m.drop_last());
        assert(m.drop_last().map_values(|r: Replica| (r + 1) as i32).push((m.last() + 1) as i32)
            =~= m.map_values(|r: Replica| (r + 1) as i32));
    }
}

/// A transcript whose certificate lists distinct nodes below `n`, completed
/// with supplementary shares for the nodes that did not sign, has ids that
/// pass the transcript check for `n` nodes.
pub proof fn lemma_generated_ids_valid(cert: Seq<Replica>, n: usize)
    requires
        cert.no_duplicates(),
        forall|i: int| 0 <= i < cert.len() ==> #[trigger] cert[i] < n,
        n < i32::MAX,
    ensures
        ids_valid(cert, supple_ids_for(missing(cert, n as nat)), n),
{
    let m = missing(cert, n as nat);
    lemma_missing_facts(cert, n as nat);
    lemma_supple_ids_small(m);
    let s = supple_ids_for(m);
    assert(s.no_duplicates()) by {
        assert forall|i: int, j: int| 0 <= i < j < s.len() implies s[i] != s[j] by {
            assert(m[i] < m[j]);
        }
    }
    assert forall|j: int| 0 <= j < s.len() implies 1 <= #[trigger] s[j] && s[j] <= (n as i32) by {
        assert(m[j] < n);
    }
    assert forall|i: int| 0 <= i < cert.len() implies !s.contains(((#[trigger] cert[i] + 1) as i32)) by {
        if s.contains(((cert[i] + 1) as i32)) {
            let j = choose|j: int| 0 <= j < s.len() && s[j] == ((cert[i] + 1) as i32);
            assert(m[j] == cert[i]);
            assert(cert.contains(m[j]));
        }
    }
    // The signers and the missing nodes split the nodes below n.
    let ca = cert.map_values(|r: Replica| r as int);
    let mb = m.map_values(|r: Replica| r as int);
    let a = ca.to_set();
    let b = mb.to_set();
    let range = set_int_range(0, n as int);
    assert(ca.no_duplicates()) by {
        assert forall|i: int, j: int| 0 <= i < j < ca.len() implies #[trigger] ca[i] != #[trigger] ca[j] by {
            assert(cert[i] != cert[j]);
        }
    }
    assert(mb.no_duplicates()) by {
        assert forall|i: int, j: int| 0 <= i < j < mb.len() implies #[trigger] mb[i] != #[trigger] mb[j] by {
            assert(m[i] < m[j]);
        }
    }
    ca.unique_seq_to_set();
    mb.unique_seq_to_set();
    lemma_int_range(0, n as int);
    assert(a.disjoint(b)) by {
        assert forall|v: int| a.contains(v) implies !b.contains(v) by {
            let i = choose|i: int| 0 <= i < cert.len() && ca[i] == v;
            if b.contains(v) {
                let j = choose|j: int| 0 <= j < m.len() && mb[j] == v;
                assert(m[j] == cert[i]);
                assert(cert.contains(cert[i]));
            }
        }
    }
    assert((a + b) =~= range) by {
        assert forall|v: int| range.contains(v) implies (a + b).contains(v) by {
            let x = v as Replica;
            if cert.contains(x) {
                let i = choose|i: int| 0 <= i < cert.len() && cert[i] == x;
                assert(ca[i] == v);
            } else {
                assert(m.contains(x));
                let j = choose|j: int| 0 <= j < m.len() && m[j] == x;
                assert(mb[j] == v);
            }
        }
        assert forall|v: int| (a + b).contains(v) implies range.contains(v) by {
            if a.contains(v) {
                let i = choose|i: int| 0 <= i < cert.len() && ca[i] == v;
                assert(cert[i] < n);
            } else {
                let j = choose|j: int| 0 <= j < m.len() && mb[j] == v;
                assert(m[j] < n);
            }
        }
    }
    vstd::set_lib::lemma_set_disjoint_lens(a, b);
}

} // verus!
