//! The decisions of a node of the key generation. The shares, signatures and
//! keys themselves stay with the caller; the node keeps which of them it
//! holds, and asks for the work on them.

use vstd::prelude::*;
use crate::types::{Replica, NodeSet};
use crate::dkg::trans::{Transcript, TranscriptView};
use crate::fin::context::seen_before;

verus! {

/// What the node asks of the caller.
#[derive(Copy, Clone, Debug, PartialEq, Eq, Structural)]
pub enum DkgAction {
    /// Keep the sender's private share until its public share arrives.
    BufferShare(Replica),
    /// Keep the sender's public share.
    StorePublicShare(Replica),
    /// Check this node's private share from the sender against the sender's
    /// public share, and sign the public share if it is valid.
    VerifyShare(Replica),
    /// Form this node's transcript once the waiting time is over.
    GenTranscript,
    /// Reconstruct the threshold public key from the shares received.
    Reconstruct,
}

/// The state of a key-generation node: the senders whose public shares it
/// holds, those whose private shares wait for their public shares, the
/// signers of its own public share, and the senders of public-key shares.
pub struct DkgNode {
    pub myid: Replica,
    pub num_nodes: usize,
    pub num_faults: usize,
    pub pub_shares: NodeSet,
    pub unvalidated_shares: NodeSet,
    pub certificate: NodeSet,
    pub own_transcript: bool,
    pub counting_down: bool,
    pub th_pk_shares: NodeSet,
    pub th_pk_known: bool,
}

/// The mathematical content of a [`DkgNode`].
pub struct DkgView {
    pub myid: Replica,
    pub num_nodes: usize,
    pub num_faults: usize,
    pub pub_shares: Set<Replica>,
    pub unvalidated_shares: Set<Replica>,
    pub certificate: Set<Replica>,
    pub own_transcript: bool,
    pub counting_down: bool,
    pub th_pk_shares: Set<Replica>,
    pub th_pk_known: bool,
}

impl View for DkgNode {
    type V = DkgView;

    open spec fn view(&self) -> DkgView {
        DkgView {
            myid: self.myid,
            num_nodes: self.num_nodes,
            num_faults: self.num_faults,
            pub_shares: self.pub_shares@,
            unvalidated_shares: self.unvalidated_shares@,
            certificate: self.certificate@,
            own_transcript: self.own_transcript,
            counting_down: self.counting_down,
            th_pk_shares: self.th_pk_shares@,
            th_pk_known: self.th_pk_known,
        }
    }
}

/// A private share from `s`: checked at once if the sender's public share is
/// here, kept (the first one only) otherwise.
pub open spec fn private_share_spec(c: DkgView, s: Replica) -> (DkgView, Seq<DkgAction>) {
    if c.pub_shares.contains(s) {
        (c, seq![DkgAction::VerifyShare(s)])
    } else if c.unvalidated_shares.contains(s) {
        (c, Seq::empty())
    } else {
        (DkgView { unvalidated_shares: c.unvalidated_shares.insert(s), ..c }, seq![DkgAction::BufferShare(s)])
    }
}

/// A public share from `s`, which passed its norm check when `valid`: the
/// first valid one is kept, and a private share waiting for it is checked.
pub open spec fn public_share_spec(c: DkgView, s: Replica, valid: bool) -> (DkgView, Seq<DkgAction>) {
    if !valid {
        (c, Seq::empty())
    } else {
        let store: Seq<DkgAction> = if c.pub_shares.contains(s) { Seq::empty() } else { seq![DkgAction::StorePublicShare(s)] };
        let c1 = DkgView { pub_shares: c.pub_shares.insert(s), ..c };
        if c.unvalidated_shares.contains(s) {
            (DkgView { unvalidated_shares: c.unvalidated_shares.remove(s), ..c1 }, store.push(DkgAction::VerifyShare(s)))
        } else {
            (c1, store)
        }
    }
}

/// A signature of `s` on this node's public share, which verified when
/// `sig_ok`: once `2f + 1` nodes signed, the transcript is formed. Nothing
/// happens once this node's transcript is formed.
pub open spec fn reply_spec(c: DkgView, s: Replica, sig_ok: bool) -> (DkgView, Seq<DkgAction>) {
    if c.own_transcript || !sig_ok {
        (c, Seq::empty())
    } else {
        let cert = c.certificate.insert(s);
        (DkgView { certificate: cert, ..c },
            if cert.len() >= 2 * c.num_faults + 1 && !c.counting_down { seq![DkgAction::GenTranscript] } else { Seq::empty() })
    }
}

/// A share of the threshold public key from `s`: with `n - f` shares the key
/// is reconstructed. Nothing happens once the key is known.
pub open spec fn pk_share_spec(c: DkgView, s: Replica) -> (DkgView, Seq<DkgAction>) {
    if c.th_pk_known {
        (c, Seq::empty())
    } else {
        let sh = c.th_pk_shares.insert(s);
        (DkgView { th_pk_shares: sh, ..c }, if sh.len() >= c.num_nodes - c.num_faults { seq![DkgAction::Reconstruct] } else { Seq::empty() })
    }
}

impl DkgNode {
    pub open spec fn wf(&self) -> bool {
        &&& self.num_faults < self.num_nodes
        &&& self.pub_shares.wf()
        &&& self.unvalidated_shares.wf()
        &&& self.certificate.wf()
        &&& self.th_pk_shares.wf()
    }

    /// A node that has received nothing.
    pub fn new(myid: Replica, num_nodes: usize, num_faults: usize) -> (c: DkgNode)
        requires
            num_faults < num_nodes,
        ensures
            c.wf(),
            c@ == (DkgView {
                myid, num_nodes, num_faults,
                pub_shares: Set::empty(),
                unvalidated_shares: Set::empty(),
                certificate: Set::empty(),
                own_transcript: false,
                counting_down: false,
                th_pk_shares: Set::empty(),
                th_pk_known: false,
            }),
    {
        DkgNode {
            myid, num_nodes, num_faults,
            pub_shares: NodeSet::new(),
            unvalidated_shares: NodeSet::new(),
            certificate: NodeSet::new(),
            own_transcript: false,
            counting_down: false,
            th_pk_shares: NodeSet::new(),
            th_pk_known: false,
        }
    }

    /// Handles a private share from `sender`.
    pub fn private_share(&mut self, sender: Replica) -> (acts: Vec<DkgAction>)
        requires
            old(self).wf(),
        ensures
            final(self).wf(),
            (final(self)@, acts@) == private_share_spec(old(self)@, sender),
    {
        let mut acts: Vec<DkgAction> = Vec::new();
        if self.pub_shares.contains(sender) {
            acts.push(DkgAction::VerifyShare(sender));
        } else if !self.unvalidated_shares.contains(sender) {
            self.unvalidated_shares.insert(sender);
            acts.push(DkgAction::BufferShare(sender));
        }
        assert(acts@ =~= private_share_spec(old(self)@, sender).1);
        acts
    }

    /// Handles a public share from `sender`; `valid` tells whether it passed
    /// its norm check.
    pub fn public_share(&mut self, sender: Replica, valid: bool) -> (acts: Vec<DkgAction>)
        requires
            old(self).wf(),
        ensures
            final(self).wf(),
            (final(self)@, acts@) == public_share_spec(old(self)@, sender, valid),
    {
        let mut acts: Vec<DkgAction> = Vec::new();
        if !valid {
            assert(acts@ =~= Seq::<DkgAction>::empty());
            return acts;
        }
        if self.pub_shares.insert(sender) {
            acts.push(DkgAction::StorePublicShare(sender));
        }
        if self.unvalidated_shares.remove(sender) {
            acts.push(DkgAction::VerifyShare(sender));
        } else {
            assert(old(self)@.unvalidated_shares.remove(sender) =~= old(self)@.unvalidated_shares);
        }
        assert(acts@ =~= public_share_spec(old(self)@, sender, valid).1);
        acts
    }

    /// Handles a signature of `sender` on this node's public share; `sig_ok`
    /// tells whether it verified under the sender's key.
    pub fn reply(&mut self, sender: Replica, sig_ok: bool) -> (acts: Vec<DkgAction>)
        requires
            old(self).wf(),
            2 * old(self).num_faults + 1 <= usize::MAX,
        ensures
            final(self).wf(),
            (final(self)@, acts@) == reply_spec(old(self)@, sender, sig_ok),
    {
        let mut acts: Vec<DkgAction> = Vec::new();
        if self.own_transcript || !sig_ok {
            assert(acts@ =~= Seq::<DkgAction>::empty());
            return acts;
        }
        self.certificate.insert(sender);
        proof { self.certificate.lemma_finite(); }
        if self.certificate.len() >= 2 * self.num_faults + 1 && !self.counting_down {
            acts.push(DkgAction::GenTranscript);
        }
        assert(acts@ =~= reply_spec(old(self)@, sender, sig_ok).1);
        acts
    }

    /// Handles a share of the threshold public key from `sender`.
    pub fn pk_share(&mut self, sender: Replica) -> (acts: Vec<DkgAction>)
        requires
            old(self).wf(),
        ensures
            final(self).wf(),
            (final(self)@, acts@) == pk_share_spec(old(self)@, sender),
    {
        let mut acts: Vec<DkgAction> = Vec::new();
        if self.th_pk_known {
            assert(acts@ =~= Seq::<DkgAction>::empty());
            return acts;
        }
        self.th_pk_shares.insert(sender);
        proof { self.th_pk_shares.lemma_finite(); }
        if self.th_pk_shares.len() >= self.num_nodes - self.num_faults {
            acts.push(DkgAction::Reconstruct);
        }
        assert(acts@ =~= pk_share_spec(old(self)@, sender).1);
        acts
    }
}

/// The views of transcripts.
pub open spec fn trans_views(v: Seq<Transcript>) -> Seq<TranscriptView> {
    v.map_values(|t: Transcript| t@)
}

/// The transcripts whose check passed (`checks[i]` for the `i`-th), in order.
pub open spec fn passed(ts: Seq<TranscriptView>, checks: Seq<bool>) -> Seq<TranscriptView>
    decreases ts.len(),
{
    if ts.len() == 0 {
        Seq::empty()
    } else {
        let p = passed(ts.drop_last(), checks);
        if checks[ts.len() - 1] { p.push(ts.last()) } else { p }
    }
}

/// The transcripts of the agreed set that verified, in order.
pub fn decided_transcripts(res: &Vec<Transcript>, checks: &Vec<bool>) -> (d: Vec<Transcript>)
    requires
        checks@.len() == res@.len(),
    ensures
        d@.map_values(|t: Transcript| t@) == passed(res@.map_values(|t: Transcript| t@), checks@),
{
    let ghost tv = res@.map_values(|t: Transcript| t@);
    let mut d: Vec<Transcript> = Vec::new();
    let mut i: usize = 0;
    while i < res.len()
        invariant
            i <= res@.len(),
            checks@.len() == res@.len(),
            tv == res@.map_values(|t: Transcript| t@),
            d@.map_values(|t: Transcript| t@) == passed(tv.subrange(0, i as int), checks@),
        decreases res@.len() - i,
    {
        assert(tv.subrange(0, i + 1).drop_last() =~= tv.subrange(0, i as int));
        let ghost before = d@.map_values(|t: Transcript| t@);
        if checks[i] {
            let t = res[i].duplicate();
            d.push(t);
            assert(d@.map_values(|t: Transcript| t@) =~= before.push(tv[i as int]));
        }
        i = i + 1;
    }
    assert(tv.subrange(0, res@.len() as int) =~= tv);
    d
}

/// The position of the first supplementary share with id `x`.
pub open spec fn first_pos(s: Seq<i32>, x: i32, j: int) -> bool {
    0 <= j < s.len() && s[j] == x && forall|k: int| 0 <= k < j ==> s[k] != x
}

/// The decided transcripts whose supplementary share for this node must be
/// decrypted: the first transcript of each dealer that has no validated
/// share yet.
pub open spec fn needs_decrypt(ts: Seq<TranscriptView>, validated: Set<Replica>, i: int) -> bool {
    !validated.contains(ts[i].id) && !seen_before(ts.map_values(|t: TranscriptView| t.id), i, ts[i].id)
}

/// The work of the supplementary shares after agreement: for each decided
/// transcript that `needs_decrypt`, its position and the position of this
/// node's supplementary share (id `myid + 1`) in it, in order.
pub fn shares_to_decrypt(decided: &Vec<Transcript>, validated: &NodeSet, myid: Replica) -> (r: Vec<(usize, usize)>)
    requires
        validated.wf(),
        myid < i32::MAX,
        forall|i: int| 0 <= i < decided@.len() ==> needs_decrypt(trans_views(decided@), validated@, i)
            ==> (#[trigger] decided@[i]).supple_ids@.contains((myid + 1) as i32),
    ensures
        forall|k: int| 0 <= k < r@.len() ==> {
            let (i, j) = #[trigger] r@[k];
            &&& i < decided@.len()
            &&& needs_decrypt(trans_views(decided@), validated@, i as int)
            &&& first_pos(decided@[i as int].supple_ids@, (myid + 1) as i32, j as int)
        },
        forall|k: int, l: int| 0 <= k < l < r@.len() ==> (#[trigger] r@[k]).0 < (#[trigger] r@[l]).0,
        forall|i: int| 0 <= i < decided@.len() && #[trigger] needs_decrypt(trans_views(decided@), validated@, i)
            ==> exists|k: int| 0 <= k < r@.len() && (#[trigger] r@[k]).0 == i,
{
    let ghost tv = trans_views(decided@);
    let ghost ids = tv.map_values(|t: TranscriptView| t.id);
    let me = (myid + 1) as i32;
    let mut seen: Vec<Replica> = Vec::new();
    let mut r: Vec<(usize, usize)> = Vec::new();
    let mut i: usize = 0;
    while i < decided.len()
        invariant
            i <= decided@.len(),
            tv == trans_views(decided@),
            ids == tv.map_values(|t: TranscriptView| t.id),
            validated.wf(),
            me == (myid + 1) as i32,
            forall|q: int| 0 <= q < decided@.len() ==> needs_decrypt(tv, validated@, q)
                ==> (#[trigger] decided@[q]).supple_ids@.contains(me),
            seen@ == ids.subrange(0, i as int),
            forall|k: int| 0 <= k < r@.len() ==> {
                let (a, b) = #[trigger] r@[k];
                &&& a < i
                &&& needs_decrypt(tv, validated@, a as int)
                &&& first_pos(decided@[a as int].supple_ids@, me, b as int)
            },
            forall|k: int, l: int| 0 <= k < l < r@.len() ==> (#[trigger] r@[k]).0 < (#[trigger] r@[l]).0,
            forall|q: int| 0 <= q < i && #[trigger] needs_decrypt(tv, validated@, q) ==> exists|k: int| 0 <= k < r@.len() && (#[trigger] r@[k]).0 == q,
        decreases decided@.len() - i,
    {
        let id = decided[i].id;
        assert(ids[i as int] == id);
        let mut dup = false;
        let mut k: usize = 0;
        while k < seen.len()
            invariant
                k <= seen@.len(),
                seen@ == ids.subrange(0, i as int),
                i < ids.len(),
                dup == seen_before(ids, k as int, id),
            decreases seen@.len() - k,
        {
            if seen[k] == id {
                dup = true;
            }
            proof {
                assert(seen@[k as int] == ids[k as int]);
                assert(seen_before(ids, k + 1, id) == (seen_before(ids, k as int, id) || ids[k as int] == id)) by {
                    if ids[k as int] == id { assert(ids[k as int] == id); }
                }
            }
            k = k + 1;
        }
        let need = !validated.contains(id) && !dup;
        assert(need == needs_decrypt(tv, validated@, i as int));
        if need {
            let s = &decided[i].supple_ids;
            assert(s@.contains(me));
            let mut j: usize = 0;
            while j < s.len() && s[j] != me
                invariant
                    j <= s@.len(),
                    s@.contains(me),
                    forall|q: int| 0 <= q < j ==> s@[q] != me,
                decreases s@.len() - j,
            {
                j = j + 1;
            }
            if j == s.len() {
                proof {
                    let q = choose|q: int| 0 <= q < s@.len() && s@[q] == me;
                    assert(s@[q] != me);
                }
            }
            let ghost before = r@;
            r.push((i, j));
            proof {
                assert(r@[before.len() as int] == (i, j));
                assert forall|q: int| 0 <= q < i + 1 && #[trigger] needs_decrypt(tv, validated@, q) implies exists|k: int| 0 <= k < r@.len() && (#[trigger] r@[k]).0 == q by {
                    if q < i {
                        let k = choose|k: int| 0 <= k < before.len() && (#[trigger] before[k]).0 == q;
                        assert(r@[k] == before[k]);
                    } else {
                        assert(r@[before.len() as int].0 == q);
                    }
                }
                assert forall|k: int| 0 <= k < r@.len() implies ({
                    let (a, b) = #[trigger] r@[k];
                    &&& a < i + 1
                    &&& needs_decrypt(tv, validated@, a as int)
                    &&& first_pos(decided@[a as int].supple_ids@, me, b as int)
                }) by {
                    if k < before.len() {
                        assert(r@[k] == before[k]);
                    }
                }
                assert forall|k: int, l: int| 0 <= k < l < r@.len() implies (#[trigger] r@[k]).0 < (#[trigger] r@[l]).0 by {
                    assert(r@[k] == before[k] || k == before.len());
                    if l < before.len() {
                        assert(r@[l] == before[l]);
                        assert(r@[k] == before[k]);
                    } else {
                        assert(r@[k] == before[k]);
                    }
                }
            }
        }
        seen.push(id);
        assert(seen@ =~= ids.subrange(0, i + 1));
        i = i + 1;
    }
    r
}

} // verus!
