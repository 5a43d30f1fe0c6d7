//! The decisions of an ACS node. Each handler takes the node's state and an
//! event and returns the actions to perform, in order.

use std::collections::HashMap;
use vstd::prelude::*;
use crate::types::{Replica, Val, NodeSet};
use crate::arith::{midpoint, mid_i64};
use crate::votes::votes_wf;
use crate::dkg::trans::{Transcript, TranscriptView};
use crate::aacs::select::{select_set, selected, find_t_transcripts, keys_of};
use crate::fin::context::seen_before;

verus! {

broadcast use vstd::std_specs::hash::group_hash_axioms;

/// A message of ACS: a dealer's transcript, reliably broadcast by `Replica`;
/// or a leader's proposed set of transcript senders.
pub enum AcsMsg {
    RBCTrans(Transcript, Replica),
    RBCIndexSet(Vec<Replica>, Replica),
}

pub enum AcsMsgView {
    RBCTrans(TranscriptView, Replica),
    RBCIndexSet(Seq<Replica>, Replica),
}

impl View for AcsMsg {
    type V = AcsMsgView;

    open spec fn view(&self) -> AcsMsgView {
        match self {
            AcsMsg::RBCTrans(t, s) => AcsMsgView::RBCTrans(t@, *s),
            AcsMsg::RBCIndexSet(v, s) => AcsMsgView::RBCIndexSet(v@, *s),
        }
    }
}

/// What a handler asks of the node, in order: send a message to all nodes,
/// give an input to the agreement instance of a leader, or output the
/// transcripts agreed on.
pub enum AcsAction {
    Broadcast(AcsMsg),
    DelphiInput(Replica, Val),
    Output(Vec<Transcript>),
}

pub enum AcsActionView {
    Broadcast(AcsMsgView),
    DelphiInput(Replica, Val),
    Output(Seq<TranscriptView>),
}

impl View for AcsAction {
    type V = AcsActionView;

    open spec fn view(&self) -> AcsActionView {
        match self {
            AcsAction::Broadcast(m) => AcsActionView::Broadcast(m@),
            AcsAction::DelphiInput(i, v) => AcsActionView::DelphiInput(*i, *v),
            AcsAction::Output(ts) => AcsActionView::Output(ts@.map_values(|t: Transcript| t@)),
        }
    }
}

pub open spec fn acs_actions_view(a: Seq<AcsAction>) -> Seq<AcsActionView> {
    a.map_values(|x: AcsAction| x@)
}

/// The state of an ACS node.
pub struct Context {
    pub myid: Replica,
    pub num_nodes: usize,
    pub num_faults: usize,
    pub high_val: Val,
    pub low_val: Val,
    pub kappa: usize,
    pub leaders: NodeSet,
    pub trans_buffer: HashMap<Replica, Transcript>,
    pub indices_broadcasted: bool,
    pub indices_buffer: HashMap<Replica, NodeSet>,
    pub indices_decided: NodeSet,
    pub delphi_joined: NodeSet,
    pub delphi_terminated: NodeSet,
    pub final_set: NodeSet,
    pub terminated: bool,
}

/// The mathematical content of a [`Context`]; `final_order` is the order in
/// which the final set is output.
pub struct ContextView {
    pub myid: Replica,
    pub num_nodes: usize,
    pub num_faults: usize,
    pub high_val: Val,
    pub low_val: Val,
    pub kappa: usize,
    pub leaders: Set<Replica>,
    pub trans_buffer: Map<Replica, TranscriptView>,
    pub indices_broadcasted: bool,
    pub indices_buffer: Map<Replica, Set<Replica>>,
    pub indices_decided: Set<Replica>,
    pub delphi_joined: Set<Replica>,
    pub delphi_terminated: Set<Replica>,
    pub final_set: Set<Replica>,
    pub final_order: Seq<Replica>,
    pub terminated: bool,
}

impl View for Context {
    type V = ContextView;

    open spec fn view(&self) -> ContextView {
        ContextView {
            myid: self.myid,
            num_nodes: self.num_nodes,
            num_faults: self.num_faults,
            high_val: self.high_val,
            low_val: self.low_val,
            kappa: self.kappa,
            leaders: self.leaders@,
            trans_buffer: self.trans_buffer@.map_values(|t: Transcript| t@),
            indices_broadcasted: self.indices_broadcasted,
            indices_buffer: self.indices_buffer@.map_values(|s: NodeSet| s@),
            indices_decided: self.indices_decided@,
            delphi_joined: self.delphi_joined@,
            delphi_terminated: self.delphi_terminated@,
            final_set: self.final_set@,
            final_order: self.final_set.elems(),
            terminated: self.terminated,
        }
    }
}

/// The action gives input `v` to the agreement instance of a node in `js`.
pub open spec fn is_input(a: AcsActionView, js: Set<Replica>, v: Val) -> bool {
    match a {
        AcsActionView::DelphiInput(s, w) => js.contains(s) && w == v,
        _ => false,
    }
}

/// The action proposes, without repetition, exactly the nodes of `dom`.
pub open spec fn is_proposal(a: AcsActionView, me: Replica, dom: Set<Replica>) -> bool {
    match a {
        AcsActionView::Broadcast(AcsMsgView::RBCIndexSet(ids, m)) => m == me && ids.no_duplicates() && ids.to_set() == dom,
        _ => false,
    }
}

/// The node `s` of an input action to an agreement instance.
pub open spec fn delphi_inst(a: AcsActionView) -> Replica {
    match a {
        AcsActionView::DelphiInput(s, _) => s,
        _ => 0,
    }
}

/// The actions give input `v` once to the agreement instance of each node
/// in `js`, in some order.
pub open spec fn joins_ok(acts: Seq<AcsActionView>, js: Set<Replica>, v: Val) -> bool {
    &&& acts.len() == js.len()
    &&& forall|i: int| 0 <= i < acts.len() ==> is_input(#[trigger] acts[i], js, v)
    &&& forall|i: int, j: int| 0 <= i < j < acts.len() ==> delphi_inst(#[trigger] acts[i]) != delphi_inst(#[trigger] acts[j])
}

/// The leaders whose proposed sets are now wholly received and who have no
/// input yet.
pub open spec fn joins(c: ContextView, tb: Map<Replica, TranscriptView>) -> Set<Replica> {
    Set::new(|s: Replica| c.indices_buffer.contains_key(s) && !c.delphi_joined.contains(s)
        && c.indices_buffer[s].subset_of(tb.dom()))
}

/// Once the final set is known, non-empty and wholly received, the node
/// outputs its transcripts and terminates.
pub open spec fn final_check(c: ContextView) -> (ContextView, Seq<AcsActionView>) {
    if !c.terminated && c.final_set.len() > 0 && c.final_set.subset_of(c.trans_buffer.dom()) {
        (ContextView { terminated: true, ..c },
            seq![AcsActionView::Output(c.final_order.map_values(|r: Replica| c.trans_buffer[r]))])
    } else {
        (c, Seq::empty())
    }
}

/// The union of the proposed sets of the leaders decided on.
pub open spec fn decided_union(c: ContextView) -> Set<Replica> {
    Set::new(|x: Replica| exists|r: Replica| c.indices_decided.contains(r) && #[trigger] c.indices_buffer[r].contains(x))
}

/// Once `kappa` instances terminated and the proposed set of every leader
/// decided on is known, the final set becomes the union of those sets and is
/// checked for output.
pub open spec fn termination_ok(c: ContextView, c2: ContextView, acts: Seq<AcsActionView>) -> bool {
    if c.delphi_terminated.len() < c.kappa || !c.indices_decided.subset_of(c.indices_buffer.dom()) {
        c2 == c && acts == Seq::<AcsActionView>::empty()
    } else {
        let fs = decided_union(c);
        &&& c2.final_order.no_duplicates()
        &&& c2.final_order.to_set() == fs
        &&& (c2, acts) == final_check(ContextView { final_set: fs, final_order: c2.final_order, ..c })
    }
}

/// A transcript `t` broadcast by `sender`. A leader that has not proposed yet
/// proposes the senders of the buffered transcripts once there are exactly
/// `n - f` of them; then every leader whose set is now wholly received gets
/// input `high_val`; then the final set is checked.
pub open spec fn trans_ok(c: ContextView, t: TranscriptView, sender: Replica, c2: ContextView, acts: Seq<AcsActionView>) -> bool {
    let tb = c.trans_buffer.insert(sender, t);
    let lead = c.leaders.contains(c.myid) && !c.indices_broadcasted && tb.len() == c.num_nodes - c.num_faults;
    let js = joins(c, tb);
    let k: int = if lead { 1 } else { 0 };
    let c1 = ContextView {
        trans_buffer: tb,
        indices_broadcasted: c.indices_broadcasted || lead,
        delphi_joined: c.delphi_joined.union(js),
        ..c
    };
    &&& acts.len() >= k + js.len()
    &&& lead ==> is_proposal(acts[0], c.myid, tb.dom())
    &&& joins_ok(acts.subrange(k, k + js.len()), js, c.high_val)
    &&& (c2, acts.subrange(k + js.len(), acts.len() as int)) == final_check(c1)
}

/// A set `ids` proposed by `sender`. It counts only from a leader without
/// input yet and with `n - f` distinct members; the leader gets input
/// `high_val` if the set is wholly received, and termination is checked.
pub open spec fn index_set_ok(c: ContextView, ids: Seq<Replica>, sender: Replica, c2: ContextView, acts: Seq<AcsActionView>) -> bool {
    let ind = ids.to_set();
    if !c.leaders.contains(sender) || ind.len() != c.num_nodes - c.num_faults || c.delphi_joined.contains(sender) {
        c2 == c && acts == Seq::<AcsActionView>::empty()
    } else {
        let join = ind.subset_of(c.trans_buffer.dom());
        let c1 = ContextView {
            indices_buffer: c.indices_buffer.insert(sender, ind),
            delphi_joined: if join { c.delphi_joined.insert(sender) } else { c.delphi_joined },
            ..c
        };
        let k: int = if join { 1 } else { 0 };
        &&& acts.len() >= k
        &&& join ==> acts[0] == AcsActionView::DelphiInput(sender, c.high_val)
        &&& termination_ok(c1, c2, acts.subrange(k, acts.len() as int))
    }
}

/// The result `val` of the agreement instance of `inst`. Above the midpoint
/// of `low_val` and `high_val`, the leader's set is decided on, and every
/// leader without input gets `low_val`; then termination is checked.
pub open spec fn delphi_result_ok(c: ContextView, inst: Replica, val: Val, c2: ContextView, acts: Seq<AcsActionView>) -> bool {
    let dt = c.delphi_terminated.insert(inst);
    if val > midpoint(c.high_val as int, c.low_val as int) {
        let js = c.leaders.difference(c.delphi_joined);
        let c1 = ContextView {
            delphi_terminated: dt,
            indices_decided: c.indices_decided.insert(inst),
            delphi_joined: c.delphi_joined.union(c.leaders),
            ..c
        };
        &&& acts.len() >= js.len()
        &&& joins_ok(acts.subrange(0, js.len() as int), js, c.low_val)
        &&& termination_ok(c1, c2, acts.subrange(js.len() as int, acts.len() as int))
    } else {
        termination_ok(ContextView { delphi_terminated: dt, ..c }, c2, acts)
    }
}

/// A node outputs at most once: once it terminated the final check does
/// nothing, and an output leaves it terminated with the transcripts of its
/// final set, one per member.
pub proof fn lemma_outputs_once(c: ContextView)
    ensures
        c.terminated ==> final_check(c) == (c, Seq::<AcsActionView>::empty()),
        final_check(c).1.len() > 0 ==> {
            &&& !c.terminated
            &&& final_check(c).0.terminated
            &&& final_check(c).1 == seq![AcsActionView::Output(c.final_order.map_values(|r: Replica| c.trans_buffer[r]))]
        },
{
}

/// Every set is held without repetition.
pub open spec fn sets_wf(c: &Context) -> bool {
    &&& c.leaders.wf()
    &&& votes_wf(c.indices_buffer@)
    &&& c.indices_decided.wf()
    &&& c.delphi_joined.wf()
    &&& c.delphi_terminated.wf()
    &&& c.final_set.wf()
}

impl Context {
    pub open spec fn wf(&self) -> bool {
        &&& self.num_faults < self.num_nodes
        &&& sets_wf(self)
    }

    /// A node before the leaders are chosen.
    pub fn new(myid: Replica, num_nodes: usize, num_faults: usize, high_val: Val, low_val: Val, kappa: usize) -> (c: Context)
        requires
            num_faults < num_nodes,
        ensures
            c.wf(),
            c@ == (ContextView {
                myid, num_nodes, num_faults, high_val, low_val, kappa,
                leaders: Set::empty(),
                trans_buffer: Map::empty(),
                indices_broadcasted: false,
                indices_buffer: Map::empty(),
                indices_decided: Set::empty(),
                delphi_joined: Set::empty(),
                delphi_terminated: Set::empty(),
                final_set: Set::empty(),
                final_order: Seq::empty(),
                terminated: false,
            }),
    {
        let c = Context {
            myid, num_nodes, num_faults, high_val, low_val, kappa,
            leaders: NodeSet::new(),
            trans_buffer: HashMap::new(),
            indices_broadcasted: false,
            indices_buffer: HashMap::new(),
            indices_decided: NodeSet::new(),
            delphi_joined: NodeSet::new(),
            delphi_terminated: NodeSet::new(),
            final_set: NodeSet::new(),
            terminated: false,
        };
        assert(c@.trans_buffer =~= Map::<Replica, TranscriptView>::empty());
        assert(c@.indices_buffer =~= Map::<Replica, Set<Replica>>::empty());
        c
    }

    /// Chooses the leaders from the common coin `coin`.
    pub fn choose_leaders(&mut self, coin: u128)
        requires
            old(self).wf(),
            old(self).kappa <= old(self).num_nodes,
        ensures
            final(self).wf(),
            final(self)@ == (ContextView { leaders: selected(old(self).num_nodes, old(self).kappa, coin), ..old(self)@ }),
    {
        self.leaders = select_set(self.num_nodes, self.kappa, coin);
    }

    /// Whether every node of `s_i` has its transcript buffered.
    fn all_trans_received(&self, s_i: &NodeSet) -> (b: bool)
        requires
            s_i.wf(),
        ensures
            b == s_i@.subset_of(self@.trans_buffer.dom()),
    {
        let v = s_i.to_vec();
        let mut i: usize = 0;
        while i < v.len()
            invariant
                i <= v@.len(),
                v@.to_set() == s_i@,
                forall|j: int| 0 <= j < i ==> self.trans_buffer@.contains_key(#[trigger] v@[j]),
            decreases v@.len() - i,
        {
            if !self.trans_buffer.contains_key(&v[i]) {
                assert(s_i@.contains(v@[i as int]));
                return false;
            }
            i = i + 1;
        }
        assert forall|x: Replica| s_i@.contains(x) implies self@.trans_buffer.dom().contains(x) by {
            assert(v@.to_set().contains(x));
        }
        true
    }

    /// Outputs the final set once it is known, non-empty and wholly received.
    pub fn check_final_set(&mut self) -> (acts: Vec<AcsAction>)
        requires
            old(self).wf(),
        ensures
            final(self).wf(),
            (final(self)@, acs_actions_view(acts@)) == final_check(old(self)@),
    {
        let ghost c0 = self@;
        let mut acts: Vec<AcsAction> = Vec::new();
        proof { self.final_set.lemma_finite(); }
        if self.terminated || self.final_set.len() == 0 || !self.all_trans_received(&self.final_set) {
            assert(acs_actions_view(acts@) =~= Seq::<AcsActionView>::empty());
            return acts;
        }
        let order = self.final_set.to_vec();
        let mut res: Vec<Transcript> = Vec::new();
        let mut i: usize = 0;
        while i < order.len()
            invariant
                i <= order@.len(),
                order@ == c0.final_order,
                order@.to_set() == c0.final_set,
                c0.final_set.subset_of(c0.trans_buffer.dom()),
                c0.trans_buffer == self.trans_buffer@.map_values(|t: Transcript| t@),
                res@.map_values(|t: Transcript| t@) == order@.subrange(0, i as int).map_values(|r: Replica| c0.trans_buffer[r]),
            decreases order@.len() - i,
        {
            let r = order[i];
            assert(order@.to_set().contains(r));
            let t = self.trans_buffer.get(&r).unwrap().duplicate();
            let ghost prev = res@.map_values(|t: Transcript| t@);
            let ghost tv = t@;
            assert(tv == c0.trans_buffer[r]);
            res.push(t);
            assert(res@.map_values(|t: Transcript| t@) =~= prev.push(tv));
            assert(order@.subrange(0, i + 1).map_values(|r: Replica| c0.trans_buffer[r])
                =~= order@.subrange(0, i as int).map_values(|r: Replica| c0.trans_buffer[r]).push(c0.trans_buffer[r]));
            i = i + 1;
        }
        assert(order@.subrange(0, order@.len() as int) =~= order@);
        self.terminated = true;
        acts.push(AcsAction::Output(res));
        assert(acs_actions_view(acts@) =~= final_check(c0).1);
        acts
    }

    /// Sets the final set to the union of the proposed sets of the leaders
    /// decided on, once `kappa` instances terminated and all those sets are
    /// known, and checks it for output.
    pub fn check_termination_condition(&mut self) -> (acts: Vec<AcsAction>)
        requires
            old(self).wf(),
        ensures
            final(self).wf(),
            termination_ok(old(self)@, final(self)@, acs_actions_view(acts@)),
    {
        let ghost c0 = self@;
        proof { self.delphi_terminated.lemma_finite(); }
        let dec = self.indices_decided.to_vec();
        let mut all = true;
        let mut i: usize = 0;
        while i < dec.len()
            invariant
                i <= dec@.len(),
                dec@.to_set() == c0.indices_decided,
                c0.indices_buffer == self.indices_buffer@.map_values(|s: NodeSet| s@),
                all == (forall|j: int| 0 <= j < i ==> self.indices_buffer@.contains_key(#[trigger] dec@[j])),
            decreases dec@.len() - i,
        {
            let c = self.indices_buffer.contains_key(&dec[i]);
            all = all && c;
            i = i + 1;
        }
        let subset = all;
        assert(subset == c0.indices_decided.subset_of(c0.indices_buffer.dom())) by {
            if subset {
                assert forall|x: Replica| c0.indices_decided.contains(x) implies c0.indices_buffer.dom().contains(x) by {
                    assert(dec@.to_set().contains(x));
                }
            } else {
                let j = choose|j: int| 0 <= j < dec@.len() && !self.indices_buffer@.contains_key(#[trigger] dec@[j]);
                assert(dec@.to_set().contains(dec@[j]));
            }
        }
        if self.delphi_terminated.len() < self.kappa || !subset {
            let acts: Vec<AcsAction> = Vec::new();
            assert(acs_actions_view(acts@) =~= Seq::<AcsActionView>::empty());
            return acts;
        }
        let mut fs = NodeSet::new();
        let mut i: usize = 0;
        while i < dec.len()
            invariant
                i <= dec@.len(),
                dec@.to_set() == c0.indices_decided,
                c0.indices_decided.subset_of(c0.indices_buffer.dom()),
                c0.indices_buffer == self.indices_buffer@.map_values(|s: NodeSet| s@),
                votes_wf(self.indices_buffer@),
                fs.wf(),
                fs@ == Set::new(|x: Replica| exists|j: int| 0 <= j < i && #[trigger] c0.indices_buffer[dec@[j]].contains(x)),
            decreases dec@.len() - i,
        {
            let r = dec[i];
            assert(dec@.to_set().contains(r));
            let s = self.indices_buffer.get(&r).unwrap();
            let members = s.to_vec();
            let ghost before = fs@;
            assert(c0.indices_buffer[r] == s@);
            let mut k: usize = 0;
            while k < members.len()
                invariant
                    k <= members@.len(),
                    fs.wf(),
                    fs@ == before.union(Set::new(|x: Replica| seen_before(members@, k as int, x))),
                decreases members@.len() - k,
            {
                let m = members[k];
                fs.insert(m);
                assert forall|x: Replica| seen_before(members@, k + 1, x) <==> (seen_before(members@, k as int, x) || x == m) by {
                    if x == m { assert(members@[k as int] == x); }
                }
                k = k + 1;
                assert(fs@ =~= before.union(Set::new(|x: Replica| seen_before(members@, k as int, x))));
            }
            assert(Set::new(|x: Replica| seen_before(members@, members@.len() as int, x)) =~= s@) by {
                assert forall|x: Replica| s@.contains(x) implies seen_before(members@, members@.len() as int, x) by {
                    assert(members@.to_set().contains(x));
                    let q = choose|q: int| 0 <= q < members@.len() && members@[q] == x;
                    assert(members@[q] == x);
                }
            }
            i = i + 1;
            assert(fs@ =~= Set::new(|x: Replica| exists|j: int| 0 <= j < i && #[trigger] c0.indices_buffer[dec@[j]].contains(x))) by {
                assert forall|x: Replica| fs@.contains(x) implies exists|j: int| 0 <= j < i && #[trigger] c0.indices_buffer[dec@[j]].contains(x) by {
                    if !before.contains(x) {
                        assert(c0.indices_buffer[dec@[i - 1]].contains(x));
                    }
                }
            }
        }
        assert(fs@ =~= decided_union(c0)) by {
            assert forall|x: Replica| decided_union(c0).contains(x) implies fs@.contains(x) by {
                let r = choose|r: Replica| c0.indices_decided.contains(r) && #[trigger] c0.indices_buffer[r].contains(x);
                assert(dec@.to_set().contains(r));
                let j = choose|j: int| 0 <= j < dec@.len() && dec@[j] == r;
                assert(c0.indices_buffer[dec@[j]].contains(x));
            }
            assert forall|x: Replica| fs@.contains(x) implies decided_union(c0).contains(x) by {
                let j = choose|j: int| 0 <= j < dec@.len() && #[trigger] c0.indices_buffer[dec@[j]].contains(x);
                assert(dec@.to_set().contains(dec@[j]));
            }
        }
        self.final_set = fs;
        proof { self.final_set.lemma_finite(); }
        let ghost c1 = self@;
        assert(c1 == (ContextView { final_set: decided_union(c0), final_order: c1.final_order, ..c0 }));
        self.check_final_set()
    }

    /// Handles a transcript broadcast by `sender`.
    pub fn handle_trans(&mut self, trans: Transcript, sender: Replica) -> (acts: Vec<AcsAction>)
        requires
            old(self).wf(),
        ensures
            final(self).wf(),
            trans_ok(old(self)@, trans@, sender, final(self)@, acs_actions_view(acts@)),
    {
        let ghost c0 = self@;
        let ghost tv = trans@;
        let mut acts: Vec<AcsAction> = Vec::new();
        self.trans_buffer.insert(sender, trans);
        let ghost tb = c0.trans_buffer.insert(sender, tv);
        assert(self@.trans_buffer =~= tb);
        let ghost lead = c0.leaders.contains(c0.myid) && !c0.indices_broadcasted && tb.len() == c0.num_nodes - c0.num_faults;
        if self.leaders.contains(self.myid) && !self.indices_broadcasted {
            assert(self@.trans_buffer.dom() =~= self.trans_buffer@.dom());
            match find_t_transcripts(&self.trans_buffer, self.num_nodes - self.num_faults) {
                Some(set) => {
                    let mut ids: Vec<Replica> = Vec::new();
                    let mut i: usize = 0;
                    while i < set.len()
                        invariant
                            i <= set@.len(),
                            ids@ == set@.subrange(0, i as int).map_values(|e: (Replica, Transcript)| e.0),
                        decreases set@.len() - i,
                    {
                        ids.push(set[i].0);
                        i = i + 1;
                        assert(ids@ =~= set@.subrange(0, i as int).map_values(|e: (Replica, Transcript)| e.0));
                    }
                    proof {
                        assert(set@.subrange(0, set@.len() as int) =~= set@);
                        let ev = crate::aacs::select::entries_view(set@);
                        assert(ids@ =~= ev.map_values(|e: (Replica, TranscriptView)| e.0));
                    }
                    acts.push(AcsAction::Broadcast(AcsMsg::RBCIndexSet(ids, self.myid)));
                    self.indices_broadcasted = true;
                },
                None => {},
            }
        }
        let ghost k: int = if lead { 1 } else { 0 };
        assert(acts@.len() == k);
        let ghost js = joins(c0, tb);
        let keys = keys_of(&self.indices_buffer);
        let ghost joined0 = self.delphi_joined@;
        let ghost c_lead = self@;
        proof {
            assert(c0.indices_buffer.dom() =~= self.indices_buffer@.dom());
            assert(js.subset_of(c0.indices_buffer.dom()));
            vstd::set_lib::lemma_set_subset_finite(c0.indices_buffer.dom(), js);
            assert(Set::new(|s: Replica| js.contains(s) && seen_before(keys@, 0, s)) =~= Set::<Replica>::empty());
            assert(acs_actions_view(acts@).subrange(k, acts@.len() as int) =~= Seq::<AcsActionView>::empty());
        }
        let mut i: usize = 0;
        while i < keys.len()
            invariant
                self.wf(),
                i <= keys@.len(),
                keys@.to_set() == c0.indices_buffer.dom(),
                keys@.no_duplicates(),
                self@ == (ContextView { delphi_joined: self@.delphi_joined, ..c_lead }),
                c_lead.trans_buffer == tb,
                c_lead.indices_buffer == c0.indices_buffer,
                c_lead == (ContextView { trans_buffer: tb, indices_broadcasted: c0.indices_broadcasted || lead, ..c0 }),
                joined0 == c0.delphi_joined,
                k == (if lead { 1int } else { 0int }),
                js == joins(c0, tb),
                js.finite(),
                js.subset_of(c0.indices_buffer.dom()),
                acts@.len() >= k,
                self@.delphi_joined == joined0.union(Set::new(|s: Replica| js.contains(s) && seen_before(keys@, i as int, s))),
                joins_ok(acs_actions_view(acts@).subrange(k, acts@.len() as int),
                    Set::new(|s: Replica| js.contains(s) && seen_before(keys@, i as int, s)), c0.high_val),
                lead ==> is_proposal(acs_actions_view(acts@)[0], c0.myid, tb.dom()),
            decreases keys@.len() - i,
        {
            let s = keys[i];
            assert(keys@.to_set().contains(s));
            let ghost done = Set::new(|x: Replica| js.contains(x) && seen_before(keys@, i as int, x));
            let ghost done2 = Set::new(|x: Replica| js.contains(x) && seen_before(keys@, i + 1, x));
            let ghost av0 = acs_actions_view(acts@);
            let members = self.indices_buffer.get(&s).unwrap();
            assert(c0.indices_buffer[s] == members@);
            assert(members.wf());
            let j = !self.delphi_joined.contains(s) && self.all_trans_received(members);
            proof {
                assert(!seen_before(keys@, i as int, s)) by {
                    if seen_before(keys@, i as int, s) {
                        let q = choose|q: int| 0 <= q < i && #[trigger] keys@[q] == s;
                        assert(keys@[q] == keys@[i as int]);
                    }
                }
                assert forall|x: Replica| seen_before(keys@, i + 1, x) <==> (seen_before(keys@, i as int, x) || x == s) by {
                    if x == s { assert(keys@[i as int] == x); }
                }
                assert(self@.trans_buffer == tb);
                assert(self@.delphi_joined.contains(s) <==> joined0.contains(s));
                assert(c0.indices_buffer.contains_key(s));
                assert(j == js.contains(s));
                vstd::set_lib::lemma_len_subset(done, js);
            }
            if j {
                acts.push(AcsAction::DelphiInput(s, self.high_val));
                self.delphi_joined.insert(s);
                proof {
                    assert(done2 =~= done.insert(s));
                    let sub = acs_actions_view(acts@).subrange(k, acts@.len() as int);
                    assert(sub =~= av0.subrange(k, av0.len() as int).push(AcsActionView::DelphiInput(s, c0.high_val)));
                    assert(!done.contains(s));
                    assert forall|p: int, q: int| 0 <= p < q < sub.len() implies delphi_inst(#[trigger] sub[p]) != delphi_inst(#[trigger] sub[q]) by {
                        if q == sub.len() - 1 {
                            assert(sub[p] == av0.subrange(k, av0.len() as int)[p]);
                        } else {
                            assert(sub[p] == av0.subrange(k, av0.len() as int)[p]);
                            assert(sub[q] == av0.subrange(k, av0.len() as int)[q]);
                        }
                    }
                    assert forall|p: int| 0 <= p < sub.len() implies is_input(#[trigger] sub[p], done2, c0.high_val) by {
                        if p < sub.len() - 1 {
                            assert(sub[p] == av0.subrange(k, av0.len() as int)[p]);
                        }
                    }
                    if lead { assert(acs_actions_view(acts@)[0] == av0[0]); }
                    assert(self@.delphi_joined =~= joined0.union(done2));
                }
            } else {
                proof {
                    assert(done2 =~= done);
                }
            }
            i = i + 1;
        }
        proof {
            assert(keys@.subrange(0, keys@.len() as int) =~= keys@);
            assert(Set::new(|s: Replica| js.contains(s) && seen_before(keys@, keys@.len() as int, s)) =~= js) by {
                assert forall|s: Replica| js.contains(s) implies seen_before(keys@, keys@.len() as int, s) by {
                    assert(keys@.to_set().contains(s));
                    let q = choose|q: int| 0 <= q < keys@.len() && keys@[q] == s;
                    assert(keys@[q] == s);
                }
            }
        }
        let ghost mid = acs_actions_view(acts@);
        let ghost c1 = self@;
        let mut facts = self.check_final_set();
        let ghost fv = acs_actions_view(facts@);
        acts.append(&mut facts);
        proof {
            let all = acs_actions_view(acts@);
            assert(mid.len() == k + js.len());
            assert(all.subrange(k, k + js.len()) =~= mid.subrange(k, mid.len() as int));
            assert(all.subrange(k + js.len(), all.len() as int) =~= fv);
            if lead { assert(all[0] == mid[0]); }
            assert(c1 == (ContextView { trans_buffer: tb, indices_broadcasted: c0.indices_broadcasted || lead, delphi_joined: c0.delphi_joined.union(js), ..c0 }));
        }
        acts
    }
}


/// The set of the listed nodes, without repetition.
fn set_of(ids: &Vec<Replica>) -> (s: NodeSet)
    ensures
        s.wf(),
        s@ == ids@.to_set(),
{
    let mut s = NodeSet::new();
    let mut i: usize = 0;
    while i < ids.len()
        invariant
            i <= ids@.len(),
            s.wf(),
            s@ == Set::new(|x: Replica| seen_before(ids@, i as int, x)),
        decreases ids@.len() - i,
    {
        let x = ids[i];
        s.insert(x);
        assert forall|y: Replica| seen_before(ids@, i + 1, y) <==> (seen_before(ids@, i as int, y) || y == x) by {
            if y == x { assert(ids@[i as int] == y); }
        }
        i = i + 1;
        assert(s@ =~= Set::new(|y: Replica| seen_before(ids@, i as int, y)));
    }
    assert(s@ =~= ids@.to_set()) by {
        assert forall|y: Replica| ids@.to_set().contains(y) implies seen_before(ids@, ids@.len() as int, y) by {
            let q = choose|q: int| 0 <= q < ids@.len() && ids@[q] == y;
            assert(ids@[q] == y);
        }
    }
    s
}

impl Context {
    /// Handles the set `ids` proposed by `sender`.
    pub fn handle_index_set(&mut self, ids: Vec<Replica>, sender: Replica) -> (acts: Vec<AcsAction>)
        requires
            old(self).wf(),
        ensures
            final(self).wf(),
            index_set_ok(old(self)@, ids@, sender, final(self)@, acs_actions_view(acts@)),
    {
        let ghost c0 = self@;
        let mut acts: Vec<AcsAction> = Vec::new();
        let ind = set_of(&ids);
        proof { ind.lemma_finite(); }
        if !self.leaders.contains(sender) || ind.len() != self.num_nodes - self.num_faults || self.delphi_joined.contains(sender) {
            assert(acs_actions_view(acts@) =~= Seq::<AcsActionView>::empty());
            return acts;
        }
        let join = self.all_trans_received(&ind);
        let ghost indv = ind@;
        self.indices_buffer.insert(sender, ind);
        assert(self@.indices_buffer =~= c0.indices_buffer.insert(sender, indv));
        if join {
            acts.push(AcsAction::DelphiInput(sender, self.high_val));
            self.delphi_joined.insert(sender);
        }
        let ghost k: int = if join { 1 } else { 0 };
        let ghost mid = acs_actions_view(acts@);
        let mut more = self.check_termination_condition();
        let ghost mv = acs_actions_view(more@);
        acts.append(&mut more);
        proof {
            let all = acs_actions_view(acts@);
            assert(all.subrange(k, all.len() as int) =~= mv);
            if join { assert(all[0] == mid[0]); }
        }
        acts
    }

    /// Handles the result `val` of the agreement instance of `inst`.
    pub fn handle_delphi_result(&mut self, inst: Replica, val: Val) -> (acts: Vec<AcsAction>)
        requires
            old(self).wf(),
            i64::MIN <= old(self).high_val + old(self).low_val <= i64::MAX,
        ensures
            final(self).wf(),
            delphi_result_ok(old(self)@, inst, val, final(self)@, acs_actions_view(acts@)),
    {
        let ghost c0 = self@;
        let mut acts: Vec<AcsAction> = Vec::new();
        self.delphi_terminated.insert(inst);
        let mid = mid_i64(self.high_val, self.low_val);
        if val > mid {
            self.indices_decided.insert(inst);
            let lv = self.leaders.to_vec();
            let ghost js = c0.leaders.difference(c0.delphi_joined);
            let ghost c_dec = self@;
            proof {
                self.leaders.lemma_finite();
                vstd::set_lib::lemma_set_subset_finite(c0.leaders, js);
                assert(Set::new(|s: Replica| js.contains(s) && seen_before(lv@, 0, s)) =~= Set::<Replica>::empty());
                assert(acs_actions_view(acts@) =~= Seq::<AcsActionView>::empty());
            }
            let mut i: usize = 0;
            while i < lv.len()
                invariant
                    self.wf(),
                    i <= lv@.len(),
                    lv@.to_set() == c0.leaders,
                    lv@.no_duplicates(),
                    js == c0.leaders.difference(c0.delphi_joined),
                    js.finite(),
                    self@ == (ContextView { delphi_joined: self@.delphi_joined, ..c_dec }),
                    c_dec.delphi_joined == c0.delphi_joined,
                    c_dec.leaders == c0.leaders,
                    c_dec.low_val == c0.low_val,
                    self@.delphi_joined == c0.delphi_joined.union(Set::new(|s: Replica| seen_before(lv@, i as int, s))),
                    joins_ok(acs_actions_view(acts@), Set::new(|s: Replica| js.contains(s) && seen_before(lv@, i as int, s)), c0.low_val),
                decreases lv@.len() - i,
            {
                let l = lv[i];
                let ghost done = Set::new(|x: Replica| js.contains(x) && seen_before(lv@, i as int, x));
                let ghost done2 = Set::new(|x: Replica| js.contains(x) && seen_before(lv@, i + 1, x));
                let ghost av0 = acs_actions_view(acts@);
                proof {
                    assert(lv@.to_set().contains(l));
                    assert(!seen_before(lv@, i as int, l)) by {
                        if seen_before(lv@, i as int, l) {
                            let q = choose|q: int| 0 <= q < i && #[trigger] lv@[q] == l;
                            assert(lv@[q] == lv@[i as int]);
                        }
                    }
                    assert forall|x: Replica| seen_before(lv@, i + 1, x) <==> (seen_before(lv@, i as int, x) || x == l) by {
                        if x == l { assert(lv@[i as int] == x); }
                    }
                    vstd::set_lib::lemma_len_subset(done, js);
                }
                let joined = self.delphi_joined.contains(l);
                proof {
                    assert(joined == c0.delphi_joined.contains(l));
                }
                if !joined {
                    acts.push(AcsAction::DelphiInput(l, self.low_val));
                    self.delphi_joined.insert(l);
                    proof {
                        assert(done2 =~= done.insert(l));
                        let sub = acs_actions_view(acts@);
                        assert(sub =~= av0.push(AcsActionView::DelphiInput(l, c0.low_val)));
                        assert forall|p: int, q: int| 0 <= p < q < sub.len() implies delphi_inst(#[trigger] sub[p]) != delphi_inst(#[trigger] sub[q]) by {
                            assert(sub[p] == av0[p]);
                            if q < sub.len() - 1 { assert(sub[q] == av0[q]); }
                        }
                        assert forall|p: int| 0 <= p < sub.len() implies is_input(#[trigger] sub[p], done2, c0.low_val) by {
                            if p < sub.len() - 1 { assert(sub[p] == av0[p]); }
                        }
                    }
                } else {
                    assert(done2 =~= done);
                }
                i = i + 1;
                proof {
                    assert(self@.delphi_joined =~= c0.delphi_joined.union(Set::new(|s: Replica| seen_before(lv@, i as int, s))));
                }
            }
            proof {
                assert(Set::new(|s: Replica| js.contains(s) && seen_before(lv@, lv@.len() as int, s)) =~= js) by {
                    assert forall|s: Replica| js.contains(s) implies seen_before(lv@, lv@.len() as int, s) by {
                        assert(lv@.to_set().contains(s));
                        let q = choose|q: int| 0 <= q < lv@.len() && lv@[q] == s;
                        assert(lv@[q] == s);
                    }
                }
                assert(self@.delphi_joined =~= c0.delphi_joined.union(c0.leaders)) by {
                    assert forall|s: Replica| c0.leaders.contains(s) implies seen_before(lv@, lv@.len() as int, s) by {
                        assert(lv@.to_set().contains(s));
                        let q = choose|q: int| 0 <= q < lv@.len() && lv@[q] == s;
                        assert(lv@[q] == s);
                    }
                }
            }
        }
        let ghost mid_acts = acs_actions_view(acts@);
        let mut more = self.check_termination_condition();
        let ghost mv = acs_actions_view(more@);
        acts.append(&mut more);
        proof {
            let all = acs_actions_view(acts@);
            assert(all.subrange(0, mid_acts.len() as int) =~= mid_acts);
            assert(all.subrange(mid_acts.len() as int, all.len() as int) =~= mv);
            if !(val > midpoint(c0.high_val as int, c0.low_val as int)) {
                assert(mid_acts.len() == 0);
                assert(all =~= mv);
            }
        }
        acts
    }
}

/// What the node does with a message.
pub open spec fn acs_msg_ok(c: ContextView, m: AcsMsgView, c2: ContextView, acts: Seq<AcsActionView>) -> bool {
    match m {
        AcsMsgView::RBCTrans(t, s) => trans_ok(c, t, s, c2, acts),
        AcsMsgView::RBCIndexSet(ids, s) => index_set_ok(c, ids, s, c2, acts),
    }
}

impl Context {
    /// Handles a message received from the network.
    pub fn handle_network_message(&mut self, msg: AcsMsg) -> (acts: Vec<AcsAction>)
        requires
            old(self).wf(),
        ensures
            final(self).wf(),
            acs_msg_ok(old(self)@, msg@, final(self)@, acs_actions_view(acts@)),
    {
        match msg {
            AcsMsg::RBCTrans(t, s) => self.handle_trans(t, s),
            AcsMsg::RBCIndexSet(ids, s) => self.handle_index_set(ids, s),
        }
    }
}

} // verus!

verus! {

/// An event of an ACS node: a message, or the result of the agreement
/// instance of a leader.
pub enum AcsEventView {
    Msg(AcsMsgView),
    Result(Replica, Val),
}

/// What the node does with an event.
pub open spec fn acs_step_ok(c: ContextView, e: AcsEventView, c2: ContextView, acts: Seq<AcsActionView>) -> bool {
    match e {
        AcsEventView::Msg(m) => acs_msg_ok(c, m, c2, acts),
        AcsEventView::Result(i, v) => delphi_result_ok(c, i, v, c2, acts),
    }
}

/// The actions give inputs only to instances not joined before, which are
/// joined after, each at most once.
pub open spec fn inputs_fresh(c: ContextView, c2: ContextView, acts: Seq<AcsActionView>) -> bool {
    &&& c.delphi_joined.subset_of(c2.delphi_joined)
    &&& forall|i: int| 0 <= i < acts.len() && (#[trigger] acts[i]) is DelphiInput ==>
        !c.delphi_joined.contains(acts[i]->DelphiInput_0) && c2.delphi_joined.contains(acts[i]->DelphiInput_0)
    &&& forall|i: int, j: int| 0 <= i < j < acts.len() && (#[trigger] acts[i]) is DelphiInput && (#[trigger] acts[j]) is DelphiInput
        ==> acts[i]->DelphiInput_0 != acts[j]->DelphiInput_0
}

proof fn lemma_final_check_fresh(c: ContextView)
    ensures
        final_check(c).0.delphi_joined == c.delphi_joined,
        forall|i: int| 0 <= i < final_check(c).1.len() ==> (#[trigger] final_check(c).1[i]) is Output,
{
}

proof fn lemma_termination_fresh(c: ContextView, c2: ContextView, acts: Seq<AcsActionView>)
    requires
        termination_ok(c, c2, acts),
    ensures
        c2.delphi_joined == c.delphi_joined,
        forall|i: int| 0 <= i < acts.len() ==> (#[trigger] acts[i]) is Output,
{
    if !(c.delphi_terminated.len() < c.kappa || !c.indices_decided.subset_of(c.indices_buffer.dom())) {
        let fs = decided_union(c);
        lemma_final_check_fresh(ContextView { final_set: fs, final_order: c2.final_order, ..c });
    }
}

/// Joins followed by other actions, with the other actions giving no input.
proof fn lemma_joins_then_rest(
    c: ContextView, c2: ContextView, acts: Seq<AcsActionView>, k: int, js: Set<Replica>, v: Val, joined2: Set<Replica>,
)
    requires
        0 <= k,
        acts.len() >= k + js.len(),
        forall|i: int| 0 <= i < k ==> !((#[trigger] acts[i]) is DelphiInput),
        joins_ok(acts.subrange(k, k + js.len()), js, v),
        forall|i: int| k + js.len() <= i < acts.len() ==> !((#[trigger] acts[i]) is DelphiInput),
        forall|s: Replica| js.contains(s) ==> !c.delphi_joined.contains(s),
        c.delphi_joined.union(js).subset_of(joined2),
        c2.delphi_joined == joined2,
    ensures
        inputs_fresh(c, c2, acts),
{
    let sub = acts.subrange(k, k + js.len());
    assert forall|i: int| 0 <= i < acts.len() && (#[trigger] acts[i]) is DelphiInput implies
        !c.delphi_joined.contains(acts[i]->DelphiInput_0) && c2.delphi_joined.contains(acts[i]->DelphiInput_0) by {
        assert(sub[i - k] == acts[i]);
        assert(is_input(sub[i - k], js, v));
    }
    assert forall|i: int, j: int| 0 <= i < j < acts.len() && (#[trigger] acts[i]) is DelphiInput && (#[trigger] acts[j]) is DelphiInput
        implies acts[i]->DelphiInput_0 != acts[j]->DelphiInput_0 by {
        assert(sub[i - k] == acts[i]);
        assert(sub[j - k] == acts[j]);
        assert(delphi_inst(sub[i - k]) != delphi_inst(sub[j - k]));
    }
}

/// Every handler gives inputs only to instances that were not joined, joins
/// them, and never gives two inputs to one instance.
pub proof fn lemma_step_inputs_fresh(c: ContextView, e: AcsEventView, c2: ContextView, acts: Seq<AcsActionView>)
    requires
        acs_step_ok(c, e, c2, acts),
    ensures
        inputs_fresh(c, c2, acts),
{
    match e {
        AcsEventView::Msg(AcsMsgView::RBCTrans(t, sender)) => {
            let tb = c.trans_buffer.insert(sender, t);
            let lead = c.leaders.contains(c.myid) && !c.indices_broadcasted && tb.len() == c.num_nodes - c.num_faults;
            let js = joins(c, tb);
            let k: int = if lead { 1 } else { 0 };
            let c1 = ContextView {
                trans_buffer: tb,
                indices_broadcasted: c.indices_broadcasted || lead,
                delphi_joined: c.delphi_joined.union(js),
                ..c
            };
            lemma_final_check_fresh(c1);
            let rest = acts.subrange(k + js.len(), acts.len() as int);
            assert forall|i: int| k + js.len() <= i < acts.len() implies !((#[trigger] acts[i]) is DelphiInput) by {
                assert(rest[i - k - js.len()] == acts[i]);
            }
            assert forall|i: int| 0 <= i < k implies !((#[trigger] acts[i]) is DelphiInput) by {
                assert(is_proposal(acts[0], c.myid, tb.dom()));
            }
            lemma_joins_then_rest(c, c2, acts, k, js, c.high_val, c1.delphi_joined);
        },
        AcsEventView::Msg(AcsMsgView::RBCIndexSet(ids, sender)) => {
            let ind = ids.to_set();
            if !c.leaders.contains(sender) || ind.len() != c.num_nodes - c.num_faults || c.delphi_joined.contains(sender) {
            } else {
                let join = ind.subset_of(c.trans_buffer.dom());
                let c1 = ContextView {
                    indices_buffer: c.indices_buffer.insert(sender, ind),
                    delphi_joined: if join { c.delphi_joined.insert(sender) } else { c.delphi_joined },
                    ..c
                };
                let k: int = if join { 1 } else { 0 };
                let rest = acts.subrange(k, acts.len() as int);
                lemma_termination_fresh(c1, c2, rest);
                assert forall|i: int| k <= i < acts.len() implies (#[trigger] acts[i]) is Output by {
                    assert(rest[i - k] == acts[i]);
                }
            }
        },
        AcsEventView::Result(inst, val) => {
            let dt = c.delphi_terminated.insert(inst);
            if val > midpoint(c.high_val as int, c.low_val as int) {
                let js = c.leaders.difference(c.delphi_joined);
                let c1 = ContextView {
                    delphi_terminated: dt,
                    indices_decided: c.indices_decided.insert(inst),
                    delphi_joined: c.delphi_joined.union(c.leaders),
                    ..c
                };
                let rest = acts.subrange(js.len() as int, acts.len() as int);
                lemma_termination_fresh(c1, c2, rest);
                assert forall|i: int| js.len() <= i < acts.len() implies !((#[trigger] acts[i]) is DelphiInput) by {
                    assert(rest[i - js.len()] == acts[i]);
                }
                lemma_joins_then_rest(c, c2, acts, 0, js, c.low_val, c1.delphi_joined);
            } else {
                lemma_termination_fresh(ContextView { delphi_terminated: dt, ..c }, c2, acts);
            }
        },
    }
}

proof fn lemma_joined_grows(cs: Seq<ContextView>, es: Seq<AcsEventView>, acts: Seq<Seq<AcsActionView>>, j: int, k: int)
    requires
        cs.len() == es.len() + 1,
        acts.len() == es.len(),
        forall|q: int| 0 <= q < es.len() ==> acs_step_ok(cs[q], #[trigger] es[q], cs[q + 1], acts[q]),
        0 <= j <= k < cs.len(),
    ensures
        cs[j].delphi_joined.subset_of(cs[k].delphi_joined),
    decreases k - j,
{
    if j < k {
        lemma_joined_grows(cs, es, acts, j, k - 1);
        lemma_step_inputs_fresh(cs[k - 1], es[k - 1], cs[k], acts[k - 1]);
    }
}

/// Over any interleaving of messages and agreement results, a node gives
/// each agreement instance at most one input, and only to an instance that it
/// had not joined when the run began.
proof fn lemma_inputs_once(cs: Seq<ContextView>, es: Seq<AcsEventView>, acts: Seq<Seq<AcsActionView>>)
    requires
        cs.len() == es.len() + 1,
        acts.len() == es.len(),
        forall|q: int| 0 <= q < es.len() ==> acs_step_ok(cs[q], #[trigger] es[q], cs[q + 1], acts[q]),
    ensures
        forall|j: int, a: int| 0 <= j < acts.len() && 0 <= a < acts[j].len() && (#[trigger] acts[j][a]) is DelphiInput
            ==> !cs[0].delphi_joined.contains(acts[j][a]->DelphiInput_0),
        forall|j: int, a: int, k: int, b: int|
            0 <= j < acts.len() && 0 <= k < acts.len() && 0 <= a < acts[j].len() && 0 <= b < acts[k].len()
            && (j < k || (j == k && a < b))
            && (#[trigger] acts[j][a]) is DelphiInput && (#[trigger] acts[k][b]) is DelphiInput
            ==> acts[j][a]->DelphiInput_0 != acts[k][b]->DelphiInput_0,
{
    assert forall|j: int, a: int| 0 <= j < acts.len() && 0 <= a < acts[j].len() && (#[trigger] acts[j][a]) is DelphiInput
        implies !cs[0].delphi_joined.contains(acts[j][a]->DelphiInput_0) by {
        lemma_step_inputs_fresh(cs[j], es[j], cs[j + 1], acts[j]);
        lemma_joined_grows(cs, es, acts, 0, j);
    }
    assert forall|j: int, a: int, k: int, b: int|
        0 <= j < acts.len() && 0 <= k < acts.len() && 0 <= a < acts[j].len() && 0 <= b < acts[k].len()
        && (j < k || (j == k && a < b))
        && (#[trigger] acts[j][a]) is DelphiInput && (#[trigger] acts[k][b]) is DelphiInput
        implies acts[j][a]->DelphiInput_0 != acts[k][b]->DelphiInput_0 by {
        lemma_step_inputs_fresh(cs[j], es[j], cs[j + 1], acts[j]);
        lemma_step_inputs_fresh(cs[k], es[k], cs[k + 1], acts[k]);
        if j < k {
            lemma_joined_grows(cs, es, acts, j + 1, k);
        }
    }
}

} // verus!

verus! {

/// The action broadcasts a proposed set.
pub open spec fn is_index_set(a: AcsActionView) -> bool {
    a matches AcsActionView::Broadcast(AcsMsgView::RBCIndexSet(_, _))
}

/// What a message's handler guarantees of the inputs it gives and of the set
/// it proposes: every input is `high_val`, to a leader whose proposed set is
/// wholly received; a proposal is made only if none was made before, and
/// then at most once.
pub open spec fn msg_step_sound(c: ContextView, c2: ContextView, acts: Seq<AcsActionView>) -> bool {
    &&& forall|i: int| 0 <= i < acts.len() && (#[trigger] acts[i]) is DelphiInput ==> {
        &&& acts[i]->DelphiInput_1 == c.high_val
        &&& c2.indices_buffer.contains_key(acts[i]->DelphiInput_0)
        &&& c2.indices_buffer[acts[i]->DelphiInput_0].subset_of(c2.trans_buffer.dom())
    }
    &&& c.indices_broadcasted ==> c2.indices_broadcasted
    &&& forall|i: int| 0 <= i < acts.len() && is_index_set(#[trigger] acts[i]) ==> !c.indices_broadcasted && c2.indices_broadcasted
    &&& forall|i: int, j: int| 0 <= i < j < acts.len() && is_index_set(#[trigger] acts[i]) ==> !is_index_set(#[trigger] acts[j])
}

proof fn lemma_termination_keeps(c: ContextView, c2: ContextView, acts: Seq<AcsActionView>)
    requires
        termination_ok(c, c2, acts),
    ensures
        c2.indices_buffer == c.indices_buffer,
        c2.trans_buffer == c.trans_buffer,
        c2.indices_broadcasted == c.indices_broadcasted,
        forall|i: int| 0 <= i < acts.len() ==> (#[trigger] acts[i]) is Output,
{
    lemma_termination_fresh(c, c2, acts);
}

/// The handler of a message is sound in the sense of [`msg_step_sound`].
pub proof fn lemma_msg_step_sound(c: ContextView, m: AcsMsgView, c2: ContextView, acts: Seq<AcsActionView>)
    requires
        acs_msg_ok(c, m, c2, acts),
    ensures
        msg_step_sound(c, c2, acts),
{
    match m {
        AcsMsgView::RBCTrans(t, sender) => {
            let tb = c.trans_buffer.insert(sender, t);
            let lead = c.leaders.contains(c.myid) && !c.indices_broadcasted && tb.len() == c.num_nodes - c.num_faults;
            let js = joins(c, tb);
            let k: int = if lead { 1 } else { 0 };
            let c1 = ContextView {
                trans_buffer: tb,
                indices_broadcasted: c.indices_broadcasted || lead,
                delphi_joined: c.delphi_joined.union(js),
                ..c
            };
            lemma_final_check_fresh(c1);
            let sub = acts.subrange(k, k + js.len());
            let rest = acts.subrange(k + js.len(), acts.len() as int);
            assert forall|i: int| 0 <= i < acts.len() && (#[trigger] acts[i]) is DelphiInput implies {
                &&& acts[i]->DelphiInput_1 == c.high_val
                &&& c2.indices_buffer.contains_key(acts[i]->DelphiInput_0)
                &&& c2.indices_buffer[acts[i]->DelphiInput_0].subset_of(c2.trans_buffer.dom())
            } by {
                if i < k {
                    assert(is_proposal(acts[0], c.myid, tb.dom()));
                } else if i < k + js.len() {
                    assert(sub[i - k] == acts[i]);
                    assert(is_input(sub[i - k], js, c.high_val));
                } else {
                    assert(rest[i - k - js.len()] == acts[i]);
                }
            }
            assert forall|i: int| 0 <= i < acts.len() && is_index_set(#[trigger] acts[i]) implies !c.indices_broadcasted && c2.indices_broadcasted by {
                if i >= k && i < k + js.len() {
                    assert(sub[i - k] == acts[i]);
                    assert(is_input(sub[i - k], js, c.high_val));
                } else if i >= k + js.len() {
                    assert(rest[i - k - js.len()] == acts[i]);
                }
            }
            assert forall|i: int, j: int| 0 <= i < j < acts.len() && is_index_set(#[trigger] acts[i]) implies !is_index_set(#[trigger] acts[j]) by {
                if j < k + js.len() {
                    assert(sub[j - k] == acts[j]);
                    assert(is_input(sub[j - k], js, c.high_val));
                } else {
                    assert(rest[j - k - js.len()] == acts[j]);
                }
            }
        },
        AcsMsgView::RBCIndexSet(ids, sender) => {
            let ind = ids.to_set();
            if !c.leaders.contains(sender) || ind.len() != c.num_nodes - c.num_faults || c.delphi_joined.contains(sender) {
            } else {
                let join = ind.subset_of(c.trans_buffer.dom());
                let c1 = ContextView {
                    indices_buffer: c.indices_buffer.insert(sender, ind),
                    delphi_joined: if join { c.delphi_joined.insert(sender) } else { c.delphi_joined },
                    ..c
                };
                let k: int = if join { 1 } else { 0 };
                let rest = acts.subrange(k, acts.len() as int);
                lemma_termination_keeps(c1, c2, rest);
                assert forall|i: int| k <= i < acts.len() implies (#[trigger] acts[i]) is Output by {
                    assert(rest[i - k] == acts[i]);
                }
            }
        },
    }
}

/// Law of `Context::handle_network_message` and `handle_delphi_result` over
/// runs: over any interleaving of messages and agreement results, a node
/// gives each agreement instance at most one input, and only to an instance
/// that it had not joined when the run began; every input given on a message
/// is `high_val`, to a leader whose proposed set is wholly received; and the
/// node proposes a set at most once, and only if it had not proposed one when
/// the run began.
pub proof fn lemma_acs_run(cs: Seq<ContextView>, es: Seq<AcsEventView>, acts: Seq<Seq<AcsActionView>>)
    requires
        cs.len() == es.len() + 1,
        acts.len() == es.len(),
        forall|q: int| 0 <= q < es.len() ==> acs_step_ok(cs[q], #[trigger] es[q], cs[q + 1], acts[q]),
    ensures
        forall|j: int, a: int| 0 <= j < acts.len() && 0 <= a < acts[j].len() && (#[trigger] acts[j][a]) is DelphiInput
            ==> !cs[0].delphi_joined.contains(acts[j][a]->DelphiInput_0),
        forall|j: int, a: int, k: int, b: int|
            0 <= j < acts.len() && 0 <= k < acts.len() && 0 <= a < acts[j].len() && 0 <= b < acts[k].len()
            && (j < k || (j == k && a < b))
            && (#[trigger] acts[j][a]) is DelphiInput && (#[trigger] acts[k][b]) is DelphiInput
            ==> acts[j][a]->DelphiInput_0 != acts[k][b]->DelphiInput_0,
        forall|j: int, a: int| 0 <= j < acts.len() && 0 <= a < acts[j].len() && es[j] is Msg && (#[trigger] acts[j][a]) is DelphiInput ==> {
            &&& acts[j][a]->DelphiInput_1 == cs[j].high_val
            &&& cs[j + 1].indices_buffer.contains_key(acts[j][a]->DelphiInput_0)
            &&& cs[j + 1].indices_buffer[acts[j][a]->DelphiInput_0].subset_of(cs[j + 1].trans_buffer.dom())
        },
        forall|j: int, a: int| 0 <= j < acts.len() && 0 <= a < acts[j].len() && is_index_set(#[trigger] acts[j][a])
            ==> !cs[0].indices_broadcasted,
        forall|j: int, a: int, k: int, b: int|
            0 <= j < acts.len() && 0 <= k < acts.len() && 0 <= a < acts[j].len() && 0 <= b < acts[k].len()
            && (j < k || (j == k && a < b)) && is_index_set(#[trigger] acts[j][a])
            ==> !is_index_set(#[trigger] acts[k][b]),
{
    lemma_inputs_once(cs, es, acts);
    assert forall|j: int, a: int| 0 <= j < acts.len() && 0 <= a < acts[j].len() && es[j] is Msg && (#[trigger] acts[j][a]) is DelphiInput implies {
        &&& acts[j][a]->DelphiInput_1 == cs[j].high_val
        &&& cs[j + 1].indices_buffer.contains_key(acts[j][a]->DelphiInput_0)
        &&& cs[j + 1].indices_buffer[acts[j][a]->DelphiInput_0].subset_of(cs[j + 1].trans_buffer.dom())
    } by {
        assert(acs_step_ok(cs[j], es[j], cs[j + 1], acts[j]));
        lemma_msg_step_sound(cs[j], es[j]->Msg_0, cs[j + 1], acts[j]);
    }
    assert forall|j: int, a: int| 0 <= j < acts.len() && 0 <= a < acts[j].len() && is_index_set(#[trigger] acts[j][a])
        implies !cs[0].indices_broadcasted by {
        lemma_index_set_step(cs, es, acts, j);
        lemma_broadcasted_grows(cs, es, acts, 0, j);
    }
    assert forall|j: int, a: int, k: int, b: int|
        0 <= j < acts.len() && 0 <= k < acts.len() && 0 <= a < acts[j].len() && 0 <= b < acts[k].len()
        && (j < k || (j == k && a < b)) && is_index_set(#[trigger] acts[j][a])
        implies !is_index_set(#[trigger] acts[k][b]) by {
        lemma_index_set_step(cs, es, acts, j);
        lemma_index_set_step(cs, es, acts, k);
        if j < k {
            lemma_broadcasted_grows(cs, es, acts, j + 1, k);
        }
    }
}

/// A result of an agreement instance proposes nothing; every step keeps a
/// proposal made.
proof fn lemma_index_set_step(cs: Seq<ContextView>, es: Seq<AcsEventView>, acts: Seq<Seq<AcsActionView>>, j: int)
    requires
        cs.len() == es.len() + 1,
        acts.len() == es.len(),
        forall|q: int| 0 <= q < es.len() ==> acs_step_ok(cs[q], #[trigger] es[q], cs[q + 1], acts[q]),
        0 <= j < es.len(),
    ensures
        cs[j].indices_broadcasted ==> cs[j + 1].indices_broadcasted,
        forall|i: int| 0 <= i < acts[j].len() && is_index_set(#[trigger] acts[j][i]) ==> !cs[j].indices_broadcasted && cs[j + 1].indices_broadcasted,
        forall|i: int, k: int| 0 <= i < k < acts[j].len() && is_index_set(#[trigger] acts[j][i]) ==> !is_index_set(#[trigger] acts[j][k]),
{
    let c = cs[j];
    let c2 = cs[j + 1];
    let a = acts[j];
    assert(acs_step_ok(c, es[j], c2, a));
    match es[j] {
        AcsEventView::Msg(m) => {
            lemma_msg_step_sound(c, m, c2, a);
        },
        AcsEventView::Result(inst, val) => {
            let dt = c.delphi_terminated.insert(inst);
            if val > midpoint(c.high_val as int, c.low_val as int) {
                let js = c.leaders.difference(c.delphi_joined);
                let c1 = ContextView {
                    delphi_terminated: dt,
                    indices_decided: c.indices_decided.insert(inst),
                    delphi_joined: c.delphi_joined.union(c.leaders),
                    ..c
                };
                let sub = a.subrange(0, js.len() as int);
                let rest = a.subrange(js.len() as int, a.len() as int);
                lemma_termination_keeps(c1, c2, rest);
                assert forall|i: int| 0 <= i < a.len() implies !is_index_set(#[trigger] a[i]) by {
                    if i < js.len() {
                        assert(sub[i] == a[i]);
                        assert(is_input(sub[i], js, c.low_val));
                    } else {
                        assert(rest[i - js.len()] == a[i]);
                    }
                }
            } else {
                lemma_termination_keeps(ContextView { delphi_terminated: dt, ..c }, c2, a);
            }
        },
    }
}

proof fn lemma_broadcasted_grows(cs: Seq<ContextView>, es: Seq<AcsEventView>, acts: Seq<Seq<AcsActionView>>, j: int, k: int)
    requires
        cs.len() == es.len() + 1,
        acts.len() == es.len(),
        forall|q: int| 0 <= q < es.len() ==> acs_step_ok(cs[q], #[trigger] es[q], cs[q + 1], acts[q]),
        0 <= j <= k < cs.len(),
    ensures
        cs[j].indices_broadcasted ==> cs[k].indices_broadcasted,
    decreases k - j,
{
    if j < k {
        lemma_broadcasted_grows(cs, es, acts, j, k - 1);
        lemma_index_set_step(cs, es, acts, k - 1);
    }
}

} // verus!

verus! {

/// `m` is half of `x`, rounded toward zero, as Rust's integer division by two
/// computes it.
pub open spec fn half_toward_zero(x: int, m: int) -> bool {
    &&& x >= 0 ==> 0 <= x - 2 * m <= 1
    &&& x < 0 ==> 0 <= 2 * m - x <= 1
}

proof fn lemma_half_is_midpoint(h: Val, l: Val, m: int)
    requires
        half_toward_zero(h + l, m),
    ensures
        m == midpoint(h as int, l as int),
{
}

proof fn lemma_termination_decided(c: ContextView, c2: ContextView, acts: Seq<AcsActionView>)
    requires
        termination_ok(c, c2, acts),
    ensures
        c2.indices_decided == c.indices_decided,
        c2.delphi_joined == c.delphi_joined,
        forall|i: int| 0 <= i < acts.len() ==> (#[trigger] acts[i]) is Output,
{
    lemma_termination_fresh(c, c2, acts);
    if !(c.delphi_terminated.len() < c.kappa || !c.indices_decided.subset_of(c.indices_buffer.dom())) {
        let fs = decided_union(c);
        lemma_final_check_fresh(ContextView { final_set: fs, final_order: c2.final_order, ..c });
    }
}

/// Law of `Context::handle_delphi_result`: the result `val` of the agreement
/// instance of leader `inst` decides that leader's proposed set exactly when
/// `val` exceeds half of `high_val + low_val` (rounded toward zero). Then the
/// set is decided on, the instance counts as terminated, and every input given
/// is `low_val` to a leader that had none, after which every leader has one.
/// At or below that half, no set is decided, no input is given, and no leader
/// joins.
pub proof fn lemma_result_decides_above_half(c: ContextView, inst: Replica, val: Val, c2: ContextView, acts: Seq<AcsActionView>, m: int)
    requires
        delphi_result_ok(c, inst, val, c2, acts),
        half_toward_zero(c.high_val + c.low_val, m),
    ensures
        c2.delphi_terminated == c.delphi_terminated.insert(inst),
        val > m ==> {
            &&& c2.indices_decided == c.indices_decided.insert(inst)
            &&& c.leaders.subset_of(c2.delphi_joined)
            &&& forall|i: int| 0 <= i < acts.len() && (#[trigger] acts[i]) is DelphiInput ==> {
                &&& acts[i]->DelphiInput_1 == c.low_val
                &&& c.leaders.contains(acts[i]->DelphiInput_0)
                &&& !c.delphi_joined.contains(acts[i]->DelphiInput_0)
            }
        },
        val <= m ==> {
            &&& c2.indices_decided == c.indices_decided
            &&& c2.delphi_joined == c.delphi_joined
            &&& forall|i: int| 0 <= i < acts.len() ==> !((#[trigger] acts[i]) is DelphiInput)
        },
{
    lemma_half_is_midpoint(c.high_val, c.low_val, m);
    let dt = c.delphi_terminated.insert(inst);
    if val > midpoint(c.high_val as int, c.low_val as int) {
        let js = c.leaders.difference(c.delphi_joined);
        let c1 = ContextView {
            delphi_terminated: dt,
            indices_decided: c.indices_decided.insert(inst),
            delphi_joined: c.delphi_joined.union(c.leaders),
            ..c
        };
        let sub = acts.subrange(0, js.len() as int);
        let rest = acts.subrange(js.len() as int, acts.len() as int);
        lemma_termination_decided(c1, c2, rest);
        lemma_termination_keeps_terminated(c1, c2, rest);
        assert forall|i: int| 0 <= i < acts.len() && (#[trigger] acts[i]) is DelphiInput implies {
            &&& acts[i]->DelphiInput_1 == c.low_val
            &&& c.leaders.contains(acts[i]->DelphiInput_0)
            &&& !c.delphi_joined.contains(acts[i]->DelphiInput_0)
        } by {
            if i < js.len() {
                assert(sub[i] == acts[i]);
                assert(is_input(sub[i], js, c.low_val));
            } else {
                assert(rest[i - js.len()] == acts[i]);
            }
        }
    } else {
        lemma_termination_decided(ContextView { delphi_terminated: dt, ..c }, c2, acts);
        lemma_termination_keeps_terminated(ContextView { delphi_terminated: dt, ..c }, c2, acts);
    }
}

proof fn lemma_termination_keeps_terminated(c: ContextView, c2: ContextView, acts: Seq<AcsActionView>)
    requires
        termination_ok(c, c2, acts),
    ensures
        c2.delphi_terminated == c.delphi_terminated,
{
    if !(c.delphi_terminated.len() < c.kappa || !c.indices_decided.subset_of(c.indices_buffer.dom())) {
        let fs = decided_union(c);
        lemma_final_check_fresh(ContextView { final_set: fs, final_order: c2.final_order, ..c });
    }
}

} // verus!
