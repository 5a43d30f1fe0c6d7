use std::collections::{HashMap, VecDeque};
use delphi_rs::types::{Msg, NodeSet};
use delphi_rs::appxcon::echo::create_roundstate;
use delphi_rs::appxcon::roundvals::RoundState;
use delphi_rs::appxcon::context::{Context, LAST_ROUND};
use delphi_rs::appxcon::msg::{ProtMsg, Action};
use delphi_rs::hyb_appxcon::roundvals::{RoundState as HybRoundState, ValueMap};
use delphi_rs::hyb_appxcon::witness::{Context as HybContext, Action as HybAction};

fn msg(value: u64, origin: usize, round: u64) -> Msg {
    Msg { value, origin, round, rnd_estm: false, message: vec![] }
}

#[test]
fn roundstate_new_and_insert() {
    let mut r = RoundState::new();
    assert!(r.node_msgs.is_empty());
    assert!(r.accepted_vals.is_empty());
    assert!(!r.witness_sent);
    r.insert_node(msg(5, 2, 0));
    assert_eq!(r.node_msgs.get(&2).unwrap().value, 5);
}

#[test]
fn create_roundstate_holds_own_votes() {
    let r = create_roundstate(3, &msg(9, 3, 0), 1);
    assert_eq!(r.node_msgs.get(&3).unwrap().value, 9);
    assert!(r.echos.get(&3).unwrap().contains(1));
    assert!(r.readys.get(&3).unwrap().contains(1));
    assert_eq!(r.echos.get(&3).unwrap().len(), 1);
}

fn copy_msg(m: &ProtMsg) -> ProtMsg {
    match m {
        ProtMsg::RBCInit(x, r) => ProtMsg::RBCInit(x.clone(), *r),
        ProtMsg::ECHO(x, o, s) => ProtMsg::ECHO(x.clone(), *o, *s),
        ProtMsg::READY(x, o, s) => ProtMsg::READY(x.clone(), *o, *s),
        ProtMsg::WITNESS(v, s, r) => ProtMsg::WITNESS(v.clone(), *s, *r),
    }
}

fn perform(ctxs: &mut Vec<Context>, i: usize, acts: Vec<Action>, queue: &mut VecDeque<(usize, ProtMsg)>, done: &mut Vec<Option<u64>>) {
    for a in acts {
        match a {
            Action::Broadcast(m) => {
                for j in 0..ctxs.len() {
                    if j != i {
                        queue.push_back((j, copy_msg(&m)));
                    }
                }
            },
            Action::Deliver(e) => {
                let more = ctxs[i].step(e);
                perform(ctxs, i, more, queue, done);
            },
            Action::Completed(v) => done[i] = Some(v),
        }
    }
}

#[test]
fn appxcon_all_nodes_agree_within_inputs() {
    let inputs = [10u64, 20, 30, 40];
    let mut ctxs: Vec<Context> = (0..4).map(|i| Context::new(4, i, 1, 0, inputs[i], 1)).collect();
    let mut queue = VecDeque::new();
    let mut done = vec![None; 4];
    for i in 0..4 {
        let acts = ctxs[i].start_rbc();
        perform(&mut ctxs, i, acts, &mut queue, &mut done);
    }
    let mut steps = 0;
    while let Some((j, m)) = queue.pop_front() {
        let acts = ctxs[j].process_msg(m);
        perform(&mut ctxs, j, acts, &mut queue, &mut done);
        steps += 1;
        assert!(steps < 1_000_000);
    }
    for d in done.iter() {
        let v = d.expect("every node completes");
        assert!(10 <= v && v <= 40);
    }
    for c in ctxs.iter() {
        assert_eq!(c.round, LAST_ROUND + 1);
    }
}

#[test]
fn appxcon_round_value_is_trimmed_midpoint() {
    // One node, with every value of round 0 accepted and n - f witnesses.
    let mut c = Context::new(4, 0, 1, 0, 25, 1);
    let mut rs = RoundState::new();
    for (o, v) in [(0usize, 40u64), (1, 10), (2, 30), (3, 20)] {
        rs.node_msgs.insert(o, msg(v, o, 0));
        rs.terminated_rbcs.insert(o);
        rs.accepted_vals.push(v);
    }
    for w in 0..3usize {
        rs.witnesses.insert(w, vec![0, 1, 2]);
    }
    c.round_state.insert(0, rs);
    let acts = c.check_for_ht_witnesses(0);
    // Sorted 10, 20, 30, 40: midpoint of 20 and 30.
    assert_eq!(c.value, 25);
    assert_eq!(c.round, 1);
    assert!(matches!(&acts[0], Action::Broadcast(ProtMsg::RBCInit(m, 0)) if m.value == 25 && m.round == 1));
    assert_eq!(c.round_state.get(&0).unwrap().accepted_vals, vec![10, 20, 30, 40]);
}

#[test]
fn hyb_roundstate_new_and_insert() {
    let mut r = HybRoundState::new();
    assert_eq!(r.wround, 1);
    assert!(r.node_msgs.is_empty());
    r.insert_node(msg(3, 1, 0));
    assert_eq!(r.node_msgs.get(&1).unwrap().value, 3);
    let mut m = ValueMap::new();
    m.insert(1, 5);
    m.insert(1, 6);
    m.insert(2, 7);
    assert_eq!(m.len(), 2);
    assert_eq!(m.values(), vec![6, 7]);
}

fn hyb_ctx(round: u64) -> HybContext {
    HybContext {
        num_nodes: 4, myid: 0, num_faults: 1, round, value: 0, delta: 10,
        rounds_delta: 5, rounds_bin: 3, round_state: HashMap::new(),
    }
}

fn full_round() -> HybRoundState {
    let mut rs = HybRoundState::new();
    for (o, v) in [(0usize, 40u64), (1, 10), (2, 30), (3, 20)] {
        rs.node_msgs.insert(o, msg(v, o, 1));
        rs.terminated_rbcs.insert(o);
        rs.accepted_vals.push(v);
    }
    rs
}

#[test]
fn hyb_first_witnesses_move_to_next_round() {
    let mut c = hyb_ctx(1);
    c.round_state.insert(1, full_round());
    assert!(c.handle_witness(vec![0, 1, 2], 1, 0, 1).is_empty());
    assert!(c.handle_witness(vec![1, 2, 3], 1, 1, 1).is_empty());
    let acts = c.handle_witness(vec![0, 2, 3], 1, 2, 1);
    assert_eq!(c.value, 25);
    assert_eq!(c.round, 2);
    assert!(matches!(&acts[0], HybAction::StartRbc(m) if m.value == 25 && m.round == 2 && !m.rnd_estm));
}

#[test]
fn hyb_first_witnesses_start_binary_agreement() {
    let mut c = hyb_ctx(5);
    c.round_state.insert(5, full_round());
    for w in 0..3usize {
        c.handle_witness(vec![0, 1, 2], 5, w, 1);
    }
    assert_eq!(c.round, 6);
    assert_eq!(c.rounds_bin, 8);
}

#[test]
fn hyb_second_witnesses_use_reported_values() {
    let mut c = hyb_ctx(2);
    let mut rs = full_round();
    rs.wround = 2;
    rs.term_values.insert(0, 7);
    rs.term_values.insert(1, 3);
    c.round_state.insert(2, rs);
    for w in 0..3usize {
        c.handle_witness(vec![1, 3, 2, 0], 2, w, 2);
    }
    // f + 1 values reported: the median (upper) of 3 and 7.
    assert_eq!(c.value, 7);
    assert_eq!(c.round, 3);
}

#[test]
fn hyb_estimate_rounds_carries_list() {
    let c = hyb_ctx(0);
    match c.estimate_rounds(vec![1, 2]) {
        HybAction::StartRbc(m) => {
            assert!(m.rnd_estm);
            assert_eq!(m.message, vec![1, 2]);
        },
        _ => panic!("expected a broadcast"),
    }
}

#[test]
fn nodeset_keeps_first_insertion_order() {
    let mut s = NodeSet::new();
    assert!(s.insert(3));
    assert!(s.insert(1));
    assert!(!s.insert(3));
    assert_eq!(s.to_vec(), vec![3, 1]);
}

#[test]
fn appxcon_witness_announced_once_with_first_accepted() {
    // n = 4, f = 1: READYs from nodes 1 and 2 after this node's own accept a
    // broadcast; the third accepted broadcast announces the witness list.
    let mut c = Context::new(4, 0, 1, 0, 25, 1);
    let mut witnesses = Vec::new();
    for o in [2usize, 0, 3, 1] {
        c.process_rbc_init(msg(10 * o as u64, o, 0));
        for s in [1usize, 2] {
            for a in c.process_ready(msg(10 * o as u64, o, 0), s) {
                if let Action::Broadcast(ProtMsg::WITNESS(l, me, _)) = a {
                    witnesses.push((l, me));
                }
            }
        }
    }
    assert_eq!(witnesses, vec![(vec![2, 0, 3], 0)]);
    let rs = c.round_state.get(&0).unwrap();
    assert!(rs.witness_sent);
    assert_eq!(rs.accepted_vals, vec![20, 0, 30, 10]);
}
