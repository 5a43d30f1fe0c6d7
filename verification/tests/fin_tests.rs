use delphi_rs::fin::Error;
use delphi_rs::fin::rbc_state::RBCState;
use delphi_rs::fin::roundvals_bin::RoundStateBin;
use delphi_rs::fin::context::Context;
use delphi_rs::fin::msg::{Action, Event, FinMsg};
use delphi_rs::types::Msg;

fn msg(value: u64, origin: usize, rnd_estm: bool, message: Vec<usize>) -> Msg {
    Msg { value, origin, round: 0, rnd_estm, message }
}

#[test]
fn rbc_state_starts_empty() {
    let s = RBCState::new();
    assert!(s.node_msgs.is_empty());
    assert!(s.echos.is_empty());
    assert!(s.readys.is_empty());
    assert!(s.accepted_vals.is_empty());
    assert_eq!(s.terminated_rbcs.len(), 0);
}

#[test]
fn rbc_state_insert_node_stores_under_origin() {
    let mut s = RBCState::new();
    s.insert_node(msg(7, 3, false, vec![]));
    s.insert_node(msg(9, 3, false, vec![1]));
    assert_eq!(s.node_msgs.len(), 1);
    assert_eq!(s.node_msgs.get(&3).unwrap().value, 9);
}

#[test]
fn error_variants_compare() {
    assert_eq!(Error::KeyGenBadCommitment, Error::KeyGenBadCommitment);
    assert_ne!(Error::KeyGenInvalidShare, Error::SigningMisMatchedVectors);
}

#[test]
fn bin_echo_reaches_echo1_then_echo2() {
    // f = 1, n = 4: ECHO1 at 2 votes, ECHO2 at 3 votes.
    let mut r = RoundStateBin::new_with_echo(5, 0);
    assert_eq!(r.add_echo(5, 1, 2, 3), (Some(5), None, None));
    assert_eq!(r.add_echo(5, 2, 2, 3), (None, Some(5), None));
    assert_eq!(r.echo1vals, vec![5]);
    assert_eq!(r.add_echo(5, 3, 2, 3), (None, None, None));
}

#[test]
fn bin_two_values_give_echo3_at_midpoint() {
    let mut r = RoundStateBin::new_with_echo(0, 0);
    assert_eq!(r.add_echo(2, 1, 2, 3), (None, None, None));
    // First value reaches both thresholds.
    assert_eq!(r.add_echo(0, 1, 2, 3), (Some(0), None, None));
    assert_eq!(r.add_echo(0, 2, 2, 3), (None, Some(0), None));
    // Second value.
    assert_eq!(r.add_echo(2, 2, 2, 3), (Some(2), None, None));
    assert_eq!(r.add_echo(2, 3, 2, 3), (None, None, Some(1)));
}

#[test]
fn bin_echo2_gives_one_echo3() {
    let mut r = RoundStateBin::new_with_echo2(2, 0);
    assert_eq!(r.add_echo2(2, 1, 3), None);
    assert_eq!(r.add_echo2(2, 2, 3), Some(2));
    assert_eq!(r.add_echo2(2, 3, 3), None);
    assert_eq!(r.echo2vals, vec![2, 2]);
}

#[test]
fn bin_echo3_ends_round_with_echo1_value() {
    let mut r = RoundStateBin::new_with_echo(2, 0);
    r.add_echo(2, 1, 2, 3);
    r.add_echo(2, 2, 2, 3);
    assert!(!r.add_echo3(2, 0, 3));
    assert!(!r.add_echo3(2, 1, 3));
    assert!(r.add_echo3(2, 2, 3));
    assert_eq!(r.termval, Some(2));
    // A repeated sender reports whether the round has its value.
    assert!(r.add_echo3(2, 2, 3));
}

#[test]
fn bin_echo3_value_between_two_values() {
    let mut r = RoundStateBin::new_with_echo(0, 0);
    r.add_echo(0, 1, 2, 3);
    r.add_echo(0, 2, 2, 3);
    r.add_echo(2, 0, 2, 3);
    r.add_echo(2, 1, 2, 3);
    r.add_echo(2, 2, 2, 3);
    assert_eq!(r.echo1vals.len(), 2);
    r.add_echo3(1, 0, 3);
    r.add_echo3(1, 1, 3);
    assert!(r.add_echo3(1, 2, 3));
    let t = r.termval.unwrap();
    assert!(0 <= t && t <= 2);
    assert_eq!(t, 1);
}

#[test]
fn bin_new_with_echo3_and_psig() {
    let r = RoundStateBin::new_with_echo3(2, 4);
    assert_eq!(r.echo3vals.get(&4), Some(&2));
    assert_eq!(r.state.len(), 1);
    let p = RoundStateBin::new_with_psig(vec![1, 2, 3], 5);
    assert!(p.contains_sig(5));
    assert!(!p.contains_sig(4));
    assert!(p.state.is_empty());
}

fn decided_round(value: i64) -> RoundStateBin {
    let mut r = RoundStateBin::new_with_echo(value, 0);
    r.add_echo(value, 1, 2, 3);
    r.add_echo(value, 2, 2, 3);
    r.add_echo3(value, 0, 3);
    r.add_echo3(value, 1, 3);
    r.add_echo3(value, 2, 3);
    r
}

#[test]
fn coin_decisions() {
    let mut r = decided_round(2);
    assert_eq!(r.aggregate_psigs(2, true), None);
    r.add_partial_sig(0, vec![0]);
    r.add_partial_sig(1, vec![1]);
    assert_eq!(r.aggregate_psigs(2, true), Some((true, 2)));
    assert_eq!(r.aggregate_psigs(2, false), Some((false, 2)));
    let mut z = decided_round(0);
    z.add_partial_sig(0, vec![0]);
    z.add_partial_sig(1, vec![1]);
    assert_eq!(z.aggregate_psigs(2, false), Some((true, 0)));
    assert_eq!(z.aggregate_psigs(2, true), Some((false, 0)));
}

#[test]
fn coin_with_two_values_takes_the_coin() {
    let mut r = RoundStateBin::new_with_echo(0, 0);
    r.add_echo(0, 1, 2, 3);
    r.add_echo(0, 2, 2, 3);
    r.add_echo(2, 0, 2, 3);
    r.add_echo(2, 1, 2, 3);
    r.add_echo(2, 2, 2, 3);
    r.add_echo3(1, 0, 3);
    r.add_echo3(1, 1, 3);
    r.add_echo3(1, 2, 3);
    r.add_partial_sig(0, vec![0]);
    r.add_partial_sig(3, vec![3]);
    assert_eq!(r.aggregate_psigs(2, true), Some((false, 2)));
    assert_eq!(r.aggregate_psigs(2, false), Some((false, 0)));
}

#[test]
fn fin_rbc_init_echoes() {
    let mut c = Context::new(4, 0, 1, 10);
    let acts = c.process_rbc_init(msg(10, 2, false, vec![]), 2);
    assert_eq!(acts.len(), 2);
    assert!(matches!(&acts[0], Action::Broadcast(FinMsg::ECHO(m, 2, 0)) if m.value == 10));
    assert!(matches!(&acts[1], Action::Deliver(Event::Echo(_, 2, 0))));
    assert!(c.rbc_state.node_msgs.contains_key(&2));
    assert!(c.mvba_state.node_msgs.is_empty());
}

#[test]
fn fin_echo_threshold_sends_ready() {
    let mut c = Context::new(4, 0, 1, 10);
    c.process_rbc_init(msg(10, 2, false, vec![]), 2);
    // This node's own echo was recorded by the init; two more make n - f = 3.
    assert!(c.process_echo(msg(10, 2, false, vec![]), 2, 0).is_empty());
    assert!(c.process_echo(msg(10, 2, false, vec![]), 2, 1).is_empty());
    let acts = c.process_echo(msg(10, 2, false, vec![]), 2, 3);
    assert_eq!(acts.len(), 2);
    assert!(matches!(&acts[0], Action::Broadcast(FinMsg::READY(_, 2, 0))));
}

#[test]
fn fin_ready_accepts_and_starts_second_phase() {
    let mut c = Context::new(4, 0, 1, 10);
    for o in 0..3usize {
        c.process_rbc_init(msg(10 + o as u64, o, false, vec![]), o);
        // Readys from nodes 1 and 2 and 3 (this node's own was recorded).
        c.process_ready(msg(10 + o as u64, o, false, vec![]), o, 1);
        let acts = c.process_ready(msg(10 + o as u64, o, false, vec![]), o, 2);
        if o < 2 {
            assert!(matches!(acts.last(), Some(Action::Deliver(Event::UpdateWitnesses))));
        } else {
            // The third accepted broadcast starts the second phase.
            assert_eq!(acts.len(), 3);
            assert!(matches!(&acts[0], Action::Broadcast(FinMsg::RBCInit(m, 0)) if m.rnd_estm && m.message.len() == 3));
        }
    }
    assert_eq!(c.rbc_state.terminated_rbcs.len(), 3);
    assert_eq!(c.rbc_state.accepted_vals, vec![10, 11, 12]);
}

#[test]
fn fin_baa_echo_creates_round_then_counts() {
    let mut c = Context::new(4, 0, 1, 10);
    assert!(c.process_baa_echo(2, 1, 0, 0).is_empty());
    assert!(c.round_state.get(&0).unwrap().contains_key(&0));
    let acts = c.process_baa_echo(2, 2, 0, 0);
    // Two votes: this node echoes 2, and its own echo is counted at once.
    assert!(matches!(&acts[0], Action::Broadcast(FinMsg::FinBinAAEcho(2, 0, 0, 0))));
    assert!(acts.iter().any(|a| matches!(a, Action::Broadcast(FinMsg::FinBinAAEcho2(2, 0, 0, 0)))));
}

#[test]
fn fin_stale_messages_are_dropped() {
    let mut c = Context::new(4, 0, 1, 10);
    c.leader_round = 3;
    assert!(c.process_baa_echo(2, 1, 2, 0).is_empty());
    assert!(c.round_state.is_empty());
}

#[test]
fn fin_start_baa_next_round_and_reelection() {
    let mut c = Context::new(4, 0, 1, 10);
    let acts = c.start_baa(0, 1, 2, false);
    assert_eq!(acts.len(), 3);
    assert!(matches!(&acts[0], Action::Deliver(Event::BaaEcho(2, 0, 0, 1))));
    assert!(matches!(&acts[2], Action::Deliver(Event::BaaRound(1))));
    let acts = c.start_baa(0, 1, 0, true);
    assert!(matches!(&acts[0], Action::ElectLeader(1)));
    assert!(matches!(&acts[1], Action::Deliver(Event::LeaderRound(1))));
}

#[test]
fn fin_start_baa_outputs_leader_proposal() {
    let mut c = Context::new(4, 0, 1, 10);
    for (o, v) in [(0usize, 40u64), (1, 10), (2, 30), (3, 20)] {
        c.rbc_state.insert_node(msg(v, o, false, vec![]));
    }
    c.mvba_state.insert_node(msg(10, 3, true, vec![0, 1, 2, 3]));
    c.leaders.insert(0, Some(3));
    let acts = c.start_baa(0, 5, 2, true);
    // Sorted values 10, 20, 30, 40: the (f+2)-th is 30.
    assert!(matches!(&acts[0], Action::Completed(30)));
    assert!(c.terminated);
    assert!(c.start_baa(0, 5, 2, true).is_empty());
}

#[test]
fn fin_partial_sig_is_stored_when_valid() {
    let mut c = Context::new(4, 0, 1, 10);
    c.process_baa_echo(2, 1, 0, 0);
    let acts = c.step(Event::PartialSig(vec![9], true, 1, 0, 0));
    assert!(matches!(&acts[0], Action::Aggregate(0, 0)));
    assert!(c.round_state.get(&0).unwrap().get(&0).unwrap().contains_sig(1));
    assert!(c.step(Event::PartialSig(vec![9], false, 2, 0, 0)).is_empty());
    assert!(!c.round_state.get(&0).unwrap().get(&0).unwrap().contains_sig(2));
}

#[test]
fn fin_update_witnesses_adds_covered_nodes() {
    let mut c = Context::new(4, 0, 1, 10);
    c.rbc_state.terminated_rbcs.insert(0);
    c.rbc_state.terminated_rbcs.insert(1);
    c.rbc_state.accepted_vals = vec![1, 1];
    c.mvba_state.insert_node(msg(1, 2, true, vec![0, 1]));
    c.mvba_state.insert_node(msg(1, 3, true, vec![0, 3]));
    c.mvba_state.terminated_rbcs.insert(2);
    c.mvba_state.terminated_rbcs.insert(3);
    c.mvba_state.accepted_vals = vec![1, 1];
    c.step(Event::UpdateWitnesses);
    assert!(c.witnesses.contains(2));
    assert!(!c.witnesses.contains(3));
}

#[test]
fn fin_echo3_returned_once_over_echo2_votes() {
    let mut r = RoundStateBin::new_with_echo2(5, 0);
    let mut got = Vec::new();
    for s in 1..6 {
        got.push(r.add_echo2(5, s, 3));
    }
    assert_eq!(got, vec![None, Some(5), None, None, None]);
    assert!(r.echo3sent);
}
