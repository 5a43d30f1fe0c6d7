use std::collections::HashMap;
use delphi_rs::aacs::select::{select_set, find_t_transcripts};
use delphi_rs::aacs::context::{Context, AcsMsg, AcsAction};
use delphi_rs::dkg::trans::Transcript;

fn trans(id: usize) -> Transcript {
    Transcript { id, cert: vec![0, 1], supple_ids: vec![3, 4] }
}

#[test]
fn select_set_chooses_kappa_distinct_nodes() {
    let s = select_set(10, 4, 12345);
    let v = s.to_vec();
    assert_eq!(v.len(), 4);
    for x in v.iter() {
        assert!(*x < 10);
    }
    let again = select_set(10, 4, 12345).to_vec();
    assert_eq!(v, again);
}

#[test]
fn select_set_uses_low_bits_of_seed() {
    let a = select_set(20, 5, 7).to_vec();
    let b = select_set(20, 5, 7 + (1u128 << 64)).to_vec();
    assert_eq!(a, b);
}

#[test]
fn select_set_all_nodes() {
    let mut v = select_set(5, 5, 99).to_vec();
    v.sort();
    assert_eq!(v, vec![0, 1, 2, 3, 4]);
    assert_eq!(select_set(5, 0, 99).len(), 0);
}

#[test]
fn find_t_transcripts_needs_exact_count() {
    let mut m: HashMap<usize, Transcript> = HashMap::new();
    m.insert(0, trans(0));
    m.insert(2, trans(2));
    m.insert(5, trans(5));
    assert!(find_t_transcripts(&m, 2).is_none());
    assert!(find_t_transcripts(&m, 4).is_none());
    let mut got: Vec<usize> = find_t_transcripts(&m, 3).unwrap().iter().map(|(k, t)| {
        assert_eq!(*k, t.id);
        *k
    }).collect();
    got.sort();
    assert_eq!(got, vec![0, 2, 5]);
}

fn acs_node() -> Context {
    // n = 4, f = 1, every node a leader.
    let mut c = Context::new(0, 4, 1, 10001, 1, 4);
    c.choose_leaders(42);
    c
}

#[test]
fn acs_leader_proposes_after_n_minus_f_transcripts() {
    let mut c = acs_node();
    assert!(c.handle_network_message(AcsMsg::RBCTrans(trans(0), 0)).is_empty());
    assert!(c.handle_network_message(AcsMsg::RBCTrans(trans(1), 1)).is_empty());
    let acts = c.handle_network_message(AcsMsg::RBCTrans(trans(2), 2));
    assert_eq!(acts.len(), 1);
    match &acts[0] {
        AcsAction::Broadcast(AcsMsg::RBCIndexSet(ids, 0)) => {
            let mut ids = ids.clone();
            ids.sort();
            assert_eq!(ids, vec![0, 1, 2]);
        },
        _ => panic!("expected a proposal"),
    }
    assert!(c.indices_broadcasted);
    // No second proposal.
    assert!(c.handle_network_message(AcsMsg::RBCTrans(trans(3), 3)).is_empty());
}

#[test]
fn acs_index_set_joins_and_decides() {
    let mut c = acs_node();
    for s in 0..3usize {
        c.handle_network_message(AcsMsg::RBCTrans(trans(s), s));
    }
    // A set of the wrong size is ignored.
    assert!(c.handle_network_message(AcsMsg::RBCIndexSet(vec![0, 1], 1)).is_empty());
    let acts = c.handle_network_message(AcsMsg::RBCIndexSet(vec![0, 1, 2], 1));
    assert!(matches!(&acts[0], AcsAction::DelphiInput(1, 10001)));
    assert!(c.delphi_joined.contains(1));
    // Repeated entries count once.
    assert!(c.handle_network_message(AcsMsg::RBCIndexSet(vec![0, 1, 1, 2], 2)).len() >= 1);
}

#[test]
fn acs_delphi_result_gives_low_inputs_and_output() {
    let mut c = acs_node();
    for s in 0..3usize {
        c.handle_network_message(AcsMsg::RBCTrans(trans(s), s));
    }
    c.handle_network_message(AcsMsg::RBCIndexSet(vec![0, 1, 2], 1));
    let acts = c.handle_delphi_result(1, 10001);
    // The three leaders without input get the low value.
    let lows: Vec<usize> = acts.iter().filter_map(|a| match a {
        AcsAction::DelphiInput(l, 1) => Some(*l),
        _ => None,
    }).collect();
    assert_eq!(lows.len(), 3);
    assert!(!lows.contains(&1));
    // Fewer than kappa instances terminated: no output yet.
    assert!(!acts.iter().any(|a| matches!(a, AcsAction::Output(_))));
    assert!(c.handle_delphi_result(0, 1).is_empty());
    assert!(c.handle_delphi_result(2, 1).is_empty());
    let acts = c.handle_delphi_result(3, 1);
    assert_eq!(acts.len(), 1);
    match &acts[0] {
        AcsAction::Output(ts) => {
            let mut ids: Vec<usize> = ts.iter().map(|t| t.id).collect();
            ids.sort();
            assert_eq!(ids, vec![0, 1, 2]);
        },
        _ => panic!("expected the output"),
    }
    assert!(c.terminated);
    assert!(c.check_final_set().is_empty());
}

#[test]
fn acs_ignores_index_set_from_non_leader() {
    let mut c = Context::new(0, 4, 1, 10001, 1, 1);
    c.choose_leaders(5);
    let leader = c.leaders.to_vec()[0];
    let other = (leader + 1) % 4;
    assert!(c.handle_network_message(AcsMsg::RBCIndexSet(vec![0, 1, 2], other)).is_empty());
    assert!(c.indices_buffer.is_empty());
}

#[test]
fn ids_valid_partition() {
    // Signers 0 and 2 (as 1 and 3) and shares 2 and 4 cover 1..=4.
    let t = Transcript { id: 0, cert: vec![0, 2], supple_ids: vec![2, 4] };
    assert!(t.is_id_valid(4));
    let mut all: Vec<i64> = t.cert.iter().map(|r| *r as i64 + 1).collect();
    all.extend(t.supple_ids.iter().map(|x| *x as i64));
    all.sort();
    assert_eq!(all, vec![1, 2, 3, 4]);
}

#[test]
fn ids_invalid_cases() {
    // Overlap: signer 1 (as 2) also has share 2.
    assert!(!Transcript { id: 0, cert: vec![1, 2], supple_ids: vec![2, 1] }.is_id_valid(4));
    // Duplicate signer.
    assert!(!Transcript { id: 0, cert: vec![0, 0], supple_ids: vec![3, 4] }.is_id_valid(4));
    // Signer out of range.
    assert!(!Transcript { id: 0, cert: vec![4, 0], supple_ids: vec![2, 3] }.is_id_valid(4));
    // Share out of range.
    assert!(!Transcript { id: 0, cert: vec![0, 1], supple_ids: vec![0, 3] }.is_id_valid(4));
    assert!(!Transcript { id: 0, cert: vec![0, 1], supple_ids: vec![5, 3] }.is_id_valid(4));
    // Duplicate share.
    assert!(!Transcript { id: 0, cert: vec![0], supple_ids: vec![2, 2, 3] }.is_id_valid(4));
    // Too few.
    assert!(!Transcript { id: 0, cert: vec![0], supple_ids: vec![2] }.is_id_valid(4));
}

#[test]
fn transcript_verify_needs_all_checks() {
    let t = Transcript { id: 0, cert: vec![0, 2], supple_ids: vec![2, 4] };
    assert!(t.verify(4, &vec![true, true], &vec![true, true]));
    assert!(!t.verify(4, &vec![true, false], &vec![true, true]));
    assert!(!t.verify(4, &vec![true, true], &vec![false, true]));
    assert!(!t.verify(5, &vec![true, true], &vec![true, true]));
}
