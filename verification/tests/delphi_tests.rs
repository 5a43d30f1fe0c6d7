use delphi_rs::delphi_rbc::level::Level;
use delphi_rs::delphi_rbc::interval::Interval;
use delphi_rs::delphi_rbc::roundvals_bin::RoundStateBin;
use delphi_rs::delphi::level::Level as DelphiLevel;

fn bounds(l: &Level) -> Vec<(i64, i64)> {
    l.intervals.iter().map(|i| (i.start, i.end)).collect()
}

fn contiguous(b: &Vec<(i64, i64)>) -> bool {
    b.first().map(|x| x.0) == Some(i64::MIN)
        && b.last().map(|x| x.1) == Some(i64::MAX)
        && b.windows(2).all(|w| w[0].1 == w[1].0)
}

#[test]
fn level_new_three_intervals_around_value() {
    let l = Level::new(10, 0, 25, 2, 3);
    assert_eq!(bounds(&l), vec![(i64::MIN, 10), (10, 40), (40, i64::MAX)]);
    assert!(contiguous(&bounds(&l)));
}

#[test]
fn level_votes_split_and_keep_partition() {
    let mut l = Level::new(10, 0, 25, 2, 3);
    let (e1, e2) = l.add_echo(vec![(12, 20, 5)], 0, 1);
    assert!(e1.is_empty() && e2.is_empty());
    assert_eq!(bounds(&l), vec![(i64::MIN, 10), (10, 12), (12, 20), (20, 40), (40, i64::MAX)]);
    assert!(contiguous(&bounds(&l)));
    // A second vote on the same range reaches f + 1 = 2.
    let (e1, _e2) = l.add_echo(vec![(12, 20, 5)], 0, 2);
    assert_eq!(e1, vec![(12, 20, 5)]);
    l.add_echo2(vec![(0, 50, 5)], 0, 3);
    assert!(contiguous(&bounds(&l)));
}

#[test]
fn level_compress_merges_neighbours() {
    assert_eq!(Level::compress(vec![(0, 10, 5), (10, 20, 5)], 0), vec![(0, 20, 5)]);
    // Only the last two are compared.
    assert_eq!(Level::compress(vec![(0, 10, 5), (10, 20, 5), (20, 30, 6)], 0), vec![(0, 10, 5), (10, 20, 5), (20, 30, 6)]);
    assert_eq!(Level::compress(vec![(0, 10, 5), (11, 20, 5)], 0), vec![(0, 10, 5), (11, 20, 5)]);
}

#[test]
fn interval_split_and_votes() {
    let iv = Interval::new(0, 100, 1, 2, 3);
    let (a, b) = iv.split(40);
    assert_eq!((a.start, a.end, b.start, b.end), (0, 40, 40, 100));
    let mut iv = Interval::new(0, 100, 1, 2, 3);
    assert_eq!(iv.add_echo(0, 7, 0), (None, None));
    assert_eq!(iv.add_echo(0, 7, 1), (Some(7), None));
    assert_eq!(iv.add_echo(0, 7, 2), (None, Some(7)));
    assert!(!iv.round_terminate(0));
    iv.add_echo2(0, 7, 0);
    iv.add_echo2(0, 7, 1);
    assert!(iv.add_echo2(0, 7, 2));
    assert!(iv.round_terminate(0));
    assert_eq!(iv.term_value(0), 7);
}

#[test]
fn bin_round_two_values_terminate_at_midpoint() {
    let mut r = RoundStateBin::new_with_echo(0, 0, 0, 10, 0);
    r.add_echo(0, 1, 2, 3);
    r.add_echo(0, 2, 2, 3);
    r.add_echo(10, 0, 2, 3);
    r.add_echo(10, 1, 2, 3);
    r.add_echo(10, 2, 2, 3);
    assert!(r.terminated());
    assert_eq!(r.term_val, Some(5));
    assert!(!r.num_values_one_two());
}

#[test]
fn delphi_level_keeps_instance() {
    let l = DelphiLevel::new(100, 2, 250, 2, 3, 7);
    assert_eq!(l.del_inst_id, 7);
    assert_eq!(l.intervals.len(), 3);
    assert_eq!(l.intervals[1].start, 100);
    assert_eq!(l.intervals[1].end, 300);
}

#[test]
fn delphi_level_new_spans_one_sep_each_side() {
    let l = DelphiLevel::new(10, 0, 50, 2, 3, 0);
    let b: Vec<(i64, i64)> = l.intervals.iter().map(|i| (i.start, i.end)).collect();
    assert_eq!(b, vec![(i64::MIN, 40), (40, 60), (60, i64::MAX)]);
    assert!(contiguous(&b));
    // A value between checkpoints lies in the middle interval.
    let l = DelphiLevel::new(10, 0, -55, 2, 3, 0);
    let b: Vec<(i64, i64)> = l.intervals.iter().map(|i| (i.start, i.end)).collect();
    assert_eq!(b, vec![(i64::MIN, -60), (-60, -40), (-40, i64::MAX)]);
}

use delphi_rs::delphi_rbc::context::{Context as RbcContext, RbcAction, RbcEvent};
use delphi_rs::appxcon::msg::ProtMsg;
use delphi_rs::types::Msg;

fn round_msg(value: u64, origin: usize) -> Msg {
    Msg { value, origin, round: 0, rnd_estm: false, message: Vec::new() }
}

/// Accepts the broadcast of `origin` carrying `value` at a node with n = 4,
/// f = 1: its INIT, two further ECHOs, then READYs until acceptance.
fn accept(c: &mut RbcContext, origin: usize, value: u64) -> Vec<RbcAction> {
    c.process_rbc_init(round_msg(value, origin), origin);
    c.process_echo(round_msg(value, origin), origin, 1);
    c.process_echo(round_msg(value, origin), origin, 2);
    c.process_ready(round_msg(value, origin), origin, 1);
    c.process_ready(round_msg(value, origin), origin, 2)
}

#[test]
fn delphi_rbc_init_echoes_and_delivers() {
    let mut c = RbcContext::new(4, 0, 1);
    let acts = c.process_rbc_init(round_msg(3, 2), 2);
    assert_eq!(acts.len(), 2);
    assert!(matches!(&acts[0], RbcAction::Broadcast(ProtMsg::ECHO(m, 2, 0)) if m.value == 3));
    assert!(matches!(&acts[1], RbcAction::Deliver(RbcEvent::Echo(m, 2, 0)) if m.value == 3));
}

#[test]
fn delphi_rbc_echo_threshold_sends_ready() {
    let mut c = RbcContext::new(4, 0, 1);
    c.process_rbc_init(round_msg(3, 2), 2);
    assert!(c.process_echo(round_msg(3, 2), 2, 0).is_empty());
    assert!(c.process_echo(round_msg(3, 2), 2, 1).is_empty());
    let acts = c.process_echo(round_msg(3, 2), 2, 3);
    assert_eq!(acts.len(), 2);
    assert!(matches!(&acts[0], RbcAction::Broadcast(ProtMsg::READY(_, 2, 0))));
    assert!(matches!(&acts[1], RbcAction::Deliver(RbcEvent::Ready(_, 2, 0))));
}

#[test]
fn delphi_rbc_aggregates_once_at_greatest_round() {
    let mut c = RbcContext::new(4, 0, 1);
    c.round = 7;
    assert!(accept(&mut c, 0, 2).is_empty());
    assert!(accept(&mut c, 1, 5).is_empty());
    let acts = accept(&mut c, 2, 4);
    assert_eq!(acts.len(), 1);
    assert!(matches!(acts[0], RbcAction::Aggregate(5)));
    assert!(c.terminated);
    assert!(accept(&mut c, 3, 1).is_empty());
    assert_eq!(c.rbc_state.accepted_vals, vec![2, 5, 4, 1]);
}

#[test]
fn delphi_rbc_waits_while_round_behind() {
    let mut c = RbcContext::new(4, 0, 1);
    c.round = 3;
    accept(&mut c, 0, 2);
    accept(&mut c, 1, 5);
    assert!(accept(&mut c, 2, 4).is_empty());
    assert!(!c.terminated);
    // Further READYs of an accepted broadcast are ignored.
    assert!(c.process_ready(round_msg(4, 2), 2, 3).is_empty());
    c.round = 5;
    let acts = accept(&mut c, 3, 1);
    assert!(matches!(acts[0], RbcAction::Aggregate(5)));
}

#[test]
fn delphi_rbc_f_plus_one_readys_echo_ready() {
    let mut c = RbcContext::new(4, 3, 1);
    c.process_rbc_init(round_msg(1, 0), 0);
    let acts = c.process_ready(round_msg(1, 0), 0, 1);
    assert_eq!(acts.len(), 1);
    assert!(matches!(&acts[0], RbcAction::Broadcast(ProtMsg::READY(_, 0, 3))));
}

#[test]
fn delphi_echo2_votes_split_like_echo1() {
    let mut a = Level::new(10, 0, 25, 2, 3);
    let mut b = Level::new(10, 0, 25, 2, 3);
    let vals = vec![(12, 20, 5), (25, 60, 7), (-5, 3, 1)];
    a.add_echo2(vals.clone(), 0, 1);
    b.add_echo(vals, 4, 2);
    assert_eq!(bounds(&a), bounds(&b));
    assert!(contiguous(&bounds(&a)));
}

#[test]
fn bin_round_echo1_each_value_once_then_echo2() {
    // minthreshold 2, highthreshold 3; values 4 and 8.
    let mut r = RoundStateBin::new_with_echo(4, 0, 0, 10, 0);
    let votes = [(4i64, 1usize), (8, 0), (4, 2), (8, 1), (4, 3), (8, 2), (4, 4), (8, 3)];
    let mut outs = Vec::new();
    for (v, s) in votes {
        outs.push(r.add_echo(v, s, 2, 3));
    }
    assert_eq!(outs, vec![
        (Some(4), None), (None, None), (None, Some(4)), (Some(8), None),
        (None, None), (None, Some(8)), (None, None), (None, None),
    ]);
    assert_eq!(r.term_val, Some(6));
    assert_eq!(r.echo1vals, vec![4, 8]);
}

#[test]
fn level_votes_keep_checkpoints_and_leave_outside_untouched() {
    let mut l = Level::new(10, 0, 25, 2, 3);
    let old: Vec<i64> = l.intervals.iter().map(|i| i.start).collect();
    let vals = vec![(12, 20, 5), (30, 55, 7)];
    l.add_echo(vals.clone(), 0, 1);
    let keys: Vec<i64> = l.intervals.iter().map(|i| i.start).collect();
    for k in old {
        assert!(keys.contains(&k));
    }
    for (s, e, _) in &vals {
        assert!(keys.contains(s));
        assert!(keys.contains(e));
    }
    for iv in &l.intervals {
        let inside = vals.iter().any(|(s, e, _)| *s <= iv.start && iv.end <= *e);
        assert_eq!(!iv.state.is_empty(), inside);
    }
}

#[test]
fn level_vote_lists_are_compressed() {
    let mut l = Level::new(10, 0, 25, 1, 3);
    let vals = vec![(12, 20, 5), (20, 30, 5), (30, 35, 6)];
    let mut all = Vec::new();
    for sender in 0..3usize {
        let (e1, e2) = l.add_echo(vals.clone(), 0, sender);
        all.push(e1);
        all.push(e2);
    }
    assert!(all.iter().any(|v| !v.is_empty()));
    for v in all {
        for w in v.windows(2) {
            assert!(!(w[0].2 == w[1].2 && w[0].1 == w[1].0));
        }
        for t in v {
            assert!(12 <= t.0 && t.1 <= 35);
        }
    }
}
