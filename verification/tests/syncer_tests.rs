use delphi_rs::syncer::{Syncer, SyncEvent, SyncAction};

#[test]
fn syncer_starts_when_all_alive() {
    let mut s = Syncer::new(3);
    assert!(s.handle(SyncEvent::Alive(0)).is_empty());
    assert!(s.handle(SyncEvent::Alive(0)).is_empty());
    assert!(s.handle(SyncEvent::Alive(1)).is_empty());
    let acts = s.handle(SyncEvent::Alive(2));
    assert!(matches!(acts.as_slice(), [SyncAction::StartVss]));
}

#[test]
fn syncer_reports_and_stops() {
    let mut s = Syncer::new(3);
    s.set_start_time(1000);
    assert!(s.handle(SyncEvent::Completed(0, vec![7, 7], 1500)).is_empty());
    assert!(s.handle(SyncEvent::Completed(2, vec![7, 7], 1100)).is_empty());
    let acts = s.handle(SyncEvent::Completed(1, vec![7, 7], 1300));
    assert_eq!(acts.len(), 2);
    match &acts[0] {
        SyncAction::Report(times, consistent, key) => {
            assert_eq!(times, &vec![100, 300, 500]);
            assert!(*consistent);
            assert_eq!(key, &vec![7, 7]);
        },
        _ => panic!("expected a report"),
    }
    assert!(matches!(acts[1], SyncAction::Stop));
}

#[test]
fn syncer_detects_inconsistent_keys() {
    let mut s = Syncer::new(2);
    s.handle(SyncEvent::Completed(0, vec![1], 5));
    let acts = s.handle(SyncEvent::Completed(1, vec![2], 6));
    assert!(matches!(&acts[0], SyncAction::Report(_, false, k) if k == &vec![2]));
}

use delphi_rs::syncer::{NodeSync, NodeSyncAction, NodeSyncEvent};

#[test]
fn node_sync_handshake() {
    let mut n = NodeSync::new(true);
    let a = n.step(NodeSyncEvent::Boot);
    assert!(a.len() == 1 && matches!(a[0], NodeSyncAction::SendAlive));
    assert!(n.step(NodeSyncEvent::Other).is_empty());
    let a = n.step(NodeSyncEvent::Start);
    assert!(a.len() == 2 && matches!(a[0], NodeSyncAction::StartProtocol) && matches!(a[1], NodeSyncAction::SendStarted));
    let a = n.step(NodeSyncEvent::Stop);
    assert!(a.len() == 1 && matches!(a[0], NodeSyncAction::Exit));
    assert!(!n.running);
    assert!(n.step(NodeSyncEvent::Start).is_empty());
}

#[test]
fn node_sync_dkg_starts_without_report() {
    let mut n = NodeSync::new(false);
    let a = n.step(NodeSyncEvent::Start);
    assert!(a.len() == 1 && matches!(a[0], NodeSyncAction::StartProtocol));
}
