use delphi_rs::dkg::ladkg::{find_missing_replicas, supple_ids};
use delphi_rs::dkg::node::{DkgNode, DkgAction, decided_transcripts, shares_to_decrypt};
use delphi_rs::dkg::trans::Transcript;
use delphi_rs::aacs::select::select_set;
use delphi_rs::types::NodeSet;

#[test]
fn missing_replicas_in_order() {
    assert_eq!(find_missing_replicas(&vec![2, 0], 5), vec![1, 3, 4]);
    assert_eq!(find_missing_replicas(&vec![], 3), vec![0, 1, 2]);
    assert_eq!(find_missing_replicas(&vec![0, 1, 2], 3), Vec::<usize>::new());
    assert_eq!(supple_ids(&vec![1, 3, 4]), vec![2, 4, 5]);
}

#[test]
fn generated_transcript_ids_are_valid() {
    let cert = vec![2, 0];
    let missing = find_missing_replicas(&cert, 5);
    let t = Transcript { id: 1, cert: cert.clone(), supple_ids: supple_ids(&missing) };
    assert!(t.is_id_valid(5));
}

#[test]
fn dkg_private_share_waits_for_public_share() {
    let mut d = DkgNode::new(0, 4, 1);
    assert_eq!(d.private_share(2), vec![DkgAction::BufferShare(2)]);
    assert_eq!(d.private_share(2), vec![]);
    assert_eq!(d.public_share(2, false), vec![]);
    assert_eq!(d.public_share(2, true), vec![DkgAction::StorePublicShare(2), DkgAction::VerifyShare(2)]);
    assert!(!d.unvalidated_shares.contains(2));
    assert_eq!(d.public_share(2, true), vec![]);
    assert_eq!(d.private_share(2), vec![DkgAction::VerifyShare(2)]);
}

#[test]
fn dkg_transcript_after_two_f_plus_one_signatures() {
    let mut d = DkgNode::new(0, 4, 1);
    assert_eq!(d.reply(1, true), vec![]);
    assert_eq!(d.reply(2, false), vec![]);
    assert_eq!(d.reply(2, true), vec![]);
    assert_eq!(d.reply(3, true), vec![DkgAction::GenTranscript]);
    d.own_transcript = true;
    assert_eq!(d.reply(0, true), vec![]);
}

#[test]
fn dkg_key_reconstructed_from_n_minus_f_shares() {
    let mut d = DkgNode::new(0, 4, 1);
    assert_eq!(d.pk_share(0), vec![]);
    assert_eq!(d.pk_share(0), vec![]);
    assert_eq!(d.pk_share(1), vec![]);
    assert_eq!(d.pk_share(3), vec![DkgAction::Reconstruct]);
    d.th_pk_known = true;
    assert_eq!(d.pk_share(2), vec![]);
}

fn t(id: usize, supple: Vec<i32>) -> Transcript {
    Transcript { id, cert: vec![], supple_ids: supple }
}

#[test]
fn decided_keeps_verified_in_order() {
    let res = vec![t(0, vec![1]), t(1, vec![2]), t(2, vec![3])];
    let d = decided_transcripts(&res, &vec![true, false, true]);
    let ids: Vec<usize> = d.iter().map(|x| x.id).collect();
    assert_eq!(ids, vec![0, 2]);
}

#[test]
fn decrypt_first_of_each_new_dealer() {
    // This node is 1, so its share has id 2.
    let decided = vec![t(5, vec![4, 2]), t(6, vec![2]), t(5, vec![2]), t(7, vec![3, 1, 2])];
    let mut validated = NodeSet::new();
    validated.insert(6);
    assert_eq!(shares_to_decrypt(&decided, &validated, 1), vec![(0, 1), (3, 2)]);
}

#[test]
fn nodeset_remove() {
    let mut s = NodeSet::new();
    s.insert(4);
    s.insert(7);
    s.insert(9);
    assert!(s.remove(7));
    assert!(!s.remove(7));
    assert_eq!(s.to_vec(), vec![4, 9]);
}

#[test]
fn select_set_shuffles() {
    // Some seed moves a node out of place.
    let moved = (0u128..5).any(|seed| select_set(10, 10, seed).to_vec() != (0..10).collect::<Vec<usize>>());
    assert!(moved);
    let mut all = select_set(10, 10, 3).to_vec();
    all.sort();
    assert_eq!(all, (0..10).collect::<Vec<usize>>());
}
