use light_client::peers::{all_distinct, position_of, Peers};
use light_client::trace::Trace;
use light_client::types::PeerId;

fn peer(tag: u8) -> PeerId {
    PeerId { bytes: [tag; 20] }
}

#[test]
fn primary_is_no_witness() {
    assert!(Peers::new(peer(1), vec![peer(2), peer(3)]).is_some());
    assert!(Peers::new(peer(1), vec![]).is_some());
    assert!(Peers::new(peer(1), vec![peer(2), peer(1)]).is_none());
    assert!(Peers::new(peer(1), vec![peer(2), peer(2)]).is_none());
    assert!(!Peers { primary: peer(1), witnesses: vec![peer(1)] }.is_wf());
    assert!(Peers { primary: peer(1), witnesses: vec![peer(4)] }.is_wf());
}

#[test]
fn peers_differ_by_any_byte() {
    let mut other = peer(1);
    other.bytes[19] = 2;
    assert!(!peer(1).same(&other));
    assert!(peer(1).same(&peer(1)));
    assert!(all_distinct(&vec![peer(1), other]));
    assert!(!all_distinct(&vec![peer(1), other, peer(1)]));
    assert_eq!(position_of(&vec![peer(1), other], &other), Some(1));
    assert_eq!(position_of(&vec![peer(1), other], &peer(3)), None);
}

#[test]
fn first_witness_replaces_primary() {
    let mut peers = Peers::new(peer(1), vec![peer(2), peer(3)]).unwrap();
    assert_eq!(peers.replace_primary(), Some(peer(1)));
    assert_eq!(peers.primary, peer(2));
    assert_eq!(peers.witnesses, vec![peer(3)]);
    assert_eq!(peers.replace_primary(), Some(peer(2)));
    assert_eq!(peers.primary, peer(3));
    assert!(peers.witnesses.is_empty());
    assert_eq!(peers.replace_primary(), None);
    assert_eq!(peers.primary, peer(3));
}

#[test]
fn witness_is_removed() {
    let mut peers = Peers::new(peer(1), vec![peer(2), peer(3), peer(4)]).unwrap();
    assert!(peers.remove_witness(&peer(3)));
    assert_eq!(peers.witnesses, vec![peer(2), peer(4)]);
    assert!(!peers.remove_witness(&peer(3)));
    assert!(!peers.remove_witness(&peer(1)));
    assert_eq!(peers.primary, peer(1));
    assert_eq!(peers.witnesses, vec![peer(2), peer(4)]);
}

#[test]
fn trace_keeps_a_path_per_target() {
    let mut trace = Trace::new();
    assert_eq!(trace.get(110), None);
    trace.record(110, 105);
    trace.record(120, 120);
    trace.record(110, 110);
    assert_eq!(trace.get(110), Some(&vec![105, 110]));
    assert_eq!(trace.get(120), Some(&vec![120]));
    assert_eq!(trace.get(105), None);
}

#[test]
fn trace_starts_afresh() {
    let mut trace = Trace::new();
    trace.record(110, 105);
    trace.record(120, 120);
    trace.begin(110);
    assert_eq!(trace.get(110), Some(&vec![]));
    assert_eq!(trace.get(120), Some(&vec![120]));
    trace.record(110, 108);
    assert_eq!(trace.get(110), Some(&vec![108]));
    trace.begin(130);
    assert_eq!(trace.get(130), Some(&vec![]));
}
