use canzero_server::frame::{CanFrame, NetworkFrame, Timestamp, Timestamped};
use canzero_server::network::Network as HistoryNetwork;
use canzero_server::server::network::Network;

#[test]
fn ids_count_up_from_zero() {
    let mut n = Network::new();
    assert_eq!(n.start(), 0);
    assert_eq!(n.start(), 1);
    assert_eq!(n.start(), 2);
}

#[test]
fn frame_goes_to_all_others_in_start_order() {
    let mut n = Network::new();
    let a = n.start();
    let b = n.start();
    let c = n.start();
    assert_eq!(n.targets(a), vec![b, c]);
    assert_eq!(n.targets(b), vec![a, c]);
    assert_eq!(n.targets(c), vec![a, b]);
    assert_eq!(n.targets(99), vec![a, b, c]);
}

#[test]
fn single_node_gets_no_loopback() {
    let mut n = Network::new();
    let a = n.start();
    assert!(n.targets(a).is_empty());
}

#[test]
fn stop_removes_node() {
    let mut n = Network::new();
    let a = n.start();
    let b = n.start();
    let c = n.start();
    assert!(n.stop(b));
    assert_eq!(n.targets(a), vec![c]);
    assert!(!n.stop(b));
    assert_eq!(n.targets(c), vec![a]);
    // identifiers are not reused
    assert_eq!(n.start(), 3);
}

#[test]
fn stop_undoes_start() {
    let mut n = Network::new();
    let a = n.start();
    let b = n.start();
    let before = n.targets(1000);
    let c = n.start();
    assert!(n.stop(c));
    assert_eq!(n.targets(1000), before);
    assert_eq!(before, vec![a, b]);
}

fn frame(secs: u64, bus: u32) -> Timestamped<NetworkFrame> {
    Timestamped {
        timestamp: Timestamp { secs, nanos: 0 },
        value: NetworkFrame { bus_id: bus, can_frame: CanFrame { id: 1, dlc: 1, data: secs } },
    }
}

#[test]
fn history_keeps_routed_frames_in_order() {
    let mut n = HistoryNetwork::new();
    let a = n.start();
    let b = n.start();
    assert!(n.history().is_empty());
    assert_eq!(n.targets(a), vec![b]);
    n.record(frame(1, 0));
    n.record(frame(2, 1));
    let c = n.start();
    let replay: Vec<u64> = n.history().iter().map(|f| f.timestamp.secs).collect();
    assert_eq!(replay, vec![1, 2]);
    assert_eq!(n.targets(c), vec![a, b]);
    assert!(n.stop(a));
    assert_eq!(n.history().len(), 2);
    assert_eq!(n.targets(b), vec![c]);
}

#[test]
fn failed_replay_uses_no_identifier() {
    let mut n = HistoryNetwork::new();
    assert_eq!(n.start_after_replay(true), Some(0));
    assert_eq!(n.start_after_replay(false), None);
    assert_eq!(n.start_after_replay(true), Some(1));
    assert_eq!(n.targets(0), vec![1]);
}
