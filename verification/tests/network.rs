use driver_rust::network::p2p_connect::{NetworkManager, ReadEvent};

fn manager(peers: &[(&str, u64)]) -> NetworkManager {
    let mut m = NetworkManager::new();
    for (addr, stream) in peers {
        m.add_peer(addr.to_string(), *stream);
    }
    m
}

#[test]
fn peer_is_reached_on_its_latest_stream() {
    let m = manager(&[("a", 1), ("b", 2), ("a", 3)]);
    assert_eq!(m.send_message("a"), Some(3));
    assert_eq!(m.send_message("b"), Some(2));
    assert_eq!(m.send_message("c"), None);
}

#[test]
fn failed_peer_is_not_written_to_again() {
    let mut m = manager(&[("a", 1), ("b", 2)]);
    m.message_written("b", true);
    assert_eq!(m.send_message("b"), Some(2));
    m.message_written("a", false);
    assert_eq!(m.send_message("a"), None);
    assert_eq!(m.send_message("b"), Some(2));
    m.add_peer("a".to_string(), 4);
    assert_eq!(m.send_message("a"), Some(4));
}

#[test]
fn everybody_is_addressed() {
    let mut m = manager(&[("a", 1), ("b", 2), ("c", 3)]);
    assert_eq!(
        m.broadcast_message(),
        vec![("a".to_string(), 1), ("b".to_string(), 2), ("c".to_string(), 3)]
    );
    m.broadcast_written(&vec!["c".to_string(), "a".to_string(), "x".to_string()]);
    assert_eq!(m.broadcast_message(), vec![("b".to_string(), 2)]);
    m.broadcast_written(&vec![]);
    assert_eq!(m.broadcast_message(), vec![("b".to_string(), 2)]);
}

#[test]
fn closed_connection_is_removed() {
    let mut m = manager(&[("a", 1), ("b", 2)]);
    assert!(m.handle_client("a", ReadEvent::Received(12)));
    assert_eq!(m.send_message("a"), Some(1));
    assert!(!m.handle_client("a", ReadEvent::Failed));
    assert_eq!(m.send_message("a"), Some(1));
    assert!(!m.handle_client("a", ReadEvent::Closed));
    assert_eq!(m.send_message("a"), None);
    assert_eq!(m.send_message("b"), Some(2));
}
