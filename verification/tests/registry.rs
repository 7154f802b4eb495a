use sync_clipboard::registry::{PeerAddr, PeerMap};

fn peer(port: u16) -> PeerAddr {
    PeerAddr { ip: 1, port }
}

#[test]
fn a_new_registry_is_empty() {
    let map: PeerMap<&str> = PeerMap::new();
    assert_eq!(map.len(), 0);
    assert!(map.peers().is_empty());
    assert!(!map.contains(peer(1)));
    assert_eq!(map.get(peer(1)), None);
}

#[test]
fn insert_registers_and_replaces() {
    let mut map = PeerMap::new();
    assert_eq!(map.insert(peer(1), "a"), None);
    assert_eq!(map.insert(peer(2), "b"), None);
    assert_eq!(map.insert(peer(3), "c"), None);
    assert_eq!(map.len(), 3);
    assert_eq!(map.insert(peer(2), "B"), Some("b"));
    assert_eq!(map.len(), 3);
    assert_eq!(map.peers(), vec![peer(1), peer(2), peer(3)]);
    assert_eq!(map.get(peer(1)), Some(&"a"));
    assert_eq!(map.get(peer(2)), Some(&"B"));
    assert_eq!(map.get(peer(3)), Some(&"c"));
    assert!(map.contains(peer(3)));
    assert!(!map.contains(peer(4)));
}

#[test]
fn remove_takes_one_peer_out_and_keeps_the_order() {
    let mut map = PeerMap::new();
    for port in 1..=4 {
        map.insert(peer(port), port * 10);
    }
    assert_eq!(map.remove(peer(2)), Some(20));
    assert_eq!(map.remove(peer(2)), None);
    assert_eq!(map.remove(peer(9)), None);
    assert_eq!(map.peers(), vec![peer(1), peer(3), peer(4)]);
    assert_eq!(map.get(peer(3)), Some(&30));
    assert_eq!(map.get(peer(4)), Some(&40));
    assert_eq!(map.remove(peer(1)), Some(10));
    assert_eq!(map.remove(peer(4)), Some(40));
    assert_eq!(map.remove(peer(3)), Some(30));
    assert_eq!(map.len(), 0);
}

#[test]
fn peers_differ_by_host_and_by_port() {
    let mut map = PeerMap::new();
    map.insert(PeerAddr { ip: 1, port: 7 }, 'a');
    map.insert(PeerAddr { ip: 2, port: 7 }, 'b');
    map.insert(PeerAddr { ip: 1, port: 8 }, 'c');
    assert_eq!(map.len(), 3);
    assert_eq!(map.get(PeerAddr { ip: 2, port: 7 }), Some(&'b'));
}
