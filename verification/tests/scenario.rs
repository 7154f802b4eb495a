use sync_clipboard::client::{Client, Received};
use sync_clipboard::clipboard::{Clipboard, Reaction, Tick};
use sync_clipboard::registry::{PeerAddr, PeerMap};
use sync_clipboard::server::Server;

/// A node without sockets: its clipboard is a string, and what it writes to a
/// peer is appended to that peer's wire.
struct Node {
    clip: String,
    detector: Clipboard,
    peers: PeerMap<usize>,
}

impl Node {
    fn new() -> Node {
        Node { clip: String::new(), detector: Clipboard::new(), peers: PeerMap::new() }
    }

    /// One poll interval: what goes out, with the wire it goes to.
    fn poll(&mut self) -> Vec<(usize, Vec<u8>)> {
        match self.detector.run(Tick::Polled(self.clip.clone())).reaction {
            Reaction::Broadcast(bytes) => self
                .peers
                .peers()
                .into_iter()
                .map(|addr| (*self.peers.get(addr).unwrap(), bytes.clone()))
                .collect(),
            _ => Vec::new(),
        }
    }

    /// What a connection read: every text goes through the detector to the clipboard.
    fn take(&mut self, link: &mut Client, bytes: &[u8]) {
        if let Ok(Received::Texts(list)) = link.recv_message(bytes) {
            for delivery in list {
                if let Reaction::Apply(text) = self.detector.run(Tick::Remote(delivery.text)).reaction {
                    self.clip = text;
                }
            }
        }
    }
}

fn addr(port: u16) -> PeerAddr {
    PeerAddr { ip: 0xffff_0a00_0001, port }
}

#[test]
fn hello_goes_from_server_to_client_and_world_comes_back() {
    let mut a = Node::new();
    let mut b = Node::new();
    let mut a_link = Server::new().run(Some(addr(50001))).unwrap();
    let mut b_link = Client::new(addr(43190));
    a.peers.insert(a_link.addr(), 0);
    b.peers.insert(b_link.addr(), 0);

    a.clip = "hello".to_string();
    let out = a.poll();
    assert_eq!(out.len(), 1);
    b.take(&mut b_link, &out[0].1);
    assert_eq!(b.clip, "hello");
    assert!(b.poll().is_empty());
    assert!(a.poll().is_empty());

    b.clip = "world".to_string();
    let out = b.poll();
    assert_eq!(out.len(), 1);
    a.take(&mut a_link, &out[0].1);
    assert_eq!(a.clip, "world");
    assert!(a.poll().is_empty());
    assert!(b.poll().is_empty());
}

#[test]
fn a_change_on_the_server_reaches_both_clients() {
    let mut hub = Node::new();
    let server = Server::new();
    let first = server.run(Some(addr(50001))).unwrap();
    let second = server.run(Some(addr(50002))).unwrap();
    hub.peers.insert(first.addr(), 0);
    hub.peers.insert(second.addr(), 1);

    let mut spokes = vec![Node::new(), Node::new()];
    let mut links = vec![Client::new(addr(43190)), Client::new(addr(43190))];

    hub.clip = "for all".to_string();
    let out = hub.poll();
    assert_eq!(out.iter().map(|(wire, _)| *wire).collect::<Vec<usize>>(), vec![0, 1]);
    for (wire, bytes) in out {
        spokes[wire].take(&mut links[wire], &bytes);
    }
    assert_eq!(spokes[0].clip, "for all");
    assert_eq!(spokes[1].clip, "for all");
    assert!(spokes[0].poll().is_empty());
    assert!(spokes[1].poll().is_empty());
    assert!(hub.poll().is_empty());
}

#[test]
fn a_peer_that_left_gets_nothing() {
    let mut hub = Node::new();
    hub.peers.insert(addr(1), 0);
    hub.peers.insert(addr(2), 1);
    hub.peers.remove(addr(1));
    hub.clip = "late".to_string();
    let out = hub.poll();
    assert_eq!(out.len(), 1);
    assert_eq!(out[0].0, 1);
}

#[test]
fn a_text_in_two_reads_arrives_once() {
    let mut a = Node::new();
    let mut b = Node::new();
    let mut link = Client::new(addr(43190));
    a.peers.insert(addr(9), 0);
    a.clip = "split me".to_string();
    let bytes = a.poll().remove(0).1;
    b.take(&mut link, &bytes[..7]);
    assert_eq!(b.clip, "");
    b.take(&mut link, &bytes[7..]);
    assert_eq!(b.clip, "split me");
}
