use sync_clipboard::buffer::ReceiveBuffer;
use sync_clipboard::client::{Action, Client, Event, Link, Received, RECON_S};
use sync_clipboard::error::Error;
use sync_clipboard::frame::LengthWidth;
use sync_clipboard::message::encode;
use sync_clipboard::registry::PeerAddr;
use sync_clipboard::server::Server;

fn peer(port: u16) -> PeerAddr {
    PeerAddr { ip: 0xffff_7f00_0001, port }
}

fn frame_of(text: &str) -> Vec<u8> {
    let mut buf = vec![0u8; text.len() + 6];
    assert_eq!(encode(&mut buf, text.to_string()), Some(text.len() + 6));
    buf
}

fn texts(received: Result<Received, Error>) -> Vec<(String, bool)> {
    match received {
        Ok(Received::Texts(list)) => list.into_iter().map(|d| (d.text, d.open)).collect(),
        other => panic!("no texts: {:?}", other),
    }
}

#[test]
fn a_client_connects_serves_and_redials() {
    let mut client = Client::new(peer(43190));
    assert_eq!(client.addr(), peer(43190));
    assert_eq!(client.state(), Link::Disconnected);
    assert_eq!(client.run(Event::Wake), Some(Action::Connect));
    assert_eq!(client.state(), Link::Connecting);
    assert_eq!(client.run(Event::Refused), Some(Action::Backoff(2)));
    assert_eq!(client.state(), Link::Disconnected);
    assert_eq!(client.run(Event::Wake), Some(Action::Connect));
    assert_eq!(client.run(Event::Established), Some(Action::Serve));
    assert_eq!(client.state(), Link::Connected);
    assert_eq!(client.run(Event::Ended(None)), Some(Action::Hangup(RECON_S)));
    assert_eq!(client.state(), Link::Disconnected);
    assert_eq!(client.run(Event::Wake), Some(Action::Connect));
    assert_eq!(client.run(Event::Established), Some(Action::Serve));
    assert_eq!(
        client.run(Event::Ended(Some(Error::Tcp("reset".to_string())))),
        Some(Action::Hangup(2))
    );
    assert_eq!(client.state(), Link::Disconnected);
}

#[test]
fn a_broken_channel_ends_the_client() {
    let mut client = Client::new(peer(1));
    client.run(Event::Wake);
    client.run(Event::Established);
    assert_eq!(
        client.run(Event::Ended(Some(Error::Chn("closed".to_string())))),
        Some(Action::Quit)
    );
    assert_eq!(client.state(), Link::Stopped);
    assert_eq!(client.run(Event::Wake), None);
    assert_eq!(client.state(), Link::Stopped);
}

#[test]
fn an_event_out_of_turn_changes_nothing() {
    let mut client = Client::new(peer(1));
    assert_eq!(client.run(Event::Established), None);
    assert_eq!(client.run(Event::Refused), None);
    assert_eq!(client.run(Event::Ended(None)), None);
    assert_eq!(client.state(), Link::Disconnected);
    client.run(Event::Wake);
    assert_eq!(client.run(Event::Wake), None);
    assert_eq!(client.run(Event::Ended(None)), None);
    assert_eq!(client.state(), Link::Connecting);
    client.run(Event::Established);
    assert_eq!(client.run(Event::Established), None);
    assert_eq!(client.run(Event::Wake), None);
    assert_eq!(client.state(), Link::Connected);
}

#[test]
fn the_server_gives_each_peer_a_connection_that_does_not_redial() {
    let server = Server::new();
    assert!(server.run(None).is_none());
    let mut session = server.run(Some(peer(5000))).unwrap();
    assert_eq!(session.addr(), peer(5000));
    assert_eq!(session.state(), Link::Connected);
    assert_eq!(session.spare(), 20480);
    assert_eq!(session.run(Event::Ended(None)), Some(Action::Quit));
    assert_eq!(session.state(), Link::Stopped);
}

#[test]
fn the_server_hands_its_auto_flag_on() {
    let mut server = Server::new();
    let mut plain = server.run(Some(peer(1))).unwrap();
    server.with_auto();
    let mut eager = server.run(Some(peer(2))).unwrap();
    let frame = frame_of("https://example.org");
    assert_eq!(texts(plain.recv_message(&frame)), vec![("https://example.org".to_string(), false)]);
    assert_eq!(texts(eager.recv_message(&frame)), vec![("https://example.org".to_string(), true)]);
}

#[test]
fn with_auto_opens_web_addresses_only() {
    let mut client = Client::new(peer(1));
    client.with_auto().run(Event::Wake);
    assert_eq!(client.state(), Link::Connecting);
    let mut bytes = frame_of("http://a.example");
    bytes.extend_from_slice(&frame_of("plain words"));
    bytes.extend_from_slice(&frame_of("https://b.example/x"));
    assert_eq!(
        texts(client.recv_message(&bytes)),
        vec![
            ("http://a.example".to_string(), true),
            ("plain words".to_string(), false),
            ("https://b.example/x".to_string(), true),
        ]
    );
    assert_eq!(client.spare(), 20480);
}

#[test]
fn no_bytes_mean_that_the_peer_closed() {
    let mut client = Client::new(peer(1));
    assert!(matches!(client.recv_message(&[]), Ok(Received::Closed)));
    assert_eq!(client.spare(), 20480);
}

#[test]
fn a_frame_in_pieces_is_delivered_when_whole() {
    let frame = frame_of("hello");
    for k in 1..frame.len() {
        let mut client = Client::new(peer(1));
        assert!(texts(client.recv_message(&frame[..k])).is_empty());
        assert_eq!(client.spare(), 20480 - k);
        assert_eq!(texts(client.recv_message(&frame[k..])), vec![("hello".to_string(), false)]);
        assert_eq!(client.spare(), 20480);
    }
}

#[test]
fn garbage_between_frames_is_dropped() {
    let mut client = Client::new(peer(1));
    let mut bytes = vec![1u8, 2, 3];
    bytes.extend_from_slice(&frame_of("one"));
    bytes.extend_from_slice(&[9, 9]);
    bytes.extend_from_slice(&frame_of("two"));
    bytes.extend_from_slice(&[0xff, 0xff, 0, 0]);
    assert_eq!(
        texts(client.recv_message(&bytes)),
        vec![("one".to_string(), false), ("two".to_string(), false)]
    );
    assert_eq!(client.spare(), 20480 - 4);
}

#[test]
fn more_than_the_buffer_takes_is_an_error() {
    let mut client = Client::new(peer(1));
    let mut head = vec![0xffu8, 0xff, 0, 0, 0xff, 0xff];
    head.resize(20000, 7);
    assert!(texts(client.recv_message(&head)).is_empty());
    assert_eq!(client.spare(), 480);
    let more = vec![7u8; 481];
    assert!(matches!(
        client.recv_message(&more),
        Err(Error::Tcp(ref why)) if why == "receive buffer overflow"
    ));
    assert_eq!(client.spare(), 480);
    assert!(texts(client.recv_message(&more[..480])).is_empty());
    assert_eq!(client.spare(), 0);
}

#[test]
fn the_receive_buffer_appends_and_reads() {
    let mut buffer = ReceiveBuffer::new(16);
    assert_eq!((buffer.len(), buffer.spare()), (0, 16));
    assert!(buffer.append(&[5, 0xff, 0xff, 0x00, 0x02, b'o']));
    assert_eq!(buffer.next_text(LengthWidth::Short), None);
    assert_eq!((buffer.len(), buffer.spare()), (5, 11));
    assert!(!buffer.append(&[0u8; 12]));
    assert_eq!(buffer.len(), 5);
    assert!(buffer.append(&[b'k', 1, 2, 3, 4, 5]));
    assert_eq!(buffer.next_text(LengthWidth::Short), Some("ok".to_string()));
    assert_eq!(buffer.len(), 5);
    assert_eq!(buffer.next_text(LengthWidth::Short), None);
    assert_eq!(buffer.len(), 4);
}
