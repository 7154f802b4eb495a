use sync_clipboard::clipboard::{Clipboard, Next, Reaction, Tick};
use sync_clipboard::error::Error;

fn polled(text: &str) -> Tick {
    Tick::Polled(text.to_string())
}

fn broadcast_of(reaction: Reaction) -> Option<Vec<u8>> {
    match reaction {
        Reaction::Broadcast(bytes) => Some(bytes),
        _ => None,
    }
}

#[test]
fn a_new_text_is_broadcast_as_a_long_frame() {
    let mut clipboard = Clipboard::new();
    let round = clipboard.run(polled("hello"));
    assert_eq!(round.next, Next::Continue);
    assert_eq!(round.report, None);
    assert_eq!(
        broadcast_of(round.reaction),
        Some(vec![0xff, 0xff, 0, 0, 0, 5, b'h', b'e', b'l', b'l', b'o'])
    );
}

#[test]
fn the_same_text_twice_is_broadcast_once() {
    let mut clipboard = Clipboard::new();
    assert!(broadcast_of(clipboard.run(polled("hello")).reaction).is_some());
    assert!(matches!(clipboard.run(polled("hello")).reaction, Reaction::Nothing));
    assert!(matches!(clipboard.run(polled("hello")).reaction, Reaction::Nothing));
    assert!(broadcast_of(clipboard.run(polled("again")).reaction).is_some());
}

#[test]
fn a_remote_text_is_applied_and_not_echoed() {
    let mut clipboard = Clipboard::new();
    let round = clipboard.run(Tick::Remote("from afar".to_string()));
    assert!(matches!(round.reaction, Reaction::Apply(ref text) if text == "from afar"));
    assert_eq!(round.next, Next::Continue);
    assert!(matches!(clipboard.run(polled("from afar")).reaction, Reaction::Nothing));
}

#[test]
fn the_empty_clipboard_of_a_new_node_is_no_news() {
    let mut clipboard = Clipboard::new();
    assert!(matches!(clipboard.run(polled("")).reaction, Reaction::Nothing));
}

#[test]
fn emptying_the_clipboard_sends_nothing() {
    let mut clipboard = Clipboard::new();
    assert!(broadcast_of(clipboard.run(polled("x")).reaction).is_some());
    assert!(matches!(clipboard.run(polled("")).reaction, Reaction::Nothing));
    assert!(broadcast_of(clipboard.run(polled("x")).reaction).is_some());
}

#[test]
fn special_content_is_remembered_and_not_sent() {
    let mut clipboard = Clipboard::new();
    let tag = "x-special/nautilus-clipboard\ncopy\nfile:///tmp/a";
    assert!(matches!(clipboard.run(polled(tag)).reaction, Reaction::Nothing));
    assert!(matches!(clipboard.run(polled(tag)).reaction, Reaction::Nothing));
    assert!(broadcast_of(clipboard.run(polled("text")).reaction).is_some());
}

#[test]
fn a_text_that_fills_the_buffer_is_sent_whole() {
    let mut clipboard = Clipboard::new();
    let text = "q".repeat(10234);
    let bytes = broadcast_of(clipboard.run(polled(&text)).reaction).unwrap();
    assert_eq!(bytes.len(), 10240);
    assert_eq!(&bytes[..6], &[0xff, 0xff, 0x00, 0x00, 0x27, 0xfa]);
    assert!(bytes[6..].iter().all(|b| *b == b'q'));
}

#[test]
fn a_text_beyond_the_buffer_is_not_sent() {
    let mut clipboard = Clipboard::new();
    let text = "q".repeat(10235);
    assert!(matches!(clipboard.run(polled(&text)).reaction, Reaction::Nothing));
    assert!(matches!(clipboard.run(polled(&text)).reaction, Reaction::Nothing));
    assert!(broadcast_of(clipboard.run(polled("short")).reaction).is_some());
}

#[test]
fn a_broken_channel_stops_the_loop() {
    let mut clipboard = Clipboard::new();
    let round = clipboard.run(Tick::ChannelClosed("receiving from an empty and closed channel".to_string()));
    assert!(matches!(round.reaction, Reaction::Nothing));
    assert_eq!(round.next, Next::Stop);
    assert_eq!(
        round.report,
        Some("Channel error: receiving from an empty and closed channel)".to_string())
    );
}

#[test]
fn an_unreadable_clipboard_is_opened_anew() {
    let mut clipboard = Clipboard::new();
    assert!(broadcast_of(clipboard.run(polled("kept")).reaction).is_some());
    let round = clipboard.run(Tick::PollFailed("no display".to_string()));
    assert!(matches!(round.reaction, Reaction::Nothing));
    assert_eq!(round.next, Next::Reinit);
    assert_eq!(round.report, Some("Clipboard error: no display)".to_string()));
    assert!(matches!(clipboard.run(polled("kept")).reaction, Reaction::Nothing));
}

#[test]
fn timeout_toggle_reports_failures_as_errors() {
    let mut clipboard = Clipboard::new();
    assert!(matches!(
        clipboard.timeout_toggle(Tick::ChannelClosed("gone".to_string())),
        Err(Error::Chn(ref why)) if why == "gone"
    ));
    assert!(matches!(
        clipboard.timeout_toggle(Tick::PollFailed("busy".to_string())),
        Err(Error::Clp(ref why)) if why == "busy"
    ));
    assert!(matches!(
        clipboard.timeout_toggle(Tick::Remote("r".to_string())),
        Ok(Reaction::Apply(ref text)) if text == "r"
    ));
}

#[test]
fn recover_goes_by_the_kind_of_failure() {
    assert_eq!(Clipboard::recover(&Error::Chn("a".to_string())), Next::Stop);
    assert_eq!(Clipboard::recover(&Error::Clp("b".to_string())), Next::Reinit);
    assert_eq!(Clipboard::recover(&Error::Tcp("c".to_string())), Next::Continue);
}

#[test]
fn error_messages_keep_their_wording() {
    assert_eq!(Error::Tcp("reset".to_string()).message(), "TcpStream error: reset)");
    assert_eq!(Error::Chn("closed".to_string()).message(), "Channel error: closed)");
    assert_eq!(Error::Clp("busy".to_string()).message(), "Clipboard error: busy)");
    assert_eq!(Error::new_clip("x".to_string()).message(), "Clipboard error: x)");
    assert!(matches!(Error::new_clip("x".to_string()), Error::Clp(ref why) if why == "x"));
}
