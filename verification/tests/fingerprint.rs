use std::collections::hash_map::DefaultHasher;
use std::hash::{Hash, Hasher};
use sync_clipboard::common::clipboard_check;
use sync_clipboard::fingerprint::Fingerprint;
use sync_clipboard::text::{is_special, is_web_address};
use sync_clipboard::{calculate_hash, decode, encode};

fn std_hash(text: &str) -> u64 {
    let mut s = DefaultHasher::new();
    text.to_string().hash(&mut s);
    s.finish()
}

#[test]
fn calculate_hash_is_the_default_hash_of_the_string() {
    for text in ["", "hello", "x-special/gnome-copied-files", "\u{1f496}"] {
        assert_eq!(calculate_hash(text), std_hash(text));
        assert_eq!(calculate_hash(&text.to_string()), std_hash(text));
    }
    assert_ne!(calculate_hash("hello"), calculate_hash("world"));
}

#[test]
fn fingerprint_starts_with_the_empty_text() {
    let store = Fingerprint::new();
    assert_eq!(store.value(), std_hash(""));
    assert!(!store.differs(""));
    assert!(store.differs("a"));
}

#[test]
fn fingerprint_update_marks_text_as_known() {
    let mut store = Fingerprint::new();
    store.update("hello");
    assert_eq!(store.value(), std_hash("hello"));
    assert!(!store.differs("hello"));
    assert!(store.differs("hello "));
    assert!(store.differs(""));
}

#[test]
fn clipboard_check_sends_news_once() {
    let mut last = calculate_hash("");
    assert_eq!(clipboard_check(&mut last, "hello".to_string()), Some("hello".to_string()));
    assert_eq!(last, std_hash("hello"));
    assert_eq!(clipboard_check(&mut last, "hello".to_string()), None);
    assert_eq!(last, std_hash("hello"));
    assert_eq!(clipboard_check(&mut last, "world".to_string()), Some("world".to_string()));
}

#[test]
fn clipboard_check_keeps_special_content_to_itself() {
    let mut last = calculate_hash("");
    assert_eq!(clipboard_check(&mut last, "x-special/files\n/tmp/a".to_string()), None);
    assert_eq!(last, std_hash("x-special/files\n/tmp/a"));
    assert_eq!(clipboard_check(&mut last, "x-special/files\n/tmp/a".to_string()), None);
}

#[test]
fn special_is_a_prefix_test() {
    assert!(is_special("x-special/"));
    assert!(is_special("x-special/nautilus-clipboard"));
    assert!(!is_special("x-special"));
    assert!(!is_special(" x-special/"));
    assert!(!is_special(""));
}

#[test]
fn web_address_is_a_prefix_test() {
    assert!(is_web_address("http://example.org"));
    assert!(is_web_address("https://example.org"));
    assert!(!is_web_address("ftp://example.org"));
    assert!(!is_web_address("see http://example.org"));
    assert!(!is_web_address("http:/"));
}

#[test]
fn root_exports_the_short_codec() {
    let mut buf = [0u8; 8];
    assert_eq!(encode(&mut buf, "ab".to_string()), Some(6));
    assert_eq!(decode(&mut buf[..6]), (6, Some("ab".to_string())));
}
