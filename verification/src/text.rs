//! Text as it crosses the wire: bytes to text, and the prefixes that the
//! loops look for.

use vstd::prelude::*;
use vstd::utf8::*;

verus! {

/// The text that `String::from_utf8_lossy` makes of bytes that are not valid
/// UTF-8: every invalid sequence gives way to U+FFFD. Nothing else is known
/// of it here.
pub uninterp spec fn lossy_text(bytes: Seq<u8>) -> Seq<char>;

/// The text that a payload stands for: its characters where the bytes are
/// valid UTF-8, the lossy reading where they are not.
pub open spec fn decoded_text(bytes: Seq<u8>) -> Seq<char> {
    if valid_utf8(bytes) {
        decode_utf8(bytes)
    } else {
        lossy_text(bytes)
    }
}

/// Calls `String::from_utf8_lossy` and takes ownership of what it returns.
/// Trusted: valid UTF-8 comes back as the text it encodes; for any other
/// input the result is the lossy reading, which depends on the bytes alone.
#[verifier::external_body]
pub(crate) fn text_from_bytes(bytes: &[u8]) -> (text: String)
    ensures
        valid_utf8(bytes@) ==> text@ == decode_utf8(bytes@),
        !valid_utf8(bytes@) ==> text@ == lossy_text(bytes@),
{
    String::from_utf8_lossy(bytes).into_owned()
}

/// Calls `str::starts_with` with a string as the pattern. Trusted: the
/// answer is whether `prefix` is an initial segment of `text`.
#[verifier::external_body]
pub(crate) fn starts_with(text: &str, prefix: &str) -> (yes: bool)
    ensures
        yes == prefix@.is_prefix_of(text@),
{
    text.starts_with(prefix)
}

/// Text that stands for clipboard content of another kind than text: it
/// begins with the tag `x-special/`.
pub open spec fn special(text: Seq<char>) -> bool {
    "x-special/"@.is_prefix_of(text)
}

/// Text that looks like the address of a web page: it begins with `http://`
/// or `https://`.
pub open spec fn web_address(text: Seq<char>) -> bool {
    "http://"@.is_prefix_of(text) || "https://"@.is_prefix_of(text)
}

/// Whether `text` carries the tag of non-text clipboard content.
pub fn is_special(text: &str) -> (yes: bool)
    ensures
        yes == special(text@),
{
    starts_with(text, "x-special/")
}

/// Whether `text` looks like the address of a web page.
pub fn is_web_address(text: &str) -> (yes: bool)
    ensures
        yes == web_address(text@),
{
    starts_with(text, "http://") || starts_with(text, "https://")
}

} // verus!
