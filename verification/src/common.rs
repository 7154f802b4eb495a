//! The protocol with the two-byte length field, and the two checks that the
//! polling loops are built from.

use crate::frame::{fits, frame, with_frame, write_text, LengthWidth};
use crate::resync::{parse, read_frame, shifted};
use crate::text::{decoded_text, is_special, special};
use std::collections::hash_map::DefaultHasher;
use std::hash::Hasher;
use vstd::prelude::*;
use vstd::std_specs::hash::DefaultHasherAdditionalSpecFns;
use vstd::utf8::encode_utf8;

verus! {

/// Milliseconds between two looks at the clipboard.
pub const WAIT_MS: u64 = 1000;

/// Bytes in the buffer that a frame is built in.
pub const BUF_LEN: usize = 10240;

/// The fingerprint of a text: the digest of the default hasher after it took
/// the text's UTF-8 bytes and then the byte `0xff`.
pub open spec fn text_hash(text: Seq<char>) -> u64 {
    DefaultHasher::spec_finish(seq![encode_utf8(text), seq![0xffu8]])
}

/// Whether a poll that finds `text` on a node whose fingerprint is `last`
/// calls for a send: the text is not special content and is not the one the
/// node last acted on.
pub open spec fn should_send(last: u64, text: Seq<char>) -> bool {
    !special(text) && last != text_hash(text)
}

/// Computes the fingerprint of `t`.
pub fn calculate_hash(t: &str) -> (h: u64)
    ensures
        h == text_hash(t@),
{
    let mut s = DefaultHasher::new();
    s.write(t.as_bytes());
    let end: [u8; 1] = [0xff];
    s.write(end.as_slice());
    proof {
        assert(end@ == seq![0xffu8]);
        assert(s@ == seq![encode_utf8(t@), seq![0xffu8]]);
    }
    s.finish()
}

/// Frames `s` into `buf` with a two-byte length field and returns the
/// length of the frame. `None` for the empty text, which has no frame, and
/// for a text whose frame does not fit: its encoding is too long for the
/// length field, or the frame is longer than `buf`. Nothing is written then.
pub fn encode(buf: &mut [u8], s: String) -> (written: Option<usize>)
    ensures
        written is Some <==> s@.len() > 0 && fits(
            LengthWidth::Short,
            encode_utf8(s@),
            old(buf)@.len() as int,
        ),
        written is Some ==> written->0 == frame(LengthWidth::Short, encode_utf8(s@)).len(),
        written is Some ==> final(buf)@ == with_frame(
            LengthWidth::Short,
            encode_utf8(s@),
            old(buf)@,
        ),
        written is None ==> final(buf)@ == old(buf)@,
{
    write_text(buf, s.as_str(), LengthWidth::Short)
}

/// One pass of the resynchronising decoder over `buf`, which holds frames
/// with a two-byte length field. Returns how many bytes were consumed and the
/// text of the frame that was read, if one was; what was not consumed is
/// moved to the front of `buf`.
pub fn decode(buf: &mut [u8]) -> (out: (usize, Option<String>))
    ensures
        out.0 == parse(LengthWidth::Short, old(buf)@).consumed,
        out.0 <= old(buf)@.len(),
        final(buf)@ == shifted(old(buf)@, out.0 as int),
        out.1 is Some <==> parse(LengthWidth::Short, old(buf)@).payload is Some,
        out.1 is Some ==> out.1->0@ == decoded_text(
            parse(LengthWidth::Short, old(buf)@).payload->0,
        ),
{
    read_frame(buf, LengthWidth::Short)
}

/// Looks at the text that a poll found on the clipboard. The fingerprint
/// becomes that of the text. The text comes back for sending if it is not
/// special content and differs from what the node last acted on.
pub fn clipboard_check(last_hash: &mut u64, data: String) -> (send: Option<String>)
    ensures
        *final(last_hash) == text_hash(data@),
        send is Some <==> should_send(*old(last_hash), data@),
        send is Some ==> send->0@ == data@,
{
    let curr_hash: u64 = calculate_hash(data.as_str());
    if is_special(data.as_str()) {
        *last_hash = curr_hash;
    }
    if *last_hash != curr_hash {
        *last_hash = curr_hash;
        Some(data)
    } else {
        None
    }
}

/// A buffer whose first `filled` bytes are data, after one pass of the
/// decoder ran over those: what the pass left of them stands in front, and
/// the bytes from `filled` on keep their values.
pub open spec fn received(bytes: Seq<u8>, filled: int) -> Seq<u8> {
    shifted(bytes.take(filled), parse(LengthWidth::Short, bytes.take(filled)).consumed)
        + bytes.skip(filled)
}

/// Takes in what a read into `buffer[start..]` brought. `read` is the number
/// of bytes that the read reported, `None` if it failed or timed out; a read
/// reports no more bytes than the part it was given holds. Where bytes came
/// in, one pass of the decoder runs over the filled part of the buffer.
/// Returns how many bytes are pending afterwards, and the text that was
/// read, if any.
pub fn stream_recv(buffer: &mut [u8], start: usize, read: Option<usize>) -> (out: (
    usize,
    Option<String>,
))
    requires
        start <= old(buffer).len(),
        read is Some ==> start + read->0 <= old(buffer).len(),
    ensures
        read is None || read == Some(0usize) ==> out == (start, None::<String>) && final(buffer)@
            == old(buffer)@,
        read is Some && read->0 > 0 ==> {
            let filled = start + read->0;
            let pass = parse(LengthWidth::Short, old(buffer)@.take(filled));
            &&& out.0 == filled - pass.consumed
            &&& final(buffer)@ == received(old(buffer)@, filled)
            &&& out.1 is Some <==> pass.payload is Some
            &&& out.1 is Some ==> out.1->0@ == decoded_text(pass.payload->0)
        },
{
    match read {
        Some(new_len) => {
            if new_len > 0 {
                let filled: usize = start + new_len;
                let (head, _) = buffer.split_at_mut(filled);
                let (consumed, text) = decode(head);
                return (filled - consumed, text);
            }
        },
        None => {},
    }
    (start, None)
}

} // verus!
