//! The wire format, a two-byte marker, a big-endian length and the payload,
//! and the functions that write it.

use vstd::prelude::*;
use vstd::utf8::*;

verus! {

/// How many bytes the length field of a frame takes.
#[derive(Clone, Copy, Debug, PartialEq, Eq, Structural)]
pub enum LengthWidth {
    /// Two bytes: payloads of up to 65535 bytes.
    Short,
    /// Four bytes: payloads of up to 4294967295 bytes.
    Long,
}

/// The byte that, twice in a row, opens every frame.
pub const MARKER_BYTE: u8 = 0xff;

/// Bytes taken by the length field.
pub open spec fn field_len(width: LengthWidth) -> int {
    match width {
        LengthWidth::Short => 2,
        LengthWidth::Long => 4,
    }
}

/// Bytes in front of the payload: marker and length field.
pub open spec fn header_len(width: LengthWidth) -> int {
    2 + field_len(width)
}

/// One more than the largest length that the field can carry.
pub open spec fn length_modulus(width: LengthWidth) -> int {
    match width {
        LengthWidth::Short => 0x1_0000,
        LengthWidth::Long => 0x1_0000_0000,
    }
}

/// The length field for a payload of `n` bytes: `n` modulo the field's range,
/// most significant byte first.
pub open spec fn length_field(width: LengthWidth, n: int) -> Seq<u8> {
    let m = n % length_modulus(width);
    match width {
        LengthWidth::Short => seq![(m / 0x100) as u8, (m % 0x100) as u8],
        LengthWidth::Long => seq![
            (m / 0x100_0000) as u8,
            ((m / 0x1_0000) % 0x100) as u8,
            ((m / 0x100) % 0x100) as u8,
            (m % 0x100) as u8,
        ],
    }
}

/// The header of a frame whose payload has `n` bytes: the marker and the
/// length field.
pub open spec fn header(width: LengthWidth, n: int) -> Seq<u8> {
    seq![MARKER_BYTE, MARKER_BYTE] + length_field(width, n)
}

/// The frame that carries `payload`.
pub open spec fn frame(width: LengthWidth, payload: Seq<u8>) -> Seq<u8> {
    header(width, payload.len() as int) + payload
}

/// Whether the frame of `payload` can be written into `room` bytes: the
/// length field can carry the payload's length, and the frame is no longer
/// than the room.
pub open spec fn fits(width: LengthWidth, payload: Seq<u8>, room: int) -> bool {
    payload.len() < length_modulus(width) && frame(width, payload).len() <= room
}

/// A buffer after the frame of `payload` was written to its front. The
/// bytes behind the frame keep their values.
pub open spec fn with_frame(width: LengthWidth, payload: Seq<u8>, bytes: Seq<u8>) -> Seq<u8> {
    frame(width, payload) + bytes.skip(frame(width, payload).len() as int)
}

impl LengthWidth {
    /// Bytes in front of the payload.
    pub fn header_len(self) -> (n: usize)
        ensures
            n == header_len(self),
    {
        match self {
            LengthWidth::Short => 4,
            LengthWidth::Long => 6,
        }
    }

    /// Whether the length field can carry the length `n`.
    pub fn carries(self, n: usize) -> (yes: bool)
        ensures
            yes == (n < length_modulus(self)),
    {
        match self {
            LengthWidth::Short => n < 0x1_0000,
            LengthWidth::Long => (n as u64) < 0x1_0000_0000,
        }
    }
}

/// Writes the header for a payload of `n` bytes to the front of `buf`.
fn write_header(buf: &mut [u8], n: usize, width: LengthWidth)
    requires
        old(buf)@.len() >= header_len(width),
        n < length_modulus(width),
    ensures
        final(buf)@ == header(width, n as int) + old(buf)@.skip(header_len(width)),
{
    buf[0] = MARKER_BYTE;
    buf[1] = MARKER_BYTE;
    match width {
        LengthWidth::Short => {
            buf[2] = (n / 0x100) as u8;
            buf[3] = (n % 0x100) as u8;
        },
        LengthWidth::Long => {
            let m: u64 = n as u64;
            buf[2] = (m / 0x100_0000) as u8;
            buf[3] = ((m / 0x1_0000) % 0x100) as u8;
            buf[4] = ((m / 0x100) % 0x100) as u8;
            buf[5] = (m % 0x100) as u8;
        },
    }
}

/// Copies `src` into `buf` from position `at` on.
fn copy_into(buf: &mut [u8], at: usize, src: &[u8])
    requires
        at + src@.len() <= old(buf)@.len(),
    ensures
        final(buf)@ == old(buf)@.take(at as int) + src@ + old(buf)@.skip(at + src@.len()),
{
    let count: usize = src.len();
    let mut i: usize = 0;
    while i < count
        invariant
            i <= count == src@.len(),
            at + count <= buf.len(),
            buf@.len() == old(buf)@.len(),
            buf@ == old(buf)@.take(at as int) + src@.take(i as int) + old(buf)@.skip(at + i),
        decreases count - i,
    {
        buf[at + i] = src[i];
        i += 1;
    }
    assert(src@.take(count as int) == src@);
}

/// Writes the frame of `payload` to the front of `buf` and returns its
/// length, if the frame fits: the length field can carry the payload's
/// length, and `buf` has room for the whole frame. Else nothing is written
/// and `None` comes back.
pub fn write_frame(buf: &mut [u8], payload: &[u8], width: LengthWidth) -> (written: Option<usize>)
    ensures
        written is Some <==> fits(width, payload@, old(buf)@.len() as int),
        written is Some ==> written->0 == frame(width, payload@).len(),
        written is Some ==> final(buf)@ == with_frame(width, payload@, old(buf)@),
        written is None ==> final(buf)@ == old(buf)@,
{
    let header: usize = width.header_len();
    let len: usize = buf.len();
    if !width.carries(payload.len()) || len < header || payload.len() > len - header {
        return None;
    }
    write_header(buf, payload.len(), width);
    copy_into(buf, header, payload);
    assert(buf@ == with_frame(width, payload@, old(buf)@));
    Some(header + payload.len())
}

/// Only the empty text has an empty encoding.
pub proof fn lemma_encoding_empty(text: Seq<char>)
    ensures
        encode_utf8(text).len() == 0 <==> text.len() == 0,
{
    if text.len() > 0 {
    }
}

/// Frames the text `s` into `buf` and returns the length of the frame. The
/// empty text has no frame, and a frame that does not fit is not written:
/// `None` comes back for both, and `buf` stays as it is.
pub fn write_text(buf: &mut [u8], s: &str, width: LengthWidth) -> (written: Option<usize>)
    ensures
        written is Some <==> s@.len() > 0 && fits(
            width,
            encode_utf8(s@),
            old(buf)@.len() as int,
        ),
        written is Some ==> written->0 == frame(width, encode_utf8(s@)).len(),
        written is Some ==> final(buf)@ == with_frame(width, encode_utf8(s@), old(buf)@),
        written is None ==> final(buf)@ == old(buf)@,
{
    let data = s.as_bytes();
    proof {
        lemma_encoding_empty(s@);
    }
    if data.len() == 0 {
        return None;
    }
    write_frame(buf, data, width)
}

} // verus!
