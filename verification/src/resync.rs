//! The resynchronising decoder: it scans for the marker, reads the frame
//! behind it once that frame is whole, and drops what it has dealt with.

use crate::frame::{
    field_len, fits, frame, header_len, length_field, length_modulus, with_frame, LengthWidth,
    MARKER_BYTE,
};
use crate::text::{decoded_text, text_from_bytes};
use vstd::prelude::*;
use vstd::utf8::*;

verus! {

/// The number that the length field starting at `at` spells.
pub open spec fn field_value(width: LengthWidth, bytes: Seq<u8>, at: int) -> int {
    match width {
        LengthWidth::Short => bytes[at] * 0x100 + bytes[at + 1],
        LengthWidth::Long => bytes[at] * 0x100_0000 + bytes[at + 1] * 0x1_0000 + bytes[at + 2]
            * 0x100 + bytes[at + 3],
    }
}

/// Whether the marker stands at position `i`.
pub open spec fn marker_at(bytes: Seq<u8>, i: int) -> bool {
    bytes[i] == MARKER_BYTE && bytes[i + 1] == MARKER_BYTE
}

/// The first position from `from` on, below `limit`, at which the marker
/// stands; `limit` where there is none.
pub open spec fn first_marker(bytes: Seq<u8>, from: int, limit: int) -> int
    decreases limit - from,
{
    if from >= limit {
        limit
    } else if marker_at(bytes, from) {
        from
    } else {
        first_marker(bytes, from + 1, limit)
    }
}

/// Where the decoder stops scanning: at the first marker that still has a
/// whole header and one more byte behind it, else at the last position that
/// leaves room for a header. A buffer shorter than a header is not scanned.
pub open spec fn frame_start(width: LengthWidth, bytes: Seq<u8>) -> int {
    if bytes.len() < header_len(width) {
        0
    } else {
        first_marker(bytes, 0, bytes.len() - header_len(width))
    }
}

/// Whether a frame starts at `start` and lies in the buffer whole.
pub open spec fn complete_at(width: LengthWidth, bytes: Seq<u8>, start: int) -> bool {
    &&& start + header_len(width) < bytes.len()
    &&& marker_at(bytes, start)
    &&& start + header_len(width) + field_value(width, bytes, start + 2) <= bytes.len()
}

/// What one pass of the decoder makes of a buffer.
pub struct Parsed {
    /// Bytes that leave the buffer: skipped ones, and the frame if one was read.
    pub consumed: int,
    /// The payload of the frame that was read.
    pub payload: Option<Seq<u8>>,
}

/// One pass of the decoder: skip to the first marker; read the frame there if
/// it is whole, else leave it for the next pass.
pub open spec fn parse(width: LengthWidth, bytes: Seq<u8>) -> Parsed {
    let start = frame_start(width, bytes);
    if complete_at(width, bytes, start) {
        let end = start + header_len(width) + field_value(width, bytes, start + 2);
        Parsed { consumed: end, payload: Some(bytes.subrange(start + header_len(width), end)) }
    } else {
        Parsed { consumed: start, payload: None }
    }
}

/// A buffer after its first `by` bytes left it: the rest moves to the front,
/// and the bytes behind the rest keep their values.
pub open spec fn shifted(bytes: Seq<u8>, by: int) -> Seq<u8> {
    bytes.skip(by) + bytes.skip(bytes.len() - by)
}

/// The payloads that repeated passes read from a buffer, in the order in
/// which they lie in it: passes go on until one reads nothing. (A pass that
/// reads a frame always consumes at least its header, see
/// `lemma_parse_bounds`; the bound on `consumed` is there to show that the
/// passes end.)
pub open spec fn drained_payloads(width: LengthWidth, bytes: Seq<u8>) -> Seq<Seq<u8>>
    decreases bytes.len(),
{
    let pass = parse(width, bytes);
    if pass.payload is Some && 0 < pass.consumed <= bytes.len() {
        seq![pass.payload->0] + drained_payloads(width, bytes.skip(pass.consumed))
    } else {
        Seq::empty()
    }
}

/// What repeated passes leave in a buffer once one of them reads nothing.
pub open spec fn drained_rest(width: LengthWidth, bytes: Seq<u8>) -> Seq<u8>
    decreases bytes.len(),
{
    let pass = parse(width, bytes);
    if pass.payload is Some && 0 < pass.consumed <= bytes.len() {
        drained_rest(width, bytes.skip(pass.consumed))
    } else {
        bytes.skip(pass.consumed)
    }
}

/// `first_marker` is the least position with a marker, bounded by `limit`.
pub proof fn lemma_first_marker(bytes: Seq<u8>, from: int, limit: int)
    requires
        from <= limit,
    ensures
        from <= first_marker(bytes, from, limit) <= limit,
        forall|j: int| from <= j < first_marker(bytes, from, limit) ==> !marker_at(bytes, j),
        first_marker(bytes, from, limit) < limit ==> marker_at(
            bytes,
            first_marker(bytes, from, limit),
        ),
    decreases limit - from,
{
    if from < limit && !marker_at(bytes, from) {
        lemma_first_marker(bytes, from + 1, limit);
    }
}

/// A pass consumes no more than the buffer holds.
pub proof fn lemma_parse_bounds(width: LengthWidth, bytes: Seq<u8>)
    ensures
        0 <= parse(width, bytes).consumed <= bytes.len(),
        parse(width, bytes).payload is Some ==> parse(width, bytes).consumed >= header_len(width),
{
    if bytes.len() >= header_len(width) {
        lemma_first_marker(bytes, 0, bytes.len() - header_len(width));
    }
}

/// The length field spells the length it was made for, as long as that
/// length is within the field's range.
pub proof fn lemma_field_spells(width: LengthWidth, n: int)
    requires
        0 <= n < length_modulus(width),
    ensures
        field_value(width, length_field(width, n), 0) == n,
{
    let m = n as u64;
    let field = length_field(width, n);
    assert(n % length_modulus(width) == n);
    match width {
        LengthWidth::Short => {
            let hi = m / 0x100;
            let lo = m % 0x100;
            assert(m < 0x1_0000 ==> hi < 0x100 && lo < 0x100 && hi * 0x100 + lo == m)
                by (bit_vector)
                requires
                    hi == m / 0x100,
                    lo == m % 0x100,
            ;
            assert(field[0] == hi && field[1] == lo);
        },
        LengthWidth::Long => {
            let b0 = m / 0x100_0000;
            let b1 = (m / 0x1_0000) % 0x100;
            let b2 = (m / 0x100) % 0x100;
            let b3 = m % 0x100;
            assert(m < 0x1_0000_0000 ==> b0 < 0x100 && b1 < 0x100 && b2 < 0x100 && b3 < 0x100
                && b0 * 0x100_0000 + b1 * 0x1_0000 + b2 * 0x100 + b3 == m) by (bit_vector)
                requires
                    b0 == m / 0x100_0000,
                    b1 == (m / 0x1_0000) % 0x100,
                    b2 == (m / 0x100) % 0x100,
                    b3 == m % 0x100,
            ;
            assert(field[0] == b0 && field[1] == b1);
            assert(field[2] == b2 && field[3] == b3);
        },
    }
}

/// Whether the frame of `payload` lies in `bytes` from position `at` on.
pub open spec fn frame_at(width: LengthWidth, bytes: Seq<u8>, at: int, payload: Seq<u8>) -> bool {
    &&& 0 <= at
    &&& at + frame(width, payload).len() <= bytes.len()
    &&& bytes.subrange(at, at + frame(width, payload).len()) == frame(width, payload)
}

/// Where a frame lies in a buffer, the marker stands at its start and the
/// length field behind the marker spells the payload's length.
pub proof fn lemma_field_value(width: LengthWidth, bytes: Seq<u8>, at: int, payload: Seq<u8>)
    requires
        payload.len() < length_modulus(width),
        frame_at(width, bytes, at, payload),
    ensures
        marker_at(bytes, at),
        field_value(width, bytes, at + 2) == payload.len(),
{
    let field = length_field(width, payload.len() as int);
    let whole = frame(width, payload);
    let part = bytes.subrange(at, at + whole.len());
    lemma_field_spells(width, payload.len() as int);
    assert forall|k: int| 0 <= k < header_len(width) implies bytes[at + k] == #[trigger] whole[k] by {
        assert(part[k] == bytes[at + k]);
    }
    assert(bytes[at] == whole[0] && bytes[at + 1] == whole[1]);
    assert(bytes[at + 2] == whole[2] && bytes[at + 3] == whole[3]);
    assert(whole[2] == field[0] && whole[3] == field[1]);
    if width == LengthWidth::Long {
        assert(bytes[at + 4] == whole[4] && bytes[at + 5] == whole[5]);
        assert(whole[4] == field[2] && whole[5] == field[3]);
    }
}

/// A marker at `at` with none in front of it is where the scan stops.
pub proof fn lemma_first_marker_is(bytes: Seq<u8>, from: int, at: int, limit: int)
    requires
        from <= at < limit,
        marker_at(bytes, at),
        forall|j: int| from <= j < at ==> !marker_at(bytes, j),
    ensures
        first_marker(bytes, from, limit) == at,
    decreases at - from,
{
    if from < at {
        lemma_first_marker_is(bytes, from + 1, at, limit);
    }
}

/// A frame with a payload that lies in a buffer, with no marker in front
/// of it, is what a pass reads; the pass consumes the buffer up to the
/// frame's end.
pub proof fn lemma_frame_found(width: LengthWidth, bytes: Seq<u8>, at: int, payload: Seq<u8>)
    requires
        0 < payload.len() < length_modulus(width),
        frame_at(width, bytes, at, payload),
        forall|j: int| 0 <= j < at ==> !marker_at(bytes, j),
    ensures
        parse(width, bytes) == (Parsed {
            consumed: at + frame(width, payload).len(),
            payload: Some(payload),
        }),
{
    let whole = frame(width, payload);
    let header = header_len(width);
    lemma_field_value(width, bytes, at, payload);
    lemma_first_marker_is(bytes, 0, at, bytes.len() - header);
    assert(frame_start(width, bytes) == at);
    assert(complete_at(width, bytes, at));
    assert(bytes.subrange(at + header, at + whole.len()) == payload) by {
        assert(bytes.subrange(at + header, at + whole.len()) == bytes.subrange(
            at,
            at + whole.len(),
        ).subrange(header, whole.len() as int));
        assert(whole.subrange(header, whole.len() as int) == payload);
    }
}

/// Resynchronisation. Bytes in front of a frame are skipped and the frame
/// behind them is read as if they were not there, whatever follows it; they
/// count as consumed. The bytes in front must not hold the marker themselves,
/// nor end in a byte that forms one with the frame's first byte.
pub proof fn lemma_resync(
    width: LengthWidth,
    garbage: Seq<u8>,
    payload: Seq<u8>,
    tail: Seq<u8>,
)
    requires
        0 < payload.len() < length_modulus(width),
        forall|i: int|
            0 <= i < garbage.len() ==> !marker_at(garbage + frame(width, payload), i),
    ensures
        parse(width, garbage + frame(width, payload) + tail) == (Parsed {
            consumed: (garbage.len() + frame(width, payload).len()) as int,
            payload: Some(payload),
        }),
        parse(width, garbage + frame(width, payload) + tail).payload == parse(
            width,
            frame(width, payload),
        ).payload,
{
    let whole = frame(width, payload);
    let bytes = garbage + whole + tail;
    let at = garbage.len() as int;
    assert(bytes.subrange(at, at + whole.len()) == whole);
    assert forall|j: int| 0 <= j < at implies !marker_at(bytes, j) by {
        assert(!marker_at(garbage + whole, j));
        assert(bytes[j] == (garbage + whole)[j]);
        assert(bytes[j + 1] == (garbage + whole)[j + 1]);
    }
    lemma_frame_found(width, bytes, at, payload);
    lemma_frame_alone(width, payload);
}

/// A frame alone in the buffer is read whole.
pub proof fn lemma_frame_alone(width: LengthWidth, payload: Seq<u8>)
    requires
        0 < payload.len() < length_modulus(width),
    ensures
        parse(width, frame(width, payload)) == (Parsed {
            consumed: frame(width, payload).len() as int,
            payload: Some(payload),
        }),
{
    let whole = frame(width, payload);
    assert(whole.subrange(0, whole.len() as int) == whole);
    lemma_frame_found(width, whole, 0, payload);
}

/// Round trip. Where the frame of a non-empty text fits a buffer, the bytes
/// that were written are read back as that text, and the whole frame is
/// consumed.
pub proof fn lemma_round_trip(width: LengthWidth, text: Seq<char>, buffer: Seq<u8>)
    requires
        text.len() > 0,
        fits(width, encode_utf8(text), buffer.len() as int),
    ensures
        with_frame(width, encode_utf8(text), buffer).take(
            frame(width, encode_utf8(text)).len() as int,
        ) == frame(width, encode_utf8(text)),
        parse(width, frame(width, encode_utf8(text))) == (Parsed {
            consumed: frame(width, encode_utf8(text)).len() as int,
            payload: Some(encode_utf8(text)),
        }),
        decoded_text(encode_utf8(text)) == text,
{
    broadcast use {encode_utf8_valid_utf8, encode_utf8_decode_utf8};

    crate::frame::lemma_encoding_empty(text);
    lemma_frame_alone(width, encode_utf8(text));
}

/// The frames of `payloads`, one behind the other.
pub open spec fn frames(width: LengthWidth, payloads: Seq<Seq<u8>>) -> Seq<u8>
    decreases payloads.len(),
{
    if payloads.len() == 0 {
        Seq::empty()
    } else {
        frame(width, payloads.first()) + frames(width, payloads.drop_first())
    }
}

/// A frame at the front of a buffer is the first that repeated passes read;
/// they go on with what lies behind it.
pub proof fn lemma_drain_step(width: LengthWidth, payload: Seq<u8>, tail: Seq<u8>)
    requires
        0 < payload.len() < length_modulus(width),
    ensures
        drained_payloads(width, frame(width, payload) + tail) == seq![payload] + drained_payloads(
            width,
            tail,
        ),
        drained_rest(width, frame(width, payload) + tail) == drained_rest(width, tail),
{
    let bytes = frame(width, payload) + tail;
    let pass = parse(width, bytes);
    assert(pass == (Parsed {
        consumed: frame(width, payload).len() as int,
        payload: Some(payload),
    })) by {
        assert(Seq::<u8>::empty() + frame(width, payload) + tail == bytes);
        lemma_resync(width, Seq::empty(), payload, tail);
    }
    assert(bytes.skip(pass.consumed) == tail);
}

/// Order. Frames that lie one behind the other in a buffer are read in that
/// order, each payload as it was framed, and nothing is left over.
pub proof fn lemma_drain_frames(width: LengthWidth, payloads: Seq<Seq<u8>>)
    requires
        forall|i: int|
            0 <= i < payloads.len() ==> 0 < (#[trigger] payloads[i]).len() < length_modulus(
                width,
            ),
    ensures
        drained_payloads(width, frames(width, payloads)) == payloads,
        drained_rest(width, frames(width, payloads)) == Seq::<u8>::empty(),
    decreases payloads.len(),
{
    if payloads.len() == 0 {
        let none = Seq::<u8>::empty();
        assert(frames(width, payloads) == none);
        assert(parse(width, none).payload is None);
        assert(none.skip(parse(width, none).consumed) == none);
    } else {
        let first = payloads.first();
        let rest = payloads.drop_first();
        assert(0 < first.len() < length_modulus(width)) by {
            assert(first == payloads[0]);
        }
        assert forall|i: int| 0 <= i < rest.len() implies 0 < (#[trigger] rest[i]).len()
            < length_modulus(width) by {
            assert(rest[i] == payloads[i + 1]);
        }
        lemma_drain_frames(width, rest);
        lemma_drain_step(width, first, frames(width, rest));
        assert(seq![first] + rest == payloads);
    }
}

/// Partial delivery. While only the first `k` bytes of a frame have come in,
/// a pass reads nothing and leaves the buffer as it is; once the rest has
/// been appended the frame is read whole.
pub proof fn lemma_partial_delivery(width: LengthWidth, payload: Seq<u8>, k: int)
    requires
        0 < payload.len() < length_modulus(width),
        0 <= k < frame(width, payload).len(),
    ensures
        parse(width, frame(width, payload).take(k)) == (Parsed { consumed: 0, payload: None }),
        shifted(frame(width, payload).take(k), 0) == frame(width, payload).take(k),
        parse(width, frame(width, payload).take(k) + frame(width, payload).skip(k)) == (Parsed {
            consumed: frame(width, payload).len() as int,
            payload: Some(payload),
        }),
{
    let whole = frame(width, payload);
    let part = whole.take(k);
    assert(part + whole.skip(k) == whole);
    lemma_frame_alone(width, payload);
    assert(shifted(part, 0) == part);
    if k >= header_len(width) {
        assert(whole.subrange(0, whole.len() as int) == whole);
        lemma_field_value(width, whole, 0, payload);
        assert(marker_at(part, 0));
        assert(field_value(width, part, 2) == field_value(width, whole, 2)) by {
            assert(part[2] == whole[2] && part[3] == whole[3]);
            if width == LengthWidth::Long {
                assert(part[4] == whole[4] && part[5] == whole[5]);
            }
        }
        assert(frame_start(width, part) == 0);
        assert(!complete_at(width, part, 0));
    }
}

/// A length field that asks for more bytes than the buffer holds yields no
/// payload: the pass drops what lies in front of the marker and keeps the
/// frame's bytes for the next pass.
pub proof fn lemma_oversized_length_waits(width: LengthWidth, bytes: Seq<u8>)
    requires
        bytes.len() >= header_len(width),
        frame_start(width, bytes) + header_len(width) + field_value(
            width,
            bytes,
            frame_start(width, bytes) + 2,
        ) > bytes.len(),
    ensures
        parse(width, bytes).payload is None,
        parse(width, bytes).consumed == frame_start(width, bytes),
        0 <= frame_start(width, bytes) <= bytes.len() - header_len(width),
        shifted(bytes, parse(width, bytes).consumed).take(
            bytes.len() - frame_start(width, bytes),
        ) == bytes.skip(frame_start(width, bytes)),
{
    lemma_first_marker(bytes, 0, bytes.len() - header_len(width));
}

/// A pass that reads nothing settles the buffer: the pass after it, over
/// what the first one left, consumes nothing and reads nothing.
pub proof fn lemma_pass_settles(width: LengthWidth, bytes: Seq<u8>)
    requires
        parse(width, bytes).payload is None,
    ensures
        parse(width, bytes.skip(parse(width, bytes).consumed)) == (Parsed {
            consumed: 0,
            payload: None,
        }),
{
    let header = header_len(width);
    if bytes.len() >= header {
        let limit = bytes.len() - header;
        let start = first_marker(bytes, 0, limit);
        let left = bytes.skip(start);
        lemma_first_marker(bytes, 0, limit);
        assert(left.len() - header == limit - start);
        if start < limit {
            assert(marker_at(left, 0)) by {
                assert(left[0] == bytes[start] && left[1] == bytes[start + 1]);
            }
            assert(field_value(width, left, 2) == field_value(width, bytes, start + 2)) by {
                assert(left[2] == bytes[start + 2] && left[3] == bytes[start + 3]);
                if width == LengthWidth::Long {
                    assert(left[4] == bytes[start + 4] && left[5] == bytes[start + 5]);
                }
            }
        }
    } else {
        assert(bytes.skip(0) == bytes);
    }
}

/// Finds where the first frame of `buf` starts and, if that frame is whole,
/// how long its payload is.
pub fn locate(buf: &[u8], width: LengthWidth) -> (found: (usize, Option<usize>))
    ensures
        found.0 == frame_start(width, buf@),
        found.0 <= buf.len(),
        found.1 is Some <==> complete_at(width, buf@, found.0 as int),
        found.1 is Some ==> found.1->0 == field_value(width, buf@, found.0 + 2),
{
    let header: usize = width.header_len();
    let len: usize = buf.len();
    if len < header {
        return (0, None);
    }
    let limit: usize = len - header;
    let mut start: usize = 0;
    while start < limit && !(buf[start] == MARKER_BYTE && buf[start + 1] == MARKER_BYTE)
        invariant
            start <= limit,
            limit + header == buf@.len(),
            header == header_len(width),
            first_marker(buf@, start as int, limit as int) == first_marker(buf@, 0, limit as int),
        decreases limit - start,
    {
        start += 1;
    }
    if start >= limit {
        return (start, None);
    }
    let room: usize = limit - start;
    match width {
        LengthWidth::Short => {
            let hi: usize = buf[start + 2] as usize;
            let lo: usize = buf[start + 3] as usize;
            let count: usize = hi * 0x100 + lo;
            if count <= room {
                (start, Some(count))
            } else {
                (start, None)
            }
        },
        LengthWidth::Long => {
            let b0: u64 = buf[start + 2] as u64;
            let b1: u64 = buf[start + 3] as u64;
            let b2: u64 = buf[start + 4] as u64;
            let b3: u64 = buf[start + 5] as u64;
            let count: u64 = b0 * 0x100_0000 + b1 * 0x1_0000 + b2 * 0x100 + b3;
            if count <= room as u64 {
                (start, Some(count as usize))
            } else {
                (start, None)
            }
        },
    }
}

/// Drops the first `by` bytes of `buf` and moves the rest to the front.
pub fn shift_left(buf: &mut [u8], by: usize)
    requires
        by <= old(buf)@.len(),
    ensures
        final(buf)@ == shifted(old(buf)@, by as int),
{
    let len: usize = buf.len();
    if by == 0 {
        assert(buf@ == shifted(buf@, 0));
        return ;
    }
    let rest: usize = len - by;
    let mut i: usize = 0;
    while i < rest
        invariant
            i <= rest,
            rest + by == len,
            len == buf@.len(),
            buf@.len() == old(buf)@.len(),
            forall|j: int| 0 <= j < i ==> buf@[j] == old(buf)@[j + by],
            forall|j: int| i <= j < len ==> buf@[j] == old(buf)@[j],
        decreases rest - i,
    {
        buf[i] = buf[i + by];
        i += 1;
    }
    assert(buf@ == shifted(old(buf)@, by as int));
}

/// One pass of the decoder over `buf`: drops what lies in front of the first
/// marker, reads the frame there if it is whole, and moves what is left to
/// the front. Returns how many bytes left the buffer, and the text of the
/// frame that was read.
pub fn read_frame(buf: &mut [u8], width: LengthWidth) -> (out: (usize, Option<String>))
    ensures
        out.0 == parse(width, old(buf)@).consumed,
        out.0 <= old(buf)@.len(),
        final(buf)@ == shifted(old(buf)@, out.0 as int),
        out.1 is Some <==> parse(width, old(buf)@).payload is Some,
        out.1 is Some ==> out.1->0@ == decoded_text(parse(width, old(buf)@).payload->0),
{
    let header: usize = width.header_len();
    let (start, found) = locate(buf, width);
    match found {
        Some(count) => {
            let from: usize = start + header;
            let text = text_from_bytes(vstd::slice::slice_subrange(buf, from, from + count));
            shift_left(buf, from + count);
            (from + count, Some(text))
        },
        None => {
            proof {
                if buf@.len() >= header_len(width) {
                    lemma_first_marker(buf@, 0, buf@.len() - header_len(width));
                }
            }
            shift_left(buf, start);
            (start, None)
        },
    }
}

} // verus!
