//! The protocol with the four-byte length field.

use crate::frame::{fits, frame, with_frame, write_text, LengthWidth};
use crate::resync::{parse, read_frame, shifted};
use crate::text::decoded_text;
use vstd::prelude::*;
use vstd::utf8::encode_utf8;

verus! {

/// Frames `s` into `buf` with a four-byte length field and returns the
/// length of the frame. `None` for the empty text, which has no frame, and
/// for a text whose frame does not fit: its encoding is too long for the
/// length field, or the frame is longer than `buf`. Nothing is written then.
pub fn encode(buf: &mut [u8], s: String) -> (written: Option<usize>)
    ensures
        written is Some <==> s@.len() > 0 && fits(
            LengthWidth::Long,
            encode_utf8(s@),
            old(buf)@.len() as int,
        ),
        written is Some ==> written->0 == frame(LengthWidth::Long, encode_utf8(s@)).len(),
        written is Some ==> final(buf)@ == with_frame(
            LengthWidth::Long,
            encode_utf8(s@),
            old(buf)@,
        ),
        written is None ==> final(buf)@ == old(buf)@,
{
    write_text(buf, s.as_str(), LengthWidth::Long)
}

/// One pass of the resynchronising decoder over `buf`, which holds frames
/// with a four-byte length field. Returns how many bytes were consumed and
/// the text of the frame that was read, if one was; what was not consumed is
/// moved to the front of `buf`.
pub fn decode(buf: &mut [u8]) -> (out: (usize, Option<String>))
    ensures
        out.0 == parse(LengthWidth::Long, old(buf)@).consumed,
        out.0 <= old(buf)@.len(),
        final(buf)@ == shifted(old(buf)@, out.0 as int),
        out.1 is Some <==> parse(LengthWidth::Long, old(buf)@).payload is Some,
        out.1 is Some ==> out.1->0@ == decoded_text(
            parse(LengthWidth::Long, old(buf)@).payload->0,
        ),
{
    read_frame(buf, LengthWidth::Long)
}

} // verus!
