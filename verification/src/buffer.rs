//! The bytes of one connection that have come in and were not consumed yet.

use crate::frame::LengthWidth;
use crate::resync::{parse, read_frame};
use crate::text::decoded_text;
use vstd::prelude::*;

verus! {

/// The receive buffer of one connection. It holds at most `limit()` bytes.
pub struct ReceiveBuffer {
    data: Vec<u8>,
    capacity: usize,
}

impl View for ReceiveBuffer {
    type V = Seq<u8>;

    /// The pending bytes, oldest first.
    closed spec fn view(&self) -> Seq<u8> {
        self.data@
    }
}

impl ReceiveBuffer {
    /// The most bytes that the buffer takes.
    pub closed spec fn limit(&self) -> nat {
        self.capacity as nat
    }

    /// The buffer holds no more than its limit.
    pub open spec fn wf(&self) -> bool {
        self@.len() <= self.limit()
    }

    /// An empty buffer that takes up to `capacity` bytes.
    pub fn new(capacity: usize) -> (buffer: Self)
        ensures
            buffer.wf(),
            buffer@ == Seq::<u8>::empty(),
            buffer.limit() == capacity,
    {
        ReceiveBuffer { data: Vec::new(), capacity }
    }

    /// How many bytes are pending.
    pub fn len(&self) -> (n: usize)
        requires
            self.wf(),
        ensures
            n == self@.len(),
            n <= self.limit(),
    {
        self.data.len()
    }

    /// How many more bytes the buffer takes.
    pub fn spare(&self) -> (n: usize)
        requires
            self.wf(),
        ensures
            n == self.limit() - self@.len(),
    {
        self.capacity - self.data.len()
    }

    /// Appends `bytes` if the buffer has room for all of them; else leaves the
    /// buffer as it is and returns `false`.
    pub fn append(&mut self, bytes: &[u8]) -> (taken: bool)
        requires
            old(self).wf(),
        ensures
            final(self).wf(),
            final(self).limit() == old(self).limit(),
            taken == (old(self)@.len() + bytes@.len() <= old(self).limit()),
            taken ==> final(self)@ == old(self)@ + bytes@,
            !taken ==> final(self)@ == old(self)@,
    {
        if bytes.len() > self.capacity - self.data.len() {
            return false;
        }
        let ghost before = self.data@;
        self.data.extend_from_slice(bytes);
        assert(self.data@ == before + bytes@);
        true
    }

    /// One pass of the decoder: what lies in front of the first marker leaves
    /// the buffer, and so does the frame there if it is whole; its text comes
    /// back.
    pub fn next_text(&mut self, width: LengthWidth) -> (text: Option<String>)
        requires
            old(self).wf(),
        ensures
            final(self).wf(),
            final(self).limit() == old(self).limit(),
            final(self)@ == old(self)@.skip(parse(width, old(self)@).consumed),
            text is Some <==> parse(width, old(self)@).payload is Some,
            text is Some ==> text->0@ == decoded_text(parse(width, old(self)@).payload->0),
    {
        let len: usize = self.data.len();
        let (consumed, text) = read_frame(self.data.as_mut_slice(), width);
        self.data.truncate(len - consumed);
        assert(self.data@ == old(self)@.skip(consumed as int));
        text
    }
}

} // verus!
