//! The change detector: what a node does with what one wait interval brought.

use crate::common::{should_send, text_hash, BUF_LEN};
use crate::error::Error;
use crate::fingerprint::Fingerprint;
use crate::frame::{fits, frame, LengthWidth};
use crate::resync::{drained_payloads, drained_rest, frames, lemma_drain_frames, lemma_round_trip};
use crate::message::encode;
use crate::text::{decoded_text, is_special};
use vstd::prelude::*;
use vstd::utf8::encode_utf8;

verus! {

/// What one wait interval brought.
#[derive(Debug)]
pub enum Tick {
    /// A peer's text arrived.
    Remote(String),
    /// The channel from the connection loops broke; the cause in words.
    ChannelClosed(String),
    /// Nothing arrived, and the clipboard holds this text.
    Polled(String),
    /// Nothing arrived, and the clipboard could not be read; the cause in words.
    PollFailed(String),
}

/// What the caller is to do after a tick.
#[derive(Debug)]
pub enum Reaction {
    /// Put this text on the clipboard.
    Apply(String),
    /// Write these bytes to every registered peer.
    Broadcast(Vec<u8>),
    /// Nothing.
    Nothing,
}

/// How the polling loop goes on.
#[derive(Clone, Copy, Debug, PartialEq, Eq, Structural)]
pub enum Next {
    /// Wait for the next tick.
    Continue,
    /// Open the clipboard anew, then wait for the next tick. Where that fails
    /// too, the next tick fails again and asks for it again.
    Reinit,
    /// Leave the loop.
    Stop,
}

/// One round of the polling loop.
#[derive(Debug)]
pub struct Round {
    /// What to do now.
    pub reaction: Reaction,
    /// The line for the log, where the round failed.
    pub report: Option<String>,
    /// How to go on.
    pub next: Next,
}

/// The fingerprint after a tick: that of the text that arrived or was found;
/// unchanged where the tick brought no text.
pub open spec fn fingerprint_after(last: u64, tick: Tick) -> u64 {
    match tick {
        Tick::Remote(text) => text_hash(text@),
        Tick::Polled(text) => text_hash(text@),
        Tick::ChannelClosed(_) => last,
        Tick::PollFailed(_) => last,
    }
}

/// The bytes that go out for `text`: its frame with the four-byte length
/// field.
pub open spec fn outgoing(text: Seq<char>) -> Seq<u8> {
    frame(LengthWidth::Long, encode_utf8(text))
}

/// Whether a text can be sent: it is not empty, and its frame is no longer
/// than `BUF_LEN` bytes, the largest frame that goes over the wire.
pub open spec fn sendable(text: Seq<char>) -> bool {
    text.len() > 0 && fits(LengthWidth::Long, encode_utf8(text), BUF_LEN as int)
}

/// Whether a tick makes a node whose fingerprint is `last` send to its peers:
/// a poll found text that is news, is not special content and can be sent.
pub open spec fn broadcasts(last: u64, tick: Tick) -> bool {
    match tick {
        Tick::Polled(text) => should_send(last, text@) && sendable(text@),
        _ => false,
    }
}

/// How the loop goes on after a failure: a broken channel ends it, a failing
/// clipboard is opened anew, anything else is passed over.
pub open spec fn recovery(error: Error) -> Next {
    match error {
        Error::Chn(_) => Next::Stop,
        Error::Clp(_) => Next::Reinit,
        Error::Tcp(_) => Next::Continue,
    }
}

/// The state of the polling loop.
pub struct Clipboard {
    last: Fingerprint,
}

impl Clipboard {
    /// The fingerprint of the text that the node last acted on.
    pub closed spec fn last(&self) -> u64 {
        self.last@
    }

    /// The detector of a node that has seen nothing yet.
    pub fn new() -> (clipboard: Self)
        ensures
            clipboard.last() == text_hash(Seq::<char>::empty()),
    {
        Clipboard { last: Fingerprint::new() }
    }

    /// Takes one tick. A peer's text is to be applied, and becomes the known
    /// text, so that the next poll does not send it back. A polled text
    /// becomes the known text too; it is framed for broadcast if it is news,
    /// not special content, not empty and not too long for a frame. A broken
    /// channel and an unreadable clipboard are errors and leave the
    /// fingerprint alone.
    pub fn timeout_toggle(&mut self, tick: Tick) -> (out: Result<Reaction, Error>)
        ensures
            final(self).last() == fingerprint_after(old(self).last(), tick),
            match tick {
                Tick::Remote(text) => out == Ok::<Reaction, Error>(Reaction::Apply(text)),
                Tick::ChannelClosed(why) => out == Err::<Reaction, Error>(Error::Chn(why)),
                Tick::PollFailed(why) => out == Err::<Reaction, Error>(Error::Clp(why)),
                Tick::Polled(text) => if broadcasts(old(self).last(), tick) {
                    out matches Ok(Reaction::Broadcast(bytes)) && bytes@ == outgoing(text@)
                } else {
                    out == Ok::<Reaction, Error>(Reaction::Nothing)
                },
            },
    {
        match tick {
            Tick::Remote(text) => {
                self.last.update(text.as_str());
                Ok(Reaction::Apply(text))
            },
            Tick::ChannelClosed(why) => Err(Error::Chn(why)),
            Tick::PollFailed(why) => Err(Error::new_clip(why)),
            Tick::Polled(text) => {
                let news: bool = self.last.differs(text.as_str());
                let inert: bool = is_special(text.as_str());
                self.last.update(text.as_str());
                let ghost whole = outgoing(text@);
                if news && !inert {
                    let mut buff: Vec<u8> = vec![0u8; BUF_LEN];
                    match encode(buff.as_mut_slice(), text) {
                        Some(n) => {
                            assert(buff@.take(n as int) == whole);
                            buff.truncate(n);
                            assert(buff@ == whole);
                            Ok(Reaction::Broadcast(buff))
                        },
                        None => Ok(Reaction::Nothing),
                    }
                } else {
                    Ok(Reaction::Nothing)
                }
            },
        }
    }

    /// How the loop goes on after `error`.
    pub fn recover(error: &Error) -> (next: Next)
        ensures
            next == recovery(*error),
    {
        match error {
            Error::Chn(_) => Next::Stop,
            Error::Clp(_) => Next::Reinit,
            Error::Tcp(_) => Next::Continue,
        }
    }

    /// One round of the polling loop: takes the tick and says what to do, what
    /// to log and how to go on.
    pub fn run(&mut self, tick: Tick) -> (round: Round)
        ensures
            final(self).last() == fingerprint_after(old(self).last(), tick),
            match tick {
                Tick::Remote(text) => round.reaction == Reaction::Apply(text),
                Tick::Polled(text) => if broadcasts(old(self).last(), tick) {
                    round.reaction matches Reaction::Broadcast(bytes) && bytes@ == outgoing(text@)
                } else {
                    round.reaction == Reaction::Nothing
                },
                _ => round.reaction == Reaction::Nothing,
            },
            match tick {
                Tick::ChannelClosed(why) => round.next == Next::Stop && round.report is Some
                    && round.report->0@ == Error::Chn(why).message_text(),
                Tick::PollFailed(why) => round.next == Next::Reinit && round.report is Some
                    && round.report->0@ == Error::Clp(why).message_text(),
                _ => round.next == Next::Continue && round.report is None,
            },
    {
        match self.timeout_toggle(tick) {
            Ok(reaction) => Round { reaction, report: None, next: Next::Continue },
            Err(error) => Round {
                reaction: Reaction::Nothing,
                report: Some(error.message()),
                next: Clipboard::recover(&error),
            },
        }
    }
}

/// No duplicate broadcast. Of two polls in a row that find the same text, the
/// second sends nothing, whatever the node knew before the first.
pub proof fn lemma_no_duplicate_broadcast(last: u64, first: String, second: String)
    requires
        first@ == second@,
    ensures
        !broadcasts(fingerprint_after(last, Tick::Polled(first)), Tick::Polled(second)),
        fingerprint_after(fingerprint_after(last, Tick::Polled(first)), Tick::Polled(second))
            == fingerprint_after(last, Tick::Polled(first)),
{
}

/// What a node broadcasts is a whole frame, no longer than `BUF_LEN` bytes,
/// and a peer that takes it in reads the text that was polled, and nothing
/// else.
pub proof fn lemma_sent_is_delivered(last: u64, polled: String)
    requires
        broadcasts(last, Tick::Polled(polled)),
    ensures
        outgoing(polled@).len() <= BUF_LEN,
        drained_payloads(LengthWidth::Long, outgoing(polled@)) == seq![encode_utf8(polled@)],
        drained_rest(LengthWidth::Long, outgoing(polled@)) == Seq::<u8>::empty(),
        decoded_text(encode_utf8(polled@)) == polled@,
{
    let payload = encode_utf8(polled@);
    lemma_round_trip(LengthWidth::Long, polled@, outgoing(polled@));
    lemma_drain_frames(LengthWidth::Long, seq![payload]);
    assert(frames(LengthWidth::Long, seq![payload]) == outgoing(polled@)) by {
        assert(seq![payload].drop_first() == Seq::<Seq<u8>>::empty());
        assert(frames(LengthWidth::Long, Seq::<Seq<u8>>::empty()) == Seq::<u8>::empty());
        assert(outgoing(polled@) + Seq::<u8>::empty() == outgoing(polled@));
    }
}

/// Self-echo suppression. After a peer's text was applied, a poll that finds
/// that text on the clipboard sends nothing.
pub proof fn lemma_no_echo(last: u64, remote: String, polled: String)
    requires
        remote@ == polled@,
    ensures
        !broadcasts(fingerprint_after(last, Tick::Remote(remote)), Tick::Polled(polled)),
{
}

} // verus!
