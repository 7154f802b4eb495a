//! One connection: its receive side, and the life cycle of the link.

use crate::buffer::ReceiveBuffer;
use crate::common::BUF_LEN;
use crate::error::Error;
use crate::frame::LengthWidth;
use crate::resync::{drained_payloads, drained_rest, lemma_parse_bounds, parse};
use crate::registry::PeerAddr;
use crate::text::{decoded_text, is_web_address, web_address};
use vstd::prelude::*;
use vstd::string::StringExecFns;

verus! {

/// Seconds between losing or failing a connection and the next attempt.
pub const RECON_S: u64 = 2;

/// Where a connection stands.
#[derive(Clone, Copy, Debug, PartialEq, Eq, Structural)]
pub enum Link {
    /// No connection, and none under way.
    Disconnected,
    /// An attempt to connect is under way.
    Connecting,
    /// The connection is up and is being read.
    Connected,
    /// The connection is over for good.
    Stopped,
}

/// What happened to a connection.
#[derive(Debug)]
pub enum Event {
    /// It is time to connect: at the start, or after a backoff.
    Wake,
    /// The attempt to connect failed.
    Refused,
    /// The attempt to connect succeeded.
    Established,
    /// Reading ended: with `None` because the peer closed, else with the failure.
    Ended(Option<Error>),
}

/// What the caller is to do next for a connection.
#[derive(Clone, Copy, Debug, PartialEq, Eq, Structural)]
pub enum Action {
    /// Try to connect, and report `Established` or `Refused`.
    Connect,
    /// Wait that many seconds, then report `Wake`.
    Backoff(u64),
    /// Register the write half, read until reading ends, and report `Ended`.
    Serve,
    /// Deregister, wait that many seconds, then report `Wake`.
    Hangup(u64),
    /// Deregister and leave the loop.
    Quit,
}

/// A text that came in, and whether to open it in a browser.
#[derive(Debug)]
pub struct Delivery {
    /// The text, for the clipboard loop.
    pub text: String,
    /// Whether the text is to be opened as a web address first.
    pub open: bool,
}

/// What a read brought.
#[derive(Debug)]
pub enum Received {
    /// The peer closed the connection.
    Closed,
    /// The texts of the frames that are now complete, oldest first.
    Texts(Vec<Delivery>),
}

/// Whether the end of reading ends the whole loop: the channel to the
/// clipboard loop is broken.
pub open spec fn fatal(end: Option<Error>) -> bool {
    end matches Some(Error::Chn(_))
}

/// The life cycle of a link. `Disconnected` goes to `Connecting` on `Wake`;
/// `Connecting` goes to `Connected` or, after a backoff, back to
/// `Disconnected`; `Connected` ends in `Disconnected` where the connection
/// is to be made again, else in `Stopped`. An event that does not fit the
/// state has no transition.
pub open spec fn transition(link: Link, redial: bool, event: Event) -> Option<(Link, Action)> {
    match (link, event) {
        (Link::Disconnected, Event::Wake) => Some((Link::Connecting, Action::Connect)),
        (Link::Connecting, Event::Refused) => Some(
            (Link::Disconnected, Action::Backoff(RECON_S)),
        ),
        (Link::Connecting, Event::Established) => Some((Link::Connected, Action::Serve)),
        (Link::Connected, Event::Ended(end)) => if redial && !fatal(end) {
            Some((Link::Disconnected, Action::Hangup(RECON_S)))
        } else {
            Some((Link::Stopped, Action::Quit))
        },
        _ => None,
    }
}

/// Every way into `Disconnected` asks for the backoff of `RECON_S` seconds,
/// and the only way out of `Disconnected` is the `Wake` behind that backoff:
/// no attempt to connect follows a lost or failed connection at once.
pub proof fn lemma_backoff_before_connect(link: Link, redial: bool, event: Event)
    ensures
        transition(link, redial, event) matches Some((Link::Disconnected, action)) ==> action
            == Action::Backoff(RECON_S) || action == Action::Hangup(RECON_S),
        link == Link::Disconnected && transition(link, redial, event) is Some ==> event
            == Event::Wake && transition(link, redial, event) == Some(
            (Link::Connecting, Action::Connect),
        ),
{
}

/// A connection that is over stays over, and one that is not made again is
/// over as soon as reading ends.
pub proof fn lemma_stopped_is_final(link: Link, redial: bool, event: Event)
    ensures
        link == Link::Stopped ==> transition(link, redial, event) is None,
        link == Link::Connected && !redial && transition(link, redial, event) is Some
            ==> transition(link, redial, event) == Some((Link::Stopped, Action::Quit)),
{
}

/// Whether `list` delivers `payloads` one for one: each text is what its
/// payload stands for, and is to be opened if `auto` is set and it looks like
/// a web address.
pub open spec fn delivers(list: Seq<Delivery>, payloads: Seq<Seq<u8>>, auto: bool) -> bool {
    &&& list.len() == payloads.len()
    &&& forall|i: int|
        0 <= i < list.len() ==> (#[trigger] list[i]).text@ == decoded_text(payloads[i])
            && list[i].open == (auto && web_address(list[i].text@))
}

/// One connection to a peer.
pub struct Client {
    addr: PeerAddr,
    buff: ReceiveBuffer,
    auto: bool,
    link: Link,
    redial: bool,
}

impl Client {
    /// The receive buffer takes twice `BUF_LEN` bytes and holds no more.
    pub closed spec fn wf(&self) -> bool {
        self.buff.wf() && self.buff.limit() == 2 * BUF_LEN
    }

    /// The peer's address.
    pub closed spec fn spec_addr(&self) -> PeerAddr {
        self.addr
    }

    /// The bytes that came in and were not consumed yet.
    pub closed spec fn pending(&self) -> Seq<u8> {
        self.buff@
    }

    /// Whether texts that look like web addresses are opened.
    pub closed spec fn auto(&self) -> bool {
        self.auto
    }

    /// Where the link stands.
    pub closed spec fn link(&self) -> Link {
        self.link
    }

    /// Whether the connection is made again after it ended.
    pub closed spec fn redial(&self) -> bool {
        self.redial
    }

    /// A connection to the server at `addr` that is not up yet. It is made
    /// again whenever it ends.
    pub fn new(addr: PeerAddr) -> (client: Self)
        ensures
            client.wf(),
            client.addr() == addr,
            client.pending() == Seq::<u8>::empty(),
            !client.auto(),
            client.link() == Link::Disconnected,
            client.redial(),
    {
        Client {
            addr,
            buff: ReceiveBuffer::new(2 * BUF_LEN),
            auto: false,
            link: Link::Disconnected,
            redial: true,
        }
    }

    /// A connection that the server accepted from `addr`. It is up, and is
    /// not made again when it ends.
    pub(crate) fn accepted(addr: PeerAddr, auto: bool) -> (client: Self)
        ensures
            client.wf(),
            client.addr() == addr,
            client.pending() == Seq::<u8>::empty(),
            client.auto() == auto,
            client.link() == Link::Connected,
            !client.redial(),
    {
        Client {
            addr,
            buff: ReceiveBuffer::new(2 * BUF_LEN),
            auto,
            link: Link::Connected,
            redial: false,
        }
    }

    /// Has texts that look like web addresses opened from now on.
    pub fn with_auto(&mut self) -> (same: &mut Self)
        ensures
            same.auto(),
            same.addr() == old(self).addr(),
            same.pending() == old(self).pending(),
            same.link() == old(self).link(),
            same.redial() == old(self).redial(),
            same.wf() == old(self).wf(),
            *final(self) == *final(same),
    {
        self.auto = true;
        self
    }

    /// The peer's address.
    #[verifier::when_used_as_spec(spec_addr)]
    pub fn addr(&self) -> (addr: PeerAddr)
        ensures
            addr == self.spec_addr(),
    {
        self.addr
    }

    /// Where the link stands.
    pub fn state(&self) -> (link: Link)
        ensures
            link == self.link(),
    {
        self.link
    }

    /// How many bytes the next read may bring.
    pub fn spare(&self) -> (n: usize)
        requires
            self.wf(),
        ensures
            n == 2 * BUF_LEN - self.pending().len(),
    {
        self.buff.spare()
    }

    /// Takes an event and says what to do next. `None` where the event does
    /// not fit the state; the state then stays as it is.
    pub fn run(&mut self, event: Event) -> (action: Option<Action>)
        ensures
            final(self).addr() == old(self).addr(),
            final(self).pending() == old(self).pending(),
            final(self).auto() == old(self).auto(),
            final(self).redial() == old(self).redial(),
            final(self).wf() == old(self).wf(),
            match transition(old(self).link(), old(self).redial(), event) {
                Some((link, act)) => final(self).link() == link && action == Some(act),
                None => final(self).link() == old(self).link() && action is None,
            },
    {
        match (self.link, event) {
            (Link::Disconnected, Event::Wake) => {
                self.link = Link::Connecting;
                Some(Action::Connect)
            },
            (Link::Connecting, Event::Refused) => {
                self.link = Link::Disconnected;
                Some(Action::Backoff(RECON_S))
            },
            (Link::Connecting, Event::Established) => {
                self.link = Link::Connected;
                Some(Action::Serve)
            },
            (Link::Connected, Event::Ended(end)) => {
                let fatal: bool = match end {
                    Some(Error::Chn(_)) => true,
                    _ => false,
                };
                if self.redial && !fatal {
                    self.link = Link::Disconnected;
                    Some(Action::Hangup(RECON_S))
                } else {
                    self.link = Link::Stopped;
                    Some(Action::Quit)
                }
            },
            _ => None,
        }
    }

    /// Takes in the bytes that a read brought. No bytes mean that the peer
    /// closed the connection. More bytes than the buffer has room for are an
    /// error, and nothing is taken in. Else the bytes join the pending ones,
    /// and every frame that is now complete is read and delivered.
    pub fn recv_message(&mut self, bytes: &[u8]) -> (out: Result<Received, Error>)
        requires
            old(self).wf(),
        ensures
            final(self).wf(),
            final(self).addr() == old(self).addr(),
            final(self).auto() == old(self).auto(),
            final(self).link() == old(self).link(),
            final(self).redial() == old(self).redial(),
            bytes@.len() == 0 ==> {
                &&& out matches Ok(Received::Closed)
                &&& final(self).pending() == old(self).pending()
            },
            old(self).pending().len() + bytes@.len() > 2 * BUF_LEN ==> {
                &&& out matches Err(Error::Tcp(why)) && why@ == "receive buffer overflow"@
                &&& final(self).pending() == old(self).pending()
            },
            0 < bytes@.len() && old(self).pending().len() + bytes@.len() <= 2 * BUF_LEN ==> {
                let all = old(self).pending() + bytes@;
                &&& out matches Ok(Received::Texts(list)) && delivers(
                    list@,
                    drained_payloads(LengthWidth::Long, all),
                    old(self).auto(),
                )
                &&& final(self).pending() == drained_rest(LengthWidth::Long, all)
            },
    {
        if bytes.len() == 0 {
            return Ok(Received::Closed);
        }
        if !self.buff.append(bytes) {
            return Err(Error::Tcp(String::from_str("receive buffer overflow")));
        }
        let ghost all = self.buff@;
        let ghost payloads = drained_payloads(LengthWidth::Long, all);
        let mut list: Vec<Delivery> = Vec::new();
        loop
            invariant_except_break
                drained_rest(LengthWidth::Long, self.buff@) == drained_rest(LengthWidth::Long, all),
                payloads == payloads.take(list@.len() as int) + drained_payloads(
                    LengthWidth::Long,
                    self.buff@,
                ),
            invariant
                self.wf(),
                self.addr == old(self).addr,
                self.auto == old(self).auto,
                self.link == old(self).link,
                self.redial == old(self).redial,
                payloads == drained_payloads(LengthWidth::Long, all),
                list@.len() <= payloads.len(),
                forall|i: int|
                    0 <= i < list@.len() ==> (#[trigger] list@[i]).text@ == decoded_text(
                        payloads[i],
                    ) && list@[i].open == (self.auto && web_address(list@[i].text@)),
            ensures
                self.buff@ == drained_rest(LengthWidth::Long, all),
                list@.len() == payloads.len(),
            decreases self.buff@.len(),
        {
            let ghost before = self.buff@;
            proof {
                lemma_parse_bounds(LengthWidth::Long, before);
            }
            match self.buff.next_text(LengthWidth::Long) {
                Some(text) => {
                    let open: bool = self.auto && is_web_address(text.as_str());
                    list.push(Delivery { text, open });
                    proof {
                        let pass = parse(LengthWidth::Long, before);
                        let done = list@.len() as int;
                        assert(payloads[done - 1] == pass.payload->0);
                        assert(payloads.take(done) == payloads.take(done - 1).push(
                            pass.payload->0,
                        ));
                    }
                },
                None => {
                    assert(payloads.take(list@.len() as int) + Seq::<Seq<u8>>::empty()
                        == payloads.take(list@.len() as int));
                    break ;
                },
            }
        }
        Ok(Received::Texts(list))
    }
}

} // verus!
