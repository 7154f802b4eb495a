//! The accepting side: one connection for every peer that comes in.

use crate::client::{Client, Link};
use crate::registry::PeerAddr;
use vstd::prelude::*;

verus! {

/// The accepting side of a node.
pub struct Server {
    auto: bool,
}

impl Server {
    /// Whether the connections that are accepted open web addresses.
    pub closed spec fn auto(&self) -> bool {
        self.auto
    }

    /// A server whose connections open nothing.
    pub fn new() -> (server: Self)
        ensures
            !server.auto(),
    {
        Server { auto: false }
    }

    /// Has the connections that are accepted from now on open the texts that
    /// look like web addresses.
    pub fn with_auto(&mut self) -> (same: &mut Self)
        ensures
            same.auto(),
            *final(self) == *final(same),
    {
        self.auto = true;
        self
    }

    /// Takes what one accept brought: the peer's address, or `None` where the
    /// accept failed. A peer gets a connection of its own, which is up at
    /// once and is not made again when it ends; a failed accept gets nothing,
    /// and the server goes on listening either way.
    pub fn run(&self, incoming: Option<PeerAddr>) -> (session: Option<Client>)
        ensures
            incoming is None <==> session is None,
            session matches Some(client) ==> {
                &&& client.wf()
                &&& client.addr() == incoming->0
                &&& client.pending() == Seq::<u8>::empty()
                &&& client.auto() == self.auto()
                &&& client.link() == Link::Connected
                &&& !client.redial()
            },
    {
        match incoming {
            Some(addr) => Some(Client::accepted(addr, self.auto)),
            None => None,
        }
    }
}

} // verus!
