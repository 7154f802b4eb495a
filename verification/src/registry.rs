//! The peer registry: which peers are connected, and the handle to write to
//! each.

use vstd::prelude::*;

verus! {

/// The address of a peer: the host as the 128 bits of its IPv6 form, and the
/// port.
#[derive(Clone, Copy, Debug, PartialEq, Eq, Hash, Structural)]
pub struct PeerAddr {
    /// The host.
    pub ip: u128,
    /// The port.
    pub port: u16,
}

/// The peers that are connected, each with the handle that writes to it. No
/// address is registered twice. The peers are kept in the order in which they
/// were registered; a fan-out goes through them in that order.
pub struct PeerMap<H> {
    addrs: Vec<PeerAddr>,
    handles: Vec<H>,
}

/// In a sequence without duplicates, an element is found where it stands.
proof fn lemma_index_of(addrs: Seq<PeerAddr>, i: int)
    requires
        addrs.no_duplicates(),
        0 <= i < addrs.len(),
    ensures
        addrs.index_of(addrs[i]) == i,
        addrs.contains(addrs[i]),
{
    let found = addrs.index_of(addrs[i]);
    assert(0 <= found < addrs.len() && addrs[found] == addrs[i]);
}

impl<H> View for PeerMap<H> {
    type V = Map<PeerAddr, H>;

    /// The registry as a mapping from address to handle.
    closed spec fn view(&self) -> Map<PeerAddr, H> {
        Map::new(
            |addr: PeerAddr| self.addrs@.contains(addr),
            |addr: PeerAddr| self.handles@[self.addrs@.index_of(addr)],
        )
    }
}

impl<H> PeerMap<H> {
    /// Every address has its handle, and no address stands twice.
    pub closed spec fn wf(&self) -> bool {
        &&& self.addrs@.len() == self.handles@.len()
        &&& self.addrs@.no_duplicates()
    }

    /// The registered addresses in the order of their registration.
    pub closed spec fn order(&self) -> Seq<PeerAddr> {
        self.addrs@
    }

    /// The order lists each registered address once, and no other.
    pub proof fn lemma_order(&self)
        requires
            self.wf(),
        ensures
            self.order().no_duplicates(),
            self.order().len() == self@.dom().len(),
            self@.dom().finite(),
            forall|addr: PeerAddr| self.order().contains(addr) <==> self@.contains_key(addr),
    {
        self.addrs@.unique_seq_to_set();
        assert(self@.dom() == self.addrs@.to_set());
    }

    /// A registry without peers.
    pub fn new() -> (map: Self)
        ensures
            map.wf(),
            map@ == Map::<PeerAddr, H>::empty(),
            map.order() == Seq::<PeerAddr>::empty(),
    {
        let map = PeerMap { addrs: Vec::new(), handles: Vec::new() };
        assert(map@ == Map::<PeerAddr, H>::empty());
        map
    }

    /// How many peers are registered.
    pub fn len(&self) -> (n: usize)
        requires
            self.wf(),
        ensures
            n == self@.dom().len(),
            n == self.order().len(),
    {
        proof {
            self.lemma_order();
        }
        self.addrs.len()
    }

    /// Where `addr` stands in the order.
    fn find(&self, addr: PeerAddr) -> (at: Option<usize>)
        requires
            self.wf(),
        ensures
            at is Some <==> self@.contains_key(addr),
            at is Some ==> at->0 < self.addrs@.len() && self.addrs@[at->0 as int] == addr
                && self@[addr] == self.handles@[at->0 as int],
    {
        let mut i: usize = 0;
        while i < self.addrs.len()
            invariant
                i <= self.addrs@.len(),
                self.wf(),
                forall|j: int| 0 <= j < i ==> self.addrs@[j] != addr,
            decreases self.addrs@.len() - i,
        {
            if self.addrs[i] == addr {
                proof {
                    lemma_index_of(self.addrs@, i as int);
                }
                return Some(i);
            }
            i += 1;
        }
        None
    }

    /// Whether `addr` is registered.
    pub fn contains(&self, addr: PeerAddr) -> (yes: bool)
        requires
            self.wf(),
        ensures
            yes == self@.contains_key(addr),
    {
        self.find(addr).is_some()
    }

    /// The handle that writes to `addr`.
    pub fn get(&self, addr: PeerAddr) -> (handle: Option<&H>)
        requires
            self.wf(),
        ensures
            handle is Some <==> self@.contains_key(addr),
            handle is Some ==> *handle->0 == self@[addr],
    {
        match self.find(addr) {
            Some(i) => Some(&self.handles[i]),
            None => None,
        }
    }

    /// The registered addresses, in the order in which a fan-out visits them.
    pub fn peers(&self) -> (list: Vec<PeerAddr>)
        requires
            self.wf(),
        ensures
            list@ == self.order(),
    {
        let mut list: Vec<PeerAddr> = Vec::new();
        let mut i: usize = 0;
        while i < self.addrs.len()
            invariant
                i <= self.addrs@.len(),
                list@ == self.addrs@.take(i as int),
            decreases self.addrs@.len() - i,
        {
            list.push(self.addrs[i]);
            i += 1;
        }
        list
    }

    /// Registers `handle` for `addr`. A handle that was registered for `addr`
    /// before gives way and comes back; the address keeps its place in the
    /// order. A new address goes to the end of the order.
    pub fn insert(&mut self, addr: PeerAddr, handle: H) -> (before: Option<H>)
        requires
            old(self).wf(),
        ensures
            final(self).wf(),
            final(self)@ == old(self)@.insert(addr, handle),
            before is Some <==> old(self)@.contains_key(addr),
            before is Some ==> before->0 == old(self)@[addr],
            final(self).order() == if old(self)@.contains_key(addr) {
                old(self).order()
            } else {
                old(self).order().push(addr)
            },
    {
        match self.find(addr) {
            Some(i) => {
                self.handles.push(handle);
                let before = self.handles.swap_remove(i);
                proof {
                    assert forall|a: PeerAddr| self@.contains_key(a) implies #[trigger] self@[a]
                        == old(self)@.insert(addr, handle)[a] by {
                        let j = self.addrs@.index_of(a);
                        lemma_index_of(self.addrs@, i as int);
                    }
                    assert(self@ =~= old(self)@.insert(addr, handle));
                }
                Some(before)
            },
            None => {
                self.addrs.push(addr);
                self.handles.push(handle);
                proof {
                    let n = old(self).addrs@.len() as int;
                    assert(self.addrs@[n] == addr);
                    assert forall|i: int, j: int|
                        0 <= i < self.addrs@.len() && 0 <= j < self.addrs@.len() && i
                            != j implies self.addrs@[i] != self.addrs@[j] by {
                        if i < n {
                            assert(old(self).addrs@[i] == self.addrs@[i]);
                        }
                        if j < n {
                            assert(old(self).addrs@[j] == self.addrs@[j]);
                        }
                    }
                    lemma_index_of(self.addrs@, n);
                    assert forall|a: PeerAddr| #[trigger]
                        self@.contains_key(a) == old(self)@.insert(addr, handle).contains_key(
                            a,
                        ) by {
                        if old(self).addrs@.contains(a) {
                            let k = old(self).addrs@.index_of(a);
                            assert(self.addrs@[k] == a);
                        }
                        if self.addrs@.contains(a) && a != addr {
                            let k = self.addrs@.index_of(a);
                            assert(old(self).addrs@[k] == a);
                        }
                    }
                    assert forall|a: PeerAddr| self@.contains_key(a) implies #[trigger] self@[a]
                        == old(self)@.insert(addr, handle)[a] by {
                        if a != addr {
                            let k = old(self).addrs@.index_of(a);
                            assert(self.addrs@[k] == a);
                            lemma_index_of(self.addrs@, k);
                        }
                    }
                    assert(self@ =~= old(self)@.insert(addr, handle));
                }
                None
            },
        }
    }

    /// Takes `addr` out of the registry and returns its handle. The other
    /// peers keep their order.
    pub fn remove(&mut self, addr: PeerAddr) -> (handle: Option<H>)
        requires
            old(self).wf(),
        ensures
            final(self).wf(),
            final(self)@ == old(self)@.remove(addr),
            handle is Some <==> old(self)@.contains_key(addr),
            handle is Some ==> handle->0 == old(self)@[addr],
            final(self).order() == if old(self)@.contains_key(addr) {
                old(self).order().remove(old(self).order().index_of(addr))
            } else {
                old(self).order()
            },
    {
        match self.find(addr) {
            Some(i) => {
                self.addrs.remove(i);
                let handle = self.handles.remove(i);
                proof {
                    let was = old(self).addrs@;
                    let now = self.addrs@;
                    assert forall|j: int| 0 <= j < now.len() implies now[j] == was[if j < i {
                        j
                    } else {
                        j + 1
                    }] by {}
                    assert(now.no_duplicates());
                    assert forall|a: PeerAddr| #[trigger]
                        self@.contains_key(a) == old(self)@.remove(addr).contains_key(a) by {
                        if was.contains(a) && a != addr {
                            let k = was.index_of(a);
                            assert(now[if k < i {
                                k
                            } else {
                                k - 1
                            }] == a);
                        }
                        if now.contains(a) {
                            let k = now.index_of(a);
                            assert(was[if k < i {
                                k
                            } else {
                                k + 1
                            }] == a);
                        }
                    }
                    assert forall|a: PeerAddr| self@.contains_key(a) implies #[trigger] self@[a]
                        == old(self)@.remove(addr)[a] by {
                        let k = now.index_of(a);
                        lemma_index_of(was, if k < i {
                            k
                        } else {
                            k + 1
                        });
                    }
                    assert(self@ =~= old(self)@.remove(addr));
                    lemma_index_of(was, i as int);
                }
                Some(handle)
            },
            None => {
                proof {
                    assert(self@ =~= old(self)@.remove(addr));
                }
                None
            },
        }
    }
}

} // verus!
