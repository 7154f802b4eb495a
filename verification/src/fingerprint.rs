//! The one fingerprint that a node keeps of the text it last acted on.

use crate::common::{calculate_hash, text_hash};
use vstd::prelude::*;

verus! {

/// The fingerprint of the text that the node already knows: the one it last
/// sent or last took from a peer.
pub struct Fingerprint {
    hash: u64,
}

impl View for Fingerprint {
    type V = u64;

    closed spec fn view(&self) -> u64 {
        self.hash
    }
}

impl Fingerprint {
    /// The store of a node that has seen nothing yet: it knows the empty text.
    pub fn new() -> (store: Self)
        ensures
            store@ == text_hash(Seq::<char>::empty()),
    {
        proof {
            reveal_strlit("");
        }
        Fingerprint { hash: calculate_hash("") }
    }

    /// Marks `text` as known.
    pub fn update(&mut self, text: &str)
        ensures
            final(self)@ == text_hash(text@),
    {
        self.hash = calculate_hash(text);
    }

    /// Whether `text` is news: its fingerprint is not the stored one.
    pub fn differs(&self, text: &str) -> (news: bool)
        ensures
            news == (self@ != text_hash(text@)),
    {
        self.hash != calculate_hash(text)
    }

    /// The stored fingerprint.
    pub fn value(&self) -> (hash: u64)
        ensures
            hash == self@,
    {
        self.hash
    }
}

} // verus!
