//! Identifiers for accepted connections.

use vstd::prelude::*;

verus! {

/// Hands out peer identifiers: 0 first, then each one greater than the last,
/// never one twice.
pub struct PeerCounter {
    next: u32,
    exhausted: bool,
}

impl PeerCounter {
    /// The identifiers handed out so far are exactly those below this bound.
    pub closed spec fn issued(&self) -> nat {
        if self.exhausted {
            u32::MAX as nat + 1
        } else {
            self.next as nat
        }
    }

    pub fn new() -> (r: PeerCounter)
        ensures
            r.issued() == 0,
    {
        PeerCounter { next: 0, exhausted: false }
    }

    /// The next identifier, or `None` once every `u32` was handed out.
    pub fn next_id(&mut self) -> (r: Option<u32>)
        ensures
            old(self).issued() <= u32::MAX ==> r == Some(old(self).issued() as u32)
                && final(self).issued() == old(self).issued() + 1,
            old(self).issued() > u32::MAX ==> r is None && final(self).issued() == old(self).issued(),
    {
        if self.exhausted {
            None
        } else if self.next == u32::MAX {
            self.exhausted = true;
            Some(u32::MAX)
        } else {
            let id = self.next;
            self.next = self.next + 1;
            Some(id)
        }
    }
}

} // verus!
