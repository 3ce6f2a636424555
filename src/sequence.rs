use vstd::prelude::*;

verus! {

/// The id source of subscription requests on one connection: it starts at
/// zero, only ever grows by one, and is never reset.
pub struct SequenceCounter {
    next: u64,
}

impl SequenceCounter {
    /// The id that the next request will carry.
    pub closed spec fn view(&self) -> nat {
        self.next as nat
    }

    pub fn new() -> (r: SequenceCounter)
        ensures
            r@ == 0,
    {
        SequenceCounter { next: 0 }
    }

    pub fn current(&self) -> (r: u64)
        ensures
            r as nat == self@,
    {
        self.next
    }

    /// Whether another id can still be handed out after the current one.
    pub fn can_advance(&self) -> (r: bool)
        ensures
            r == (self@ < u64::MAX),
    {
        self.next < u64::MAX
    }

    /// Moves on to the next id, once the current one has been used.
    pub fn advance(&mut self)
        requires
            old(self)@ < u64::MAX,
        ensures
            final(self)@ == old(self)@ + 1,
    {
        self.next = self.next + 1;
    }
}

} // verus!
