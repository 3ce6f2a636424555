use vstd::prelude::*;

verus! {

/// What a full channel does with one more item.
#[derive(PartialEq, Eq, Structural, Clone, Copy, Debug)]
pub enum Backpressure {
    /// The producer waits: the item is refused with `WouldBlock`, to be offered again.
    Block,
    /// The item is dropped and counted, so the consumer can learn of the loss.
    DropAndSignal,
}

/// Why an item could not be queued.
#[derive(PartialEq, Eq, Structural, Clone, Copy, Debug)]
pub enum ChannelError {
    /// The channel is full and its policy is to block.
    WouldBlock,
    /// The channel was closed.
    Closed,
}

/// What became of an item that a channel took.
#[derive(PartialEq, Eq, Structural, Clone, Copy, Debug)]
pub enum Delivery {
    Queued,
    Dropped,
}

/// An ordered, capacity-bounded, closable queue between one producer and one
/// consumer.
pub struct BoundedChannel<T> {
    items: Vec<T>,
    capacity: usize,
    policy: Backpressure,
    closed: bool,
    dropped: u64,
    /// Every item ever queued, in order.
    accepted: Ghost<Seq<T>>,
    /// Every item ever taken out, in order.
    taken: Ghost<Seq<T>>,
}

impl<T> BoundedChannel<T> {
    /// The items waiting, oldest first.
    pub closed spec fn pending(&self) -> Seq<T> {
        self.items@
    }

    pub closed spec fn capacity(&self) -> nat {
        self.capacity as nat
    }

    pub closed spec fn policy(&self) -> Backpressure {
        self.policy
    }

    pub closed spec fn is_closed(&self) -> bool {
        self.closed
    }

    /// How many items were dropped because the channel was full (saturating).
    pub closed spec fn dropped(&self) -> nat {
        self.dropped as nat
    }

    /// Every item ever queued, in the order it was queued.
    pub closed spec fn accepted(&self) -> Seq<T> {
        self.accepted@
    }

    /// Every item ever taken out, in the order it was taken.
    pub closed spec fn taken(&self) -> Seq<T> {
        self.taken@
    }

    pub closed spec fn wf(&self) -> bool {
        &&& self.capacity > 0
        &&& self.items@.len() <= self.capacity
        &&& self.taken@ + self.items@ == self.accepted@
    }

    /// An open, empty channel that holds at most `capacity` items.
    pub fn new(capacity: usize, policy: Backpressure) -> (r: Self)
        requires
            capacity > 0,
        ensures
            r.wf(),
            r.capacity() == capacity,
            r.policy() == policy,
            !r.is_closed(),
            r.dropped() == 0,
            r.pending() == Seq::<T>::empty(),
            r.accepted() == Seq::<T>::empty(),
            r.taken() == Seq::<T>::empty(),
    {
        BoundedChannel {
            items: Vec::new(),
            capacity,
            policy,
            closed: false,
            dropped: 0,
            accepted: Ghost(Seq::empty()),
            taken: Ghost(Seq::empty()),
        }
    }

    pub fn len(&self) -> (r: usize)
        ensures
            r == self.pending().len(),
    {
        self.items.len()
    }

    pub fn closed(&self) -> (r: bool)
        ensures
            r == self.is_closed(),
    {
        self.closed
    }

    /// Whether an item offered now would be queued.
    pub fn has_room(&self) -> (r: bool)
        ensures
            r == (!self.is_closed() && self.pending().len() < self.capacity()),
    {
        !self.closed && self.items.len() < self.capacity
    }

    pub fn backpressure(&self) -> (r: Backpressure)
        ensures
            r == self.policy(),
    {
        self.policy
    }

    pub fn dropped_count(&self) -> (r: u64)
        ensures
            r == self.dropped(),
    {
        self.dropped
    }

    /// Offers `item`. An open channel with room queues it behind the items
    /// already there. A full one refuses it with `WouldBlock` under `Block`,
    /// and drops and counts it under `DropAndSignal`. A closed one refuses it.
    pub fn push(&mut self, item: T) -> (r: Result<Delivery, ChannelError>)
        requires
            old(self).wf(),
        ensures
            final(self).wf(),
            final(self).capacity() == old(self).capacity(),
            final(self).policy() == old(self).policy(),
            final(self).is_closed() == old(self).is_closed(),
            final(self).taken() == old(self).taken(),
            old(self).is_closed() ==> r == Err::<Delivery, ChannelError>(ChannelError::Closed),
            !old(self).is_closed() && old(self).pending().len() < old(self).capacity()
                ==> r == Ok::<Delivery, ChannelError>(Delivery::Queued),
            !old(self).is_closed() && old(self).pending().len() == old(self).capacity()
                && old(self).policy() == Backpressure::Block
                ==> r == Err::<Delivery, ChannelError>(ChannelError::WouldBlock),
            !old(self).is_closed() && old(self).pending().len() == old(self).capacity()
                && old(self).policy() == Backpressure::DropAndSignal
                ==> r == Ok::<Delivery, ChannelError>(Delivery::Dropped),
            r == Ok::<Delivery, ChannelError>(Delivery::Queued) ==> final(self).pending() == old(self).pending().push(item)
                && final(self).accepted() == old(self).accepted().push(item)
                && final(self).dropped() == old(self).dropped(),
            r != Ok::<Delivery, ChannelError>(Delivery::Queued) ==> final(self).pending() == old(self).pending()
                && final(self).accepted() == old(self).accepted(),
            r == Ok::<Delivery, ChannelError>(Delivery::Dropped) ==> final(self).dropped() == if old(self).dropped() < u64::MAX {
                old(self).dropped() + 1
            } else {
                old(self).dropped()
            },
            r is Err ==> final(self).dropped() == old(self).dropped(),
    {
        if self.closed {
            return Err(ChannelError::Closed);
        }
        if self.items.len() < self.capacity {
            self.items.push(item);
            proof {
                self.accepted@ = self.accepted@.push(item);
                assert(self.taken@ + self.items@ =~= self.accepted@);
            }
            Ok(Delivery::Queued)
        } else {
            match self.policy {
                Backpressure::Block => Err(ChannelError::WouldBlock),
                Backpressure::DropAndSignal => {
                    if self.dropped < u64::MAX {
                        self.dropped = self.dropped + 1;
                    }
                    Ok(Delivery::Dropped)
                },
            }
        }
    }

    /// Takes the oldest item out, if there is one; a closed channel still
    /// hands out what it holds.
    pub fn pop(&mut self) -> (r: Option<T>)
        requires
            old(self).wf(),
        ensures
            final(self).wf(),
            final(self).capacity() == old(self).capacity(),
            final(self).policy() == old(self).policy(),
            final(self).is_closed() == old(self).is_closed(),
            final(self).dropped() == old(self).dropped(),
            final(self).accepted() == old(self).accepted(),
            old(self).pending().len() == 0 ==> r is None && final(self).pending() == old(self).pending()
                && final(self).taken() == old(self).taken(),
            old(self).pending().len() > 0 ==> r == Some(old(self).pending()[0])
                && final(self).pending() == old(self).pending().drop_first()
                && final(self).taken() == old(self).taken().push(old(self).pending()[0]),
    {
        if self.items.len() == 0 {
            None
        } else {
            let item = self.items.remove(0);
            proof {
                self.taken@ = self.taken@.push(item);
                assert(self.items@ =~= old(self).items@.drop_first());
                assert(self.taken@ + self.items@ =~= self.accepted@);
            }
            Some(item)
        }
    }

    /// Closes the channel: nothing more is queued, what is queued can still be
    /// taken out.
    pub fn close(&mut self)
        requires
            old(self).wf(),
        ensures
            final(self).wf(),
            final(self).is_closed(),
            final(self).capacity() == old(self).capacity(),
            final(self).policy() == old(self).policy(),
            final(self).dropped() == old(self).dropped(),
            final(self).pending() == old(self).pending(),
            final(self).accepted() == old(self).accepted(),
            final(self).taken() == old(self).taken(),
    {
        self.closed = true;
    }
}

/// Items leave a channel in the order they were queued: what was taken is the
/// front of what was accepted, and what waits is the rest, in order.
pub proof fn lemma_fifo_order<T>(q: BoundedChannel<T>)
    requires
        q.wf(),
    ensures
        q.taken().len() <= q.accepted().len(),
        q.taken() == q.accepted().take(q.taken().len() as int),
        q.pending() == q.accepted().skip(q.taken().len() as int),
{
    assert(q.taken() =~= q.accepted().take(q.taken().len() as int));
    assert(q.pending() =~= q.accepted().skip(q.taken().len() as int));
}

} // verus!
