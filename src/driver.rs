use vstd::prelude::*;
use crate::channel::{Backpressure, BoundedChannel, ChannelError};
use crate::run_loop::{ControlMessage, LoopInput};

verus! {

/// The event side of the run loop: the event channel, and the events held
/// back while a blocking channel is full.
pub struct Outbox<T> {
    events: BoundedChannel<T>,
    held: Vec<T>,
    /// Every event ever offered, in order.
    offered: Ghost<Seq<T>>,
}

impl<T> Outbox<T> {
    /// The event channel that the reader takes from.
    pub closed spec fn channel(&self) -> BoundedChannel<T> {
        self.events
    }

    pub closed spec fn held(&self) -> Seq<T> {
        self.held@
    }

    pub closed spec fn offered(&self) -> Seq<T> {
        self.offered@
    }

    /// Under `Block`, while the reader is there, no event is lost or
    /// reordered: what the channel accepted, then what is held, is every
    /// event offered, in order.
    pub closed spec fn wf(&self) -> bool {
        &&& self.events.wf()
        &&& (self.events.policy() == Backpressure::Block && !self.events.is_closed()) ==> self.events.accepted()
            + self.held@ == self.offered@
        &&& (self.events.policy() == Backpressure::DropAndSignal || self.events.is_closed()) ==> self.held@.len() == 0
    }

    pub fn new(capacity: usize, policy: Backpressure) -> (r: Self)
        requires
            capacity > 0,
        ensures
            r.wf(),
            r.channel().policy() == policy,
            r.channel().capacity() == capacity,
            !r.channel().is_closed(),
            r.held() == Seq::<T>::empty(),
            r.offered() == Seq::<T>::empty(),
    {
        Outbox { events: BoundedChannel::new(capacity, policy), held: Vec::new(), offered: Ghost(Seq::empty()) }
    }

    fn must_wait(&self) -> (r: bool)
        ensures
            r == (!self.events.is_closed() && self.events.pending().len() >= self.events.capacity()
                && self.events.policy() == Backpressure::Block),
    {
        !self.events.closed() && !self.events.has_room() && self.events.backpressure() == Backpressure::Block
    }

    /// Offers `e` to the reader. Under `Block` it is queued behind any held
    /// events, or held while the channel is full; under `DropAndSignal` a full
    /// channel drops and counts it; a closed channel discards it.
    pub fn deliver(&mut self, e: T)
        requires
            old(self).wf(),
        ensures
            final(self).wf(),
            final(self).offered() == old(self).offered().push(e),
            final(self).channel().policy() == old(self).channel().policy(),
            final(self).channel().is_closed() == old(self).channel().is_closed(),
            final(self).channel().taken() == old(self).channel().taken(),
    {
        proof {
            self.offered@ = self.offered@.push(e);
        }
        if self.held.len() > 0 || self.must_wait() {
            self.held.push(e);
            assert(old(self).channel().accepted() + self.held@ =~= (old(self).channel().accepted() + old(self).held@).push(e));
        } else {
            let _ = self.events.push(e);
        }
    }

    /// Offers the held events again, oldest first, as long as there is room.
    pub fn retry(&mut self)
        requires
            old(self).wf(),
        ensures
            final(self).wf(),
            final(self).offered() == old(self).offered(),
            final(self).channel().policy() == old(self).channel().policy(),
            final(self).channel().is_closed() == old(self).channel().is_closed(),
            final(self).channel().taken() == old(self).channel().taken(),
    {
        while self.held.len() > 0 && !self.must_wait()
            invariant
                self.wf(),
                self.offered@ == old(self).offered@,
                self.events.policy() == old(self).channel().policy(),
                self.events.is_closed() == old(self).channel().is_closed(),
                self.events.taken() == old(self).channel().taken(),
            decreases self.held@.len(),
        {
            let ghost acc = self.events.accepted();
            let ghost h = self.held@;
            let e = self.held.remove(0);
            let r = self.events.push(e);
            assert(self.held@ =~= h.drop_first());
            if self.events.closed() {
                self.held.clear();
            } else {
                assert(r is Ok);
                assert(acc.push(e) + h.drop_first() =~= acc + h);
            }
        }
    }

    /// The next event for the reader, oldest first.
    pub fn take(&mut self) -> (r: Option<T>)
        requires
            old(self).wf(),
        ensures
            final(self).wf(),
            final(self).offered() == old(self).offered(),
            final(self).held() == old(self).held(),
            final(self).channel().accepted() == old(self).channel().accepted(),
            old(self).channel().pending().len() > 0 ==> r == Some(old(self).channel().pending()[0])
                && final(self).channel().pending() == old(self).channel().pending().drop_first(),
            old(self).channel().pending().len() == 0 ==> r is None,
    {
        self.events.pop()
    }

    /// Whether the reader has gone away.
    pub fn reader_closed(&self) -> (r: bool)
        ensures
            r == self.channel().is_closed(),
    {
        self.events.closed()
    }

    /// The reader went away: the channel closes and held events are discarded.
    pub fn close_reader(&mut self)
        requires
            old(self).wf(),
        ensures
            final(self).wf(),
            final(self).channel().is_closed(),
            final(self).held() == Seq::<T>::empty(),
    {
        self.events.close();
        self.held.clear();
    }
}

/// Under the blocking policy, while the reader is there, every event offered
/// is, in order, either already taken by the reader, waiting in the channel,
/// or held back: none is lost and none overtakes another.
pub proof fn lemma_block_keeps_every_event<T>(o: Outbox<T>)
    requires
        o.wf(),
        o.channel().policy() == Backpressure::Block,
        !o.channel().is_closed(),
    ensures
        o.channel().taken() + o.channel().pending() + o.held() == o.offered(),
{
    crate::channel::lemma_fifo_order(o.channel());
    assert(o.channel().taken() + o.channel().pending() == o.channel().accepted()) by {
        assert(o.channel().taken() + o.channel().pending() =~= o.channel().accepted());
    }
    assert(o.channel().taken() + o.channel().pending() + o.held() =~= o.offered());
}

/// The next input from the control channel: its oldest directive; once it is
/// empty and closed, that it was closed; else nothing.
pub fn next_control_input(controls: &mut BoundedChannel<ControlMessage>) -> (r: Option<LoopInput>)
    requires
        old(controls).wf(),
    ensures
        final(controls).wf(),
        final(controls).is_closed() == old(controls).is_closed(),
        old(controls).pending().len() > 0 ==> r == Some(LoopInput::Control(old(controls).pending()[0]))
            && final(controls).pending() == old(controls).pending().drop_first(),
        old(controls).pending().len() == 0 && old(controls).is_closed() ==> r == Some(LoopInput::ControlClosed),
        old(controls).pending().len() == 0 && !old(controls).is_closed() ==> r is None,
{
    match controls.pop() {
        Some(m) => Some(LoopInput::Control(m)),
        None => if controls.closed() {
            Some(LoopInput::ControlClosed)
        } else {
            None
        },
    }
}

} // verus!
