//! Producer/consumer handoff of decoded frames: an unbounded FIFO
//! queue from which the consumer drains at most one frame per poll,
//! never blocking.
//!
//! If the consumer polls more slowly than the producer pushes, frames
//! accumulate without bound and the consumer falls ever further behind
//! the live decode position; there is no dropping or coalescing
//! policy. That is the component's documented behavior, preserved
//! here.

use vstd::prelude::*;
use crate::frame::Frame;

verus! {

/// The consumer side is gone; the producer should stop.
#[derive(Clone, Copy, PartialEq, Eq, Structural, Debug)]
pub struct ChannelClosed;

/// Single-producer/single-consumer frame handoff with unbounded
/// capacity and FIFO order.
pub struct FrameChannel {
    /// Queued frames, oldest first.
    pub queue: Vec<Frame>,
    /// Whether the consumer side has gone away.
    pub closed: bool,
}

impl FrameChannel {
    /// An empty, open channel.
    pub fn new() -> (channel: FrameChannel)
        ensures
            channel.queue@.len() == 0,
            !channel.closed,
    {
        FrameChannel { queue: Vec::new(), closed: false }
    }

    /// How many frames are queued.
    pub fn len(&self) -> (n: usize)
        ensures
            n == self.queue@.len(),
    {
        self.queue.len()
    }

    /// Whether the consumer side has gone away.
    pub fn is_closed(&self) -> (c: bool)
        ensures
            c == self.closed,
    {
        self.closed
    }

    /// Hands a frame to the channel. On a closed channel the frame is
    /// dropped and the producer is told to stop.
    pub fn push(&mut self, frame: Frame) -> (result: Result<(), ChannelClosed>)
        ensures
            final(self).closed == old(self).closed,
            match result {
                Ok(()) => {
                    &&& !old(self).closed
                    &&& final(self).queue@ == old(self).queue@.push(frame)
                },
                Err(ChannelClosed) => {
                    &&& old(self).closed
                    &&& final(self).queue@ == old(self).queue@
                },
            },
    {
        if self.closed {
            return Err(ChannelClosed);
        }
        self.queue.push(frame);
        Ok(())
    }

    /// Drains at most one frame: the oldest queued frame, or `None`
    /// if the queue is empty. Never blocks.
    pub fn poll(&mut self) -> (result: Option<Frame>)
        ensures
            final(self).closed == old(self).closed,
            match result {
                Some(frame) => {
                    &&& old(self).queue@.len() > 0
                    &&& frame == old(self).queue@[0]
                    &&& final(self).queue@ == old(self).queue@.subrange(
                        1,
                        old(self).queue@.len() as int,
                    )
                },
                None => {
                    &&& old(self).queue@.len() == 0
                    &&& final(self).queue@ == old(self).queue@
                },
            },
    {
        if self.queue.len() == 0 {
            return None;
        }
        let frame = self.queue.remove(0);
        proof {
            assert(self.queue@ =~= old(self).queue@.subrange(1, old(self).queue@.len() as int));
        }
        Some(frame)
    }

    /// Marks the consumer side as gone. Queued frames stay until
    /// dropped with the channel.
    pub fn close(&mut self)
        ensures
            final(self).closed,
            final(self).queue@ == old(self).queue@,
    {
        self.closed = true;
    }
}

} // verus!
