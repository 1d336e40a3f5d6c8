//! The bounded history of frames that tail calls took over.
use crate::value::CalIdx;
use vstd::prelude::*;

verus! {

/// How many taken-over frames are remembered.
pub const RING_CAPACITY: usize = 64;

/// A frame that a tail call took over.
#[derive(Clone, Copy, PartialEq, Eq, Debug, Structural)]
pub struct ElidedFrame {
    /// The callable it had been running.
    pub callable: CalIdx,
    /// The serial it had, and keeps.
    pub consuming_serial: u64,
}

/// The taken-over frames, most recent last.
pub struct RingBuffer {
    pub(crate) entries: Vec<ElidedFrame>,
}

impl View for RingBuffer {
    type V = Seq<ElidedFrame>;

    closed spec fn view(&self) -> Seq<ElidedFrame> {
        self.entries@
    }
}

/// The history with one more frame; the oldest is forgotten when it is full.
pub open spec fn recorded(ring: Seq<ElidedFrame>, frame: ElidedFrame) -> Seq<ElidedFrame> {
    if ring.len() >= RING_CAPACITY {
        ring.skip(1).push(frame)
    } else {
        ring.push(frame)
    }
}

/// The callables of the history, most recent first.
pub open spec fn recent_callables(ring: Seq<ElidedFrame>) -> Seq<CalIdx> {
    Seq::new(ring.len(), |i: int| ring[ring.len() - 1 - i].callable)
}

impl RingBuffer {
    /// An empty history.
    pub fn new() -> (r: RingBuffer)
        ensures
            r@ == Seq::<ElidedFrame>::empty(),
    {
        RingBuffer { entries: Vec::new() }
    }

    /// Remembers a frame.
    pub fn record(&mut self, frame: ElidedFrame)
        ensures
            final(self)@ == recorded(old(self)@, frame),
    {
        if self.entries.len() >= RING_CAPACITY {
            let oldest = self.entries.remove(0);
            assert(self.entries@ =~= old(self)@.skip(1));
        }
        self.entries.push(frame);
    }

    /// The number of remembered frames.
    pub fn len(&self) -> (r: usize)
        ensures
            r == self@.len(),
    {
        self.entries.len()
    }

    /// A remembered frame, most recent first.
    pub fn recent(&self, i: usize) -> (r: Option<ElidedFrame>)
        ensures
            r == (if i < self@.len() {
                Some(self@[self@.len() - 1 - i])
            } else {
                None
            }),
    {
        if i < self.entries.len() {
            Some(self.entries[self.entries.len() - 1 - i])
        } else {
            None
        }
    }

    /// The callables of the history, most recent first.
    pub fn most_recent_first(&self) -> (r: Vec<CalIdx>)
        ensures
            r@ == recent_callables(self@),
    {
        let mut r: Vec<CalIdx> = Vec::new();
        let mut i: usize = 0;
        while i < self.entries.len()
            invariant
                i <= self.entries@.len(),
                r@ =~= recent_callables(self@).take(i as int),
            decreases self.entries@.len() - i,
        {
            r.push(self.entries[self.entries.len() - 1 - i].callable);
            i = i + 1;
        }
        assert(r@ =~= recent_callables(self@));
        r
    }
}

/// The history stays within its capacity, and its most recent entry is the last recorded.
pub proof fn law_history_is_bounded(ring: Seq<ElidedFrame>, frame: ElidedFrame)
    requires
        ring.len() <= RING_CAPACITY,
    ensures
        recorded(ring, frame).len() <= RING_CAPACITY,
        recent_callables(recorded(ring, frame))[0] == frame.callable,
{
}

} // verus!
