//! Output relay: the ordered byte queue carrying device-transmitted bytes
//! from the simulation loop to external pollers.
//!
//! The relay is bounded: a byte pushed while the queue already holds
//! `capacity` bytes is dropped and counted, never blocking the producer, and
//! polling never blocks either.

use std::collections::VecDeque;
use vstd::prelude::*;

verus! {

/// Ordered, bounded FIFO of device-transmitted bytes.
pub struct OutputRelay {
    /// Bytes transmitted but not yet polled, oldest first.
    pub queue: VecDeque<u8>,
    /// Bound on the number of queued bytes; pushes beyond it are dropped.
    pub capacity: usize,
    /// How many bytes were dropped because the relay was full.
    pub dropped: u64,
}

impl OutputRelay {
    /// The queue respects the bound.
    pub open spec fn wf(self) -> bool {
        self.queue@.len() <= self.capacity
    }

    /// What one push of `b` leaves queued: appended if there is room,
    /// dropped otherwise.
    pub open spec fn push_result(q: Seq<u8>, cap: nat, b: u8) -> Seq<u8> {
        if q.len() < cap {
            q.push(b)
        } else {
            q
        }
    }

    /// What pushing all of `s`, in order, leaves queued.
    pub open spec fn push_all_result(q: Seq<u8>, cap: nat, s: Seq<u8>) -> Seq<u8>
        decreases s.len(),
    {
        if s.len() == 0 {
            q
        } else {
            Self::push_all_result(Self::push_result(q, cap, s[0]), cap, s.skip(1))
        }
    }

    /// An empty relay with the given bound.
    pub fn new(capacity: usize) -> (r: OutputRelay)
        ensures
            r.wf(),
            r.queue@ =~= Seq::<u8>::empty(),
            r.capacity == capacity,
            r.dropped == 0,
    {
        OutputRelay { queue: VecDeque::new(), capacity, dropped: 0 }
    }

    /// Enqueue a transmitted byte; reports whether it was accepted.
    ///
    /// A byte pushed while the relay is full is dropped and counted in
    /// `dropped` (saturating); the producer is never blocked.
    pub fn push_byte(&mut self, b: u8) -> (accepted: bool)
        requires
            old(self).wf(),
        ensures
            final(self).wf(),
            final(self).capacity == old(self).capacity,
            accepted == (old(self).queue@.len() < old(self).capacity),
            final(self).queue@ == Self::push_result(
                old(self).queue@,
                old(self).capacity as nat,
                b,
            ),
            accepted ==> final(self).dropped == old(self).dropped,
            !accepted ==> final(self).dropped == (if old(self).dropped == u64::MAX {
                u64::MAX
            } else {
                (old(self).dropped + 1) as u64
            }),
    {
        if self.queue.len() < self.capacity {
            self.queue.push_back(b);
            true
        } else {
            self.dropped = if self.dropped == u64::MAX {
                u64::MAX
            } else {
                self.dropped + 1
            };
            false
        }
    }

    /// Non-blocking poll: the oldest queued byte, or `None` on an empty
    /// relay, which is left unchanged.
    pub fn poll_output(&mut self) -> (r: Option<u8>)
        requires
            old(self).wf(),
        ensures
            final(self).wf(),
            final(self).capacity == old(self).capacity,
            final(self).dropped == old(self).dropped,
            old(self).queue@.len() == 0 ==> r == None::<u8> && final(self).queue@ == old(self).queue@,
            old(self).queue@.len() > 0 ==> r == Some(old(self).queue@[0]) && final(self).queue@
                == old(self).queue@.skip(1),
    {
        let r = self.queue.pop_front();
        proof {
            if old(self).queue@.len() > 0 {
                assert(self.queue@ =~= old(self).queue@.skip(1));
            }
        }
        r
    }

    /// How many transmitted bytes are queued and not yet polled.
    pub fn queued(&self) -> (n: usize)
        ensures
            n == self.queue@.len(),
    {
        self.queue.len()
    }
}

/// Output fidelity: bytes transmitted while the relay has room are delivered
/// in transmission order, each exactly once: pushing the bytes `s` onto a
/// relay queue `q` with room for them leaves exactly `q + s` queued, and
/// polling returns queued bytes strictly front to back.
pub proof fn lemma_output_fidelity(q: Seq<u8>, cap: nat, s: Seq<u8>)
    requires
        q.len() + s.len() <= cap,
    ensures
        OutputRelay::push_all_result(q, cap, s) == q + s,
    decreases s.len(),
{
    if s.len() == 0 {
        assert(OutputRelay::push_all_result(q, cap, s) =~= q + s);
    } else {
        lemma_output_fidelity(q.push(s[0]), cap, s.skip(1));
        assert(q.push(s[0]) + s.skip(1) =~= q + s);
    }
}

} // verus!
