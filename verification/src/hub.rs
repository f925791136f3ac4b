//! Bounded one-producer / many-consumer broadcast hub.
//!
//! The producer never blocks: it publishes into a buffer of at most
//! `HUB_CAPACITY` messages, dropping the oldest buffered messages when the
//! buffer is full. Each receiver owns a cursor into the published stream;
//! a receiver that fell behind the buffer is told how many messages it
//! missed and continues from the oldest retained one. Receivers observe
//! messages in publish order.

use crate::scrollback::copy_range;
use vstd::prelude::*;

verus! {

/// Number of messages the hub retains for slow receivers.
pub const HUB_CAPACITY: usize = 1024;

/// The fan-out point for one session's output stream.
pub struct Hub {
    /// The most recent messages, oldest first.
    pub buffer: Vec<Vec<u8>>,
    /// Position of `buffer[0]` in the full published history.
    pub base: usize,
    /// Set when the producer is gone; terminal.
    pub closed: bool,
    /// Everything ever published, in order.
    pub history: Ghost<Seq<Seq<u8>>>,
}

/// One consumer's view of a hub.
pub struct HubReceiver {
    /// Position in the published history of the next message to receive.
    pub cursor: usize,
    /// Position at which this receiver subscribed.
    pub start: usize,
    /// Total number of messages this receiver has missed.
    pub lagged: u64,
    /// The messages this receiver has been handed, in order.
    pub delivered: Ghost<Seq<Seq<u8>>>,
    /// For each delivered message, its position in the published history.
    pub indices: Ghost<Seq<int>>,
}

/// One receive step's outcome.
pub enum Received {
    /// The next message.
    Data(Vec<u8>),
    /// The receiver missed this many messages; it may continue.
    Lagged(u64),
    /// The producer is gone and everything published was received.
    Closed,
    /// Nothing new yet; the producer is still alive.
    Pending,
}

impl Hub {
    /// The buffer holds exactly the most recent slice of the history.
    pub open spec fn wf(self) -> bool {
        &&& self.history@.len() <= usize::MAX
        &&& self.base + self.buffer@.len() == self.history@.len()
        &&& self.buffer@.len() <= HUB_CAPACITY
        &&& forall|i: int|
            0 <= i < self.buffer@.len() ==> (#[trigger] self.buffer@[i])@ == self.history@[
                self.base + i]
    }

    /// Fresh hub with an empty history.
    pub fn new() -> (h: Hub)
        ensures
            h.wf(),
            !h.closed,
            h.history@ == Seq::<Seq<u8>>::empty(),
    {
        Hub { buffer: Vec::new(), base: 0, closed: false, history: Ghost(Seq::empty()) }
    }

    /// Publish one message. Never blocks: when the buffer is full the oldest
    /// buffered message is dropped, to be reported as lag to any receiver
    /// that still needed it.
    pub fn publish(&mut self, msg: Vec<u8>)
        requires
            old(self).wf(),
            !old(self).closed,
            old(self).history@.len() < usize::MAX,
        ensures
            final(self).wf(),
            !final(self).closed,
            final(self).history@ == old(self).history@.push(msg@),
    {
        proof {
            self.history@ = self.history@.push(msg@);
        }
        if self.buffer.len() >= HUB_CAPACITY {
            let _dropped = self.buffer.remove(0);
            self.base = self.base + 1;
        }
        self.buffer.push(msg);
    }

    /// The producer is gone; no further messages will be published.
    pub fn close(&mut self)
        requires
            old(self).wf(),
        ensures
            final(self).wf(),
            final(self).closed,
            final(self).history@ == old(self).history@,
            final(self).base == old(self).base,
            final(self).buffer@ == old(self).buffer@,
    {
        self.closed = true;
    }

    /// A fresh receiver positioned at the current tail: no replay.
    pub fn subscribe(&self) -> (r: HubReceiver)
        requires
            self.wf(),
        ensures
            r.valid_for(*self),
            r.start == self.history@.len(),
            r.cursor == r.start,
            r.lagged == 0,
            r.delivered@ == Seq::<Seq<u8>>::empty(),
    {
        let pos = self.base + self.buffer.len();
        proof {
            assert(Seq::<Seq<u8>>::empty() =~= self.history@.subrange(pos as int, pos as int));
        }
        HubReceiver {
            cursor: pos,
            start: pos,
            lagged: 0,
            delivered: Ghost(Seq::empty()),
            indices: Ghost(Seq::empty()),
        }
    }

    /// One receive step: the next message if it is still buffered, the lag
    /// count if the receiver fell behind the buffer, `Closed` when the
    /// producer is gone and everything was seen, and `Pending` while the
    /// producer lives but nothing new was published.
    pub fn recv(&self, rec: &mut HubReceiver) -> (r: Received)
        requires
            self.wf(),
            old(rec).valid_for(*self),
        ensures
            final(rec).valid_for(*self),
            final(rec).start == old(rec).start,
            match r {
                Received::Data(m) => {
                    &&& self.base <= old(rec).cursor < self.history@.len()
                    &&& m@ == self.history@[old(rec).cursor as int]
                    &&& final(rec).cursor == old(rec).cursor + 1
                    &&& final(rec).delivered@ == old(rec).delivered@.push(m@)
                    &&& final(rec).lagged == old(rec).lagged
                },
                Received::Lagged(k) => {
                    &&& old(rec).cursor < self.base
                    &&& k == self.base - old(rec).cursor
                    &&& final(rec).cursor == self.base
                    &&& final(rec).delivered@ == old(rec).delivered@
                    &&& final(rec).lagged == if old(rec).lagged + k <= u64::MAX {
                        old(rec).lagged + k
                    } else {
                        u64::MAX as int
                    }
                },
                Received::Closed => {
                    &&& self.closed
                    &&& old(rec).cursor == self.history@.len()
                    &&& *final(rec) == *old(rec)
                },
                Received::Pending => {
                    &&& !self.closed
                    &&& old(rec).cursor == self.history@.len()
                    &&& *final(rec) == *old(rec)
                },
            },
    {
        if rec.cursor < self.base {
            let missed = (self.base - rec.cursor) as u64;
            rec.cursor = self.base;
            rec.lagged = if rec.lagged <= u64::MAX - missed {
                rec.lagged + missed
            } else {
                u64::MAX
            };
            Received::Lagged(missed)
        } else if rec.cursor < self.base + self.buffer.len() {
            let idx = rec.cursor - self.base;
            let msg = copy_range(self.buffer[idx].as_slice(), 0, self.buffer[idx].len());
            proof {
                assert(msg@ =~= self.buffer@[idx as int]@);
                assert(msg@ == self.history@[rec.cursor as int]);
                rec.delivered@ = rec.delivered@.push(msg@);
                rec.indices@ = rec.indices@.push(rec.cursor as int);
            }
            rec.cursor = rec.cursor + 1;
            proof {
                if rec.lagged == 0 {
                    assert(rec.delivered@ =~= self.history@.subrange(
                        rec.start as int,
                        rec.cursor as int,
                    ));
                }
            }
            Received::Data(msg)
        } else {
            if self.closed {
                Received::Closed
            } else {
                Received::Pending
            }
        }
    }
}

impl HubReceiver {
    /// This receiver's state is consistent with the hub: its cursor lies in
    /// the published history, every delivered message is the published
    /// message at its recorded position, positions increase strictly (so
    /// messages were seen in publish order), and a receiver that never
    /// lagged has seen exactly the stream published since it subscribed.
    pub open spec fn valid_for(self, hub: Hub) -> bool {
        &&& self.start <= self.cursor <= hub.history@.len()
        &&& self.indices@.len() == self.delivered@.len()
        &&& forall|i: int|
            0 <= i < self.indices@.len() ==> self.start <= #[trigger] self.indices@[i]
                < self.cursor
        &&& forall|i: int, j: int|
            0 <= i < j < self.indices@.len() ==> self.indices@[i] < self.indices@[j]
        &&& forall|i: int|
            0 <= i < self.indices@.len() ==> (#[trigger] self.delivered@[i]) == hub.history@[
                self.indices@[i]]
        &&& (self.lagged == 0 ==> self.delivered@ == hub.history@.subrange(
            self.start as int,
            self.cursor as int,
        ))
    }
}

/// A receiver stays consistent while the hub only publishes: growing the
/// history invalidates nobody.
pub proof fn lemma_receiver_valid_under_growth(pre: Hub, post: Hub, r: HubReceiver)
    requires
        r.valid_for(pre),
        pre.history@.is_prefix_of(post.history@),
    ensures
        r.valid_for(post),
{
    assert(pre.history@ =~= post.history@.subrange(0, pre.history@.len() as int));
    assert forall|i: int| 0 <= i < pre.history@.len() implies post.history@[i]
        == pre.history@[i] by {}
    if r.lagged == 0 {
        assert(post.history@.subrange(r.start as int, r.cursor as int) =~= pre.history@.subrange(
            r.start as int,
            r.cursor as int,
        ));
    }
}

/// Two receivers of the same hub that subscribed at the same point and
/// never lagged have received identical prefixes of the publish stream:
/// the shorter delivered sequence is a prefix of the longer.
pub proof fn lemma_no_lag_receivers_see_prefixes(hub: Hub, r1: HubReceiver, r2: HubReceiver)
    requires
        hub.wf(),
        r1.valid_for(hub),
        r2.valid_for(hub),
        r1.lagged == 0,
        r2.lagged == 0,
        r1.start == r2.start,
    ensures
        r1.delivered@.is_prefix_of(r2.delivered@) || r2.delivered@.is_prefix_of(r1.delivered@),
{
    if r1.cursor <= r2.cursor {
        assert(r1.delivered@ =~= r2.delivered@.subrange(0, r1.delivered@.len() as int));
        assert(r1.delivered@.is_prefix_of(r2.delivered@));
    } else {
        assert(r2.delivered@ =~= r1.delivered@.subrange(0, r2.delivered@.len() as int));
        assert(r2.delivered@.is_prefix_of(r1.delivered@));
    }
}

/// Whatever lag occurred, a receiver's delivered messages are published
/// messages, each at a strictly later position than the one before: the hub
/// reorders nothing and invents nothing.
pub proof fn lemma_receiver_sees_publish_order(hub: Hub, r: HubReceiver)
    requires
        hub.wf(),
        r.valid_for(hub),
    ensures
        forall|i: int|
            0 <= i < r.delivered@.len() ==> (#[trigger] r.delivered@[i]) == hub.history@[
                r.indices@[i]],
        forall|i: int, j: int| 0 <= i < j < r.indices@.len() ==> r.indices@[i] < r.indices@[j],
{
}

} // verus!
