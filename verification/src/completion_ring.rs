//! The completed-frame ring: 64 frame-node words with a consumer and a
//! producer index. Completion enqueues at the producer; the drain takes a
//! snapshot of both indices and removes exactly the entries that were queued
//! when it began, oldest first, so entries enqueued meanwhile wait for the
//! next drain.

use vstd::prelude::*;

use crate::context::FrameNodeAddress;

verus! {

/// Number of entries in the ring.
pub const COMPLETION_RING_CAPACITY: u32 = 64;

/// Entries between index `from` and index `to`, going forward round the ring.
pub open spec fn ring_distance(from: u32, to: u32) -> nat {
    ((to - from) % 64) as nat
}

/// The `count` slots from index `from` on, going forward round the ring.
pub open spec fn ring_window(slots: Seq<u32>, from: u32, count: nat) -> Seq<u32> {
    Seq::new(count, |i: int| slots[(from + i) % 64])
}

/// The index after `index`, masked to the ring.
proof fn lemma_next_index(index: u32)
    by (bit_vector)
    requires
        index < 64,
    ensures
        ((index + 1) as u32) & 0x3f == ((index + 1) % 64) as u32,
{
}

pub struct CompletionRing {
    consumer: u32,
    producer: u32,
    frame_nodes: [u32; 64],
}

impl CompletionRing {
    #[verifier::type_invariant]
    spec fn indices_in_range(self) -> bool {
        self.consumer < 64 && self.producer < 64
    }

    pub closed spec fn consumer(self) -> u32 {
        self.consumer
    }

    pub closed spec fn producer(self) -> u32 {
        self.producer
    }

    /// Every slot of the ring, queued or not.
    pub closed spec fn slots(self) -> Seq<u32> {
        self.frame_nodes@
    }

    /// The queued frame nodes, oldest first.
    pub open spec fn view(self) -> Seq<u32> {
        ring_window(self.slots(), self.consumer(), ring_distance(self.consumer(), self.producer()))
    }

    pub fn new() -> (ring: Self)
        ensures
            ring.consumer() == 0,
            ring.producer() == 0,
            ring.slots() == Seq::new(64, |i: int| 0u32),
            ring@ == Seq::<u32>::empty(),
    {
        let ring = CompletionRing { consumer: 0, producer: 0, frame_nodes: [0u32; 64] };
        assert(ring.frame_nodes@ =~= Seq::new(64, |i: int| 0u32));
        assert(ring@ =~= Seq::<u32>::empty());
        ring
    }

    /// The consumer and producer indices.
    pub fn cursors(&self) -> (cursors: (u32, u32))
        ensures
            cursors == (self.consumer(), self.producer()),
            cursors.0 < 64 && cursors.1 < 64,
    {
        proof {
            use_type_invariant(self);
        }
        (self.consumer, self.producer)
    }

    /// The word in slot `index`.
    pub fn frame_node(&self, index: u32) -> (node: u32)
        requires
            index < 64,
        ensures
            node == self.slots()[index as int],
    {
        self.frame_nodes[index as usize]
    }

    /// Stores `frame_node` at the producer and advances the producer. The
    /// ring does not check for room: with 63 entries queued the producer
    /// reaches the consumer and the ring reads as empty.
    pub fn enqueue(&mut self, frame_node: FrameNodeAddress)
        ensures
            final(self).consumer() == old(self).consumer(),
            final(self).producer() == (old(self).producer() + 1) % 64,
            final(self).slots() == old(self).slots().update(old(self).producer() as int, frame_node@),
            old(self)@.len() < 63 ==> final(self)@ == old(self)@.push(frame_node@),
    {
        proof {
            use_type_invariant(&*self);
        }
        let ghost before = *self;
        let producer = self.producer;
        self.frame_nodes[producer as usize] = frame_node.raw();
        proof {
            lemma_next_index(producer);
        }
        self.producer = (producer + 1) & 0x3f;
        proof {
            if before@.len() < 63 {
                lemma_enqueue_window(before.slots(), before.consumer(), before.producer(), frame_node@);
            }
        }
    }

    /// Removes the word in slot `consumer`, clearing the slot, and makes the
    /// following index the consumer; returns the word and that index.
    pub fn pop(&mut self, consumer: u32) -> (popped: (FrameNodeAddress, u32))
        requires
            consumer < 64,
        ensures
            popped.0@ == old(self).slots()[consumer as int],
            popped.1 == (consumer + 1) % 64,
            final(self).consumer() == popped.1,
            final(self).producer() == old(self).producer(),
            final(self).slots() == old(self).slots().update(consumer as int, 0),
            consumer == old(self).consumer() && old(self)@.len() > 0 ==> popped.0@ == old(self)@[0]
                && final(self)@ == old(self)@.drop_first(),
    {
        proof {
            use_type_invariant(&*self);
        }
        let ghost before = *self;
        let frame_node = self.frame_nodes[consumer as usize];
        self.frame_nodes[consumer as usize] = 0;
        let next = (consumer + 1) & 0x3f;
        proof {
            lemma_next_index(consumer);
        }
        self.consumer = next;
        proof {
            if consumer == before.consumer() && before@.len() > 0 {
                lemma_pop_window(before.slots(), before.consumer(), before.producer());
            }
        }
        (FrameNodeAddress::new(frame_node), next)
    }
}

proof fn lemma_enqueue_window(slots: Seq<u32>, consumer: u32, producer: u32, node: u32)
    requires
        slots.len() == 64,
        consumer < 64,
        producer < 64,
        ring_distance(consumer, producer) < 63,
    ensures
        ring_window(
            slots.update(producer as int, node),
            consumer,
            ring_distance(consumer, ((producer + 1) % 64) as u32),
        ) == ring_window(slots, consumer, ring_distance(consumer, producer)).push(node),
{
    let len = ring_distance(consumer, producer);
    assert(ring_distance(consumer, ((producer + 1) % 64) as u32) == len + 1);
    let updated = slots.update(producer as int, node);
    assert forall|i: int| 0 <= i < len implies #[trigger] updated[(consumer + i) % 64] == slots[(consumer
        + i) % 64] by {
        assert((consumer + i) % 64 != producer);
    }
    assert((consumer + len) % 64 == producer);
    assert(ring_window(updated, consumer, len + 1) =~= ring_window(slots, consumer, len).push(node));
}

proof fn lemma_pop_window(slots: Seq<u32>, consumer: u32, producer: u32)
    requires
        slots.len() == 64,
        consumer < 64,
        producer < 64,
        ring_distance(consumer, producer) > 0,
    ensures
        ring_window(
            slots.update(consumer as int, 0),
            ((consumer + 1) % 64) as u32,
            ring_distance(((consumer + 1) % 64) as u32, producer),
        ) == ring_window(slots, consumer, ring_distance(consumer, producer)).drop_first(),
{
    let len = ring_distance(consumer, producer);
    let next = ((consumer + 1) % 64) as u32;
    assert(ring_distance(next, producer) == len - 1);
    let updated = slots.update(consumer as int, 0);
    assert forall|i: int| 0 <= i < len - 1 implies #[trigger] updated[(next + i) % 64] == slots[(
    consumer + (i + 1)) % 64] by {
        assert((next + i) % 64 == (consumer + (i + 1)) % 64);
        assert((next + i) % 64 != consumer);
    }
    assert(ring_window(updated, next, (len - 1) as nat) =~= ring_window(slots, consumer, len).drop_first());
}

/// A drain's snapshot of the ring: the next index to take and the producer
/// index when the drain began.
#[derive(Clone, Copy, Debug, PartialEq, Eq)]
pub struct CompletionDrainCursor {
    next: u32,
    target: u32,
}

impl CompletionDrainCursor {
    #[verifier::type_invariant]
    spec fn indices_in_range(self) -> bool {
        self.next < 64 && self.target < 64
    }

    pub closed spec fn next(self) -> u32 {
        self.next
    }

    pub closed spec fn target(self) -> u32 {
        self.target
    }

    /// The entries of `ring` this drain still has to take, oldest first.
    pub open spec fn pending(self, ring: CompletionRing) -> Seq<u32> {
        ring_window(ring.slots(), self.next(), ring_distance(self.next(), self.target()))
    }

    /// Snapshots `ring`: the drain will take what is queued now.
    pub fn begin(ring: &CompletionRing) -> (cursor: Self)
        ensures
            cursor.next() == ring.consumer(),
            cursor.target() == ring.producer(),
            cursor.pending(*ring) == ring@,
    {
        let (next, target) = ring.cursors();
        CompletionDrainCursor { next, target }
    }

    /// Whether the snapshot has been drained.
    pub fn is_empty(self) -> (empty: bool)
        ensures
            empty == (self.next() == self.target()),
            empty <==> self.pending_count() == 0,
    {
        proof {
            use_type_invariant(&self);
        }
        self.next == self.target
    }

    /// Number of entries left in the snapshot.
    pub open spec fn pending_count(self) -> nat {
        ring_distance(self.next(), self.target())
    }

    /// Takes the oldest entry of the snapshot from `ring`; `None`, leaving
    /// the ring alone, once the snapshot is drained.
    pub fn pop(&mut self, ring: &mut CompletionRing) -> (node: Option<FrameNodeAddress>)
        ensures
            old(self).pending_count() == 0 ==> (node is None && *final(self) == *old(self)
                && *final(ring) == *old(ring)),
            old(self).pending_count() > 0 ==> ({
                &&& node is Some
                &&& node->0@ == old(self).pending(*old(ring))[0]
                &&& final(self).pending(*final(ring)) == old(self).pending(*old(ring)).drop_first()
                &&& final(ring).consumer() == final(self).next()
                &&& final(self).target() == old(self).target()
                &&& final(ring).producer() == old(ring).producer()
                &&& final(ring).slots() == old(ring).slots().update(old(self).next() as int, 0)
            }),
    {
        proof {
            use_type_invariant(&*self);
            use_type_invariant(&*ring);
        }
        if self.next == self.target {
            return None;
        }
        let ghost before_ring = *ring;
        let ghost before = *self;
        let (node, next) = ring.pop(self.next);
        self.next = next;
        proof {
            lemma_pop_window(before_ring.slots(), before.next(), before.target());
        }
        Some(node)
    }
}

/// Enqueueing while a drain is in progress leaves the drain's snapshot
/// alone, as long as the producer lies outside the snapshot's entries (the
/// ring has not wrapped round onto them).
pub proof fn lemma_enqueue_keeps_drain_snapshot(
    cursor: CompletionDrainCursor,
    ring: CompletionRing,
    after: CompletionRing,
    frame_node: u32,
)
    requires
        ring.slots().len() == 64,
        ring.producer() < 64,
        cursor.next() < 64,
        ring_distance(cursor.next(), ring.producer()) >= ring_distance(cursor.next(), cursor.target()),
        after.slots() == ring.slots().update(ring.producer() as int, frame_node),
    ensures
        cursor.pending(after) == cursor.pending(ring),
{
    let count = ring_distance(cursor.next(), cursor.target());
    assert forall|i: int| 0 <= i < count implies #[trigger] after.slots()[(cursor.next() + i) % 64]
        == ring.slots()[(cursor.next() + i) % 64] by {
        if (cursor.next() + i) % 64 == ring.producer() {
            assert(ring_distance(cursor.next(), ring.producer()) == i);
        }
    }
    assert(cursor.pending(after) =~= cursor.pending(ring));
}

} // verus!
