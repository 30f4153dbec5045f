//! The global PAS ring: sixty-four words of frame pointers between a head
//! and a tail index, where a zero word is a hole left by a removal. Every
//! insertion first compacts the live pointers, in order, into the free range
//! that starts at the old tail.

use vstd::prelude::*;

use crate::host_tx::PasRingError;

verus! {

/// Number of words in the ring.
pub open spec fn ring_size() -> int {
    64
}

/// Index `k` places after `start`, around the ring.
#[verifier::opaque]
pub open spec fn ring_pos(start: int, k: int) -> int {
    (start + k) % 64
}

/// How far `to` lies after `from`, around the ring.
#[verifier::opaque]
pub open spec fn ring_distance(from: int, to: int) -> int {
    (to - from) % 64
}

/// Going `k` places and measuring back gives `k`; every index is some
/// number of places after any start.
pub proof fn lemma_ring_pos_distance(start: int, k: int)
    requires
        0 <= k < 64,
    ensures
        0 <= ring_pos(start, k) < 64,
        ring_distance(start, ring_pos(start, k)) == k,
        ring_pos(start, k + 1) == (ring_pos(start, k) + 1) % 64,
{
    reveal(ring_pos);
    reveal(ring_distance);
}

/// Every index in the ring lies a unique distance after any start.
pub proof fn lemma_ring_distance_inverse(start: int, i: int)
    requires
        0 <= i < 64,
    ensures
        0 <= ring_distance(start, i) < 64,
        ring_pos(start, ring_distance(start, i)) == i,
{
    reveal(ring_pos);
    reveal(ring_distance);
}

/// Walking from `head` towards `tail`, the walk is `64 - n + j` places
/// past `tail` after `j` of the `n` steps, and reaches `tail` only at the end.
pub proof fn lemma_ring_walk(head: int, tail: int, j: int)
    requires
        0 <= head < 64,
        0 <= tail < 64,
        0 <= j <= ring_distance(head, tail),
    ensures
        j < ring_distance(head, tail) ==> ring_distance(tail, ring_pos(head, j)) == 64
            - ring_distance(head, tail) + j,
        ring_pos(head, j) == tail <==> j == ring_distance(head, tail),
        ring_pos(head, 0) == head,
{
    reveal(ring_pos);
    reveal(ring_distance);
}

/// The nonzero words among the first `n` words after `head`, in ring order.
pub open spec fn live_words(entries: Seq<u32>, head: int, n: int) -> Seq<u32>
    decreases n,
{
    if n <= 0 {
        Seq::empty()
    } else {
        let earlier = live_words(entries, head, n - 1);
        let word = entries[ring_pos(head, n - 1)];
        if word != 0 {
            earlier.push(word)
        } else {
            earlier
        }
    }
}

/// The ring's head and tail index words of the array.
pub open spec fn indices_in_range(head: u8, tail: u8) -> bool {
    head < 64 && tail < 64
}

/// What compaction writes at index `i`: the live words, in order, from the
/// old tail on; zero over the rest of the old span; elsewhere the old word.
pub open spec fn compacted_word(entries: Seq<u32>, head: int, tail: int, i: int) -> u32 {
    let live = live_words(entries, head, ring_distance(head, tail));
    if ring_distance(tail, i) < live.len() {
        live[ring_distance(tail, i)]
    } else if ring_distance(head, i) < ring_distance(head, tail) {
        0
    } else {
        entries[i]
    }
}

pub open spec fn compacted_entries(entries: Seq<u32>, head: int, tail: int) -> Seq<u32> {
    Seq::new(64, |i: int| compacted_word(entries, head, tail, i))
}

/// Tail index after compaction.
pub open spec fn compacted_tail(entries: Seq<u32>, head: int, tail: int) -> int {
    if head == tail {
        tail
    } else {
        ring_pos(tail, live_words(entries, head, ring_distance(head, tail)).len() as int)
    }
}

/// The live words are all nonzero and at most as many as the words walked.
pub proof fn lemma_live_words_nonzero(entries: Seq<u32>, head: int, n: int)
    requires
        0 <= n,
    ensures
        live_words(entries, head, n).len() <= n,
        forall|k: int|
            0 <= k < live_words(entries, head, n).len() ==> #[trigger] live_words(
                entries,
                head,
                n,
            )[k] != 0,
    decreases n,
{
    if n > 0 {
        lemma_live_words_nonzero(entries, head, n - 1);
    }
}

/// The live words depend only on the words walked.
pub proof fn lemma_live_words_frame(a: Seq<u32>, b: Seq<u32>, head: int, n: int)
    requires
        0 <= n,
        forall|k: int| 0 <= k < n ==> a[#[trigger] ring_pos(head, k)] == b[ring_pos(head, k)],
    ensures
        live_words(a, head, n) == live_words(b, head, n),
    decreases n,
{
    if n > 0 {
        lemma_live_words_frame(a, b, head, n - 1);
        assert(a[ring_pos(head, n - 1)] == b[ring_pos(head, n - 1)]);
    }
}

/// Walking from one place earlier adds the word there in front.
pub proof fn lemma_live_words_prepend(entries: Seq<u32>, head: int, n: int)
    requires
        0 <= head < 64,
        0 <= n < 64,
    ensures
        live_words(entries, head, n + 1) == if entries[head] != 0 {
            seq![entries[head]] + live_words(entries, ring_pos(head, 1), n)
        } else {
            live_words(entries, ring_pos(head, 1), n)
        },
    decreases n,
{
    reveal(ring_pos);
    let next = ring_pos(head, 1);
    if n == 0 {
        assert(ring_pos(head, 0) == head);
        assert(live_words(entries, head, 0) =~= Seq::<u32>::empty());
        assert(live_words(entries, next, 0) =~= Seq::<u32>::empty());
        assert(Seq::<u32>::empty().push(entries[head]) =~= seq![entries[head]]);
        assert(seq![entries[head]] + Seq::<u32>::empty() =~= seq![entries[head]]);
    } else {
        lemma_live_words_prepend(entries, head, n - 1);
        let rest = live_words(entries, next, n - 1);
        let word = entries[ring_pos(head, n)];
        assert(ring_pos(next, n - 1) == ring_pos(head, n));
        assert(live_words(entries, next, n) == if word != 0 {
            rest.push(word)
        } else {
            rest
        });
        assert(live_words(entries, head, n + 1) == if word != 0 {
            live_words(entries, head, n).push(word)
        } else {
            live_words(entries, head, n)
        });
        if entries[head] != 0 {
            assert(seq![entries[head]] + rest.push(word) =~= (seq![entries[head]] + rest).push(word));
        }
    }
}

/// Writing a nonzero word just past the first `m` words walked appends it.
pub proof fn lemma_live_words_after_append(entries: Seq<u32>, start: int, m: int, pas: u32)
    requires
        0 <= m < 64,
        entries.len() == 64,
        pas != 0,
    ensures
        live_words(entries.update(ring_pos(start, m), pas), start, m + 1) == live_words(
            entries,
            start,
            m,
        ).push(pas),
{
    let written = entries.update(ring_pos(start, m), pas);
    lemma_ring_pos_distance(start, m);
    assert forall|k: int| 0 <= k < m implies written[#[trigger] ring_pos(start, k)] == entries[ring_pos(
        start,
        k,
    )] by {
        lemma_ring_pos_distance(start, k);
    }
    lemma_live_words_frame(written, entries, start, m);
}

/// Writing a nonzero word just before the first `m` words walked puts it in
/// front.
pub proof fn lemma_live_words_after_prepend(entries: Seq<u32>, start: int, m: int, pas: u32)
    requires
        0 <= start < 64,
        0 <= m < 63,
        entries.len() == 64,
        pas != 0,
    ensures
        live_words(entries.update(ring_pos(start, 63), pas), ring_pos(start, 63), m + 1)
            == seq![pas] + live_words(entries, start, m),
{
    let front = ring_pos(start, 63);
    let written = entries.update(front, pas);
    lemma_ring_pos_distance(start, 63);
    assert(ring_pos(front, 1) == start) by {
        reveal(ring_pos);
    }
    assert forall|k: int| 0 <= k < m implies written[#[trigger] ring_pos(start, k)] == entries[ring_pos(
        start,
        k,
    )] by {
        lemma_ring_pos_distance(start, k);
    }
    lemma_live_words_frame(written, entries, start, m);
    lemma_live_words_prepend(written, front, m);
}

/// A ring whose first `m` words after `start` are the nonzero words `live`
/// has exactly those live words over that span.
pub proof fn lemma_live_words_of_packed(entries: Seq<u32>, start: int, live: Seq<u32>, m: int)
    requires
        0 <= m <= live.len(),
        forall|k: int| 0 <= k < live.len() ==> live[k] != 0,
        forall|k: int| 0 <= k < live.len() ==> entries[#[trigger] ring_pos(start, k)] == live[k],
    ensures
        live_words(entries, start, m) == live.take(m),
    decreases m,
{
    if m > 0 {
        lemma_live_words_of_packed(entries, start, live, m - 1);
        assert(entries[ring_pos(start, m - 1)] == live[m - 1]);
        assert(live.take(m - 1).push(live[m - 1]) =~= live.take(m));
    }
}

/// Compaction keeps the live words and their order.
pub proof fn lemma_compaction_keeps_live_words(entries: Seq<u32>, head: int, tail: int)
    requires
        0 <= head < 64,
        0 <= tail < 64,
        entries.len() == 64,
    ensures
        live_words(
            compacted_entries(entries, head, tail),
            tail,
            ring_distance(tail, compacted_tail(entries, head, tail)),
        ) == live_words(entries, head, ring_distance(head, tail)),
        live_words(entries, head, ring_distance(head, tail)).len() == ring_distance(
            tail,
            compacted_tail(entries, head, tail),
        ),
{
    let n = ring_distance(head, tail);
    let live = live_words(entries, head, n);
    let packed = compacted_entries(entries, head, tail);
    lemma_ring_distance_inverse(head, tail);
    lemma_live_words_nonzero(entries, head, n);
    if head == tail {
        reveal(ring_distance);
        lemma_ring_pos_distance(tail, 0);
    } else {
        lemma_ring_pos_distance(tail, live.len() as int);
        assert forall|k: int| 0 <= k < live.len() implies packed[#[trigger] ring_pos(tail, k)]
            == live[k] by {
            lemma_ring_pos_distance(tail, k);
        }
        lemma_live_words_of_packed(packed, tail, live, live.len() as int);
        assert(live.take(live.len() as int) =~= live);
    }
}

/// Appending a nonzero word to a compacted ring adds it after the live words.
pub proof fn lemma_push_back_live(entries: Seq<u32>, head: int, tail: int, pas: u32)
    requires
        0 <= head < 64,
        0 <= tail < 64,
        entries.len() == 64,
        pas != 0,
        ring_pos(compacted_tail(entries, head, tail), 1) != tail,
    ensures
        live_words(
            compacted_entries(entries, head, tail).update(compacted_tail(entries, head, tail), pas),
            tail,
            ring_distance(tail, ring_pos(compacted_tail(entries, head, tail), 1)),
        ) == live_words(entries, head, ring_distance(head, tail)).push(pas),
{
    let packed = compacted_entries(entries, head, tail);
    let m = live_words(entries, head, ring_distance(head, tail)).len() as int;
    lemma_ring_distance_inverse(head, tail);
    lemma_live_words_nonzero(entries, head, ring_distance(head, tail));
    lemma_compaction_keeps_live_words(entries, head, tail);
    lemma_ring_pos_distance(tail, m);
    assert(compacted_tail(entries, head, tail) == ring_pos(tail, m)) by {
        if head == tail {
            lemma_ring_pos_distance(tail, 0);
        }
    }
    lemma_live_words_after_append(packed, tail, m, pas);
    if m + 1 == 64 {
        assert(ring_pos(ring_pos(tail, m), 1) == tail) by {
            reveal(ring_pos);
        }
    }
    lemma_ring_pos_distance(tail, m + 1);
    assert(ring_pos(ring_pos(tail, m), 1) == ring_pos(tail, m + 1)) by {
        reveal(ring_pos);
    }
}

/// Putting a nonzero word in front of a compacted ring puts it before the
/// live words.
pub proof fn lemma_push_front_live(entries: Seq<u32>, head: int, tail: int, pas: u32)
    requires
        0 <= head < 64,
        0 <= tail < 64,
        entries.len() == 64,
        pas != 0,
        ring_pos(tail, 63) != compacted_tail(entries, head, tail),
    ensures
        live_words(
            compacted_entries(entries, head, tail).update(ring_pos(tail, 63), pas),
            ring_pos(tail, 63),
            ring_distance(ring_pos(tail, 63), compacted_tail(entries, head, tail)),
        ) == seq![pas] + live_words(entries, head, ring_distance(head, tail)),
{
    let packed = compacted_entries(entries, head, tail);
    let m = live_words(entries, head, ring_distance(head, tail)).len() as int;
    lemma_ring_distance_inverse(head, tail);
    lemma_live_words_nonzero(entries, head, ring_distance(head, tail));
    lemma_compaction_keeps_live_words(entries, head, tail);
    lemma_ring_pos_distance(tail, m);
    assert(compacted_tail(entries, head, tail) == ring_pos(tail, m)) by {
        if head == tail {
            lemma_ring_pos_distance(tail, 0);
        }
    }
    assert(m < 63);
    lemma_live_words_after_prepend(packed, tail, m, pas);
    lemma_ring_one_before(tail, m);
}

/// The place before `start` lies `m + 1` places before the place `m` after it.
proof fn lemma_ring_one_before(start: int, m: int)
    requires
        0 <= start < 64,
        0 <= m < 63,
    ensures
        ring_distance(ring_pos(start, 63), ring_pos(start, m)) == m + 1,
{
    reveal(ring_pos);
    reveal(ring_distance);
    let before = if start == 0 {
        63
    } else {
        start - 1
    };
    let after = if start + m < 64 {
        start + m
    } else {
        start + m - 64
    };
    assert(ring_pos(start, 63) == before);
    assert(ring_pos(start, m) == after);
    assert((after - before) % 64 == m + 1);
}

#[derive(Clone, Debug, PartialEq, Eq)]
pub struct PasRing {
    pub head: u8,
    pub tail: u8,
    pub entries: [u32; 64],
}

impl PasRing {
    /// The ring's live words, in order.
    pub open spec fn live(&self) -> Seq<u32> {
        live_words(self.entries@, self.head as int, ring_distance(self.head as int, self.tail as int))
    }

    pub fn empty() -> (ring: Self)
        ensures
            ring.head == 0,
            ring.tail == 0,
            forall|i: int| 0 <= i < 64 ==> ring.entries[i] == 0,
    {
        Self { head: 0, tail: 0, entries: [0; 64] }
    }

    /// Moves the live words, in order, into the free range that starts at the
    /// old tail, and makes the old tail the head. A ring with equal head and
    /// tail is left as it is.
    pub fn compact(&mut self)
        requires
            indices_in_range(old(self).head, old(self).tail) || old(self).head == old(self).tail,
        ensures
            final(self).head == old(self).tail,
            final(self).tail == compacted_tail(
                old(self).entries@,
                old(self).head as int,
                old(self).tail as int,
            ),
            final(self).entries@ == compacted_entries(
                old(self).entries@,
                old(self).head as int,
                old(self).tail as int,
            ),
            indices_in_range(old(self).head, old(self).tail) ==> final(self).live() == old(
                self,
            ).live(),
    {
        let ghost old_entries = self.entries@;
        proof {
            if indices_in_range(self.head, self.tail) {
                lemma_compaction_keeps_live_words(old_entries, self.head as int, self.tail as int);
            }
        }
        let ghost head = self.head as int;
        let old_tail = self.tail;
        if self.head == old_tail {
            proof {
                reveal(ring_distance);
            }
            assert(compacted_entries(old_entries, head, old_tail as int) =~= old_entries);
            return;
        }
        let ghost n = ring_distance(head, old_tail as int);
        let ghost tail = old_tail as int;
        proof {
            reveal(ring_distance);
            lemma_ring_walk(head, tail, 0);
        }
        let mut scan = self.head;
        let mut write = old_tail;
        let ghost mut j: int = 0;
        proof {
            lemma_ring_pos_distance(tail, 0);
            reveal(ring_pos);
        }
        while scan != old_tail
            invariant
                indices_in_range(head as u8, old_tail),
                0 <= head < 64,
                tail == old_tail,
                head != tail,
                0 < n < 64,
                n == ring_distance(head, tail),
                0 <= j <= n,
                scan as int == ring_pos(head, j),
                live_words(old_entries, head, j).len() <= j,
                write as int == ring_pos(tail, live_words(old_entries, head, j).len() as int),
                self.entries@.len() == 64,
                old_entries.len() == 64,
                forall|i: int|
                    0 <= i < 64 ==> #[trigger] self.entries@[i] == if ring_distance(tail, i)
                        < live_words(old_entries, head, j).len() {
                        live_words(old_entries, head, j)[ring_distance(tail, i)]
                    } else if ring_distance(head, i) < j {
                        0
                    } else {
                        old_entries[i]
                    },
            decreases n - j,
        {
            let ghost live = live_words(old_entries, head, j);
            let ghost before = self.entries@;
            proof {
                lemma_ring_walk(head, tail, j);
                lemma_ring_pos_distance(head, j);
                lemma_ring_pos_distance(tail, live.len() as int);
            }
            let value = self.entries[scan as usize];
            let ghost w = live.len() as int;
            let ghost next_live = live_words(old_entries, head, j + 1);
            if value != 0 {
                self.entries[write as usize] = value;
                let advanced: u8 = write + 1;
                assert(advanced & 0x3f == advanced % 64) by (bit_vector);
                write = advanced & 0x3f;
                self.entries[scan as usize] = 0;
                assert(next_live == live.push(value));
            } else {
                assert(next_live == live);
            }
            let stepped: u8 = scan + 1;
            assert(stepped & 0x3f == stepped % 64) by (bit_vector);
            scan = stepped & 0x3f;
            proof {
                assert forall|i: int| 0 <= i < 64 implies #[trigger] self.entries@[i] == if ring_distance(tail, i)
                    < next_live.len() {
                    next_live[ring_distance(tail, i)]
                } else if ring_distance(head, i) < j + 1 {
                    0
                } else {
                    old_entries[i]
                } by {
                    lemma_ring_distance_inverse(tail, i);
                    lemma_ring_distance_inverse(head, i);
                    assert(before[i] == if ring_distance(tail, i) < live.len() {
                        live[ring_distance(tail, i)]
                    } else if ring_distance(head, i) < j {
                        0
                    } else {
                        old_entries[i]
                    });
                }
                j = j + 1;
            }
        }
        proof {
            lemma_ring_walk(head, tail, j);
        }
        assert(j == n);
        self.head = old_tail;
        self.tail = write;
        assert(self.entries@ =~= compacted_entries(old_entries, head, old_tail as int));
    }

    /// Compacts, then inserts `pas` as frame kind `frame_kind` says: kind 1
    /// (a host frame) appends at the tail, kind 0 goes in front of the head.
    /// The ring is full when the insertion would make head and tail meet.
    /// A refused insertion still leaves the ring compacted.
    #[verifier::spinoff_prover]
    pub fn push(&mut self, pas: u32, frame_kind: u8) -> (result: Result<(), PasRingError>)
        requires
            indices_in_range(old(self).head, old(self).tail) || (old(self).head == old(self).tail
                && frame_kind != 1),
        ensures
            ({
                let packed = compacted_entries(
                    old(self).entries@,
                    old(self).head as int,
                    old(self).tail as int,
                );
                let packed_tail = compacted_tail(
                    old(self).entries@,
                    old(self).head as int,
                    old(self).tail as int,
                );
                let packed_head = old(self).tail as int;
                let refused = final(self).head == packed_head && final(self).tail == packed_tail
                    && final(self).entries@ == packed;
                if frame_kind == 1 {
                    if ring_pos(packed_tail, 1) == packed_head {
                        result == Err::<(), PasRingError>(PasRingError::Full) && refused
                    } else {
                        &&& result == Ok::<(), PasRingError>(())
                        &&& final(self).head == packed_head
                        &&& final(self).tail == ring_pos(packed_tail, 1)
                        &&& final(self).entries@ == packed.update(packed_tail, pas)
                    }
                } else if frame_kind == 0 {
                    if ring_pos(packed_head, 63) == packed_tail {
                        result == Err::<(), PasRingError>(PasRingError::Full) && refused
                    } else {
                        &&& result == Ok::<(), PasRingError>(())
                        &&& final(self).head == ring_pos(packed_head, 63)
                        &&& final(self).tail == packed_tail
                        &&& final(self).entries@ == packed.update(ring_pos(packed_head, 63), pas)
                    }
                } else {
                    result == Err::<(), PasRingError>(PasRingError::InvalidFrameKind) && refused
                }
            }),
            indices_in_range(old(self).head, old(self).tail) ==> indices_in_range(
                final(self).head,
                final(self).tail,
            ),
            indices_in_range(old(self).head, old(self).tail) && result is Ok && pas != 0
                ==> final(self).live() == if frame_kind == 1 {
                old(self).live().push(pas)
            } else {
                seq![pas] + old(self).live()
            },
    {
        let ghost original = *self;
        self.compact();
        proof {
            if indices_in_range(original.head, original.tail) {
                lemma_ring_distance_inverse(original.head as int, original.tail as int);
                lemma_live_words_nonzero(
                    original.entries@,
                    original.head as int,
                    ring_distance(original.head as int, original.tail as int),
                );
                lemma_ring_pos_distance(original.tail as int, original.live().len() as int);
            }
        }
        if frame_kind == 1 {
            let bumped: u8 = self.tail + 1;
            let next: u8 = bumped & 0x3f;
            assert(bumped & 0x3f == bumped % 64) by (bit_vector);
            assert(ring_pos(self.tail as int, 1) == next) by {
                reveal(ring_pos);
            }
            if next == self.head {
                return Err(PasRingError::Full);
            }
            self.entries[self.tail as usize] = pas;
            self.tail = next;
            proof {
                if indices_in_range(original.head, original.tail) && pas != 0 {
                    lemma_push_back_live(
                        original.entries@,
                        original.head as int,
                        original.tail as int,
                        pas,
                    );
                }
            }
            Ok(())
        } else if frame_kind == 0 {
            let previous: u8 = if self.head == 0 {
                63
            } else {
                let lowered: u8 = self.head - 1;
                assert(lowered & 0x3f == lowered % 64) by (bit_vector);
                lowered & 0x3f
            };
            assert(ring_pos(self.head as int, 63) == previous) by {
                reveal(ring_pos);
            }
            if previous == self.tail {
                return Err(PasRingError::Full);
            }
            self.entries[previous as usize] = pas;
            self.head = previous;
            proof {
                if indices_in_range(original.head, original.tail) && pas != 0 {
                    lemma_push_front_live(
                        original.entries@,
                        original.head as int,
                        original.tail as int,
                        pas,
                    );
                }
            }
            Ok(())
        } else {
            Err(PasRingError::InvalidFrameKind)
        }
    }
}

} // verus!
