//! Class-0 completions waiting for the host, in a bounded queue.

use vstd::prelude::*;

verus! {

/// A class-0 completion tied to the pipe slot that owned it.
#[derive(Clone, Copy, Debug, PartialEq, Eq, Structural)]
pub struct HostClass0Completion {
    pub context: u32,
    pub frame_node: u32,
    pub pipe: u8,
    pub slot: u8,
    pub status: u16,
    pub ack_failures: u8,
}

/// Index of the first empty entry at or after `start`, or the length when
/// every entry from `start` on is full.
pub open spec fn first_empty_from<T>(entries: Seq<Option<T>>, start: int) -> int
    decreases entries.len() - start,
{
    if start < 0 || start >= entries.len() {
        entries.len() as int
    } else if entries[start] is None {
        start
    } else {
        first_empty_from(entries, start + 1)
    }
}

/// Index of the first full entry at or after `start`, or the length when
/// every entry from `start` on is empty.
pub open spec fn first_full_from<T>(entries: Seq<Option<T>>, start: int) -> int
    decreases entries.len() - start,
{
    if start < 0 || start >= entries.len() {
        entries.len() as int
    } else if entries[start] is Some {
        start
    } else {
        first_full_from(entries, start + 1)
    }
}

pub open spec fn first_empty<T>(entries: Seq<Option<T>>) -> int {
    first_empty_from(entries, 0)
}

pub open spec fn first_full<T>(entries: Seq<Option<T>>) -> int {
    first_full_from(entries, 0)
}

proof fn lemma_first_empty_bounds<T>(entries: Seq<Option<T>>, start: int)
    requires
        0 <= start <= entries.len(),
    ensures
        start <= first_empty_from(entries, start) <= entries.len(),
        first_empty_from(entries, start) < entries.len()
            ==> entries[first_empty_from(entries, start)] is None,
        forall|j: int| start <= j < first_empty_from(entries, start) ==> entries[j] is Some,
    decreases entries.len() - start,
{
    if start < entries.len() && entries[start] is Some {
        lemma_first_empty_bounds(entries, start + 1);
    }
}

proof fn lemma_first_full_bounds<T>(entries: Seq<Option<T>>, start: int)
    requires
        0 <= start <= entries.len(),
    ensures
        start <= first_full_from(entries, start) <= entries.len(),
        first_full_from(entries, start) < entries.len()
            ==> entries[first_full_from(entries, start)] is Some,
        forall|j: int| start <= j < first_full_from(entries, start) ==> entries[j] is None,
    decreases entries.len() - start,
{
    if start < entries.len() && entries[start] is None {
        lemma_first_full_bounds(entries, start + 1);
    }
}

/// A fixed number of entries, each empty or holding one value. Values go
/// into the first empty entry and come out of the first full one.
pub struct BoundedCompletionQueue<T, const N: usize> {
    entries: [Option<T>; N],
}

impl<T: Copy, const N: usize> BoundedCompletionQueue<T, N> {
    pub closed spec fn view_entries(&self) -> Seq<Option<T>> {
        self.entries@
    }

    pub fn new() -> (queue: Self)
        ensures
            queue.view_entries() == Seq::new(N as nat, |i: int| None::<T>),
    {
        let queue = Self { entries: [None; N] };
        assert(queue.entries@ =~= Seq::new(N as nat, |i: int| None::<T>));
        queue
    }

    fn first_empty_index(&self) -> (index: usize)
        ensures
            index == first_empty(self.view_entries()),
    {
        let mut index: usize = 0;
        while index < N
            invariant
                index <= N,
                self.entries@.len() == N,
                first_empty_from(self.entries@, 0) == first_empty_from(self.entries@, index as int),
            decreases N - index,
        {
            if self.entries[index].is_none() {
                return index;
            }
            index = index + 1;
        }
        index
    }

    fn first_full_index(&self) -> (index: usize)
        ensures
            index == first_full(self.view_entries()),
    {
        let mut index: usize = 0;
        while index < N
            invariant
                index <= N,
                self.entries@.len() == N,
                first_full_from(self.entries@, 0) == first_full_from(self.entries@, index as int),
            decreases N - index,
        {
            if self.entries[index].is_some() {
                return index;
            }
            index = index + 1;
        }
        index
    }

    /// Stores `value` in the first empty entry; hands it back when every
    /// entry is full.
    pub fn push(&mut self, value: T) -> (result: Result<(), T>)
        ensures
            ({
                let at = first_empty(old(self).view_entries());
                if at < N {
                    &&& result == Ok::<(), T>(())
                    &&& final(self).view_entries() == old(self).view_entries().update(at, Some(value))
                } else {
                    &&& result == Err::<(), T>(value)
                    &&& final(self).view_entries() == old(self).view_entries()
                }
            }),
    {
        let index = self.first_empty_index();
        if index < N {
            self.entries[index] = Some(value);
            Ok(())
        } else {
            Err(value)
        }
    }

    /// Removes and returns the value in the first full entry.
    pub fn take(&mut self) -> (result: Option<T>)
        ensures
            ({
                let at = first_full(old(self).view_entries());
                if at < N {
                    &&& result == old(self).view_entries()[at]
                    &&& final(self).view_entries() == old(self).view_entries().update(at, None)
                } else {
                    &&& result is None
                    &&& final(self).view_entries() == old(self).view_entries()
                }
            }),
    {
        let index = self.first_full_index();
        if index < N {
            let entry = self.entries[index];
            self.entries[index] = None;
            entry
        } else {
            None
        }
    }

    /// The value in the first full entry, left in place.
    pub fn first(&self) -> (result: Option<&T>)
        ensures
            ({
                let at = first_full(self.view_entries());
                if at < N {
                    result == Some(&self.view_entries()[at]->0)
                } else {
                    result is None
                }
            }),
    {
        let mut index: usize = 0;
        while index < N
            invariant
                index <= N,
                self.entries@.len() == N,
                first_full_from(self.entries@, 0) == first_full_from(self.entries@, index as int),
            decreases N - index,
        {
            match &self.entries[index] {
                Some(value) => {
                    return Some(value);
                },
                None => {},
            }
            index = index + 1;
        }
        None
    }
}

/// Pushing into a queue with a free entry and then taking from a queue whose
/// earlier entries are empty gives the pushed value back and leaves the queue
/// as it was.
pub proof fn lemma_push_then_take<T>(entries: Seq<Option<T>>, value: T)
    requires
        forall|i: int| 0 <= i < entries.len() ==> entries[i] is None,
        entries.len() > 0,
    ensures
        first_empty(entries) == 0,
        first_full(entries.update(0, Some(value))) == 0,
        entries.update(0, Some(value)).update(0, None) == entries,
{
    assert(entries.update(0, Some(value)).update(0, None) =~= entries);
}

} // verus!
