//! The sequence numbers that records are given.
use vstd::prelude::*;

verus! {

/// Shared monotonic sequence counter for logs and spans.
#[derive(Debug)]
pub struct SeqCounter {
    counter: u64,
}

impl View for SeqCounter {
    type V = u64;

    closed spec fn view(&self) -> u64 {
        self.counter
    }
}

/// The seqs that `n` calls of [`SeqCounter::next`] return, of a counter that began
/// at `initial`.
pub open spec fn returned(initial: u64, n: nat) -> Seq<u64>
    decreases n,
{
    if n == 0 {
        seq![]
    } else {
        returned(initial, (n - 1) as nat).push(next_after(reached(initial, (n - 1) as nat)))
    }
}

/// Where a counter that began at `initial` stands after `n` calls of
/// [`SeqCounter::next`].
pub open spec fn reached(initial: u64, n: nat) -> u64
    decreases n,
{
    if n == 0 {
        initial
    } else {
        next_after(reached(initial, (n - 1) as nat))
    }
}

/// The seq that comes after `current`.
pub open spec fn next_after(current: u64) -> u64 {
    (current + 1) as u64
}

/// Where a counter stands is the seq that it returned last, or where it began as
/// long as it returned none; and the seqs that it returns are those after where it
/// began, one by one.
pub proof fn current_is_what_was_returned_last(initial: u64, n: nat, i: int)
    requires
        initial + n <= u64::MAX,
    ensures
        returned(initial, n).len() == n,
        reached(initial, n) == (if n == 0 {
            initial
        } else {
            returned(initial, n).last()
        }),
        reached(initial, n) == initial + n,
        0 <= i < n ==> returned(initial, n)[i] == initial + i + 1,
    decreases n,
{
    if n > 0 {
        current_is_what_was_returned_last(initial, (n - 1) as nat, i);
    }
}

impl Default for SeqCounter {
    fn default() -> (r: Self)
        ensures
            r@ == 0,
    {
        SeqCounter::new()
    }
}

impl SeqCounter {
    pub fn new() -> (r: Self)
        ensures
            r@ == 0,
    {
        SeqCounter { counter: 0 }
    }

    pub fn new_with_initial(initial: u64) -> (r: Self)
        ensures
            r@ == initial,
    {
        SeqCounter { counter: initial }
    }

    /// Returns the next sequence number. Always at least 1: `seq = 0` is
    /// reserved as a sentinel for "before all records", used by cursor
    /// auto-create.
    pub fn next(&mut self) -> (seq: u64)
        requires
            old(self)@ < u64::MAX,
        ensures
            seq == next_after(old(self)@),
            seq == old(self)@ + 1,
            final(self)@ == seq,
            seq >= 1,
    {
        self.counter = self.counter + 1;
        self.counter
    }

    /// Returns the most-recently-assigned seq (the value `next()` last returned).
    pub fn current(&self) -> (seq: u64)
        ensures
            seq == self@,
    {
        self.counter
    }
}

} // verus!
