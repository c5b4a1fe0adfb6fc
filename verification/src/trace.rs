//! The sequence numbers of the geometry trace log: every logged event gets
//! the next number of a counter that starts at 0 and is reset when the log
//! is cleared, so the events of one process are totally ordered without a
//! clock.
use vstd::prelude::*;

verus! {

/// The number after `v`, wrapping around after `u64::MAX`.
pub open spec fn next_number(v: u64) -> u64 {
    if v == u64::MAX {
        0
    } else {
        (v + 1) as u64
    }
}

/// The trace log's event counter.
pub struct TraceSeq {
    next: u64,
}

impl TraceSeq {
    /// The number the next logged event gets.
    pub closed spec fn upcoming(&self) -> u64 {
        self.next
    }

    /// A counter for a fresh log: the first event gets 0.
    pub fn new() -> (t: TraceSeq)
        ensures
            t.upcoming() == 0,
    {
        TraceSeq { next: 0 }
    }

    /// The log was truncated: numbering starts again at 0.
    pub fn clear(&mut self)
        ensures
            final(self).upcoming() == 0,
    {
        self.next = 0;
    }

    /// Number one event: returns the number it gets and moves on by one
    /// (wrapping around after `u64::MAX`, as an atomic counter does).
    pub fn log(&mut self) -> (seq: u64)
        ensures
            seq == old(self).upcoming(),
            final(self).upcoming() == next_number(old(self).upcoming()),
    {
        let seq = self.next;
        self.next = if self.next == u64::MAX {
            0
        } else {
            self.next + 1
        };
        seq
    }
}

/// After the log is cleared, its events are numbered 0, 1, 2, … in the
/// order they are logged: for `log` called `n` times on a counter at 0
/// (`upcoming[i]` the counter before call `i`, `numbers[i]` what call `i`
/// returned), call `i` returns `i` and the counter ends at `n`.
pub proof fn cleared_log_numbers_from_zero(upcoming: Seq<u64>, numbers: Seq<u64>)
    requires
        upcoming.len() == numbers.len() + 1,
        numbers.len() <= u64::MAX,
        upcoming[0] == 0,
        forall|i: int|
            0 <= i < numbers.len() ==> #[trigger] numbers[i] == upcoming[i] && upcoming[i + 1] == next_number(
                upcoming[i],
            ),
    ensures
        forall|i: int| 0 <= i < numbers.len() ==> #[trigger] numbers[i] == i,
        upcoming[numbers.len() as int] == numbers.len(),
    decreases numbers.len(),
{
    if numbers.len() > 0 {
        let n = numbers.len() - 1;
        let front = numbers.subrange(0, n);
        cleared_log_numbers_from_zero(upcoming.subrange(0, n + 1), front);
        assert(forall|i: int| 0 <= i < n ==> front[i] == numbers[i]);
        assert(upcoming.subrange(0, n + 1)[n] == upcoming[n]);
        assert(numbers[n] == upcoming[n]);
    }
}

} // verus!
