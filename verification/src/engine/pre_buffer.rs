//! The records that came just before now, kept for triggers to look back at.
use crate::gelf::message::{LogEntry, LogEntryView};
use crate::store::memory::{all_wf, clone_range, clone_trace, entry_list, of_trace};
use vstd::prelude::*;

verus! {

/// The last records, as many as its size allows.
#[derive(Debug)]
pub struct PreTriggerBuffer {
    entries: Vec<LogEntry>,
    size: usize,
}

/// What a [`PreTriggerBuffer`] holds.
#[verifier::ext_equal]
pub struct PreBufferView {
    pub entries: Seq<LogEntryView>,
    pub size: nat,
}

/// The last `n` of a list, or all of it where it is shorter.
pub open spec fn last_of(entries: Seq<LogEntryView>, n: nat) -> Seq<LogEntryView> {
    if entries.len() <= n {
        entries
    } else {
        entries.skip(entries.len() - n)
    }
}

impl PreBufferView {
    /// The buffer after a record came in.
    pub open spec fn appended(self, e: LogEntryView) -> PreBufferView {
        PreBufferView { entries: last_of(self.entries.push(e), self.size), ..self }
    }

    /// The buffer with room for `size` records.
    pub open spec fn resized(self, size: nat) -> PreBufferView {
        PreBufferView { entries: last_of(self.entries, size), size }
    }
}

impl View for PreTriggerBuffer {
    type V = PreBufferView;

    closed spec fn view(&self) -> PreBufferView {
        PreBufferView { entries: entry_list(self.entries@), size: self.size as nat }
    }
}

impl PreTriggerBuffer {
    /// Each record is well formed, and there is room for all of them.
    pub closed spec fn wf(&self) -> bool {
        all_wf(self.entries@) && self.entries@.len() <= self.size
    }

    pub fn new(size: usize) -> (r: Self)
        ensures
            r.wf(),
            r@ == (PreBufferView { entries: seq![], size: size as nat }),
    {
        let r = PreTriggerBuffer { entries: Vec::new(), size };
        proof {
            assert(r@.entries =~= seq![]);
        }
        r
    }

    fn shrink(&mut self, size: usize)
        requires
            all_wf(old(self).entries@),
        ensures
            final(self).wf(),
            final(self)@ == old(self)@.resized(size as nat),
    {
        let ghost before = self.entries@;
        let n: usize = self.entries.len();
        if n > size {
            self.entries = clone_range(&self.entries, n - size, n);
            proof {
                assert(entry_list(self.entries@) =~= entry_list(before).skip(n - size));
                assert(self.entries@.len() == entry_list(self.entries@).len());
            }
        }
        self.size = size;
    }

    pub fn append(&mut self, entry: LogEntry)
        requires
            old(self).wf(),
            entry.wf(),
        ensures
            final(self).wf(),
            final(self)@ == old(self)@.appended(entry@),
    {
        let ghost before = self@;
        let ghost e = entry@;
        self.entries.push(entry);
        proof {
            assert(entry_list(self.entries@) =~= before.entries.push(e));
        }
        let size: usize = self.size;
        self.shrink(size);
    }

    /// How many records it holds.
    pub fn len(&self) -> (n: usize)
        ensures
            n == self@.entries.len(),
    {
        self.entries.len()
    }

    /// Copies of the last `count` records.
    pub fn flush(&self, count: usize) -> (r: Vec<LogEntry>)
        requires
            self.wf(),
        ensures
            all_wf(r@),
            entry_list(r@) == last_of(self@.entries, count as nat),
    {
        let n: usize = self.entries.len();
        let r = clone_range(&self.entries, n.saturating_sub(count), n);
        proof {
            assert(entry_list(r@) =~= last_of(self@.entries, count as nat));
        }
        r
    }

    pub fn resize(&mut self, size: usize)
        requires
            old(self).wf(),
        ensures
            final(self).wf(),
            final(self)@ == old(self)@.resized(size as nat),
    {
        self.shrink(size);
    }

    /// Copies of the records of a trace.
    pub fn entries_by_trace_id(&self, trace_id: u128) -> (r: Vec<LogEntry>)
        requires
            self.wf(),
        ensures
            all_wf(r@),
            entry_list(r@) == of_trace(self@.entries, trace_id),
    {
        clone_trace(&self.entries, trace_id)
    }
}

/// The buffer keeps the records that came last, as many as it has room for and in
/// their order; the one that has just come is the last of them.
pub proof fn the_last_records_are_kept(b: PreBufferView, e: LogEntryView, j: int)
    requires
        b.entries.len() <= b.size,
        0 <= j <= b.entries.len(),
    ensures
        ({
            let came = b.entries.push(e);
            let after = b.appended(e);
            let kept = after.entries;
            &&& after.size == b.size
            &&& kept.len() <= b.size
            &&& kept.len() == (if came.len() < b.size {
                came.len()
            } else {
                b.size
            })
            &&& came.len() - j <= b.size ==> kept[kept.len() - (came.len() - j)] == came[j]
            &&& b.size > 0 ==> kept.last() == e
        }),
{
}

/// Resizing keeps the records that came last, as many as there is then room for.
pub proof fn resizing_keeps_the_last(b: PreBufferView, size: nat, j: int)
    requires
        0 <= j < b.entries.len(),
    ensures
        ({
            let after = b.resized(size);
            let kept = after.entries;
            &&& after.size == size
            &&& kept.len() == (if b.entries.len() < size {
                b.entries.len()
            } else {
                size
            })
            &&& b.entries.len() - j <= size ==> kept[kept.len() - (b.entries.len() - j)]
                == b.entries[j]
        }),
{
}

} // verus!
