//! Shared infrastructure of a domain: store, pre-buffer, seq counter and the
//! record of the storage policy over the seq axis.
use crate::clock::Timestamp;
use crate::engine::epoch::{EpochLog, EpochLogView, FilterPolicy};
use crate::engine::pre_buffer::{PreBufferView, PreTriggerBuffer};
use crate::engine::seq_counter::SeqCounter;
use crate::gelf::message::{LogEntry, LogEntryView};
use crate::span::types::TraceSummary;
use crate::store::memory::{all_wf, entry_list, held, of_trace, InMemoryStore, StoreView};
use crate::store::selection::{
    clone_at, lemma_unbounded_walk, matching, pick, records_at, scanned, selection,
};
use vstd::prelude::*;

verus! {

/// Event emitted when a trigger fires.
///
/// The `session_id` field tags every event with the session it belongs to: one
/// broadcast serves all connected clients, so each connection filters by it
/// before forwarding to its socket.
#[derive(Debug)]
pub struct PipelineEvent {
    pub session_id: String,
    pub trigger_id: u32,
    pub trigger_description: Option<String>,
    pub filter_string: String,
    pub matched_entry: LogEntry,
    pub context_before: Vec<LogEntry>,
    /// How many records were flushed from the pre-buffer for this match: the smaller
    /// of its `pre_window` and of what was at hand.
    pub pre_trigger_flushed: usize,
    /// The trigger's configured `pre_window`.
    pub pre_window: u32,
    pub post_window_size: u32,
    /// The trigger's configured `notify_context`.
    pub notify_context: u32,
    /// The trigger's configured `oneshot` flag, so clients can know this is the
    /// last fire.
    pub oneshot: bool,
    pub trace_id: Option<u128>,
    /// What is told of the trace of a span that matched.
    pub trace_summary: Option<TraceSummary>,
}

/// Buffer filter info.
#[derive(Debug, PartialEq, Eq)]
pub struct FilterInfo {
    pub id: u32,
    pub filter_string: String,
    pub description: Option<String>,
}

/// Buffer and scan statistics of a query.
#[derive(Debug, Clone, Copy, PartialEq, Eq, Structural)]
pub struct RecentStats {
    pub scanned: usize,
    pub buffer_total: usize,
    pub buffer_oldest_seq: Option<u64>,
    pub buffer_newest_seq: Option<u64>,
}

impl RecentStats {
    /// What is said of the buffer is true of it.
    pub open spec fn reports(self, p: PipelineView) -> bool {
        &&& self.buffer_total == p.store.entries.len()
        &&& self.buffer_oldest_seq == p.oldest()
        &&& self.buffer_newest_seq == p.newest()
    }
}

/// Store, pre-buffer, seq counter and epochs of one domain.
#[derive(Debug)]
pub struct LogPipeline {
    store: InMemoryStore,
    pre_buffer: PreTriggerBuffer,
    seq_counter: SeqCounter,
    /// What storage policy governed each stretch of this pipeline's seq axis.
    epochs: EpochLog,
}

/// What a [`LogPipeline`] holds.
#[verifier::ext_equal]
pub struct PipelineView {
    pub store: StoreView,
    pub pre_buffer: PreBufferView,
    pub seq: u64,
    pub epochs: EpochLogView,
}

impl PipelineView {
    /// The seq of the oldest stored record.
    pub open spec fn oldest(self) -> Option<u64> {
        if self.store.entries.len() > 0 {
            Some(self.store.entries[0].seq)
        } else {
            None
        }
    }

    /// The seq of the newest stored record.
    pub open spec fn newest(self) -> Option<u64> {
        if self.store.entries.len() > 0 {
            Some(self.store.entries.last().seq)
        } else {
            None
        }
    }
}

impl View for LogPipeline {
    type V = PipelineView;

    closed spec fn view(&self) -> PipelineView {
        PipelineView {
            store: self.store@,
            pre_buffer: self.pre_buffer@,
            seq: self.seq_counter@,
            epochs: self.epochs@,
        }
    }
}

/// A policy transition that a case recorded: from that seq on, these filters.
#[derive(Debug)]
pub struct Narrowing {
    pub seq: u64,
    pub policy: FilterPolicy,
}

/// A log after the recorded transitions.
pub open spec fn replayed(log: EpochLogView, narrowing: Seq<Narrowing>) -> EpochLogView
    decreases narrowing.len(),
{
    if narrowing.len() == 0 {
        log
    } else {
        replayed(log, narrowing.drop_last()).observed(narrowing.last().seq, narrowing.last().policy@)
    }
}

impl LogPipeline {
    /// Each part is well formed.
    pub closed spec fn wf(&self) -> bool {
        self.store.wf() && self.pre_buffer.wf() && self.epochs.wf()
    }

    pub fn new(store_capacity: usize) -> (r: Self)
        ensures
            r.wf(),
            r@ == fresh_pipeline(store_capacity as nat, 0),
    {
        LogPipeline::new_with_seq_counter(store_capacity, SeqCounter::new())
    }

    pub fn new_with_seq(store_capacity: usize, initial_seq: u64) -> (r: Self)
        ensures
            r.wf(),
            r@ == fresh_pipeline(store_capacity as nat, initial_seq),
    {
        LogPipeline::new_with_seq_counter(store_capacity, SeqCounter::new_with_initial(initial_seq))
    }

    /// A pipeline on a counter. The epoch log opens at wherever the counter
    /// starts: for a restored domain that is the seq the previous incarnation
    /// reached, so a window carried over from that run falls below the log.
    pub fn new_with_seq_counter(store_capacity: usize, seq_counter: SeqCounter) -> (r: Self)
        ensures
            r.wf(),
            r@ == fresh_pipeline(store_capacity as nat, seq_counter@),
    {
        let epochs = EpochLog::new(seq_counter.current());
        LogPipeline {
            store: InMemoryStore::new(store_capacity),
            pre_buffer: PreTriggerBuffer::new(0),
            seq_counter,
            epochs,
        }
    }

    /// A pipeline already holding a loaded case's records.
    ///
    /// **`epoch_origin` is a parameter, not the counter's value**: the counter
    /// sits at the window's top, so that a read without a range ends there, and
    /// the origin just below its floor, so that the log can vouch for it.
    ///
    /// `narrowing` gives the policy transitions the case recorded. A baseline
    /// unfiltered epoch is always written first: an empty log covers nothing,
    /// since silence is not evidence of an unfiltered store.
    pub fn from_records(
        store_capacity: usize,
        seq_counter: SeqCounter,
        epoch_origin: u64,
        narrowing: &Vec<Narrowing>,
        records: Vec<LogEntry>,
        lost_below: u64,
    ) -> (r: Self)
        requires
            all_wf(records@),
        ensures
            r.wf(),
            r@.store == held(
                StoreView { entries: seq![], capacity: store_capacity as nat, lost_below },
                entry_list(records@),
            ),
            r@.pre_buffer == (PreBufferView { entries: seq![], size: 0 }),
            r@.seq == seq_counter@,
            r@.epochs == replayed(
                EpochLogView { epochs: seq![], origin_seq: epoch_origin }.observed(
                    epoch_origin,
                    seq![],
                ),
                narrowing@,
            ),
    {
        let mut log = EpochLog::new(epoch_origin);
        let unfiltered = FilterPolicy::new(Vec::new());
        proof {
            assert forall|s: Seq<char>| !unfiltered@.contains(s) by {
                assert(!crate::text::text_views(Seq::<String>::empty()).contains(s));
            }
            if unfiltered@.len() > 0 {
                assert(unfiltered@.contains(unfiltered@[0]));
            }
            assert(unfiltered@ =~= seq![]);
        }
        log.observe(epoch_origin, &unfiltered);
        let ghost base = log@;
        let mut i: usize = 0;
        proof {
            assert(narrowing@.take(0) =~= seq![]);
        }
        while i < narrowing.len()
            invariant
                log.wf(),
                i <= narrowing@.len(),
                log@ == replayed(base, narrowing@.take(i as int)),
            decreases narrowing@.len() - i,
        {
            proof {
                assert(narrowing@.take(i + 1).drop_last() =~= narrowing@.take(i as int));
                assert(narrowing@.take(i + 1).last() == narrowing@[i as int]);
            }
            log.observe(narrowing[i].seq, &narrowing[i].policy);
            i += 1;
        }
        proof {
            assert(narrowing@.take(narrowing@.len() as int) =~= narrowing@);
        }
        LogPipeline {
            store: InMemoryStore::from_records(store_capacity, records, lost_below),
            pre_buffer: PreTriggerBuffer::new(0),
            seq_counter,
            epochs: log,
        }
    }

    /// This pipeline's record of the storage policy over its seq axis.
    pub fn epochs(&self) -> (r: &EpochLog)
        requires
            self.wf(),
        ensures
            r.wf(),
            r@ == self@.epochs,
    {
        &self.epochs
    }

    /// Record that `seq` was decided under `policy`.
    pub fn observe_policy(&mut self, seq: u64, policy: &FilterPolicy)
        requires
            old(self).wf(),
        ensures
            final(self).wf(),
            final(self)@ == (PipelineView {
                epochs: old(self)@.epochs.observed(seq, policy@),
                ..old(self)@
            }),
    {
        self.epochs.observe(seq, policy);
    }

    /// The lowest seq the log store can still speak for; `0` when nothing has
    /// ever left it.
    pub fn lost_below(&self) -> (r: u64)
        ensures
            r == self@.store.lost_below,
    {
        self.store.lost_below()
    }

    pub fn assign_seq(&mut self) -> (seq: u64)
        requires
            old(self).wf(),
            old(self)@.seq < u64::MAX,
        ensures
            final(self).wf(),
            seq == old(self)@.seq + 1,
            final(self)@ == (PipelineView { seq, ..old(self)@ }),
    {
        self.seq_counter.next()
    }

    /// The highest seq assigned so far, or `0` if none.
    pub fn current_seq(&self) -> (r: u64)
        ensures
            r == self@.seq,
    {
        self.seq_counter.current()
    }

    pub fn store_len(&self) -> (r: usize)
        ensures
            r == self@.store.entries.len(),
    {
        self.store.len()
    }

    /// The stored records, in the order in which they were stored.
    pub fn stored(&self) -> (r: &Vec<LogEntry>)
        requires
            self.wf(),
        ensures
            all_wf(r@),
            entry_list(r@) == self@.store.entries,
    {
        self.store.entries()
    }

    pub fn append_to_store(&mut self, entry: LogEntry)
        requires
            old(self).wf(),
            entry.wf(),
        ensures
            final(self).wf(),
            final(self)@ == (PipelineView {
                store: old(self)@.store.appended(entry@),
                ..old(self)@
            }),
    {
        self.store.append(entry);
    }

    pub fn contains_seq(&self, seq: u64) -> (r: bool)
        ensures
            r == self@.store.has_seq(seq),
    {
        self.store.contains_seq(seq)
    }

    /// Lets every record go, and says how many there were.
    pub fn clear_logs(&mut self) -> (n: usize)
        requires
            old(self).wf(),
        ensures
            final(self).wf(),
            n == old(self)@.store.entries.len(),
            final(self)@ == (PipelineView { store: old(self)@.store.cleared(), ..old(self)@ }),
    {
        self.store.clear()
    }

    /// The first `count` stored records that match, oldest or newest first.
    /// `matches` says of each stored record whether it does.
    pub fn recent_logs(&self, count: usize, matches: &Vec<bool>, oldest_first: bool) -> (r: Vec<
        LogEntry,
    >)
        requires
            self.wf(),
            matches@.len() == self@.store.entries.len(),
        ensures
            all_wf(r@),
            entry_list(r@) == records_at(
                self@.store.entries,
                selection(matches@, count as nat, oldest_first),
            ),
    {
        let picked = pick(matches, count, oldest_first);
        clone_at(self.store.entries(), &picked.at)
    }

    /// Like [`LogPipeline::recent_logs`], with what the read reports of the
    /// buffer.
    pub fn recent_logs_with_stats(&self, count: usize, matches: &Vec<bool>, oldest_first: bool) -> (r:
        (Vec<LogEntry>, RecentStats))
        requires
            self.wf(),
            matches@.len() == self@.store.entries.len(),
        ensures
            all_wf(r.0@),
            entry_list(r.0@) == records_at(
                self@.store.entries,
                selection(matches@, count as nat, oldest_first),
            ),
            r.1.scanned == scanned(matches@, count as nat, oldest_first),
            r.1.reports(self@),
    {
        let picked = pick(matches, count, oldest_first);
        (clone_at(self.store.entries(), &picked.at), self.stats(picked.scanned))
    }

    /// The **whole** matching population, oldest first, however large it is: a
    /// summary of the first so many would describe a slice of the buffer while
    /// claiming to describe the buffer. Every record is looked at.
    pub fn for_each_log(&self, matches: &Vec<bool>) -> (r: (Vec<LogEntry>, RecentStats))
        requires
            self.wf(),
            matches@.len() == self@.store.entries.len(),
        ensures
            all_wf(r.0@),
            entry_list(r.0@) == records_at(
                self@.store.entries,
                selection(matches@, matches@.len(), true),
            ),
            r.0@.len() == matching(matches@),
            r.1.scanned == matches@.len(),
            r.1.reports(self@),
    {
        let picked = pick(matches, matches.len(), true);
        proof {
            lemma_unbounded_walk(matches@, matches@.len(), matches@.len());
        }
        let logs = clone_at(self.store.entries(), &picked.at);
        proof {
            assert(entry_list(logs@).len() == logs@.len());
        }
        (logs, self.stats(picked.scanned))
    }

    /// When the oldest stored record was sent.
    pub fn oldest_log_timestamp(&self) -> (r: Option<Timestamp>)
        requires
            self.wf(),
        ensures
            r == if self@.store.entries.len() > 0 {
                Some(self@.store.entries[0].timestamp)
            } else {
                None
            },
    {
        let entries = self.store.entries();
        if entries.len() == 0 {
            None
        } else {
            Some(entries[0].timestamp)
        }
    }

    /// What a read that scanned `scanned` records reports of the buffer.
    pub fn stats(&self, scanned: usize) -> (r: RecentStats)
        ensures
            r.scanned == scanned,
            r.reports(self@),
    {
        RecentStats {
            scanned,
            buffer_total: self.store.len(),
            buffer_oldest_seq: self.store.oldest_seq(),
            buffer_newest_seq: self.store.newest_seq(),
        }
    }

    /// Seq of the oldest log entry currently in the store, or `None` if empty.
    pub fn oldest_log_seq(&self) -> (r: Option<u64>)
        ensures
            r == self@.oldest(),
    {
        self.store.oldest_seq()
    }

    /// Seq of the newest log entry currently in the store, or `None` if empty.
    pub fn newest_log_seq(&self) -> (r: Option<u64>)
        ensures
            r == self@.newest(),
    {
        self.store.newest_seq()
    }

    pub fn context_by_seq(&self, seq: u64, before: usize, after: usize) -> (r: Vec<LogEntry>)
        requires
            self.wf(),
        ensures
            all_wf(r@),
            entry_list(r@) == self@.store.context(seq, before as nat, after as nat),
    {
        self.store.context_by_seq(seq, before, after)
    }

    /// Return log entries from the store matching the given trace_id.
    pub fn logs_by_trace_id(&self, trace_id: u128) -> (r: Vec<LogEntry>)
        requires
            self.wf(),
        ensures
            all_wf(r@),
            entry_list(r@) == of_trace(self@.store.entries, trace_id),
    {
        self.store.logs_by_trace_id(trace_id)
    }

    /// Return count of log entries in the store matching the given trace_id.
    pub fn count_by_trace_id(&self, trace_id: u128) -> (n: usize)
        requires
            self.wf(),
        ensures
            n == of_trace(self@.store.entries, trace_id).len(),
    {
        let found = self.store.logs_by_trace_id(trace_id);
        proof {
            assert(entry_list(found@).len() == found@.len());
        }
        found.len()
    }

    pub fn pre_buffer_append(&mut self, entry: LogEntry)
        requires
            old(self).wf(),
            entry.wf(),
        ensures
            final(self).wf(),
            final(self)@ == (PipelineView {
                pre_buffer: old(self)@.pre_buffer.appended(entry@),
                ..old(self)@
            }),
    {
        self.pre_buffer.append(entry);
    }

    /// How many records the pre-buffer holds.
    pub fn pre_buffer_len(&self) -> (n: usize)
        ensures
            n == self@.pre_buffer.entries.len(),
    {
        self.pre_buffer.len()
    }

    /// Copies of the last `count` records of the pre-buffer.
    pub fn pre_buffer_copy(&self, count: usize) -> (r: Vec<LogEntry>)
        requires
            self.wf(),
        ensures
            all_wf(r@),
            entry_list(r@) == crate::engine::pre_buffer::last_of(
                self@.pre_buffer.entries,
                count as nat,
            ),
    {
        self.pre_buffer.flush(count)
    }

    pub fn resize_pre_buffer(&mut self, size: usize)
        requires
            old(self).wf(),
        ensures
            final(self).wf(),
            final(self)@ == (PipelineView {
                pre_buffer: old(self)@.pre_buffer.resized(size as nat),
                ..old(self)@
            }),
    {
        self.pre_buffer.resize(size);
    }

    /// Return copies of pre-buffer entries matching the given trace_id.
    pub fn pre_buffer_entries_by_trace_id(&self, trace_id: u128) -> (r: Vec<LogEntry>)
        requires
            self.wf(),
        ensures
            all_wf(r@),
            entry_list(r@) == of_trace(self@.pre_buffer.entries, trace_id),
    {
        self.pre_buffer.entries_by_trace_id(trace_id)
    }
}

/// An empty pipeline whose counter stands at `seq`.
pub open spec fn fresh_pipeline(capacity: nat, seq: u64) -> PipelineView {
    PipelineView {
        store: StoreView { entries: seq![], capacity, lost_below: 0 },
        pre_buffer: PreBufferView { entries: seq![], size: 0 },
        seq,
        epochs: EpochLogView { epochs: seq![], origin_seq: seq },
    }
}

/// A new pipeline holds nothing, goes on from the seq that it is given, and has room for as
/// many records as it is given.
pub proof fn new_pipelines_are_empty(capacity: nat, seq: u64)
    ensures
        fresh_pipeline(capacity, seq).store.entries.len() == 0,
        fresh_pipeline(capacity, seq).store.capacity == capacity,
        fresh_pipeline(capacity, seq).store.lost_below == 0,
        fresh_pipeline(capacity, seq).pre_buffer.entries.len() == 0,
        fresh_pipeline(capacity, seq).seq == seq,
        fresh_pipeline(capacity, seq).oldest() is None,
        fresh_pipeline(capacity, seq).newest() is None,
{
}

/// The oldest record is the one that was stored first of those that are there, the newest
/// the one that was stored last.
pub proof fn ends_are_the_first_and_the_last(p: PipelineView, stats: RecentStats)
    requires
        stats.reports(p),
    ensures
        stats.buffer_total == p.store.entries.len(),
        p.store.entries.len() == 0 ==> stats.buffer_oldest_seq is None
            && stats.buffer_newest_seq is None,
        p.store.entries.len() > 0 ==> stats.buffer_oldest_seq == Some(p.store.entries[0].seq)
            && stats.buffer_newest_seq == Some(p.store.entries[p.store.entries.len() - 1].seq),
{
}

/// Policies are replayed one after the other.
pub proof fn policies_are_replayed_in_order(
    log: EpochLogView,
    narrowing: Seq<Narrowing>,
    last: Narrowing,
)
    ensures
        replayed(log, seq![]) == log,
        replayed(log, narrowing.push(last)) == replayed(log, narrowing).observed(
            last.seq,
            last.policy@,
        ),
{
    assert(narrowing.push(last).drop_last() =~= narrowing);
}

} // verus!
