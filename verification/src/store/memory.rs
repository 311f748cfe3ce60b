//! The bounded store of log records.
use crate::gelf::message::{LogEntry, LogEntryView};
use vstd::prelude::*;

verus! {

/// The records of a domain, in the order in which they were stored. When it is
/// full, the one that was stored first makes room.
#[derive(Debug)]
pub struct InMemoryStore {
    entries: Vec<LogEntry>,
    capacity: usize,
    lost_below: u64,
}

/// What an [`InMemoryStore`] holds.
#[verifier::ext_equal]
pub struct StoreView {
    pub entries: Seq<LogEntryView>,
    pub capacity: nat,
    /// The lowest seq that the store can still speak for.
    pub lost_below: u64,
}

/// The views of a list of records.
pub open spec fn entry_list(entries: Seq<LogEntry>) -> Seq<LogEntryView> {
    entries.map_values(|e: LogEntry| e@)
}

/// Whether every record of a list is well formed.
pub open spec fn all_wf(entries: Seq<LogEntry>) -> bool {
    forall|i: int| 0 <= i < entries.len() ==> (#[trigger] entries[i]).wf()
}

/// The seq after `seq`, or the last one.
pub open spec fn after_seq(seq: u64) -> u64 {
    if seq == u64::MAX {
        seq
    } else {
        (seq + 1) as u64
    }
}

/// What is lost below once these records have left as well.
pub open spec fn lost_with(lost_below: u64, gone: Seq<LogEntryView>) -> u64
    decreases gone.len(),
{
    if gone.len() == 0 {
        lost_below
    } else {
        let before = lost_with(lost_below, gone.drop_last());
        if after_seq(gone.last().seq) > before {
            after_seq(gone.last().seq)
        } else {
            before
        }
    }
}

impl StoreView {
    /// Whether a record of that seq is stored.
    pub open spec fn has_seq(self, seq: u64) -> bool {
        exists|i: int| 0 <= i < self.entries.len() && (#[trigger] self.entries[i]).seq == seq
    }

    /// Where the record of a seq stands; the first, if there are several.
    pub open spec fn is_first_at(self, seq: u64, i: int) -> bool {
        &&& 0 <= i < self.entries.len()
        &&& self.entries[i].seq == seq
        &&& forall|k: int| 0 <= k < i ==> (#[trigger] self.entries[k]).seq != seq
    }

    /// The store after it had to let its oldest record go.
    pub open spec fn evicted(self) -> StoreView {
        StoreView {
            entries: self.entries.skip(1),
            lost_below: if after_seq(self.entries[0].seq) > self.lost_below {
                after_seq(self.entries[0].seq)
            } else {
                self.lost_below
            },
            ..self
        }
    }

    /// The store after a record was appended.
    pub open spec fn appended(self, e: LogEntryView) -> StoreView {
        let all = StoreView { entries: self.entries.push(e), ..self };
        if all.entries.len() > self.capacity {
            all.evicted()
        } else {
            all
        }
    }

    /// The store after it has let all its records go. It then speaks for what comes
    /// behind the highest of them, unless it spoke for less before.
    pub open spec fn cleared(self) -> StoreView {
        StoreView {
            entries: seq![],
            lost_below: lost_with(self.lost_below, self.entries),
            ..self
        }
    }

    /// At most as many records as there is room for.
    pub open spec fn bounded(self) -> bool {
        self.entries.len() <= self.capacity
    }

    /// No seq is stored twice.
    pub open spec fn distinct(self) -> bool {
        forall|i: int, j: int|
            0 <= i < j < self.entries.len() ==> (#[trigger] self.entries[i]).seq != (
            #[trigger] self.entries[j]).seq
    }

    /// The records around the one of a seq: that one, `before` before it and
    /// `after` behind it, as far as there are any.
    pub open spec fn context(self, seq: u64, before: nat, after: nat) -> Seq<LogEntryView> {
        if self.has_seq(seq) {
            let i = choose|i: int| self.is_first_at(seq, i);
            let from = if i >= before {
                i - before
            } else {
                0
            };
            let to = if i + after + 1 <= self.entries.len() {
                i + after + 1
            } else {
                self.entries.len() as int
            };
            self.entries.subrange(from, to)
        } else {
            seq![]
        }
    }
}

impl View for InMemoryStore {
    type V = StoreView;

    closed spec fn view(&self) -> StoreView {
        StoreView {
            entries: entry_list(self.entries@),
            capacity: self.capacity as nat,
            lost_below: self.lost_below,
        }
    }
}

proof fn lemma_first_unique(s: StoreView, seq: u64, i: int, j: int)
    requires
        s.is_first_at(seq, i),
        s.is_first_at(seq, j),
    ensures
        i == j,
{
    if i < j {
        assert(s.entries[i].seq != seq);
    } else if j < i {
        assert(s.entries[j].seq != seq);
    }
}

impl InMemoryStore {
    /// Each record is well formed, and there is room for all of them.
    pub closed spec fn wf(&self) -> bool {
        all_wf(self.entries@) && self@.bounded()
    }

    pub fn new(capacity: usize) -> (r: Self)
        ensures
            r.wf(),
            r@ == (StoreView { entries: seq![], capacity: capacity as nat, lost_below: 0 }),
    {
        let r = InMemoryStore { entries: Vec::new(), capacity, lost_below: 0 };
        proof {
            assert(r@.entries =~= seq![]);
        }
        r
    }

    /// A store that already holds records. What does not fit is let go, the
    /// first of them first.
    pub fn from_records(capacity: usize, records: Vec<LogEntry>, lost_below: u64) -> (r: Self)
        requires
            all_wf(records@),
        ensures
            r.wf(),
            r@ == held(
                StoreView { entries: seq![], capacity: capacity as nat, lost_below },
                entry_list(records@),
            ),
    {
        let mut r = InMemoryStore { entries: Vec::new(), capacity, lost_below };
        let ghost empty = r@;
        let ghost all = entry_list(records@);
        let mut i: usize = 0;
        proof {
            assert(r@.entries =~= seq![]);
            assert(all.take(0) =~= seq![]);
        }
        while i < records.len()
            invariant
                all_wf(records@),
                all == entry_list(records@),
                i <= records@.len(),
                r.wf(),
                r@ == held(empty, all.take(i as int)),
            decreases records@.len() - i,
        {
            proof {
                assert(all.take(i + 1).drop_last() =~= all.take(i as int));
                assert(all.take(i + 1).last() == records@[i as int]@);
            }
            r.append(records[i].clone());
            i += 1;
        }
        proof {
            assert(all.take(all.len() as int) =~= all);
        }
        r
    }

    /// Stores a record, behind the others.
    pub fn append(&mut self, entry: LogEntry)
        requires
            old(self).wf(),
            entry.wf(),
        ensures
            final(self).wf(),
            final(self)@ == old(self)@.appended(entry@),
    {
        let ghost before = self@;
        let ghost e = entry@;
        self.entries.push(entry);
        proof {
            assert(entry_list(self.entries@) =~= before.entries.push(e));
        }
        if self.entries.len() > self.capacity {
            let ghost all = self.entries@;
            proof {
                assert(entry_list(all)[0] == all[0]@);
            }
            let gone: u64 = self.entries[0].seq.saturating_add(1);
            if gone > self.lost_below {
                self.lost_below = gone;
            }
            self.entries.remove(0);
            proof {
                assert(entry_list(self.entries@) =~= before.entries.push(e).skip(1));
            }
        }
    }

    pub fn len(&self) -> (n: usize)
        ensures
            n == self@.entries.len(),
    {
        self.entries.len()
    }

    /// The records, in the order in which they were stored.
    pub fn entries(&self) -> (r: &Vec<LogEntry>)
        requires
            self.wf(),
        ensures
            all_wf(r@),
            entry_list(r@) == self@.entries,
    {
        &self.entries
    }

    /// The lowest seq the store can still speak for; `0` when nothing has ever
    /// left it.
    pub fn lost_below(&self) -> (r: u64)
        ensures
            r == self@.lost_below,
    {
        self.lost_below
    }

    fn position(&self, seq: u64) -> (r: Option<usize>)
        ensures
            match r {
                Some(i) => self@.is_first_at(seq, i as int) && self@.has_seq(seq),
                None => !self@.has_seq(seq),
            },
    {
        let ghost all = self@.entries;
        let mut i: usize = 0;
        while i < self.entries.len()
            invariant
                all == self@.entries,
                i <= self.entries@.len(),
                forall|k: int| 0 <= k < i ==> (#[trigger] all[k]).seq != seq,
            decreases self.entries@.len() - i,
        {
            proof {
                assert(all[i as int] == self.entries@[i as int]@);
            }
            if self.entries[i].seq == seq {
                return Some(i);
            }
            i += 1;
        }
        None
    }

    pub fn contains_seq(&self, seq: u64) -> (r: bool)
        ensures
            r == self@.has_seq(seq),
    {
        self.position(seq).is_some()
    }

    /// The seq of the record that was stored first.
    pub fn oldest_seq(&self) -> (r: Option<u64>)
        ensures
            r == if self@.entries.len() > 0 {
                Some(self@.entries[0].seq)
            } else {
                None
            },
    {
        if self.entries.len() == 0 {
            return None;
        }
        proof {
            assert(self@.entries[0] == self.entries@[0]@);
        }
        Some(self.entries[0].seq)
    }

    /// The seq of the record that was stored last.
    pub fn newest_seq(&self) -> (r: Option<u64>)
        ensures
            r == if self@.entries.len() > 0 {
                Some(self@.entries.last().seq)
            } else {
                None
            },
    {
        if self.entries.len() == 0 {
            return None;
        }
        proof {
            assert(self@.entries.last() == self.entries@.last()@);
        }
        Some(self.entries[self.entries.len() - 1].seq)
    }

    /// Copies of the records around the one of a seq: a contiguous run of the
    /// store.
    pub fn context_by_seq(&self, seq: u64, before: usize, after: usize) -> (r: Vec<LogEntry>)
        requires
            self.wf(),
        ensures
            all_wf(r@),
            entry_list(r@) == self@.context(seq, before as nat, after as nat),
    {
        match self.position(seq) {
            None => {
                let r: Vec<LogEntry> = Vec::new();
                proof {
                    assert(entry_list(r@) =~= seq![]);
                }
                r
            },
            Some(i) => {
                proof {
                    lemma_first_unique(
                        self@,
                        seq,
                        i as int,
                        choose|k: int| self@.is_first_at(seq, k),
                    );
                }
                let n: usize = self.entries.len();
                let from: usize = i.saturating_sub(before);
                let to: usize = if after < n - i {
                    i + after + 1
                } else {
                    n
                };
                clone_range(&self.entries, from, to)
            },
        }
    }

    /// Copies of the records of a trace.
    pub fn logs_by_trace_id(&self, trace_id: u128) -> (r: Vec<LogEntry>)
        requires
            self.wf(),
        ensures
            all_wf(r@),
            entry_list(r@) == of_trace(self@.entries, trace_id),
    {
        clone_trace(&self.entries, trace_id)
    }

    /// Lets every record go, and says how many there were.
    pub fn clear(&mut self) -> (n: usize)
        requires
            old(self).wf(),
        ensures
            final(self).wf(),
            n == old(self)@.entries.len(),
            final(self)@ == old(self)@.cleared(),
    {
        let ghost all = self@.entries;
        let n: usize = self.entries.len();
        let mut lost: u64 = self.lost_below;
        let mut i: usize = 0;
        while i < n
            invariant
                all == self@.entries,
                n == self.entries@.len(),
                i <= n,
                lost == lost_with(self.lost_below, all.take(i as int)),
            decreases n - i,
        {
            proof {
                assert(all[i as int] == self.entries@[i as int]@);
                assert(all.take(i + 1).drop_last() =~= all.take(i as int));
            }
            let gone: u64 = self.entries[i].seq.saturating_add(1);
            if gone > lost {
                lost = gone;
            }
            i += 1;
        }
        proof {
            assert(all.take(n as int) =~= all);
        }
        self.lost_below = lost;
        self.entries = Vec::new();
        proof {
            assert(self@.entries =~= seq![]);
        }
        n
    }
}

/// A store after each of `records` was appended.
pub open spec fn held(store: StoreView, records: Seq<LogEntryView>) -> StoreView
    decreases records.len(),
{
    if records.len() == 0 {
        store
    } else {
        held(store, records.drop_last()).appended(records.last())
    }
}

/// The records of a trace, in their order.
pub open spec fn of_trace(entries: Seq<LogEntryView>, trace_id: u128) -> Seq<LogEntryView>
    decreases entries.len(),
{
    if entries.len() == 0 {
        seq![]
    } else if entries.last().trace_id == Some(trace_id) {
        of_trace(entries.drop_last(), trace_id).push(entries.last())
    } else {
        of_trace(entries.drop_last(), trace_id)
    }
}

/// Copies of `entries[from..to]`.
pub fn clone_range(entries: &Vec<LogEntry>, from: usize, to: usize) -> (r: Vec<LogEntry>)
    requires
        all_wf(entries@),
        from <= to <= entries@.len(),
    ensures
        all_wf(r@),
        entry_list(r@) == entry_list(entries@).subrange(from as int, to as int),
{
    let mut r: Vec<LogEntry> = Vec::new();
    let mut i: usize = from;
    proof {
        assert(entry_list(r@) =~= entry_list(entries@).subrange(from as int, from as int));
    }
    while i < to
        invariant
            all_wf(entries@),
            all_wf(r@),
            from <= i <= to <= entries@.len(),
            entry_list(r@) == entry_list(entries@).subrange(from as int, i as int),
        decreases to - i,
    {
        let ghost before = entry_list(r@);
        r.push(entries[i].clone());
        proof {
            assert(entry_list(r@) =~= before.push(entries@[i as int]@));
            assert(entry_list(entries@).subrange(from as int, i + 1) =~= entry_list(entries@).subrange(
                from as int,
                i as int,
            ).push(entries@[i as int]@));
        }
        i += 1;
    }
    r
}

/// Copies of the records of a trace, in their order.
pub fn clone_trace(entries: &Vec<LogEntry>, trace_id: u128) -> (r: Vec<LogEntry>)
    requires
        all_wf(entries@),
    ensures
        all_wf(r@),
        entry_list(r@) == of_trace(entry_list(entries@), trace_id),
{
    let ghost all = entry_list(entries@);
    let mut r: Vec<LogEntry> = Vec::new();
    let mut i: usize = 0;
    proof {
        assert(entry_list(r@) =~= seq![]);
        assert(all.take(0) =~= seq![]);
    }
    while i < entries.len()
        invariant
            all_wf(entries@),
            all_wf(r@),
            all == entry_list(entries@),
            i <= entries@.len(),
            entry_list(r@) == of_trace(all.take(i as int), trace_id),
        decreases entries@.len() - i,
    {
        let e = &entries[i];
        proof {
            assert(all.take(i + 1).drop_last() =~= all.take(i as int));
            assert(all.take(i + 1).last() == e@);
        }
        let same = match e.trace_id {
            Some(t) => t == trace_id,
            None => false,
        };
        if same {
            let ghost before = entry_list(r@);
            r.push(e.clone());
            proof {
                assert(entry_list(r@) =~= before.push(e@));
            }
        }
        i += 1;
    }
    proof {
        assert(all.take(all.len() as int) =~= all);
    }
    r
}

/// What a store lets go when it is cleared lies below what it then speaks for, and
/// that never falls.
pub proof fn clearing_accounts_for_everything(s: StoreView, i: int)
    requires
        0 <= i < s.entries.len(),
        s.entries[i].seq < u64::MAX,
    ensures
        s.cleared().entries.len() == 0,
        s.lost_below <= s.cleared().lost_below,
        s.entries[i].seq < s.cleared().lost_below,
{
    lemma_lost_with(s.lost_below, s.entries, i);
}

proof fn lemma_lost_with(lost_below: u64, gone: Seq<LogEntryView>, i: int)
    ensures
        lost_below <= lost_with(lost_below, gone),
        0 <= i < gone.len() && gone[i].seq < u64::MAX ==> gone[i].seq < lost_with(lost_below, gone),
    decreases gone.len(),
{
    if gone.len() > 0 {
        lemma_lost_with(lost_below, gone.drop_last(), i);
    }
}

/// Appending keeps the bound, keeps seqs distinct where the new one is new, and
/// accounts for what it let go: a record that left lies below
/// [`StoreView::lost_below`], which never falls.
pub proof fn appending_accounts_for_evictions(s: StoreView, e: LogEntryView)
    requires
        s.bounded(),
        e.seq < u64::MAX,
        forall|i: int| 0 <= i < s.entries.len() ==> (#[trigger] s.entries[i]).seq < u64::MAX,
    ensures
        ({
            let after = s.appended(e);
            &&& after.bounded()
            &&& s.distinct() && !s.has_seq(e.seq) ==> after.distinct()
            &&& s.lost_below <= after.lost_below
            &&& s.capacity > 0 ==> after.has_seq(e.seq)
            &&& forall|seq: u64| s.has_seq(seq) ==> #[trigger] after.has_seq(seq) || seq < after.lost_below
        }),
{
    let after = s.appended(e);
    let all = s.entries.push(e);
    let shift: int = if all.len() > s.capacity {
        1
    } else {
        0
    };
    assert(forall|i: int| 0 <= i < after.entries.len() ==> #[trigger] after.entries[i] == all[i + shift]);
    if s.capacity > 0 {
        assert(after.entries[after.entries.len() - 1].seq == e.seq);
    }
    assert forall|seq: u64| s.has_seq(seq) implies #[trigger] after.has_seq(seq) || seq
        < after.lost_below by {
        let i = choose|i: int| 0 <= i < s.entries.len() && (#[trigger] s.entries[i]).seq == seq;
        if i >= shift {
            assert(after.entries[i - shift].seq == seq);
        }
    }
    if s.distinct() && !s.has_seq(e.seq) {
        assert forall|i: int, j: int| 0 <= i < j < after.entries.len() implies (
        #[trigger] after.entries[i]).seq != (#[trigger] after.entries[j]).seq by {
            assert(all[i + shift].seq != all[j + shift].seq) by {
                assert(s.entries[i + shift].seq == all[i + shift].seq);
                if j + shift < s.entries.len() {
                    assert(s.entries[j + shift].seq == all[j + shift].seq);
                }
            }
        }
    }
}

/// Appending puts a record behind the others and alters none of them: as many as fit
/// stay, the latest, in their order.
pub proof fn appending_keeps_the_latest(s: StoreView, e: LogEntryView, x: LogEntryView)
    requires
        s.bounded(),
    ensures
        ({
            let after = s.appended(e);
            &&& after.capacity == s.capacity
            &&& s.entries.len() < s.capacity ==> after.entries == s.entries.push(e)
                && after.lost_below == s.lost_below
            &&& s.entries.len() == s.capacity ==> after.entries.len() == s.capacity
            &&& s.entries.len() == s.capacity && s.capacity > 0 ==> s.entries.skip(1).push(e)
                == after.entries
            &&& s.capacity > 0 ==> after.entries.last() == e
            &&& after.entries.contains(x) ==> x == e || s.entries.contains(x)
            &&& s.entries.contains(x) && x.seq < u64::MAX ==> after.entries.contains(x) || x.seq
                < after.lost_below
            &&& e.seq < u64::MAX ==> after.entries.contains(e) || e.seq < after.lost_below
        }),
{
    let after = s.appended(e);
    let all = s.entries.push(e);
    if s.entries.contains(x) {
        let i = choose|i: int| 0 <= i < s.entries.len() && s.entries[i] == x;
        if all.len() > s.capacity {
            if i > 0 {
                assert(after.entries[i - 1] == x);
            }
        } else {
            assert(after.entries[i] == x);
        }
    }
    if all.len() > s.capacity {
        assert(after.entries =~= all.skip(1));
        if s.capacity > 0 {
            assert(after.entries =~= s.entries.skip(1).push(e));
        }
    }
    if after.entries.contains(x) {
        let i = choose|i: int| 0 <= i < after.entries.len() && after.entries[i] == x;
        let at = if all.len() > s.capacity {
            i + 1
        } else {
            i
        };
        assert(all[at] == x);
        if at < s.entries.len() {
            assert(s.entries[at] == x);
        }
    }
    if after.entries.len() > 0 {
        assert(after.entries[after.entries.len() - 1] == e);
    }
}

/// What a store is said to have lost, it has lost: a record leaves only where there is
/// no room, and then it is the one that was stored first.
pub proof fn only_the_first_makes_room(s: StoreView, e: LogEntryView)
    requires
        s.bounded(),
        s.capacity > 0,
    ensures
        ({
            let after = s.appended(e);
            &&& s.entries.len() < s.capacity ==> after.lost_below == s.lost_below
            &&& s.entries.len() == s.capacity && s.entries[0].seq < u64::MAX ==> {
                &&& s.entries[0].seq < after.lost_below
                &&& after.lost_below == s.lost_below || after.lost_below == s.entries[0].seq + 1
            }
        }),
{
    let all = s.entries.push(e);
    if s.entries.len() > 0 {
        assert(all[0] == s.entries[0]);
    }
}

/// The context of a record is a run of the store with the record in it: as many before
/// it and behind it as were asked for, and fewer only where the store ends.
pub proof fn contexts_surround_their_record(s: StoreView, seq: u64, i: int, before: nat, after: nat)
    requires
        0 <= i < s.entries.len(),
        s.entries[i].seq == seq,
        forall|k: int| 0 <= k < i ==> (#[trigger] s.entries[k]).seq != seq,
    ensures
        ({
            let c = s.context(seq, before, after);
            let ahead = if i < before {
                i
            } else {
                before as int
            };
            let behind = if s.entries.len() - i - 1 < after {
                s.entries.len() - i - 1
            } else {
                after as int
            };
            &&& c.len() == ahead + 1 + behind
            &&& c[ahead] == s.entries[i]
            &&& forall|k: int| 0 <= k < c.len() ==> #[trigger] c[k] == s.entries[i - ahead + k]
        }),
{
    assert(s.is_first_at(seq, i));
    assert(s.has_seq(seq));
    lemma_first_unique(s, seq, i, choose|k: int| s.is_first_at(seq, k));
}

/// A seq that is not stored has no context.
pub proof fn absent_records_have_no_context(s: StoreView, seq: u64, before: nat, after: nat)
    requires
        forall|k: int| 0 <= k < s.entries.len() ==> (#[trigger] s.entries[k]).seq != seq,
    ensures
        s.context(seq, before, after).len() == 0,
{
}

/// The records of a trace are those that carry its id, each of them, in their order:
/// those of two runs are those of the one and then those of the other.
pub proof fn traces_gather_their_records(
    a: Seq<LogEntryView>,
    b: Seq<LogEntryView>,
    x: LogEntryView,
    trace_id: u128,
)
    ensures
        of_trace(a + b, trace_id) == of_trace(a, trace_id) + of_trace(b, trace_id),
        of_trace(a, trace_id).contains(x) <==> a.contains(x) && x.trace_id == Some(trace_id),
        of_trace(seq![x], trace_id) == (if x.trace_id == Some(trace_id) {
            seq![x]
        } else {
            seq![]
        }),
{
    lemma_of_trace_concat(a, b, trace_id);
    lemma_of_trace_contains(a, x, trace_id);
    reveal_with_fuel(of_trace, 2);
    assert(seq![x].drop_last() =~= seq![]);
    assert(of_trace(seq![x], trace_id) =~= (if x.trace_id == Some(trace_id) {
        seq![x]
    } else {
        seq![]
    }));
}

proof fn lemma_of_trace_concat(a: Seq<LogEntryView>, b: Seq<LogEntryView>, trace_id: u128)
    ensures
        of_trace(a + b, trace_id) == of_trace(a, trace_id) + of_trace(b, trace_id),
    decreases b.len(),
{
    if b.len() == 0 {
        assert(a + b =~= a);
        assert(of_trace(a, trace_id) + of_trace(b, trace_id) =~= of_trace(a, trace_id));
    } else {
        let front = b.drop_last();
        assert((a + b).drop_last() =~= a + front);
        lemma_of_trace_concat(a, front, trace_id);
        assert(of_trace(a, trace_id) + of_trace(front, trace_id).push(b.last()) =~= (of_trace(
            a,
            trace_id,
        ) + of_trace(front, trace_id)).push(b.last()));
    }
}

proof fn lemma_of_trace_contains(a: Seq<LogEntryView>, x: LogEntryView, trace_id: u128)
    ensures
        of_trace(a, trace_id).contains(x) <==> a.contains(x) && x.trace_id == Some(trace_id),
    decreases a.len(),
{
    if a.len() > 0 {
        let front = a.drop_last();
        lemma_of_trace_contains(front, x, trace_id);
        let kept = of_trace(a, trace_id);
        let before = of_trace(front, trace_id);
        if a.contains(x) && x.trace_id == Some(trace_id) {
            let i = choose|i: int| 0 <= i < a.len() && a[i] == x;
            if i < front.len() {
                assert(front[i] == x);
                let k = choose|k: int| 0 <= k < before.len() && before[k] == x;
                assert(kept[k] == x);
            } else {
                assert(kept[kept.len() - 1] == x);
            }
        }
        if kept.contains(x) {
            let k = choose|k: int| 0 <= k < kept.len() && kept[k] == x;
            if k < before.len() {
                assert(before[k] == x);
                let i = choose|i: int| 0 <= i < front.len() && front[i] == x;
                assert(a[i] == x);
            } else {
                assert(a[a.len() - 1] == x);
            }
        }
    }
}

/// Records are held one after the other, each as if it were appended alone.
pub proof fn records_are_held_in_order(
    store: StoreView,
    records: Seq<LogEntryView>,
    e: LogEntryView,
)
    ensures
        held(store, seq![]) == store,
        held(store, records.push(e)) == held(store, records).appended(e),
{
    assert(records.push(e).drop_last() =~= records);
}

} // verus!
