//! The per-domain **epoch log**: a time-extended record of the storage
//! *policy*, so a range read can say what it could not have seen.
//!
//! Storage is conditional: when any session bound to a domain holds a filter,
//! only matching entries are kept. So "nothing appeared before the error" is
//! ambiguous between *absence of cause* and *absence of recording*. No stored
//! entry can testify about an absent one; what resolves it is a record of the
//! policy *over time*. Each entry here is the first seq decided under a policy,
//! plus the policy itself.
//!
//! [`EpochLog::observe`] is called with the very [`FilterPolicy`] that just
//! decided the entry in hand, so a boundary *is* the first entry decided
//! differently. Entries stored by a trigger or inside a post-trigger window
//! skip it, so a boundary can land later than the flip, never earlier, and
//! every entry between the two is in the store.
use crate::text;
use crate::text::{clone_texts, same_texts, text_views};
use crate::text_map::{
    lemma_precedes_irreflexive, lemma_precedes_total, lemma_precedes_transitive, precedes,
    text_before,
};
use vstd::prelude::*;

verus! {

broadcast use vstd::string::group_string_axioms;

/// Epochs retained per domain. Flips are rare, so this is generous for any real
/// session and still bounds a client that edits a filter in a loop.
///
/// Overflow drops the OLDEST, and [`EpochCoverage::covered`] then reports the
/// loss rather than letting the surviving oldest epoch speak for a range that
/// predates it: dropping a record must not manufacture a `complete`.
pub const EPOCH_CAPACITY: usize = 1024;

/// The filter policy that decided whether one entry was stored: the union of
/// every filter string held by a session bound to the domain.
///
/// The strings are what the policy is compared on, not whether there are any:
/// editing a filter replaces a condition in place, and a domain filtered by
/// `l>=ERROR` and then by `service:auth` would otherwise be reported as filtered
/// by the second all along.
#[derive(Debug, PartialEq, Eq)]
pub struct FilterPolicy {
    filters: Vec<String>,
}

impl View for FilterPolicy {
    type V = Seq<Seq<char>>;

    closed spec fn view(&self) -> Seq<Seq<char>> {
        text_views(self.filters@)
    }
}

/// Whether texts are in order, none of them twice.
pub open spec fn ascending(texts: Seq<Seq<char>>) -> bool {
    forall|i: int, j: int|
        0 <= i < j < texts.len() ==> precedes(#[trigger] texts[i], #[trigger] texts[j])
}

/// Two ordered lists of the same texts are the same list.
pub proof fn lemma_ascending_unique(a: Seq<Seq<char>>, b: Seq<Seq<char>>)
    requires
        ascending(a),
        ascending(b),
        forall|s: Seq<char>| a.contains(s) == b.contains(s),
    ensures
        a == b,
    decreases a.len(),
{
    if a.len() == 0 {
        if b.len() > 0 {
            assert(b.contains(b[0]));
        }
        assert(a =~= b);
    } else if b.len() == 0 {
        assert(a.contains(a[0]));
    } else {
        let x = a.last();
        let y = b.last();
        assert(a.contains(x) && b.contains(y));
        if x != y {
            lemma_precedes_total(x, y);
            if precedes(x, y) {
                let i = choose|i: int| 0 <= i < a.len() && a[i] == y;
                if i < a.len() - 1 {
                    assert(precedes(a[i], a[a.len() - 1]));
                    lemma_precedes_transitive(x, y, x);
                }
                lemma_precedes_irreflexive(x);
            } else {
                let i = choose|i: int| 0 <= i < b.len() && b[i] == x;
                if i < b.len() - 1 {
                    assert(precedes(b[i], b[b.len() - 1]));
                    lemma_precedes_transitive(y, x, y);
                }
                lemma_precedes_irreflexive(y);
            }
        }
        let fa = a.drop_last();
        let fb = b.drop_last();
        assert forall|i: int, j: int| 0 <= i < j < fa.len() implies precedes(
            #[trigger] fa[i],
            #[trigger] fa[j],
        ) by {
            assert(precedes(a[i], a[j]));
        }
        assert forall|i: int, j: int| 0 <= i < j < fb.len() implies precedes(
            #[trigger] fb[i],
            #[trigger] fb[j],
        ) by {
            assert(precedes(b[i], b[j]));
        }
        assert forall|s: Seq<char>| fa.contains(s) == fb.contains(s) by {
            lemma_front_contains(a, s);
            lemma_front_contains(b, s);
        }
        lemma_ascending_unique(fa, fb);
        assert(a =~= fa.push(x));
        assert(b =~= fb.push(y));
    }
}

proof fn lemma_front_contains(a: Seq<Seq<char>>, s: Seq<char>)
    requires
        a.len() > 0,
        ascending(a),
    ensures
        a.drop_last().contains(s) == (a.contains(s) && s != a.last()),
{
    let f = a.drop_last();
    if f.contains(s) {
        let i = choose|i: int| 0 <= i < f.len() && f[i] == s;
        assert(a[i] == s);
        assert(precedes(a[i], a[a.len() - 1]));
        lemma_precedes_irreflexive(s);
    }
    if a.contains(s) && s != a.last() {
        let i = choose|i: int| 0 <= i < a.len() && a[i] == s;
        assert(f[i] == s);
    }
}

impl FilterPolicy {
    /// Sorted and deduped, so the value is a function of the *policy* rather
    /// than of the order in which the filters were gathered.
    ///
    /// Deduping is not merely tidiness: two sessions holding the same filter
    /// string narrow the store exactly as one does, so removing the duplicate
    /// is not a flip and must not read as one.
    pub fn new(filters: Vec<String>) -> (r: Self)
        ensures
            ascending(r@),
            forall|s: Seq<char>| r@.contains(s) == text_views(filters@).contains(s),
    {
        let ghost given = text_views(filters@);
        let mut out: Vec<String> = Vec::new();
        let mut i: usize = 0;
        while i < filters.len()
            invariant
                given == text_views(filters@),
                i <= filters@.len(),
                ascending(text_views(out@)),
                forall|s: Seq<char>|
                    text_views(out@).contains(s) == given.take(i as int).contains(s),
            decreases filters@.len() - i,
        {
            let ghost before = text_views(out@);
            insert_ordered(&mut out, &filters[i]);
            proof {
                let s0 = given[i as int];
                assert(s0 == filters@[i as int]@);
                assert forall|s: Seq<char>|
                    text_views(out@).contains(s) == given.take(i + 1).contains(s) by {
                    let now = given.take(i + 1);
                    let was = given.take(i as int);
                    assert(text_views(out@).contains(s) == (before.contains(s) || s == s0));
                    if was.contains(s) {
                        let k = choose|k: int| 0 <= k < was.len() && was[k] == s;
                        assert(now[k] == s);
                    }
                    if s == s0 {
                        assert(now[i as int] == s);
                    }
                    if now.contains(s) {
                        let k = choose|k: int| 0 <= k < now.len() && now[k] == s;
                        if k < i {
                            assert(was[k] == s);
                        }
                    }
                }
            }
            i += 1;
        }
        proof {
            assert(given.take(given.len() as int) =~= given);
        }
        FilterPolicy { filters: out }
    }

    /// True when the domain was narrowing storage.
    pub fn is_filtered(&self) -> (r: bool)
        ensures
            r == (self@.len() > 0),
    {
        self.filters.len() > 0
    }

    pub fn filters(&self) -> (r: &Vec<String>)
        ensures
            text_views(r@) == self@,
    {
        &self.filters
    }

    pub fn clone(&self) -> (r: Self)
        ensures
            r@ == self@,
    {
        FilterPolicy { filters: clone_texts(&self.filters) }
    }

    /// Whether two policies are the same.
    pub fn same(&self, other: &FilterPolicy) -> (r: bool)
        ensures
            r == (self@ == other@),
    {
        same_texts(&self.filters, &other.filters)
    }
}

/// Puts `s` in its place, unless it is there.
fn insert_ordered(out: &mut Vec<String>, s: &String)
    requires
        ascending(text_views(old(out)@)),
    ensures
        ascending(text_views(final(out)@)),
        forall|x: Seq<char>|
            text_views(final(out)@).contains(x) == (text_views(old(out)@).contains(x) || x == s@),
{
    let ghost before = text_views(out@);
    let mut at: usize = 0;
    while at < out.len() && text_before(&out[at], s)
        invariant
            at <= out@.len(),
            before == text_views(out@),
            forall|k: int| 0 <= k < at ==> precedes(#[trigger] before[k], s@),
        decreases out@.len() - at,
    {
        assert(before[at as int] == out@[at as int]@);
        at += 1;
    }
    if at < out.len() && text::same(&out[at], s) {
        proof {
            assert(before[at as int] == s@);
        }
        return;
    }
    proof {
        if at < before.len() {
            assert(before[at as int] == out@[at as int]@);
            lemma_precedes_total(before[at as int], s@);
        }
        assert forall|k: int| at <= k < before.len() implies precedes(s@, #[trigger] before[k]) by {
            if k > at {
                assert(precedes(before[at as int], before[k]));
                lemma_precedes_transitive(s@, before[at as int], before[k]);
            }
        }
    }
    out.insert(at, s.clone());
    proof {
        let after = text_views(out@);
        assert(after =~= before.insert(at as int, s@));
        assert forall|i: int, j: int| 0 <= i < j < after.len() implies precedes(
            #[trigger] after[i],
            #[trigger] after[j],
        ) by {
            let a = if i < at { i } else { i - 1 };
            let b = if j < at { j } else { j - 1 };
            if i != at && j != at {
                assert(precedes(before[a], before[b]));
            } else if i == at {
                assert(precedes(s@, before[b]));
            } else {
                assert(precedes(before[a], s@));
            }
        }
        assert forall|x: Seq<char>| after.contains(x) == (before.contains(x) || x == s@) by {
            if before.contains(x) {
                let k = choose|k: int| 0 <= k < before.len() && before[k] == x;
                if k < at {
                    assert(after[k] == x);
                } else {
                    assert(after[k + 1] == x);
                }
            }
            if x == s@ {
                assert(after[at as int] == x);
            }
            if after.contains(x) {
                let k = choose|k: int| 0 <= k < after.len() && after[k] == x;
                if k < at {
                    assert(before[k] == x);
                } else if k > at {
                    assert(before[k - 1] == x);
                }
            }
        }
    }
}

/// One epoch: the policy, and the first seq decided under it.
#[derive(Debug)]
pub struct Epoch {
    pub seq_at_flip: u64,
    pub policy: FilterPolicy,
}

/// What an [`Epoch`] records.
#[verifier::ext_equal]
pub struct EpochView {
    pub seq_at_flip: u64,
    pub filters: Seq<Seq<char>>,
}

impl View for Epoch {
    type V = EpochView;

    open spec fn view(&self) -> EpochView {
        EpochView { seq_at_flip: self.seq_at_flip, filters: self.policy@ }
    }
}

/// One stretch of a queried range over which storage was narrowed, and by what.
#[derive(Debug, PartialEq, Eq)]
pub struct NarrowedSpan {
    /// Clamped to the queried range, so the caller is told which of *its* seqs
    /// were affected rather than where the epoch happened to begin.
    pub from_seq: u64,
    pub to_seq: u64,
    pub filters: Vec<String>,
}

/// What a [`NarrowedSpan`] says.
#[verifier::ext_equal]
pub struct NarrowedSpanView {
    pub from_seq: u64,
    pub to_seq: u64,
    pub filters: Seq<Seq<char>>,
}

impl View for NarrowedSpan {
    type V = NarrowedSpanView;

    open spec fn view(&self) -> NarrowedSpanView {
        NarrowedSpanView {
            from_seq: self.from_seq,
            to_seq: self.to_seq,
            filters: text_views(self.filters@),
        }
    }
}

/// What the epoch log can say about one seq range.
#[derive(Debug, PartialEq, Eq)]
pub struct EpochCoverage {
    /// False when part of the range predates the oldest epoch retained. The log
    /// is silent about that part, and silence is not evidence of an unfiltered
    /// store.
    pub covered: bool,
    /// Every stretch of the range over which storage was narrowed. Empty when
    /// the whole range stored everything.
    pub narrowed: Vec<NarrowedSpan>,
}

/// What an [`EpochCoverage`] says.
#[verifier::ext_equal]
pub struct EpochCoverageView {
    pub covered: bool,
    pub narrowed: Seq<NarrowedSpanView>,
}

/// The views of a list of spans.
pub open spec fn span_views(spans: Seq<NarrowedSpan>) -> Seq<NarrowedSpanView> {
    spans.map_values(|s: NarrowedSpan| s@)
}

impl View for EpochCoverage {
    type V = EpochCoverageView;

    open spec fn view(&self) -> EpochCoverageView {
        EpochCoverageView { covered: self.covered, narrowed: span_views(self.narrowed@) }
    }
}

impl Default for EpochCoverage {
    fn default() -> (r: Self)
        ensures
            r@ == (EpochCoverageView { covered: false, narrowed: seq![] }),
    {
        let r = EpochCoverage { covered: false, narrowed: Vec::new() };
        proof {
            assert(r@.narrowed =~= seq![]);
        }
        r
    }
}

/// The per-domain epoch log, indexed by its pipeline's seq axis.
#[derive(Debug)]
pub struct EpochLog {
    epochs: Vec<Epoch>,
    /// The seq this incarnation started from. The first epoch is stamped here
    /// rather than at `0`, so a range carried over from a previous run, whose
    /// seq counter this one resumed, falls below the log and reports
    /// `cannot_verify` instead of inheriting this incarnation's policy.
    origin_seq: u64,
}

/// What an [`EpochLog`] records.
#[verifier::ext_equal]
pub struct EpochLogView {
    pub epochs: Seq<EpochView>,
    pub origin_seq: u64,
}

/// The views of a list of epochs.
pub open spec fn epoch_views(epochs: Seq<Epoch>) -> Seq<EpochView> {
    epochs.map_values(|e: Epoch| e@)
}

impl View for EpochLog {
    type V = EpochLogView;

    closed spec fn view(&self) -> EpochLogView {
        EpochLogView { epochs: epoch_views(self.epochs@), origin_seq: self.origin_seq }
    }
}

impl EpochLogView {
    /// The epochs are in order from the origin on, no more than are retained,
    /// and each changed the policy.
    pub open spec fn ordered(self) -> bool {
        &&& self.epochs.len() <= EPOCH_CAPACITY
        &&& forall|i: int|
            0 <= i < self.epochs.len() ==> self.origin_seq <= (#[trigger] self.epochs[i]).seq_at_flip
        &&& forall|i: int, j: int|
            0 <= i <= j < self.epochs.len() ==> (#[trigger] self.epochs[i]).seq_at_flip <= (
            #[trigger] self.epochs[j]).seq_at_flip
        &&& forall|i: int, j: int|
            0 <= i < self.epochs.len() && j == i + 1 && j < self.epochs.len() ==> (
            #[trigger] self.epochs[i]).filters != (#[trigger] self.epochs[j]).filters
    }

    /// The log after `seq` was decided under `filters`.
    pub open spec fn observed(self, seq: u64, filters: Seq<Seq<char>>) -> EpochLogView {
        if self.epochs.len() > 0 && self.epochs.last().filters == filters {
            self
        } else {
            let seq_at_flip = if self.epochs.len() == 0 {
                self.origin_seq
            } else if seq >= self.epochs.last().seq_at_flip {
                seq
            } else {
                self.epochs.last().seq_at_flip
            };
            let all = self.epochs.push(EpochView { seq_at_flip, filters });
            EpochLogView {
                epochs: if all.len() > EPOCH_CAPACITY {
                    all.skip(1)
                } else {
                    all
                },
                ..self
            }
        }
    }

    /// The last seq of the `i`th epoch: it runs until the next one begins, and
    /// the last runs forever.
    pub open spec fn end_of(self, i: int) -> u64 {
        if i + 1 < self.epochs.len() {
            let next = self.epochs[i + 1].seq_at_flip;
            if next == 0 {
                0
            } else {
                (next - 1) as u64
            }
        } else {
            u64::MAX
        }
    }

    /// Whether any seq falls to the `i`th epoch: two boundaries may lie at one seq,
    /// and then nothing was decided between them.
    pub open spec fn has_seqs(self, i: int) -> bool {
        i + 1 < self.epochs.len() ==> self.epochs[i].seq_at_flip < self.epochs[i + 1].seq_at_flip
    }

    /// Whether the `i`th epoch narrowed a range.
    pub open spec fn narrows(self, i: int, from: u64, to: u64) -> bool {
        &&& self.has_seqs(i)
        &&& self.epochs[i].seq_at_flip <= to && self.end_of(i) >= from
        &&& self.epochs[i].filters.len() > 0
    }

    /// The part of a range that the `i`th epoch governed.
    pub open spec fn part(self, i: int, from: u64, to: u64) -> NarrowedSpanView {
        let start = self.epochs[i].seq_at_flip;
        NarrowedSpanView {
            from_seq: if start >= from {
                start
            } else {
                from
            },
            to_seq: if self.end_of(i) <= to {
                self.end_of(i)
            } else {
                to
            },
            filters: self.epochs[i].filters,
        }
    }

    /// The stretches of a range that the first `n` epochs narrowed.
    pub open spec fn narrowed(self, n: int, from: u64, to: u64) -> Seq<NarrowedSpanView>
        decreases n,
    {
        if n <= 0 {
            seq![]
        } else if self.narrows(n - 1, from, to) {
            self.narrowed(n - 1, from, to).push(self.part(n - 1, from, to))
        } else {
            self.narrowed(n - 1, from, to)
        }
    }

    /// What the log can say about the range `from..=to`.
    pub open spec fn coverage(self, from: u64, to: u64) -> EpochCoverageView {
        if self.epochs.len() == 0 {
            EpochCoverageView { covered: false, narrowed: seq![] }
        } else {
            EpochCoverageView {
                covered: from >= self.epochs[0].seq_at_flip,
                narrowed: self.narrowed(self.epochs.len() as int, from, to),
            }
        }
    }

    /// Whether the `i`th epoch is the one in force at `seq`.
    pub open spec fn governs(self, i: int, seq: u64) -> bool {
        &&& 0 <= i < self.epochs.len()
        &&& self.epochs[i].seq_at_flip <= seq
        &&& i + 1 < self.epochs.len() ==> seq < self.epochs[i + 1].seq_at_flip
    }
}

impl EpochLog {
    /// The epochs are in order, bounded, and each changed the policy.
    pub open spec fn wf(&self) -> bool {
        self@.ordered()
    }

    pub fn new(origin_seq: u64) -> (r: Self)
        ensures
            r.wf(),
            r@ == (EpochLogView { epochs: seq![], origin_seq }),
    {
        let r = EpochLog { epochs: Vec::new(), origin_seq };
        proof {
            assert(r@.epochs =~= seq![]);
        }
        r
    }

    /// Record that `seq` was decided under `policy`, opening a new epoch if the
    /// policy differs from the one in force.
    ///
    /// The first observation opens the epoch at the incarnation's origin, not at
    /// the seq observed: any entry between the two either did not exist or took
    /// the unconditional path. A boundary never comes before the previous one.
    pub fn observe(&mut self, seq: u64, policy: &FilterPolicy)
        requires
            old(self).wf(),
        ensures
            final(self).wf(),
            final(self)@ == old(self)@.observed(seq, policy@),
    {
        let ghost before = self@;
        proof {
            observing_keeps_order(before, seq, policy@);
        }
        let n: usize = self.epochs.len();
        let seq_at_flip: u64 = if n == 0 {
            self.origin_seq
        } else {
            let last = &self.epochs[n - 1];
            proof {
                assert(before.epochs.last() == last@);
            }
            if last.policy.same(policy) {
                return;
            }
            if seq >= last.seq_at_flip {
                seq
            } else {
                last.seq_at_flip
            }
        };
        self.epochs.push(Epoch { seq_at_flip, policy: policy.clone() });
        let ghost all = before.epochs.push(EpochView { seq_at_flip, filters: policy@ });
        proof {
            assert(epoch_views(self.epochs@) =~= all);
        }
        if self.epochs.len() > EPOCH_CAPACITY {
            self.epochs.remove(0);
            proof {
                assert(epoch_views(self.epochs@) =~= all.skip(1));
            }
        }
    }

    /// What the log can say about the inclusive range `from..=to`.
    pub fn coverage(&self, from: u64, to: u64) -> (r: EpochCoverage)
        ensures
            r@ == self@.coverage(from, to),
    {
        let ghost log = self@;
        if self.epochs.len() == 0 {
            // Nothing has been decided in this domain yet, so nothing is known
            // about any range in it.
            return EpochCoverage::default();
        }
        proof {
            assert(log.epochs[0] == self.epochs@[0]@);
        }
        let covered = from >= self.epochs[0].seq_at_flip;
        let mut narrowed: Vec<NarrowedSpan> = Vec::new();
        let mut i: usize = 0;
        proof {
            assert(span_views(narrowed@) =~= seq![]);
        }
        while i < self.epochs.len()
            invariant
                log == self@,
                i <= self.epochs@.len(),
                span_views(narrowed@) == log.narrowed(i as int, from, to),
            decreases self.epochs@.len() - i,
        {
            let epoch = &self.epochs[i];
            proof {
                assert(log.epochs[i as int] == epoch@);
            }
            let mut has_seqs = true;
            let end: u64 = if i + 1 < self.epochs.len() {
                proof {
                    assert(log.epochs[i + 1] == self.epochs@[i + 1]@);
                }
                has_seqs = epoch.seq_at_flip < self.epochs[i + 1].seq_at_flip;
                self.epochs[i + 1].seq_at_flip.saturating_sub(1)
            } else {
                u64::MAX
            };
            if has_seqs && epoch.seq_at_flip <= to && end >= from && epoch.policy.is_filtered() {
                let ghost before = narrowed@;
                let from_seq: u64 = if epoch.seq_at_flip >= from {
                    epoch.seq_at_flip
                } else {
                    from
                };
                let to_seq: u64 = if end <= to {
                    end
                } else {
                    to
                };
                narrowed.push(
                    NarrowedSpan { from_seq, to_seq, filters: clone_texts(epoch.policy.filters()) },
                );
                proof {
                    assert(span_views(narrowed@) =~= span_views(before).push(
                        log.part(i as int, from, to),
                    ));
                }
            }
            i += 1;
        }
        EpochCoverage { covered, narrowed }
    }

    /// The seq this incarnation started from: the lowest seq this log can say
    /// anything about at all.
    pub fn origin_seq(&self) -> (r: u64)
        ensures
            r == self@.origin_seq,
    {
        self.origin_seq
    }

    /// The epochs currently retained, oldest first.
    pub fn epochs(&self) -> (r: &Vec<Epoch>)
        ensures
            epoch_views(r@) == self@.epochs,
    {
        &self.epochs
    }
}

/// How far a range read can be vouched for.
#[derive(Debug, Clone, Copy, PartialEq, Eq, Structural)]
pub enum EvidenceVerdict {
    Complete,
    Evicted,
    Filtered,
    CannotVerify,
}

impl Default for EvidenceVerdict {
    /// A reply without a verdict must not read as a clean bill of health.
    fn default() -> (r: Self)
        ensures
            r == EvidenceVerdict::CannotVerify,
    {
        EvidenceVerdict::CannotVerify
    }
}

impl EvidenceVerdict {
    /// The word for this verdict on the wire.
    pub open spec fn name(self) -> Seq<char> {
        match self {
            EvidenceVerdict::Complete => "complete"@,
            EvidenceVerdict::Evicted => "evicted"@,
            EvidenceVerdict::Filtered => "filtered"@,
            EvidenceVerdict::CannotVerify => "cannot_verify"@,
        }
    }

    pub fn as_str(&self) -> (r: &'static str)
        ensures
            r@ == self.name(),
    {
        match self {
            EvidenceVerdict::Complete => "complete",
            EvidenceVerdict::Evicted => "evicted",
            EvidenceVerdict::Filtered => "filtered",
            EvidenceVerdict::CannotVerify => "cannot_verify",
        }
    }

    /// The verdict that a word on the wire stands for. The set is closed.
    pub fn parse(word: &str) -> (r: Option<Self>)
        ensures
            match r {
                Some(v) => word@ == v.name(),
                None => forall|v: EvidenceVerdict| word@ != #[trigger] v.name(),
            },
    {
        if text::same(word, "complete") {
            Some(EvidenceVerdict::Complete)
        } else if text::same(word, "evicted") {
            Some(EvidenceVerdict::Evicted)
        } else if text::same(word, "filtered") {
            Some(EvidenceVerdict::Filtered)
        } else if text::same(word, "cannot_verify") {
            Some(EvidenceVerdict::CannotVerify)
        } else {
            None
        }
    }
}

/// The verdict on one range read.
pub open spec fn verdict_of(
    coverage: Option<EpochCoverageView>,
    evicted: bool,
    capped: bool,
) -> EvidenceVerdict {
    match coverage {
        None => EvidenceVerdict::CannotVerify,
        Some(c) => if !c.covered || capped {
            EvidenceVerdict::CannotVerify
        } else if c.narrowed.len() > 0 {
            EvidenceVerdict::Filtered
        } else if evicted {
            EvidenceVerdict::Evicted
        } else {
            EvidenceVerdict::Complete
        },
    }
}

/// The view of an optional coverage.
pub open spec fn optional_coverage(c: Option<&EpochCoverage>) -> Option<EpochCoverageView> {
    match c {
        Some(c) => Some(c@),
        None => None,
    }
}

/// The four verdicts for one range read.
///
/// `coverage` is `None` when the range itself could not be established: an
/// empty store has no window for a verdict to be about, and every clause of
/// `complete` is vacuously satisfied by one.
///
/// **Order of precedence is the strongest reason the range is not complete.**
/// `cannot_verify` outranks the rest because it says the daemon cannot vouch
/// for the range at all. `filtered` outranks `evicted` because filtered entries
/// were never recorded and nothing measures them, whereas eviction is both
/// detected and quantified.
pub fn evidence_verdict(coverage: Option<&EpochCoverage>, evicted: bool, capped: bool) -> (r:
    EvidenceVerdict)
    ensures
        r == verdict_of(optional_coverage(coverage), evicted, capped),
{
    let coverage = match coverage {
        None => return EvidenceVerdict::CannotVerify,
        Some(c) => c,
    };
    // A capped read stopped short of what matched, so what it did not return is
    // unknown rather than absent.
    if !coverage.covered || capped {
        return EvidenceVerdict::CannotVerify;
    }
    if coverage.narrowed.len() > 0 {
        return EvidenceVerdict::Filtered;
    }
    if evicted {
        return EvidenceVerdict::Evicted;
    }
    EvidenceVerdict::Complete
}

/// Recording a decision keeps the log in order, bounded, and free of boundaries
/// that change nothing.
pub proof fn observing_keeps_order(log: EpochLogView, seq: u64, filters: Seq<Seq<char>>)
    requires
        log.ordered(),
    ensures
        log.observed(seq, filters).ordered(),
{
    let after = log.observed(seq, filters);
    if after != log {
        let n = log.epochs.len() as int;
        let shift: int = if n + 1 > EPOCH_CAPACITY {
            1
        } else {
            0
        };
        assert(after.epochs.len() == n + 1 - shift);
        assert(forall|i: int|
            0 <= i < n - shift ==> #[trigger] after.epochs[i] == log.epochs[i + shift]);
    }
}

/// A policy depends on which filters there are, not on their order or on how
/// often each occurs.
pub proof fn policies_ignore_order_and_repetition(a: Seq<Seq<char>>, b: Seq<Seq<char>>)
    requires
        ascending(a),
        ascending(b),
    ensures
        a == b <==> (forall|s: Seq<char>| a.contains(s) == b.contains(s)),
{
    if forall|s: Seq<char>| a.contains(s) == b.contains(s) {
        lemma_ascending_unique(a, b);
    }
}

/// A range that is covered and nowhere narrowed was decided without a filter
/// throughout: the policy in force at each of its seqs is the empty one.
pub proof fn unnarrowed_ranges_were_unfiltered(
    log: EpochLogView,
    from: u64,
    to: u64,
    seq: u64,
    i: int,
)
    requires
        log.ordered(),
        log.coverage(from, to).covered,
        log.coverage(from, to).narrowed.len() == 0,
        from <= seq <= to,
        log.governs(i, seq),
    ensures
        log.epochs[i].filters.len() == 0,
{
    if log.epochs[i].filters.len() > 0 {
        assert(log.narrows(i, from, to));
        lemma_narrowed_grows(log, i, log.epochs.len() as int, from, to);
    }
}

proof fn lemma_narrowed_grows(log: EpochLogView, i: int, n: int, from: u64, to: u64)
    requires
        0 <= i < n,
        log.narrows(i, from, to),
    ensures
        log.narrowed(n, from, to).len() > 0,
    decreases n,
{
    if i < n - 1 {
        lemma_narrowed_grows(log, i, n - 1, from, to);
    }
}

/// Every seq of a covered range was decided under a policy that the log still
/// holds.
pub proof fn covered_seqs_are_governed(log: EpochLogView, from: u64, to: u64, seq: u64)
    requires
        log.ordered(),
        log.coverage(from, to).covered,
        from <= seq <= to,
    ensures
        exists|i: int| log.governs(i, seq),
{
    lemma_governor(log, seq, 0);
}

proof fn lemma_governor(log: EpochLogView, seq: u64, i: int)
    requires
        log.ordered(),
        0 <= i < log.epochs.len(),
        log.epochs[i].seq_at_flip <= seq,
    ensures
        exists|k: int| log.governs(k, seq),
    decreases log.epochs.len() - i,
{
    if i + 1 < log.epochs.len() && log.epochs[i + 1].seq_at_flip <= seq {
        lemma_governor(log, seq, i + 1);
    } else {
        assert(log.governs(i, seq));
    }
}

/// What is reported narrowed is a stretch of the range that was asked about, and
/// never an empty one.
pub proof fn narrowed_spans_are_clamped(log: EpochLogView, n: int, from: u64, to: u64, k: int)
    requires
        0 <= n <= log.epochs.len(),
        from <= to,
        0 <= k < log.narrowed(n, from, to).len(),
    ensures
        ({
            let span = log.narrowed(n, from, to)[k];
            from <= span.from_seq <= span.to_seq <= to && span.filters.len() > 0
        }),
    decreases n,
{
    if n > 0 && k < log.narrowed(n - 1, from, to).len() {
        narrowed_spans_are_clamped(log, n - 1, from, to, k);
    }
}

/// What is reported narrowed was decided under the filters that it is reported
/// with: they are those of the epoch in force at each of its seqs.
pub proof fn narrowed_spans_name_their_filters(
    log: EpochLogView,
    n: int,
    from: u64,
    to: u64,
    k: int,
    seq: u64,
)
    requires
        0 <= n <= log.epochs.len(),
        0 <= k < log.narrowed(n, from, to).len(),
        log.narrowed(n, from, to)[k].from_seq <= seq <= log.narrowed(n, from, to)[k].to_seq,
    ensures
        exists|i: int| #[trigger]
            log.governs(i, seq) && log.epochs[i].filters == log.narrowed(n, from, to)[k].filters,
    decreases n,
{
    if n > 0 {
        if k < log.narrowed(n - 1, from, to).len() {
            narrowed_spans_name_their_filters(log, n - 1, from, to, k, seq);
        } else {
            assert(log.governs(n - 1, seq));
        }
    }
}

/// Recording a decision never makes the log speak for a range that it could not
/// speak for before: dropping the oldest epoch only ever shortens its reach.
pub proof fn observing_never_extends_reach(
    log: EpochLogView,
    seq: u64,
    filters: Seq<Seq<char>>,
    from: u64,
    to: u64,
)
    requires
        log.ordered(),
        log.epochs.len() > 0,
        log.observed(seq, filters).coverage(from, to).covered,
    ensures
        log.coverage(from, to).covered,
{
}

/// The log says nothing of what came before its origin.
pub proof fn nothing_below_the_origin_is_covered(log: EpochLogView, from: u64, to: u64)
    requires
        log.ordered(),
        from < log.origin_seq,
    ensures
        !log.coverage(from, to).covered,
{
}

/// A read is called complete exactly where its range is covered, nowhere
/// narrowed, whole, and nothing was evicted from it.
pub proof fn complete_means_complete(
    coverage: Option<EpochCoverageView>,
    evicted: bool,
    capped: bool,
)
    ensures
        verdict_of(coverage, evicted, capped) == EvidenceVerdict::Complete <==> (coverage is Some
            && coverage->0.covered && coverage->0.narrowed.len() == 0 && !evicted && !capped),
{
}

/// The policy that a record was decided under is the one in force from then on, and each
/// change of policy is recorded as one more epoch: at the seq that was first decided under
/// it, and the very first at the origin.
pub proof fn the_last_policy_is_in_force(log: EpochLogView, seq: u64, filters: Seq<Seq<char>>)
    requires
        log.epochs.len() < 1024,
    ensures
        ({
            let after = log.observed(seq, filters);
            &&& after.epochs.len() > 0
            &&& after.epochs.last().filters == filters
            &&& after.origin_seq == log.origin_seq
            &&& log.epochs.len() == 0 ==> after.epochs.len() == 1 && after.epochs[0].seq_at_flip
                == log.origin_seq
            &&& log.epochs.len() > 0 && log.epochs.last().filters == filters ==> after == log
            &&& log.epochs.len() > 0 && log.epochs.last().filters != filters ==> {
                &&& after.epochs.drop_last() == log.epochs
                &&& seq >= log.epochs.last().seq_at_flip ==> after.epochs.last().seq_at_flip == seq
                &&& after.epochs.last().seq_at_flip >= log.epochs.last().seq_at_flip
            }
        }),
{
    let after = log.observed(seq, filters);
    if log.epochs.len() > 0 && log.epochs.last().filters != filters {
        assert(after.epochs.drop_last() =~= log.epochs);
    }
}

/// A log that is full gives up its oldest epoch, and no other.
pub proof fn full_logs_give_up_the_oldest(log: EpochLogView, seq: u64, filters: Seq<Seq<char>>)
    requires
        log.epochs.len() == 1024,
        log.epochs.last().filters != filters,
    ensures
        log.observed(seq, filters).epochs.len() == 1024,
        log.observed(seq, filters).epochs.drop_last() == log.epochs.skip(1),
        log.observed(seq, filters).epochs.last().filters == filters,
{
    assert(log.observed(seq, filters).epochs.drop_last() =~= log.epochs.skip(1));
}

/// A range is covered exactly where it does not begin before the first epoch there is.
pub proof fn ranges_are_covered_from_the_first_epoch_on(log: EpochLogView, from: u64, to: u64)
    ensures
        log.coverage(from, to).covered <==> log.epochs.len() > 0 && log.epochs[0].seq_at_flip <= from,
{
}

/// A seq of a range that was decided under a filter is reported as narrowed, under that
/// filter.
pub proof fn filtered_seqs_are_reported(log: EpochLogView, from: u64, to: u64, seq: u64, i: int)
    requires
        log.ordered(),
        from <= seq <= to,
        log.governs(i, seq),
        log.epochs[i].filters.len() > 0,
    ensures
        exists|k: int|
            {
                &&& 0 <= k < log.coverage(from, to).narrowed.len()
                &&& (#[trigger] log.coverage(from, to).narrowed[k]).from_seq <= seq
                &&& seq <= log.coverage(from, to).narrowed[k].to_seq
                &&& log.coverage(from, to).narrowed[k].filters == log.epochs[i].filters
            },
{
    lemma_reported(log, log.epochs.len() as int, from, to, seq, i);
    let all = log.narrowed(log.epochs.len() as int, from, to);
    let k = choose|k: int|
        {
            &&& 0 <= k < all.len()
            &&& (#[trigger] all[k]).from_seq <= seq
            &&& seq <= all[k].to_seq
            &&& all[k].filters == log.epochs[i].filters
        };
    assert(log.coverage(from, to).narrowed[k] == all[k]);
}

proof fn lemma_reported(log: EpochLogView, n: int, from: u64, to: u64, seq: u64, i: int)
    requires
        log.ordered(),
        from <= seq <= to,
        log.governs(i, seq),
        log.epochs[i].filters.len() > 0,
        i < n <= log.epochs.len(),
    ensures
        exists|k: int|
            {
                &&& 0 <= k < log.narrowed(n, from, to).len()
                &&& (#[trigger] log.narrowed(n, from, to)[k]).from_seq <= seq
                &&& seq <= log.narrowed(n, from, to)[k].to_seq
                &&& log.narrowed(n, from, to)[k].filters == log.epochs[i].filters
            },
    decreases n,
{
    let all = log.narrowed(n, from, to);
    if n - 1 == i {
        assert(log.narrows(i, from, to));
        assert(all[all.len() - 1] == log.part(i, from, to));
    } else {
        lemma_reported(log, n - 1, from, to, seq, i);
        let before = log.narrowed(n - 1, from, to);
        let k = choose|k: int|
            {
                &&& 0 <= k < before.len()
                &&& (#[trigger] before[k]).from_seq <= seq
                &&& seq <= before[k].to_seq
                &&& before[k].filters == log.epochs[i].filters
            };
        assert(all[k] == before[k]);
    }
}

/// The reasons for which a read is not complete come in their order: that it cannot be
/// vouched for comes first, then that it was filtered, then that something was evicted.
pub proof fn the_strongest_reason_is_told(
    coverage: Option<EpochCoverageView>,
    evicted: bool,
    capped: bool,
)
    ensures
        verdict_of(coverage, evicted, capped) == EvidenceVerdict::CannotVerify <==> (coverage is None
            || !coverage->0.covered || capped),
        verdict_of(coverage, evicted, capped) == EvidenceVerdict::Filtered <==> (coverage is Some
            && coverage->0.covered && !capped && coverage->0.narrowed.len() > 0),
        verdict_of(coverage, evicted, capped) == EvidenceVerdict::Evicted <==> (coverage is Some
            && coverage->0.covered && !capped && coverage->0.narrowed.len() == 0 && evicted),
{
}

/// Each verdict has a word of its own.
pub proof fn verdicts_have_their_words(a: EvidenceVerdict, b: EvidenceVerdict)
    ensures
        EvidenceVerdict::Complete.name() == "complete"@,
        EvidenceVerdict::Evicted.name() == "evicted"@,
        EvidenceVerdict::Filtered.name() == "filtered"@,
        EvidenceVerdict::CannotVerify.name() == "cannot_verify"@,
        a.name() == b.name() ==> a == b,
{
    reveal_strlit("complete");
    reveal_strlit("evicted");
    reveal_strlit("filtered");
    reveal_strlit("cannot_verify");
    assert("complete"@.len() == 8 && "evicted"@.len() == 7 && "filtered"@.len() == 8
        && "cannot_verify"@.len() == 13);
    assert("complete"@[0] == 'c' && "filtered"@[0] == 'f');
}

} // verus!
