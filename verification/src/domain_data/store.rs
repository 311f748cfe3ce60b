//! The registry itself.
use super::entry::{
    duration_of, fresh_entry, parse_duration, Entry, EntryView, TtlParseError, TtlSpec,
};
use super::path::{
    byte_len, is_reserved, key_of, matches_prefix, prefix_matches, reserved,
    reserved_keys_have_reserved_patterns, Key, KeyError, KeyView, MAX_KEYS, MAX_SIGIL_KEYS,
    MAX_VALUE_BYTES, SIGIL,
};
use crate::clock::Timestamp;
use crate::json::{Json, JsonView};
use crate::text;
use crate::text::{optional_str, optional_text, text_views};
use crate::text_map::{
    count_keys, has_key, key_index, keys_ascend, lemma_count_keys, lemma_map_len, lemma_pair_in_map,
    pairs_map, precedes, TextMap,
};
use vstd::prelude::*;

verus! {

broadcast use vstd::string::group_string_axioms;

/// One requested change.
///
/// **Absent means unchanged, for both `value` and `ttl`**, and the two share
/// one rule deliberately: two optional fields on one object with opposite
/// absent semantics is precisely the footgun this is built to avoid.
///
/// Value absent means validate only. Erasure is `remove`, never a set of
/// nothing.
#[derive(Debug, PartialEq, Eq)]
pub struct DataEntry {
    pub path: String,
    pub value: Option<String>,
    pub ttl: Option<TtlSpec>,
}

/// What a [`DataEntry`] asks for.
#[verifier::ext_equal]
pub struct DataEntryView {
    pub path: Seq<char>,
    pub value: Option<Seq<char>>,
    pub ttl: Option<TtlSpec>,
}

impl View for DataEntry {
    type V = DataEntryView;

    open spec fn view(&self) -> DataEntryView {
        DataEntryView { path: self.path@, value: optional_text(self.value), ttl: self.ttl }
    }
}

impl Clone for DataEntry {
    fn clone(&self) -> (r: Self)
        ensures
            r@ == self@,
    {
        let value = match &self.value {
            Some(v) => Some(v.clone()),
            None => None,
        };
        DataEntry { path: self.path.clone(), value, ttl: self.ttl }
    }
}

impl Default for DataEntry {
    fn default() -> (r: Self)
        ensures
            r@ == (DataEntryView { path: Seq::empty(), value: None, ttl: None }),
    {
        DataEntry { path: String::new(), value: None, ttl: None }
    }
}

/// What happened to one entry. An enum rather than prose, because the
/// difference between a caller that can branch and one that string-matches is
/// this type existing.
#[derive(Debug, Clone, Copy, PartialEq, Eq, Structural)]
pub enum Outcome {
    Created,
    Updated,
    Validated,
    Unknown { cause: UnknownCause },
    Rejected { reason: RejectReason },
    /// Kept by one document, and not by the registry.
    Scoped,
}

/// Why a key-only entry found nothing.
///
/// Three, not two: a brand-new domain and one whose file was lost look alike
/// from the registry alone. `Undetermined` is the honest default; claiming
/// `NeverSet` for both would be exactly the confident-shaped guess this module
/// exists to refuse.
#[derive(Debug, Clone, Copy, PartialEq, Eq, Structural)]
pub enum UnknownCause {
    /// The registry exists and this key is not in it.
    NeverSet,
    /// A quarantine artifact proves the file was lost.
    NoRegistry,
    /// No registry, and nothing establishes why.
    Undetermined,
}

#[derive(Debug, Clone, Copy, PartialEq, Eq, Structural)]
pub enum RejectReason {
    MalformedPath,
    PathTooLong,
    /// A `value` that was present but not a string. Rejected rather than read
    /// as absent, because absent means *validate*: a number would silently
    /// confirm the old value and report success for a set that never happened.
    MalformedValue,
    ValueTooLong,
    ReservedPrefix,
    SigilNotAllowedHere,
    MalformedTtl,
    RegistryFull,
}

impl RejectReason {
    /// The word for this reason on the wire.
    pub open spec fn name(self) -> Seq<char> {
        match self {
            RejectReason::MalformedPath => "malformed_path"@,
            RejectReason::PathTooLong => "path_too_long"@,
            RejectReason::MalformedValue => "malformed_value"@,
            RejectReason::ValueTooLong => "value_too_long"@,
            RejectReason::ReservedPrefix => "reserved_prefix"@,
            RejectReason::SigilNotAllowedHere => "sigil_not_allowed_here"@,
            RejectReason::MalformedTtl => "malformed_ttl"@,
            RejectReason::RegistryFull => "registry_full"@,
        }
    }

    pub fn as_str(&self) -> (r: &'static str)
        ensures
            r@ == self.name(),
    {
        match self {
            RejectReason::MalformedPath => "malformed_path",
            RejectReason::PathTooLong => "path_too_long",
            RejectReason::MalformedValue => "malformed_value",
            RejectReason::ValueTooLong => "value_too_long",
            RejectReason::ReservedPrefix => "reserved_prefix",
            RejectReason::SigilNotAllowedHere => "sigil_not_allowed_here",
            RejectReason::MalformedTtl => "malformed_ttl",
            RejectReason::RegistryFull => "registry_full",
        }
    }
}

impl Outcome {
    /// The word for this outcome on the wire.
    pub open spec fn name(self) -> Seq<char> {
        match self {
            Outcome::Created => "created"@,
            Outcome::Updated => "updated"@,
            Outcome::Validated => "validated"@,
            Outcome::Unknown { .. } => "unknown"@,
            Outcome::Rejected { .. } => "rejected"@,
            Outcome::Scoped => "scoped"@,
        }
    }

    pub fn as_str(&self) -> (r: &'static str)
        ensures
            r@ == self.name(),
    {
        match self {
            Outcome::Created => "created",
            Outcome::Updated => "updated",
            Outcome::Validated => "validated",
            Outcome::Unknown { .. } => "unknown",
            Outcome::Rejected { .. } => "rejected",
            Outcome::Scoped => "scoped",
        }
    }
}

impl UnknownCause {
    /// The word for this cause on the wire.
    pub open spec fn name(self) -> Seq<char> {
        match self {
            UnknownCause::NeverSet => "never_set"@,
            UnknownCause::NoRegistry => "no_registry"@,
            UnknownCause::Undetermined => "undetermined"@,
        }
    }

    pub fn as_str(&self) -> (r: &'static str)
        ensures
            r@ == self.name(),
    {
        match self {
            UnknownCause::NeverSet => "never_set",
            UnknownCause::NoRegistry => "no_registry",
            UnknownCause::Undetermined => "undetermined",
        }
    }
}

#[derive(Debug, PartialEq, Eq)]
pub struct DataOutcome {
    /// The key as the caller spelled it, sigil included.
    pub path: String,
    pub outcome: Outcome,
}

/// What a [`DataOutcome`] reports.
#[verifier::ext_equal]
pub struct DataOutcomeView {
    pub path: Seq<char>,
    pub outcome: Outcome,
}

impl View for DataOutcome {
    type V = DataOutcomeView;

    open spec fn view(&self) -> DataOutcomeView {
        DataOutcomeView { path: self.path@, outcome: self.outcome }
    }
}

impl Clone for DataOutcome {
    fn clone(&self) -> (r: Self)
        ensures
            r@ == self@,
    {
        DataOutcome { path: self.path.clone(), outcome: self.outcome }
    }
}

#[derive(Debug, PartialEq, Eq)]
pub struct RemoveOutcome {
    pub pattern: String,
    pub removed: usize,
    pub rejected: Option<RejectReason>,
}

/// What a [`RemoveOutcome`] reports.
#[verifier::ext_equal]
pub struct RemoveOutcomeView {
    pub pattern: Seq<char>,
    pub removed: nat,
    pub rejected: Option<RejectReason>,
}

impl View for RemoveOutcome {
    type V = RemoveOutcomeView;

    open spec fn view(&self) -> RemoveOutcomeView {
        RemoveOutcomeView {
            pattern: self.pattern@,
            removed: self.removed as nat,
            rejected: self.rejected,
        }
    }
}

#[derive(Debug, Clone, Copy, PartialEq, Eq, Structural)]
pub enum RegistryError {
    Reserved,
}

/// A domain's registry: agent keys and logmon's own.
///
/// **Document-scoped (`@`) keys never reach it.** They belong to one capture,
/// and the registry is long-lived and shared: holding them here would let the
/// next case on the domain inherit the last one's assertions, which is the
/// laundering the sigil exists to prevent.
///
/// The entries are walked in key order, so a document rendered twice from one
/// registry is byte-identical and a diff between two documents is not noise.
#[derive(Debug)]
pub struct Registry {
    entries: TextMap<Entry>,
    /// True once anything establishes that a prior file was lost: currently a
    /// quarantine artifact found at load. Drives [`UnknownCause`].
    saw_quarantine: bool,
}

/// What a [`Registry`] holds.
#[verifier::ext_equal]
pub struct RegistryView {
    pub entries: Map<Seq<char>, EntryView>,
    pub saw_quarantine: bool,
}

/// The entries of a map, each by what it stands for.
pub open spec fn entry_views(m: Map<Seq<char>, Entry>) -> Map<Seq<char>, EntryView> {
    m.map_values(|e: Entry| e@)
}

impl View for Registry {
    type V = RegistryView;

    closed spec fn view(&self) -> RegistryView {
        RegistryView { entries: entry_views(self.entries@), saw_quarantine: self.saw_quarantine }
    }
}

/// The keys that count against [`MAX_KEYS`]: agent keys, logmon's own being
/// exempt.
pub open spec fn agent_keys(r: RegistryView) -> Set<Seq<char>> {
    r.entries.dom().filter(|k: Seq<char>| !reserved(k))
}

/// Why a key that is not in `r` is unknown.
pub open spec fn cause_of_absence(r: RegistryView) -> UnknownCause {
    if r.entries != Map::<Seq<char>, EntryView>::empty() {
        UnknownCause::NeverSet
    } else if r.saw_quarantine {
        UnknownCause::NoRegistry
    } else {
        UnknownCause::Undetermined
    }
}

/// No value of a registry was confirmed before it came into force.
pub open spec fn all_ordered(r: RegistryView) -> bool {
    forall|k: Seq<char>| #[trigger] r.entries.contains_key(k) ==> r.entries[k].ordered()
}

/// The lifetime that an entry has once `ttl` was asked for.
pub open spec fn ttl_after(before: Option<u64>, ttl: Option<TtlSpec>) -> Option<u64> {
    match ttl {
        None => before,
        Some(TtlSpec::Clear) => None,
        Some(TtlSpec::Seconds(s)) => Some(s),
    }
}

/// The entry that confirming `before` at `now` leaves, with `value` in place of
/// its own: a changed value comes into force now. A value is never confirmed
/// before it came into force, also where the clock was set back.
pub open spec fn restated(before: EntryView, value: Seq<char>, now: Timestamp) -> EntryView {
    EntryView {
        value,
        created_at: if before.value == value {
            before.created_at
        } else {
            now
        },
        validated_at: if before.value == value {
            now.later_of(before.created_at)
        } else {
            now
        },
        ttl_secs: before.ttl_secs,
    }
}

/// Whether restating a value changed it.
pub open spec fn restate_outcome(before: EntryView, value: Seq<char>) -> Outcome {
    if before.value == value {
        Outcome::Validated
    } else {
        Outcome::Updated
    }
}

/// Why a registry surface refuses a key, if it does.
pub open spec fn refusal(raw: Seq<char>) -> Option<RejectReason> {
    match key_of(raw, false) {
        Err(KeyError::Malformed) => Some(RejectReason::MalformedPath),
        Err(KeyError::TooLong) => Some(RejectReason::PathTooLong),
        Err(KeyError::SigilNotAllowed) => Some(RejectReason::SigilNotAllowedHere),
        Ok(k) => if reserved(k.path) {
            Some(RejectReason::ReservedPrefix)
        } else {
            None
        },
    }
}

/// `r` with `entry` at `key`.
pub open spec fn with_entry(r: RegistryView, key: Seq<char>, entry: EntryView) -> RegistryView {
    RegistryView { entries: r.entries.insert(key, entry), ..r }
}

/// What one requested change does to `r`, and what is reported of it.
pub open spec fn applied(r: RegistryView, e: DataEntryView, now: Timestamp) -> (
    RegistryView,
    Outcome,
) {
    if refusal(e.path) is Some {
        (r, Outcome::Rejected { reason: refusal(e.path)->0 })
    } else if e.value is Some && byte_len(e.value->0) > MAX_VALUE_BYTES {
        (r, Outcome::Rejected { reason: RejectReason::ValueTooLong })
    } else if r.entries.contains_key(e.path) {
        let before = r.entries[e.path];
        let value = if e.value is Some {
            e.value->0
        } else {
            before.value
        };
        let after = EntryView {
            ttl_secs: ttl_after(before.ttl_secs, e.ttl),
            ..restated(before, value, now)
        };
        (with_entry(r, e.path, after), restate_outcome(before, value))
    } else if e.value is None {
        (r, Outcome::Unknown { cause: cause_of_absence(r) })
    } else if agent_keys(r).len() >= MAX_KEYS {
        (r, Outcome::Rejected { reason: RejectReason::RegistryFull })
    } else {
        (
            with_entry(r, e.path, fresh_entry(e.value->0, now, ttl_after(None, e.ttl))),
            Outcome::Created,
        )
    }
}

/// `r` after a batch, applied in the order given.
pub open spec fn after_batch(
    r: RegistryView,
    entries: Seq<DataEntryView>,
    now: Timestamp,
) -> RegistryView
    decreases entries.len(),
{
    if entries.len() == 0 {
        r
    } else {
        applied(after_batch(r, entries.drop_last(), now), entries.last(), now).0
    }
}

/// What is reported of the `i`th change of a batch.
pub open spec fn batch_outcome(
    r: RegistryView,
    entries: Seq<DataEntryView>,
    now: Timestamp,
    i: int,
) -> DataOutcomeView {
    DataOutcomeView {
        path: entries[i].path,
        outcome: applied(after_batch(r, entries.take(i), now), entries[i], now).1,
    }
}

/// The keys that removing by `pattern` takes.
pub open spec fn doomed(r: RegistryView, pattern: Seq<char>) -> Set<Seq<char>> {
    r.entries.dom().filter(|k: Seq<char>| prefix_matches(pattern, k))
}

/// What removing by one pattern does to `r`, and what is reported of it.
pub open spec fn removed_by(r: RegistryView, pattern: Seq<char>) -> (
    RegistryView,
    RemoveOutcomeView,
) {
    if refusal(pattern) is Some {
        (r, RemoveOutcomeView { pattern, removed: 0, rejected: refusal(pattern) })
    } else {
        (
            RegistryView { entries: r.entries.remove_keys(doomed(r, pattern)), ..r },
            RemoveOutcomeView { pattern, removed: doomed(r, pattern).len(), rejected: None },
        )
    }
}

/// `r` after removing by each pattern in turn.
pub open spec fn after_removals(r: RegistryView, patterns: Seq<Seq<char>>) -> RegistryView
    decreases patterns.len(),
{
    if patterns.len() == 0 {
        r
    } else {
        removed_by(after_removals(r, patterns.drop_last()), patterns.last()).0
    }
}

/// The views of a list of entries.
pub open spec fn entry_requests(entries: Seq<DataEntry>) -> Seq<DataEntryView> {
    entries.map_values(|e: DataEntry| e@)
}

/// Whether an entry is one that a query asks for.
pub open spec fn wanted(
    prefix: Option<Seq<char>>,
    validated_before: Option<Timestamp>,
    key: Seq<char>,
    entry: EntryView,
) -> bool {
    &&& prefix is Some ==> prefix_matches(prefix->0, key)
    &&& validated_before is Some ==> entry.validated_at.instant() < validated_before->0.instant()
}

impl Registry {
    /// The entries are in key order and no key occurs twice.
    pub closed spec fn wf(&self) -> bool {
        self.entries.wf()
    }

    /// The entries as they are walked.
    pub closed spec fn pairs(&self) -> Seq<(Seq<char>, Entry)> {
        self.entries.pairs()
    }

    pub fn new() -> (r: Self)
        ensures
            r.wf(),
            r@ == (RegistryView { entries: Map::empty(), saw_quarantine: false }),
    {
        let r = Registry { entries: TextMap::new(), saw_quarantine: false };
        proof {
            assert(r@.entries =~= Map::empty());
        }
        r
    }

    pub fn from_entries(entries: TextMap<Entry>) -> (r: Self)
        requires
            entries.wf(),
        ensures
            r.wf(),
            r@ == (RegistryView { entries: entry_views(entries@), saw_quarantine: false }),
    {
        Registry { entries, saw_quarantine: false }
    }

    /// Record that a quarantine artifact was found, which is the only evidence
    /// that distinguishes a lost registry from a new one.
    pub fn note_quarantined(&mut self)
        requires
            old(self).wf(),
        ensures
            final(self).wf(),
            final(self)@ == (RegistryView { saw_quarantine: true, ..old(self)@ }),
    {
        self.saw_quarantine = true;
    }

    pub fn entries(&self) -> (r: &TextMap<Entry>)
        requires
            self.wf(),
        ensures
            r.wf(),
            entry_views(r@) == self@.entries,
    {
        &self.entries
    }

    /// How many keys are recorded here, the reserved ones among them.
    pub fn len(&self) -> (n: usize)
        requires
            self.wf(),
        ensures
            self@.entries.dom().finite(),
            n == self@.entries.dom().len(),
    {
        proof {
            lemma_map_len(self.entries.pairs());
            assert(self@.entries.dom() =~= self.entries@.dom());
        }
        self.entries.len()
    }

    /// Whether nothing has ever been recorded here.
    pub fn has_no_entries(&self) -> (r: bool)
        requires
            self.wf(),
        ensures
            r == (self@.entries == Map::<Seq<char>, EntryView>::empty()),
    {
        proof {
            if self.entries@ == Map::<Seq<char>, Entry>::empty() {
                assert(self@.entries =~= Map::<Seq<char>, EntryView>::empty());
            } else if self@.entries == Map::<Seq<char>, EntryView>::empty() {
                assert(self.entries@.dom() =~= self@.entries.dom());
                assert(self.entries@ =~= Map::<Seq<char>, Entry>::empty());
            }
        }
        self.entries.is_empty()
    }

    pub fn get(&self, path: &str) -> (r: Option<&Entry>)
        requires
            self.wf(),
        ensures
            match r {
                Some(e) => self@.entries.contains_key(path@) && self@.entries[path@] == e@,
                None => !self@.entries.contains_key(path@),
            },
    {
        self.entries.get(path)
    }

    /// Keys counted against [`MAX_KEYS`]: agent keys only.
    ///
    /// `/logmon/*` is exempt because otherwise logmon could lock an agent out
    /// of its own registry. Scoped keys never appear here at all.
    fn counted_len(&self) -> (n: usize)
        requires
            self.wf(),
        ensures
            n == agent_keys(self@).len(),
    {
        let ghost agent = |k: Seq<char>| !reserved(k);
        let ghost pairs = self.entries.pairs();
        let mut n: usize = 0;
        let mut i: usize = 0;
        while i < self.entries.len()
            invariant
                self.wf(),
                pairs == self.entries.pairs(),
                agent == (|k: Seq<char>| !reserved(k)),
                n <= i <= pairs.len(),
                n == count_keys(pairs.take(i as int), agent),
            decreases pairs.len() - i,
        {
            proof {
                assert(pairs.take(i + 1).drop_last() =~= pairs.take(i as int));
                assert(pairs.take(i + 1).last() == pairs[i as int]);
            }
            if !is_reserved(self.entries.key_at(i)) {
                n += 1;
            }
            i += 1;
        }
        proof {
            assert(pairs.take(pairs.len() as int) =~= pairs);
            lemma_count_keys(pairs, agent);
            assert(self@.entries.dom() =~= self.entries@.dom());
        }
        n
    }

    /// Apply a batch.
    ///
    /// **Entries are applied in the order given.** When a batch would cross
    /// [`MAX_KEYS`], the overflow is rejected with `RegistryFull` rather than
    /// the batch being sorted or refused wholesale.
    ///
    /// One malformed entry never rejects the batch. Valid rows apply; rejected
    /// rows return their reason.
    ///
    /// **A sigilled key is always rejected here.** The registry is the wrong
    /// home for a fact scoped to one document.
    pub fn update(&mut self, entries: &[DataEntry], now: Timestamp) -> (r: Vec<DataOutcome>)
        requires
            old(self).wf(),
        ensures
            final(self).wf(),
            final(self)@ == after_batch(old(self)@, entry_requests(entries@), now),
            r@.len() == entries@.len(),
            forall|i: int|
                0 <= i < r@.len() ==> (#[trigger] r@[i])@ == batch_outcome(
                    old(self)@,
                    entry_requests(entries@),
                    now,
                    i,
                ),
    {
        let ghost before = self@;
        let ghost all = entry_requests(entries@);
        let mut out: Vec<DataOutcome> = Vec::new();
        let mut i: usize = 0;
        while i < entries.len()
            invariant
                self.wf(),
                all == entry_requests(entries@),
                i <= entries@.len(),
                self@ == after_batch(before, all.take(i as int), now),
                out@.len() == i,
                forall|k: int|
                    0 <= k < i ==> (#[trigger] out@[k])@ == batch_outcome(before, all, now, k),
            decreases entries@.len() - i,
        {
            proof {
                assert(all.take(i + 1).drop_last() =~= all.take(i as int));
                assert(all.take(i + 1).last() == all[i as int]);
            }
            let e = &entries[i];
            let outcome = self.apply_one(e, now);
            out.push(DataOutcome { path: e.path.clone(), outcome });
            i += 1;
        }
        proof {
            assert(all.take(all.len() as int) =~= all);
        }
        out
    }

    fn apply_one(&mut self, e: &DataEntry, now: Timestamp) -> (outcome: Outcome)
        requires
            old(self).wf(),
        ensures
            final(self).wf(),
            final(self)@ == applied(old(self)@, e@, now).0,
            outcome == applied(old(self)@, e@, now).1,
            all_ordered(old(self)@) ==> all_ordered(final(self)@),
    {
        proof {
            if all_ordered(self@) {
                changes_keep_entries_ordered(self@, e@, now);
            }
        }
        let ghost before = self@;
        // Policy, not syntax, so it lives here rather than in `parse`: the same
        // parser serves `set_reserved`, which is the one caller allowed in.
        match refuse(&e.path) {
            Some(reason) => return Outcome::Rejected { reason },
            None => {},
        }
        match &e.value {
            Some(v) => {
                if v.as_str().as_bytes().len() > MAX_VALUE_BYTES {
                    return Outcome::Rejected { reason: RejectReason::ValueTooLong };
                }
            },
            None => {},
        }
        let found = match self.entries.get(&e.path) {
            Some(existing) => Some(existing.clone()),
            None => None,
        };
        match (&e.value, found) {
            // Validate only.
            (None, Some(existing)) => {
                let mut next = existing;
                next.validated_at = now.later(&next.created_at);
                next.ttl_secs = chosen_ttl(next.ttl_secs, e.ttl);
                self.put(&e.path, next);
                Outcome::Validated
            },
            // Key-only on a missing key must NOT create: inventing a valueless
            // key is the helpful guess that becomes wrong data.
            (None, None) => Outcome::Unknown { cause: self.unknown_cause() },
            (Some(v), Some(existing)) => {
                let mut next = existing;
                let changed = !text::same(&next.value, v);
                if changed {
                    next.value = v.clone();
                    next.created_at = now;
                }
                next.validated_at = now.later(&next.created_at);
                next.ttl_secs = chosen_ttl(next.ttl_secs, e.ttl);
                self.put(&e.path, next);
                if changed {
                    Outcome::Updated
                } else {
                    Outcome::Validated
                }
            },
            (Some(v), None) => {
                if self.counted_len() >= MAX_KEYS {
                    return Outcome::Rejected { reason: RejectReason::RegistryFull };
                }
                self.put(&e.path, Entry::new(v.clone(), now, chosen_ttl(None, e.ttl)));
                Outcome::Created
            },
        }
    }

    fn put(&mut self, path: &String, entry: Entry)
        requires
            old(self).wf(),
        ensures
            final(self).wf(),
            final(self)@ == with_entry(old(self)@, path@, entry@),
    {
        let ghost before = self.entries@;
        self.entries.insert(path.clone(), entry);
        proof {
            assert(self@.entries =~= entry_views(before).insert(path@, entry@));
        }
    }

    fn unknown_cause(&self) -> (r: UnknownCause)
        requires
            self.wf(),
        ensures
            r == cause_of_absence(self@),
    {
        if self.has_no_entries() {
            if self.saw_quarantine {
                UnknownCause::NoRegistry
            } else {
                UnknownCause::Undetermined
            }
        } else {
            UnknownCause::NeverSet
        }
    }

    /// Remove by prefix pattern, reporting a count per pattern.
    ///
    /// A pattern whose first segment is reserved is refused, which covers the
    /// bare `/logmon` as well as `/logmon/version`. `remove` has no undo.
    pub fn remove(&mut self, patterns: &[String]) -> (r: Vec<RemoveOutcome>)
        requires
            old(self).wf(),
        ensures
            final(self).wf(),
            final(self)@ == after_removals(old(self)@, text_views(patterns@)),
            r@.len() == patterns@.len(),
            forall|i: int|
                0 <= i < r@.len() ==> (#[trigger] r@[i])@ == removed_by(
                    after_removals(old(self)@, text_views(patterns@).take(i)),
                    patterns@[i]@,
                ).1,
    {
        let ghost before = self@;
        let ghost all = text_views(patterns@);
        let mut out: Vec<RemoveOutcome> = Vec::new();
        let mut i: usize = 0;
        while i < patterns.len()
            invariant
                self.wf(),
                all == text_views(patterns@),
                i <= patterns@.len(),
                self@ == after_removals(before, all.take(i as int)),
                out@.len() == i,
                forall|k: int|
                    0 <= k < i ==> (#[trigger] out@[k])@ == removed_by(
                        after_removals(before, all.take(k)),
                        patterns@[k]@,
                    ).1,
            decreases patterns@.len() - i,
        {
            proof {
                assert(all.take(i + 1).drop_last() =~= all.take(i as int));
                assert(all.take(i + 1).last() == patterns@[i as int]@);
            }
            let outcome = self.remove_one(&patterns[i]);
            out.push(outcome);
            i += 1;
        }
        proof {
            assert(all.take(all.len() as int) =~= all);
        }
        out
    }

    fn remove_one(&mut self, pattern: &String) -> (outcome: RemoveOutcome)
        requires
            old(self).wf(),
        ensures
            final(self).wf(),
            final(self)@ == removed_by(old(self)@, pattern@).0,
            outcome@ == removed_by(old(self)@, pattern@).1,
    {
        match refuse(pattern) {
            Some(reason) => {
                return RemoveOutcome { pattern: pattern.clone(), removed: 0, rejected: Some(reason) };
            },
            None => {},
        }
        let ghost p = pattern@;
        let ghost before = self.entries.pairs();
        let ghost whole = self@;
        let ghost gone = |k: Seq<char>| prefix_matches(p, k);
        let ghost kept = |pair: (Seq<char>, Entry)| !prefix_matches(p, pair.0);
        let mut removed: usize = 0;
        let mut done: usize = 0;
        let total: usize = self.entries.len();
        let mut i: usize = 0;
        proof {
            reveal(Seq::filter);
            assert(before.skip(0) =~= before);
            assert(before.take(0).filter(kept) =~= Seq::empty());
            assert(Seq::<(Seq<char>, Entry)>::empty() + before =~= before);
        }
        while done < total
            invariant
                p == pattern@,
                total == before.len(),
                done <= total,
                removed <= done,
                i == before.take(done as int).filter(kept).len(),
                kept == (|pair: (Seq<char>, Entry)| !prefix_matches(p, pair.0)),
                gone == (|k: Seq<char>| prefix_matches(p, k)),
                removed == count_keys(before.take(done as int), gone),
                self.entries.pairs() == before.take(done as int).filter(kept) + before.skip(
                    done as int,
                ),
                self.saw_quarantine == whole.saw_quarantine,
            decreases total - done,
        {
            proof {
                reveal(Seq::filter);
                assert(before.take(done + 1).drop_last() =~= before.take(done as int));
                assert(before.take(done + 1).last() == before[done as int]);
                assert(self.entries.pairs()[i as int] == before[done as int]);
            }
            if matches_prefix(pattern, self.entries.key_at(i)) {
                let ghost now = self.entries.pairs();
                self.entries.remove_at(i);
                proof {
                    assert(now.remove(i as int) =~= before.take(done + 1).filter(kept)
                        + before.skip(done + 1));
                }
                removed += 1;
            } else {
                proof {
                    assert(self.entries.pairs() =~= before.take(done + 1).filter(kept)
                        + before.skip(done + 1));
                }
                i += 1;
            }
            done += 1;
        }
        proof {
            assert(before.take(total as int) =~= before);
            assert(before.skip(total as int) =~= Seq::empty());
            assert(self.entries.pairs() =~= before.filter(kept));
            lemma_count_keys(before, gone);
            assert(whole.entries.dom() =~= pairs_map(before).dom());
            lemma_filtered(before, p);
            assert(self@.entries =~= whole.entries.remove_keys(doomed(whole, p)));
        }
        RemoveOutcome { pattern: pattern.clone(), removed, rejected: None }
    }

    /// Logmon's own write path. The only route to `/logmon/*`, and it refuses
    /// everything else so a bug here cannot quietly become an agent write.
    pub fn set_reserved(&mut self, path: &str, value: String, now: Timestamp) -> (r: Result<
        Outcome,
        RegistryError,
    >)
        requires
            old(self).wf(),
        ensures
            final(self).wf(),
            final(self)@ == reserved_set(old(self)@, path@, value@, now),
            match r {
                Err(_) => !reserved(path@),
                Ok(outcome) => reserved(path@) && outcome == (if old(self)@.entries.contains_key(
                    path@,
                ) {
                    restate_outcome(old(self)@.entries[path@], value@)
                } else {
                    Outcome::Created
                }),
            },
    {
        if !is_reserved(path) {
            return Err(RegistryError::Reserved);
        }
        let at = text::owned(path);
        let found = match self.entries.get(path) {
            Some(existing) => Some(existing.clone()),
            None => None,
        };
        match found {
            Some(existing) => {
                let mut next = existing;
                let changed = !text::same(&next.value, &value);
                if changed {
                    next.value = value;
                    next.created_at = now;
                }
                next.validated_at = now.later(&next.created_at);
                self.put(&at, next);
                Ok(
                    if changed {
                        Outcome::Updated
                    } else {
                        Outcome::Validated
                    },
                )
            },
            None => {
                self.put(&at, Entry::new(value, now, None));
                Ok(Outcome::Created)
            },
        }
    }

    /// Read, optionally narrowed by prefix and by staleness, in key order.
    ///
    /// `validated_before` is a filter over `get` rather than a tool of its own:
    /// "what is stale" is a question about the registry, and answering it with
    /// a second surface would mean two things to keep in step.
    pub fn query(&self, prefix: Option<&str>, validated_before: Option<Timestamp>) -> (r: Vec<
        (&String, &Entry),
    >)
        requires
            self.wf(),
        ensures
            forall|i: int, j: int|
                0 <= i < j < r@.len() ==> precedes((#[trigger] r@[i]).0@, (#[trigger] r@[j]).0@),
            forall|i: int|
                0 <= i < r@.len() ==> {
                    let key = (#[trigger] r@[i]).0@;
                    &&& self@.entries.contains_key(key)
                    &&& self@.entries[key] == r@[i].1@
                    &&& wanted(optional_str(prefix), validated_before, key, self@.entries[key])
                },
            forall|key: Seq<char>|
                self@.entries.contains_key(key) && #[trigger] wanted(
                    optional_str(prefix),
                    validated_before,
                    key,
                    self@.entries[key],
                ) ==> exists|i: int| 0 <= i < r@.len() && (#[trigger] r@[i]).0@ == key,
    {
        let ghost pairs = self.entries.pairs();
        let ghost mut places: Seq<int> = Seq::empty();
        let mut out: Vec<(&String, &Entry)> = Vec::new();
        let mut i: usize = 0;
        while i < self.entries.len()
            invariant
                self.wf(),
                pairs == self.entries.pairs(),
                i <= pairs.len(),
                places.len() == out@.len(),
                forall|k: int|
                    0 <= k < out@.len() ==> {
                        &&& 0 <= #[trigger] places[k] < i
                        &&& out@[k].0@ == pairs[places[k]].0
                        &&& out@[k].1 == pairs[places[k]].1
                        &&& wanted(
                            optional_str(prefix),
                            validated_before,
                            pairs[places[k]].0,
                            pairs[places[k]].1@,
                        )
                    },
                forall|k: int, l: int|
                    0 <= k < l < places.len() ==> #[trigger] places[k] < #[trigger] places[l],
                forall|n: int|
                    0 <= n < i && wanted(
                        optional_str(prefix),
                        validated_before,
                        #[trigger] pairs[n].0,
                        pairs[n].1@,
                    ) ==> places.contains(n),
            decreases pairs.len() - i,
        {
            let key = self.entries.key_at(i);
            let entry = self.entries.value_at(i);
            let near = match prefix {
                Some(p) => matches_prefix(p, key),
                None => true,
            };
            let stale = match validated_before {
                Some(t) => entry.validated_at.before(&t),
                None => true,
            };
            if near && stale {
                let ghost earlier = places;
                proof {
                    places = places.push(i as int);
                    assert forall|n: int| earlier.contains(n) implies places.contains(n) by {
                        let k = choose|k: int| 0 <= k < earlier.len() && earlier[k] == n;
                        assert(places[k] == n);
                    }
                    assert(places[places.len() - 1] == i);
                }
                out.push((key, entry));
            }
            i += 1;
        }
        proof {
            assert forall|k: int| 0 <= k < out@.len() implies self@.entries.contains_key(
                (#[trigger] out@[k]).0@,
            ) && self@.entries[out@[k].0@] == out@[k].1@ && wanted(
                optional_str(prefix),
                validated_before,
                out@[k].0@,
                self@.entries[out@[k].0@],
            ) by {
                assert(0 <= places[k] < pairs.len());
                lemma_pair_in_map(pairs, places[k]);
            }
            assert forall|k: int, l: int| 0 <= k < l < out@.len() implies precedes(
                (#[trigger] out@[k]).0@,
                (#[trigger] out@[l]).0@,
            ) by {
                assert(places[k] < places[l]);
                assert(precedes(pairs[places[k]].0, pairs[places[l]].0));
            }
            assert forall|key: Seq<char>|
                self@.entries.contains_key(key) && #[trigger] wanted(
                    optional_str(prefix),
                    validated_before,
                    key,
                    self@.entries[key],
                ) implies exists|k: int| 0 <= k < out@.len() && (#[trigger] out@[k]).0@ == key by {
                let n = key_index(pairs, key);
                assert(has_key(pairs, key));
                lemma_pair_in_map(pairs, n);
                assert(places.contains(n));
                let k = choose|k: int| 0 <= k < places.len() && places[k] == n;
                assert(out@[k].0@ == key);
            }
        }
        out
    }
}

/// `r` after logmon's own write of `value` at `path`.
pub open spec fn reserved_set(
    r: RegistryView,
    path: Seq<char>,
    value: Seq<char>,
    now: Timestamp,
) -> RegistryView {
    if !reserved(path) {
        r
    } else if r.entries.contains_key(path) {
        with_entry(r, path, restated(r.entries[path], value, now))
    } else {
        with_entry(r, path, fresh_entry(value, now, None))
    }
}

proof fn lemma_filtered(pairs: Seq<(Seq<char>, Entry)>, p: Seq<char>)
    requires
        keys_ascend(pairs),
    ensures
        ({
            let kept = |pair: (Seq<char>, Entry)| !prefix_matches(p, pair.0);
            let gone = |k: Seq<char>| prefix_matches(p, k);
            let rest = pairs.filter(kept);
            &&& keys_ascend(rest)
            &&& pairs_map(rest) == pairs_map(pairs).remove_keys(pairs_map(pairs).dom().filter(gone))
        }),
    decreases pairs.len(),
{
    let kept = |pair: (Seq<char>, Entry)| !prefix_matches(p, pair.0);
    let gone = |k: Seq<char>| prefix_matches(p, k);
    reveal(Seq::filter);
    let rest = pairs.filter(kept);
    if pairs.len() == 0 {
        assert(pairs_map(rest) =~= pairs_map(pairs).remove_keys(pairs_map(pairs).dom().filter(gone)));
    } else {
        let front = pairs.drop_last();
        let last = pairs.last();
        lemma_filtered(front, p);
        let front_rest = front.filter(kept);
        assert forall|i: int| 0 <= i < front_rest.len() implies precedes(
            #[trigger] front_rest[i].0,
            last.0,
        ) by {
            assert(pairs_map(front_rest).contains_key(front_rest[i].0)) by {
                lemma_pair_in_map(front_rest, i);
            }
            let k = front_rest[i].0;
            assert(has_key(front, k));
            let j = key_index(front, k);
            assert(pairs[j].0 == k && pairs[pairs.len() - 1].0 == last.0);
        }
        assert(keys_ascend(rest));
        assert forall|k: Seq<char>| has_key(rest, k) == (has_key(pairs, k) && !prefix_matches(p, k)) by {
            if has_key(rest, k) {
                let i = key_index(rest, k);
                if i < front_rest.len() {
                    assert(front_rest[i].0 == k);
                    assert(has_key(front_rest, k));
                    assert(pairs_map(front_rest).contains_key(k));
                    assert(has_key(front, k));
                    let j = key_index(front, k);
                    assert(pairs[j].0 == k);
                } else {
                    assert(pairs[pairs.len() - 1].0 == k);
                }
            }
            if has_key(pairs, k) && !prefix_matches(p, k) {
                let j = key_index(pairs, k);
                if j < front.len() {
                    assert(front[j].0 == k);
                    assert(has_key(front, k));
                    assert(pairs_map(front_rest).contains_key(k));
                    let i = key_index(front_rest, k);
                    assert(rest[i].0 == k);
                } else {
                    assert(rest[rest.len() - 1].0 == k);
                }
            }
        }
        assert forall|k: Seq<char>| has_key(rest, k) implies pairs_map(rest)[k] == pairs_map(pairs)[k] by {
            let i = key_index(rest, k);
            lemma_pair_in_map(rest, i);
            if i < front_rest.len() {
                assert(front_rest[i] == rest[i]);
                lemma_pair_in_map(front_rest, i);
                assert(has_key(front, k));
                let j = key_index(front, k);
                lemma_pair_in_map(front, j);
                assert(pairs[j] == front[j]);
                lemma_pair_in_map(pairs, j);
            } else {
                lemma_pair_in_map(pairs, pairs.len() - 1);
            }
        }
        assert(pairs_map(rest) =~= pairs_map(pairs).remove_keys(pairs_map(pairs).dom().filter(gone)));
    }
}

fn chosen_ttl(before: Option<u64>, ttl: Option<TtlSpec>) -> (r: Option<u64>)
    ensures
        r == ttl_after(before, ttl),
{
    match ttl {
        None => before,
        Some(TtlSpec::Clear) => None,
        Some(TtlSpec::Seconds(s)) => Some(s),
    }
}

/// Why a registry surface refuses a key, if it does.
fn refuse(raw: &str) -> (r: Option<RejectReason>)
    ensures
        r == refusal(raw@),
        r is None ==> key_of(raw@, false) == Ok::<KeyView, KeyError>(
            KeyView { path: raw@, sigil: false },
        ),
{
    match Key::parse(raw, false) {
        Err(KeyError::Malformed) => Some(RejectReason::MalformedPath),
        Err(KeyError::TooLong) => Some(RejectReason::PathTooLong),
        Err(KeyError::SigilNotAllowed) => Some(RejectReason::SigilNotAllowedHere),
        Ok(k) => {
            if k.is_reserved() {
                Some(RejectReason::ReservedPrefix)
            } else {
                None
            }
        },
    }
}

/// One document-scoped assertion: a `@` key and its value.
///
/// Deliberately **not** an [`Entry`]: it has no `created_at`/`validated_at` pair
/// because it has no history to have. It is asserted once, at capture.
#[derive(Debug, PartialEq, Eq)]
pub struct ScopedFact {
    /// Rendered with its sigil, so `grep '/Data/seed'` and `grep '@/Data/seed'`
    /// stay two different questions over an archive.
    pub key: String,
    pub value: String,
}

/// What a [`ScopedFact`] asserts.
#[verifier::ext_equal]
pub struct ScopedFactView {
    pub key: Seq<char>,
    pub value: Seq<char>,
}

impl View for ScopedFact {
    type V = ScopedFactView;

    open spec fn view(&self) -> ScopedFactView {
        ScopedFactView { key: self.key@, value: self.value@ }
    }
}

/// Everything a single capture asserted about itself.
#[derive(Debug, PartialEq, Eq)]
pub struct ScopedData {
    pub facts: Vec<ScopedFact>,
}

impl View for ScopedData {
    type V = Seq<ScopedFactView>;

    open spec fn view(&self) -> Seq<ScopedFactView> {
        self.facts@.map_values(|f: ScopedFact| f@)
    }
}

impl Default for ScopedData {
    fn default() -> (r: Self)
        ensures
            r@ == Seq::<ScopedFactView>::empty(),
    {
        let r = ScopedData { facts: Vec::new() };
        proof {
            assert(r@ =~= Seq::empty());
        }
        r
    }
}

/// Whether a raw key carries the sigil.
pub open spec fn sigilled(raw: Seq<char>) -> bool {
    raw.len() > 0 && raw[0] == SIGIL
}

/// Why a document-scoped entry is refused whatever else the document holds.
pub open spec fn scoped_refusal(e: DataEntryView) -> Option<RejectReason> {
    match key_of(e.path, true) {
        Err(KeyError::Malformed) => Some(RejectReason::MalformedPath),
        Err(KeyError::TooLong) => Some(RejectReason::PathTooLong),
        Err(KeyError::SigilNotAllowed) => Some(RejectReason::SigilNotAllowedHere),
        Ok(k) => if reserved(k.path) {
            Some(RejectReason::ReservedPrefix)
        } else if e.value is None {
            Some(RejectReason::MalformedPath)
        } else if byte_len(e.value->0) > MAX_VALUE_BYTES {
            Some(RejectReason::ValueTooLong)
        } else {
            None
        },
    }
}

/// Whether `key` is asserted by a fact.
pub open spec fn asserts_key(facts: Seq<ScopedFactView>, key: Seq<char>) -> bool {
    exists|i: int| 0 <= i < facts.len() && #[trigger] facts[i].key == key
}

/// Why a document that already holds `facts` refuses a scoped entry. A key that it
/// holds takes its last value, also where there is no room for another.
pub open spec fn scoped_refusal_at(facts: Seq<ScopedFactView>, e: DataEntryView) -> Option<
    RejectReason,
> {
    if scoped_refusal(e) is Some {
        scoped_refusal(e)
    } else if !asserts_key(facts, e.path) && facts.len() >= MAX_SIGIL_KEYS {
        Some(RejectReason::RegistryFull)
    } else {
        None
    }
}

/// `facts` with `value` at `key`: in place of the first fact of that key, or
/// behind the others.
pub open spec fn asserted(facts: Seq<ScopedFactView>, key: Seq<char>, value: Seq<char>) -> Seq<
    ScopedFactView,
>
    decreases facts.len(),
{
    if facts.len() == 0 {
        seq![ScopedFactView { key, value }]
    } else if facts[0].key == key {
        facts.update(0, ScopedFactView { key, value })
    } else {
        seq![facts[0]] + asserted(facts.skip(1), key, value)
    }
}

/// The facts that the scoped entries of a list leave in the document.
pub open spec fn scoped_facts(entries: Seq<DataEntryView>) -> Seq<ScopedFactView>
    decreases entries.len(),
{
    if entries.len() == 0 {
        seq![]
    } else {
        let facts = scoped_facts(entries.drop_last());
        let e = entries.last();
        if sigilled(e.path) && scoped_refusal_at(facts, e) is None {
            asserted(facts, e.path, e.value->0)
        } else {
            facts
        }
    }
}

/// The refused scoped entries of a list, in its order.
pub open spec fn scoped_rejections(entries: Seq<DataEntryView>) -> Seq<DataOutcomeView>
    decreases entries.len(),
{
    if entries.len() == 0 {
        seq![]
    } else {
        let facts = scoped_facts(entries.drop_last());
        let e = entries.last();
        let before = scoped_rejections(entries.drop_last());
        if sigilled(e.path) && scoped_refusal_at(facts, e) is Some {
            before.push(
                DataOutcomeView {
                    path: e.path,
                    outcome: Outcome::Rejected { reason: scoped_refusal_at(facts, e)->0 },
                },
            )
        } else {
            before
        }
    }
}

/// The entries of a list that write the registry, in its order.
pub open spec fn registry_part(entries: Seq<DataEntryView>) -> Seq<DataEntryView>
    decreases entries.len(),
{
    if entries.len() == 0 {
        seq![]
    } else if sigilled(entries.last().path) {
        registry_part(entries.drop_last())
    } else {
        registry_part(entries.drop_last()).push(entries.last())
    }
}

/// The views of a list of outcomes.
pub open spec fn outcome_views(outcomes: Seq<DataOutcome>) -> Seq<DataOutcomeView> {
    outcomes.map_values(|o: DataOutcome| o@)
}

/// Split a `data` list into the part that writes the registry and the part that
/// belongs to one document.
///
/// It runs **before** the registry sees anything. The registry is long-lived
/// and shared; a capture's assertions are not. Letting them into it would mean
/// the next case on the same domain silently inherits the last one's seed.
///
/// Returns `(registry_entries, scoped, rejections)`. Rejections are outcomes for
/// scoped keys that could not be accepted, in the caller's original order, so a
/// caller can report per-entry results for the whole list without reassembling
/// two halves.
pub fn partition_scoped(entries: &[DataEntry]) -> (r: (
    Vec<DataEntry>,
    ScopedData,
    Vec<DataOutcome>,
))
    ensures
        entry_requests(r.0@) == registry_part(entry_requests(entries@)),
        r.1@ == scoped_facts(entry_requests(entries@)),
        outcome_views(r.2@) == scoped_rejections(entry_requests(entries@)),
{
    let ghost all = entry_requests(entries@);
    let mut registry: Vec<DataEntry> = Vec::new();
    let mut scoped = ScopedData::default();
    let mut rejections: Vec<DataOutcome> = Vec::new();
    let mut i: usize = 0;
    proof {
        assert(entry_requests(registry@) =~= seq![]);
        assert(outcome_views(rejections@) =~= seq![]);
    }
    while i < entries.len()
        invariant
            all == entry_requests(entries@),
            i <= entries@.len(),
            entry_requests(registry@) == registry_part(all.take(i as int)),
            scoped@ == scoped_facts(all.take(i as int)),
            outcome_views(rejections@) == scoped_rejections(all.take(i as int)),
        decreases entries@.len() - i,
    {
        let e = &entries[i];
        proof {
            assert(all.take(i + 1).drop_last() =~= all.take(i as int));
            assert(all.take(i + 1).last() == e@);
        }
        if !is_scoped(e) {
            let ghost before = registry@;
            registry.push(e.clone());
            proof {
                assert(entry_requests(registry@) =~= entry_requests(before).push(e@));
            }
        } else {
            match scope_one(e, &mut scoped) {
                Err(refused) => {
                    let ghost before = rejections@;
                    let ghost rv = refused@;
                    rejections.push(refused);
                    proof {
                        assert(outcome_views(rejections@) =~= outcome_views(before).push(rv));
                    }
                },
                Ok(_) => {},
            }
        }
        i += 1;
    }
    proof {
        assert(all.take(all.len() as int) =~= all);
    }
    (registry, scoped, rejections)
}

/// Whether an entry belongs to one document rather than to the registry.
pub fn is_scoped(e: &DataEntry) -> (r: bool)
    ensures
        r == sigilled(e@.path),
{
    let chars = text::chars_of(&e.path);
    chars.len() > 0 && chars[0] == SIGIL
}

/// Take one scoped entry into a document, or say why it is refused.
pub fn scope_one(e: &DataEntry, scoped: &mut ScopedData) -> (r: Result<(), DataOutcome>)
    ensures
        match r {
            Ok(_) => {
                &&& scoped_refusal_at(old(scoped)@, e@) is None
                &&& final(scoped)@ == asserted(old(scoped)@, e@.path, e@.value->0)
            },
            Err(o) => {
                &&& scoped_refusal_at(old(scoped)@, e@) is Some
                &&& final(scoped)@ == old(scoped)@
                &&& o@ == (DataOutcomeView {
                    path: e@.path,
                    outcome: Outcome::Rejected { reason: scoped_refusal_at(old(scoped)@, e@)->0 },
                })
            },
        },
{
    match refuse_scoped(e, scoped) {
        Some(reason) => Err(
            DataOutcome { path: e.path.clone(), outcome: Outcome::Rejected { reason } },
        ),
        None => {
            match &e.value {
                Some(value) => {
                    assert_fact(scoped, &e.path, value);
                },
                None => {},
            }
            Ok(())
        },
    }
}

fn holds_key(scoped: &ScopedData, key: &String) -> (r: bool)
    ensures
        r == asserts_key(scoped@, key@),
{
    let mut i: usize = 0;
    while i < scoped.facts.len()
        invariant
            i <= scoped.facts@.len(),
            scoped@.len() == scoped.facts@.len(),
            forall|k: int| 0 <= k < i ==> (#[trigger] scoped@[k]).key != key@,
        decreases scoped.facts@.len() - i,
    {
        proof {
            assert(scoped@[i as int] == scoped.facts@[i as int]@);
        }
        if text::same_owned(&scoped.facts[i].key, key) {
            proof {
                assert(scoped@[i as int].key == key@);
            }
            return true;
        }
        i += 1;
    }
    false
}

fn refuse_scoped(e: &DataEntry, scoped: &ScopedData) -> (r: Option<RejectReason>)
    ensures
        r == scoped_refusal_at(scoped@, e@),
{
    match Key::parse(&e.path, true) {
        Err(KeyError::Malformed) => Some(RejectReason::MalformedPath),
        Err(KeyError::TooLong) => Some(RejectReason::PathTooLong),
        Err(KeyError::SigilNotAllowed) => Some(RejectReason::SigilNotAllowedHere),
        Ok(k) => {
            // A sigil scopes a key; it does not launder the reservation.
            if k.is_reserved() {
                return Some(RejectReason::ReservedPrefix);
            }
            match &e.value {
                // "Validate" is meaningless against a document that does not
                // exist yet. A scoped key with no value has nothing to assert.
                None => Some(RejectReason::MalformedPath),
                Some(value) => {
                    if value.as_str().as_bytes().len() > MAX_VALUE_BYTES {
                        Some(RejectReason::ValueTooLong)
                    } else if !holds_key(scoped, &e.path) && scoped.facts.len() >= MAX_SIGIL_KEYS {
                        Some(RejectReason::RegistryFull)
                    } else {
                        None
                    }
                },
            }
        },
    }
}

/// Last writer wins within one call, as in the registry for a key repeated in a
/// single batch.
fn assert_fact(scoped: &mut ScopedData, key: &String, value: &String)
    ensures
        final(scoped)@ == asserted(old(scoped)@, key@, value@),
{
    let ghost before = scoped@;
    let fact = ScopedFact { key: key.clone(), value: value.clone() };
    let mut i: usize = 0;
    proof {
        assert(before.skip(0) =~= before);
        assert(before.take(0) + asserted(before, key@, value@) =~= asserted(before, key@, value@));
    }
    while i < scoped.facts.len()
        invariant
            before == old(scoped)@,
            scoped@ == before,
            scoped.facts@.len() == before.len(),
            i <= scoped.facts@.len(),
            fact@ == (ScopedFactView { key: key@, value: value@ }),
            asserted(before, key@, value@) == before.take(i as int) + asserted(
                before.skip(i as int),
                key@,
                value@,
            ),
        decreases scoped.facts@.len() - i,
    {
        proof {
            assert(scoped@[i as int] == scoped.facts@[i as int]@);
            assert(before.skip(i as int)[0] == before[i as int]);
        }
        if text::same(&scoped.facts[i].key, key) {
            scoped.facts.set(i, fact);
            proof {
                let f = ScopedFactView { key: key@, value: value@ };
                assert(scoped@ =~= before.update(i as int, f));
                assert(before.update(i as int, f) =~= before.take(i as int) + before.skip(
                    i as int,
                ).update(0, f));
            }
            return;
        }
        proof {
            assert(before.skip(i as int).skip(1) =~= before.skip(i + 1));
            assert(before.take(i + 1) =~= before.take(i as int) + seq![before[i as int]]);
            assert(before.take(i as int) + (seq![before[i as int]] + asserted(
                before.skip(i + 1),
                key@,
                value@,
            )) =~= before.take(i + 1) + asserted(before.skip(i + 1), key@, value@));
        }
        i += 1;
    }
    scoped.facts.push(fact);
    proof {
        assert(before.skip(before.len() as int) =~= seq![]);
        assert(before.take(before.len() as int) =~= before);
        assert(scoped@ =~= before + seq![fact@]);
    }
}

// What every write path keeps.

/// An agent's batch never touches a key of logmon's own.
pub proof fn updates_leave_reserved_keys_alone(
    r: RegistryView,
    entries: Seq<DataEntryView>,
    now: Timestamp,
    key: Seq<char>,
)
    requires
        reserved(key),
    ensures
        ({
            let after = after_batch(r, entries, now);
            &&& after.entries.contains_key(key) == r.entries.contains_key(key)
            &&& after.entries.contains_key(key) ==> after.entries[key] == r.entries[key]
        }),
    decreases entries.len(),
{
    if entries.len() > 0 {
        updates_leave_reserved_keys_alone(r, entries.drop_last(), now, key);
    }
}

/// Removing never takes a key of logmon's own, whatever the patterns.
pub proof fn removals_leave_reserved_keys_alone(
    r: RegistryView,
    patterns: Seq<Seq<char>>,
    key: Seq<char>,
)
    requires
        reserved(key),
    ensures
        ({
            let after = after_removals(r, patterns);
            &&& after.entries.contains_key(key) == r.entries.contains_key(key)
            &&& after.entries.contains_key(key) ==> after.entries[key] == r.entries[key]
        }),
    decreases patterns.len(),
{
    if patterns.len() > 0 {
        removals_leave_reserved_keys_alone(r, patterns.drop_last(), key);
        let p = patterns.last();
        if refusal(p) is None && prefix_matches(p, key) {
            reserved_keys_have_reserved_patterns(p, key);
        }
    }
}

/// Logmon's own write touches the one key that it names, and only if that key
/// is reserved.
pub proof fn reserved_writes_leave_other_keys_alone(
    r: RegistryView,
    path: Seq<char>,
    value: Seq<char>,
    now: Timestamp,
    key: Seq<char>,
)
    requires
        key != path || !reserved(key),
    ensures
        ({
            let after = reserved_set(r, path, value, now);
            &&& after.entries.contains_key(key) == r.entries.contains_key(key)
            &&& after.entries.contains_key(key) ==> after.entries[key] == r.entries[key]
        }),
{
}

/// A document-scoped key never enters the registry: a batch adds none.
pub proof fn scoped_keys_never_enter(
    r: RegistryView,
    entries: Seq<DataEntryView>,
    now: Timestamp,
    key: Seq<char>,
)
    requires
        sigilled(key),
        !r.entries.contains_key(key),
    ensures
        !after_batch(r, entries, now).entries.contains_key(key),
    decreases entries.len(),
{
    if entries.len() > 0 {
        scoped_keys_never_enter(r, entries.drop_last(), now, key);
    }
}

/// A batch never carries the agent keys past their cap.
pub proof fn batches_keep_the_key_cap(r: RegistryView, entries: Seq<DataEntryView>, now: Timestamp)
    requires
        r.entries.dom().finite(),
        agent_keys(r).len() <= MAX_KEYS,
    ensures
        after_batch(r, entries, now).entries.dom().finite(),
        agent_keys(after_batch(r, entries, now)).len() <= MAX_KEYS,
    decreases entries.len(),
{
    if entries.len() > 0 {
        batches_keep_the_key_cap(r, entries.drop_last(), now);
        let mid = after_batch(r, entries.drop_last(), now);
        let e = entries.last();
        let after = applied(mid, e, now).0;
        if after != mid {
            assert(!reserved(e.path));
            if mid.entries.contains_key(e.path) {
                assert(after.entries.dom() =~= mid.entries.dom());
            } else {
                assert(agent_keys(after) =~= agent_keys(mid).insert(e.path));
            }
        }
    }
}

/// One change leaves no value confirmed before it came into force, wherever the
/// clock stands.
pub proof fn changes_keep_entries_ordered(r: RegistryView, e: DataEntryView, now: Timestamp)
    requires
        all_ordered(r),
    ensures
        all_ordered(applied(r, e, now).0),
{
    let after = applied(r, e, now).0;
    assert forall|k: Seq<char>| #[trigger]
        after.entries.contains_key(k) implies after.entries[k].ordered() by {
        assert(k != e.path ==> r.entries.contains_key(k));
        if r.entries.contains_key(e.path) {
            assert(r.entries[e.path].ordered());
        }
    }
}

/// A value is never confirmed before it came into force, wherever the clock stands.
pub proof fn batches_keep_entries_ordered(
    r: RegistryView,
    entries: Seq<DataEntryView>,
    now: Timestamp,
)
    requires
        all_ordered(r),
    ensures
        all_ordered(after_batch(r, entries, now)),
    decreases entries.len(),
{
    if entries.len() > 0 {
        batches_keep_entries_ordered(r, entries.drop_last(), now);
        changes_keep_entries_ordered(
            after_batch(r, entries.drop_last(), now),
            entries.last(),
            now,
        );
    }
}

/// Logmon's own writes confirm no value before it came into force either.
pub proof fn reserved_writes_keep_entries_ordered(
    r: RegistryView,
    path: Seq<char>,
    value: Seq<char>,
    now: Timestamp,
)
    requires
        all_ordered(r),
    ensures
        all_ordered(reserved_set(r, path, value, now)),
{
    let after = reserved_set(r, path, value, now);
    assert forall|k: Seq<char>| #[trigger]
        after.entries.contains_key(k) implies after.entries[k].ordered() by {
        assert(k != path ==> r.entries.contains_key(k));
        if r.entries.contains_key(path) {
            assert(r.entries[path].ordered());
        }
    }
}

/// A batch is its parts, one after the other.
pub proof fn batches_compose(
    r: RegistryView,
    first: Seq<DataEntryView>,
    second: Seq<DataEntryView>,
    now: Timestamp,
)
    ensures
        after_batch(r, first + second, now) == after_batch(after_batch(r, first, now), second, now),
    decreases second.len(),
{
    if second.len() == 0 {
        assert(first + second =~= first);
    } else {
        batches_compose(r, first, second.drop_last(), now);
        assert((first + second).drop_last() =~= first + second.drop_last());
        assert((first + second).last() == second.last());
    }
}

/// Each entry of a list is either handed to the registry, and then without a
/// sigil, or judged for the document, where its key is asserted or refused; none
/// is both and none is dropped.
pub proof fn partition_splits_by_sigil(entries: Seq<DataEntryView>)
    ensures
        forall|i: int|
            0 <= i < registry_part(entries).len() ==> !sigilled(
                (#[trigger] registry_part(entries)[i]).path,
            ),
        forall|i: int|
            0 <= i < scoped_rejections(entries).len() ==> sigilled(
                (#[trigger] scoped_rejections(entries)[i]).path,
            ),
        forall|e: DataEntryView|
            entries.contains(e) && !sigilled(e.path) ==> #[trigger] registry_part(entries).contains(
                e,
            ),
        forall|e: DataEntryView| #[trigger]
            entries.contains(e) && sigilled(e.path) ==> asserts_key(scoped_facts(entries), e.path)
                || refuses_path(scoped_rejections(entries), e.path),
        registry_part(entries).len() + scoped_rejections(entries).len() <= entries.len(),
    decreases entries.len(),
{
    if entries.len() > 0 {
        let front = entries.drop_last();
        partition_splits_by_sigil(front);
        scoped_facts_are_bounded(front);
        let last = entries.last();
        let facts = scoped_facts(entries);
        let refused = scoped_rejections(entries);
        if sigilled(last.path) && scoped_refusal_at(scoped_facts(front), last) is None {
            lemma_asserted(scoped_facts(front), last.path, last.value->0);
            lemma_asserted_there(scoped_facts(front), last.path, last.value->0);
        }
        assert forall|e: DataEntryView| #[trigger] entries.contains(e) && sigilled(
            e.path,
        ) implies asserts_key(facts, e.path) || refuses_path(refused, e.path) by {
            let i = choose|i: int| 0 <= i < entries.len() && entries[i] == e;
            if i < front.len() {
                assert(front[i] == e);
                assert(front.contains(e));
                if asserts_key(scoped_facts(front), e.path) {
                    let k = choose|k: int|
                        0 <= k < scoped_facts(front).len() && #[trigger] scoped_facts(front)[k].key
                            == e.path;
                    assert(facts[k].key == e.path);
                } else {
                    let k = choose|k: int|
                        0 <= k < scoped_rejections(front).len() && #[trigger] scoped_rejections(
                            front,
                        )[k].path == e.path;
                    assert(refused[k].path == e.path);
                }
            } else if scoped_refusal_at(scoped_facts(front), last) is Some {
                assert(refused[refused.len() - 1].path == e.path);
            }
        }
        assert forall|e: DataEntryView| entries.contains(e) && !sigilled(e.path) implies #[trigger] registry_part(
            entries,
        ).contains(e) by {
            let i = choose|i: int| 0 <= i < entries.len() && entries[i] == e;
            let part = registry_part(entries);
            if i < front.len() {
                assert(front[i] == e);
                assert(front.contains(e));
                assert(registry_part(front).contains(e));
                let j = choose|j: int|
                    0 <= j < registry_part(front).len() && registry_part(front)[j] == e;
                assert(part[j] == e);
            } else {
                assert(part[part.len() - 1] == e);
            }
        }
    }
}

/// What a document is given of a list: at most [`MAX_SIGIL_KEYS`] facts, all
/// sigilled, none of logmon's own, no key twice.
pub proof fn scoped_facts_are_bounded(entries: Seq<DataEntryView>)
    ensures
        ({
            let facts = scoped_facts(entries);
            &&& facts.len() <= MAX_SIGIL_KEYS
            &&& forall|i: int|
                0 <= i < facts.len() ==> sigilled((#[trigger] facts[i]).key) && !reserved(
                    facts[i].key.skip(1),
                )
            &&& forall|i: int, j: int|
                0 <= i < j < facts.len() ==> (#[trigger] facts[i]).key != (#[trigger] facts[j]).key
        }),
    decreases entries.len(),
{
    if entries.len() > 0 {
        scoped_facts_are_bounded(entries.drop_last());
        let facts = scoped_facts(entries.drop_last());
        let e = entries.last();
        if sigilled(e.path) && scoped_refusal_at(facts, e) is None {
            lemma_asserted(facts, e.path, e.value->0);
        }
    }
}

/// Whether a path is among those that were refused.
pub open spec fn refuses_path(outcomes: Seq<DataOutcomeView>, path: Seq<char>) -> bool {
    exists|i: int| 0 <= i < outcomes.len() && #[trigger] outcomes[i].path == path
}

proof fn lemma_asserted_there(facts: Seq<ScopedFactView>, key: Seq<char>, value: Seq<char>)
    ensures
        asserts_key(asserted(facts, key, value), key),
    decreases facts.len(),
{
    let after = asserted(facts, key, value);
    if facts.len() == 0 || facts[0].key == key {
        assert(after[0].key == key);
    } else {
        lemma_asserted_there(facts.skip(1), key, value);
        let rest = asserted(facts.skip(1), key, value);
        let i = choose|i: int| 0 <= i < rest.len() && #[trigger] rest[i].key == key;
        assert(after[i + 1] == rest[i]);
    }
}

proof fn lemma_asserted(facts: Seq<ScopedFactView>, key: Seq<char>, value: Seq<char>)
    requires
        forall|i: int, j: int|
            0 <= i < j < facts.len() ==> (#[trigger] facts[i]).key != (#[trigger] facts[j]).key,
    ensures
        ({
            let after = asserted(facts, key, value);
            &&& facts.len() <= after.len() <= facts.len() + 1
            &&& forall|i: int| 0 <= i < facts.len() ==> (#[trigger] after[i]).key == facts[i].key
            &&& after.len() > facts.len() ==> after.last().key == key && !asserts_key(facts, key)
            &&& forall|i: int, j: int|
                0 <= i < j < after.len() ==> (#[trigger] after[i]).key != (#[trigger] after[j]).key
        }),
    decreases facts.len(),
{
    let after = asserted(facts, key, value);
    if facts.len() > 0 && facts[0].key != key {
        let rest = facts.skip(1);
        assert forall|i: int, j: int| 0 <= i < j < rest.len() implies (#[trigger] rest[i]).key != (
        #[trigger] rest[j]).key by {
            assert(rest[i] == facts[i + 1] && rest[j] == facts[j + 1]);
        }
        lemma_asserted(rest, key, value);
        let tail = asserted(rest, key, value);
        assert(forall|i: int| 0 < i < after.len() ==> #[trigger] after[i] == tail[i - 1]);
        assert forall|i: int| 0 <= i < facts.len() implies (#[trigger] after[i]).key == facts[i].key by {
            if i > 0 {
                assert(tail[i - 1].key == rest[i - 1].key);
            }
        }
        if asserts_key(facts, key) {
            let i = choose|i: int| 0 <= i < facts.len() && #[trigger] facts[i].key == key;
            assert(rest[i - 1].key == key);
        }
        assert forall|i: int, j: int| 0 <= i < j < after.len() implies (#[trigger] after[i]).key != (
        #[trigger] after[j]).key by {
            if i > 0 {
                assert(tail[i - 1].key != tail[j - 1].key);
            } else if j < facts.len() {
                assert(after[j].key == facts[j].key);
            } else {
                assert(after[j] == tail.last());
            }
        }
    }
}

/// What a `ttl` field asks for: a duration, `false` to take the lifetime away, or
/// nothing. `true` has no meaning here, and guessing one is how a provenance
/// field starts lying.
pub open spec fn ttl_of(raw: JsonView) -> Result<Option<TtlSpec>, TtlParseError> {
    match raw {
        JsonView::Null => Ok(None),
        JsonView::Bool(b) => if b {
            Err(TtlParseError::Malformed)
        } else {
            Ok(Some(TtlSpec::Clear))
        },
        JsonView::Text(s) => match duration_of(s) {
            Ok(secs) => Ok(Some(TtlSpec::Seconds(secs))),
            Err(e) => Err(e),
        },
        _ => Err(TtlParseError::Malformed),
    }
}

/// Parse a `ttl` field: a duration text, or `false` to clear.
pub fn parse_ttl(raw: &Json) -> (r: Result<Option<TtlSpec>, TtlParseError>)
    ensures
        r == ttl_of(raw@),
{
    match raw {
        Json::Null => Ok(None),
        Json::Bool(b) => if *b {
            Err(TtlParseError::Malformed)
        } else {
            Ok(Some(TtlSpec::Clear))
        },
        Json::Text(s) => match parse_duration(s) {
            Ok(secs) => Ok(Some(TtlSpec::Seconds(secs))),
            Err(e) => Err(e),
        },
        _ => Err(TtlParseError::Malformed),
    }
}

/// A change touches the key that it names, and no other.
pub proof fn changes_touch_one_key(
    r: RegistryView,
    e: DataEntryView,
    now: Timestamp,
    key: Seq<char>,
)
    requires
        key != e.path,
    ensures
        ({
            let after = applied(r, e, now).0;
            &&& after.entries.contains_key(key) == r.entries.contains_key(key)
            &&& r.entries.contains_key(key) ==> after.entries[key] == r.entries[key]
            &&& after.saw_quarantine == r.saw_quarantine
        }),
{
}

/// A value that is set is the value from then on. One that differs from what was there
/// comes into force now; one that does not stays in force since when it was, and is
/// confirmed now. A key that was not there is created.
pub proof fn values_that_are_set_hold(r: RegistryView, e: DataEntryView, now: Timestamp)
    requires
        refusal(e.path) is None,
        e.value is Some,
        byte_len(e.value->0) <= 4_096,
        r.entries.contains_key(e.path) || agent_keys(r).len() < 256,
    ensures
        ({
            let (after, outcome) = applied(r, e, now);
            &&& after.entries.contains_key(e.path)
            &&& after.entries[e.path].value == e.value->0
            &&& !r.entries.contains_key(e.path) ==> {
                &&& outcome == Outcome::Created
                &&& after.entries[e.path].created_at == now
                &&& after.entries[e.path].validated_at == now
            }
            &&& r.entries.contains_key(e.path) && r.entries[e.path].value != e.value->0 ==> {
                &&& outcome == Outcome::Updated
                &&& after.entries[e.path].created_at == now
                &&& after.entries[e.path].validated_at == now
            }
            &&& r.entries.contains_key(e.path) && r.entries[e.path].value == e.value->0 ==> {
                &&& outcome == Outcome::Validated
                &&& after.entries[e.path].created_at == r.entries[e.path].created_at
                &&& after.entries[e.path].validated_at.instant() >= now.instant()
                &&& now.instant() >= r.entries[e.path].created_at.instant()
                    ==> after.entries[e.path].validated_at == now
            }
        }),
{
}

/// A change without a value confirms the one that is there, and leaves a key that is not
/// there alone.
pub proof fn values_that_are_confirmed_stay(r: RegistryView, e: DataEntryView, now: Timestamp)
    requires
        refusal(e.path) is None,
        e.value is None,
    ensures
        ({
            let (after, outcome) = applied(r, e, now);
            &&& r.entries.contains_key(e.path) ==> {
                &&& outcome == Outcome::Validated
                &&& after.entries.contains_key(e.path)
                &&& after.entries[e.path].value == r.entries[e.path].value
                &&& after.entries[e.path].created_at == r.entries[e.path].created_at
                &&& now.instant() >= r.entries[e.path].created_at.instant()
                    ==> after.entries[e.path].validated_at == now
            }
            &&& !r.entries.contains_key(e.path) ==> outcome is Unknown && after == r
        }),
{
}

/// A lifetime that is asked for holds, one that is taken away is gone, and one that is not
/// spoken of stays; a new key has none unless it is given one.
pub proof fn lifetimes_are_kept_unless_changed(r: RegistryView, e: DataEntryView, now: Timestamp)
    requires
        refusal(e.path) is None,
        e.value matches Some(v) ==> byte_len(v) <= 4_096,
        r.entries.contains_key(e.path) || (e.value is Some && agent_keys(r).len() < 256),
    ensures
        ({
            let after = applied(r, e, now).0.entries[e.path].ttl_secs;
            &&& e.ttl matches Some(TtlSpec::Seconds(s)) ==> after == Some(s)
            &&& e.ttl == Some(TtlSpec::Clear) ==> after is None
            &&& e.ttl is None && r.entries.contains_key(e.path) ==> after
                == r.entries[e.path].ttl_secs
            &&& e.ttl is None && !r.entries.contains_key(e.path) ==> after is None
        }),
{
}

/// A change that is refused changes nothing, and a change is refused exactly where its
/// key is no key of an agent, its value is longer than 4096 bytes, or it would be the
/// 257th key.
pub proof fn refused_changes_change_nothing(r: RegistryView, e: DataEntryView, now: Timestamp)
    ensures
        ({
            let (after, outcome) = applied(r, e, now);
            &&& outcome is Rejected || outcome is Unknown ==> after == r
            &&& outcome is Rejected <==> {
                ||| key_of(e.path, false) is Err
                ||| reserved(e.path)
                ||| e.value is Some && byte_len(e.value->0) > 4_096
                ||| e.value is Some && !r.entries.contains_key(e.path) && agent_keys(r).len() >= 256
            }
            &&& outcome != Outcome::Scoped
        }),
{
    if key_of(e.path, false) is Ok {
        assert(key_of(e.path, false)->Ok_0.path == e.path);
    }
}

/// Each refusal of a key is for its own reason.
pub proof fn keys_are_refused_for_what_they_are(raw: Seq<char>)
    ensures
        refusal(raw) == Some(RejectReason::PathTooLong) <==> key_of(raw, false) == Err::<
            KeyView,
            KeyError,
        >(KeyError::TooLong),
        refusal(raw) == Some(RejectReason::MalformedPath) <==> key_of(raw, false) == Err::<
            KeyView,
            KeyError,
        >(KeyError::Malformed),
        refusal(raw) == Some(RejectReason::SigilNotAllowedHere) <==> key_of(raw, false) == Err::<
            KeyView,
            KeyError,
        >(KeyError::SigilNotAllowed),
        refusal(raw) == Some(RejectReason::ReservedPrefix) <==> key_of(raw, false) is Ok && reserved(
            raw,
        ),
        refusal(raw) is None <==> key_of(raw, false) is Ok && !reserved(raw),
{
    if key_of(raw, false) is Ok {
        assert(key_of(raw, false)->Ok_0.path == raw);
    }
}

/// Why a key is not there: in a registry that holds something it was never set; an empty
/// one was lost where a quarantined file shows that, and otherwise nobody can tell.
pub proof fn absence_is_explained_by_what_is_known(r: RegistryView, key: Seq<char>)
    ensures
        r.entries.contains_key(key) ==> cause_of_absence(r) == UnknownCause::NeverSet,
        r.entries == Map::<Seq<char>, EntryView>::empty() && r.saw_quarantine ==> cause_of_absence(r)
            == UnknownCause::NoRegistry,
        r.entries == Map::<Seq<char>, EntryView>::empty() && !r.saw_quarantine ==> cause_of_absence(
            r,
        ) == UnknownCause::Undetermined,
{
    if r.entries.contains_key(key) {
        assert(r.entries.dom().contains(key));
        assert(!Map::<Seq<char>, EntryView>::empty().dom().contains(key));
    }
}

/// Removing takes the keys that the pattern spells and those below it, leaves all others
/// as they are, and tells how many it took.
pub proof fn removals_take_what_they_match(r: RegistryView, pattern: Seq<char>, key: Seq<char>)
    requires
        refusal(pattern) is None,
    ensures
        ({
            let (after, outcome) = removed_by(r, pattern);
            &&& after.entries.contains_key(key) <==> r.entries.contains_key(key) && key != pattern
                && !(key.len() > pattern.len() && key.take(pattern.len() as int) == pattern
                && key[pattern.len() as int] == '/')
            &&& after.entries.contains_key(key) ==> after.entries[key] == r.entries[key]
            &&& outcome.rejected is None
            &&& outcome.pattern == pattern
            &&& r.entries.dom().finite() ==> outcome.removed == r.entries.dom().len()
                - after.entries.dom().len()
        }),
{
    let (after, outcome) = removed_by(r, pattern);
    let gone = doomed(r, pattern);
    assert(gone.contains(key) <==> r.entries.contains_key(key) && prefix_matches(pattern, key));
    if r.entries.dom().finite() {
        assert(after.entries.dom() =~= r.entries.dom().difference(gone));
        vstd::set_lib::lemma_len_difference(r.entries.dom(), gone);
        vstd::set_lib::lemma_set_disjoint_lens(after.entries.dom(), gone);
        assert(after.entries.dom() + gone =~= r.entries.dom());
    }
}

/// A removal that is refused takes nothing, and says why.
pub proof fn refused_removals_take_nothing(r: RegistryView, pattern: Seq<char>)
    requires
        refusal(pattern) is Some,
    ensures
        removed_by(r, pattern).0 == r,
        removed_by(r, pattern).1.removed == 0,
        removed_by(r, pattern).1.rejected == refusal(pattern),
{
}

/// Logmon's own write sets the value of a key of its own, which comes into force now
/// where it is new or differs, and keeps its lifetime.
pub proof fn reserved_writes_hold(
    r: RegistryView,
    path: Seq<char>,
    value: Seq<char>,
    now: Timestamp,
)
    requires
        reserved(path),
    ensures
        ({
            let after = reserved_set(r, path, value, now);
            &&& after.entries.contains_key(path)
            &&& after.entries[path].value == value
            &&& !r.entries.contains_key(path) || r.entries[path].value != value
                ==> after.entries[path].created_at == now && after.entries[path].validated_at == now
            &&& r.entries.contains_key(path) && r.entries[path].value == value
                ==> after.entries[path].created_at == r.entries[path].created_at
            &&& r.entries.contains_key(path) ==> after.entries[path].ttl_secs
                == r.entries[path].ttl_secs
        }),
{
}

/// A query gives the keys that its prefix matches and that were last confirmed before the
/// moment that it names.
pub proof fn queries_ask_for_prefix_and_staleness(
    prefix: Seq<char>,
    cutoff: Timestamp,
    key: Seq<char>,
    entry: EntryView,
)
    ensures
        wanted(None, None, key, entry),
        wanted(Some(prefix), None, key, entry) <==> key == prefix || (key.len() > prefix.len()
            && key.take(prefix.len() as int) == prefix && key[prefix.len() as int] == '/'),
        wanted(None, Some(cutoff), key, entry) <==> entry.validated_at.instant() < cutoff.instant(),
        wanted(Some(prefix), Some(cutoff), key, entry) <==> wanted(Some(prefix), None, key, entry)
            && wanted(None, Some(cutoff), key, entry),
{
}

/// A lifetime is a duration, `false` takes it away, and null says nothing; `true`, numbers
/// and the rest are refused.
pub proof fn lifetimes_are_read_as_given(raw: JsonView)
    ensures
        raw == JsonView::Null ==> ttl_of(raw) == Ok::<Option<TtlSpec>, TtlParseError>(None),
        raw == JsonView::Bool(false) ==> ttl_of(raw) == Ok::<Option<TtlSpec>, TtlParseError>(
            Some(TtlSpec::Clear),
        ),
        raw == JsonView::Bool(true) ==> ttl_of(raw) is Err,
        raw matches JsonView::Text(t) ==> match duration_of(t) {
            Ok(secs) => ttl_of(raw) == Ok::<Option<TtlSpec>, TtlParseError>(
                Some(TtlSpec::Seconds(secs)),
            ),
            Err(e) => ttl_of(raw) == Err::<Option<TtlSpec>, TtlParseError>(e),
        },
        raw is Number || raw is Array || raw is Object ==> ttl_of(raw) is Err,
{
}

/// What a document asserts of a key is what was last asserted of it; other keys keep
/// theirs, and a new key comes behind them.
pub proof fn the_last_assertion_stands(
    facts: Seq<ScopedFactView>,
    key: Seq<char>,
    value: Seq<char>,
    other: ScopedFactView,
)
    ensures
        asserted(facts, key, value).contains(ScopedFactView { key, value }),
        other.key != key ==> (asserted(facts, key, value).contains(other) <==> facts.contains(other)),
        !asserts_key(facts, key) ==> asserted(facts, key, value) == facts.push(
            ScopedFactView { key, value },
        ),
        asserts_key(facts, key) ==> asserted(facts, key, value).len() == facts.len(),
    decreases facts.len(),
{
    let after = asserted(facts, key, value);
    let new = ScopedFactView { key, value };
    if facts.len() == 0 {
        assert(after[0] == new);
        assert(facts.push(new) =~= after);
    } else if facts[0].key == key {
        assert(after[0] == new);
        if other.key != key {
            if after.contains(other) {
                let i = choose|i: int| 0 <= i < after.len() && after[i] == other;
                assert(facts[i] == other);
            }
            if facts.contains(other) {
                let i = choose|i: int| 0 <= i < facts.len() && facts[i] == other;
                assert(after[i] == other);
            }
        }
        assert(asserts_key(facts, key));
    } else {
        let rest = facts.skip(1);
        the_last_assertion_stands(rest, key, value, other);
        let then = asserted(rest, key, value);
        let at = choose|i: int| 0 <= i < then.len() && then[i] == new;
        assert(after[at + 1] == new);
        if other.key != key {
            if after.contains(other) {
                let i = choose|i: int| 0 <= i < after.len() && after[i] == other;
                if i > 0 {
                    assert(then[i - 1] == other);
                    let k = choose|k: int| 0 <= k < rest.len() && rest[k] == other;
                    assert(facts[k + 1] == other);
                } else {
                    assert(facts[0] == other);
                }
            }
            if facts.contains(other) {
                let i = choose|i: int| 0 <= i < facts.len() && facts[i] == other;
                if i > 0 {
                    assert(rest[i - 1] == other);
                    let k = choose|k: int| 0 <= k < then.len() && then[k] == other;
                    assert(after[k + 1] == other);
                } else {
                    assert(after[0] == other);
                }
            }
        }
        if asserts_key(rest, key) {
            let i = choose|i: int| 0 <= i < rest.len() && #[trigger] rest[i].key == key;
            assert(facts[i + 1].key == key);
        } else {
            if asserts_key(facts, key) {
                let i = choose|i: int| 0 <= i < facts.len() && #[trigger] facts[i].key == key;
                assert(rest[i - 1].key == key);
            }
            assert(after =~= facts.push(new));
        }
    }
}

/// The words for outcomes and reasons on the wire.
pub proof fn outcomes_have_their_words(cause: UnknownCause, reason: RejectReason)
    ensures
        Outcome::Created.name() == "created"@,
        Outcome::Updated.name() == "updated"@,
        Outcome::Validated.name() == "validated"@,
        Outcome::Scoped.name() == "scoped"@,
        (Outcome::Unknown { cause }).name() == "unknown"@,
        (Outcome::Rejected { reason }).name() == "rejected"@,
        UnknownCause::NeverSet.name() == "never_set"@,
        UnknownCause::NoRegistry.name() == "no_registry"@,
        UnknownCause::Undetermined.name() == "undetermined"@,
        RejectReason::MalformedPath.name() == "malformed_path"@,
        RejectReason::PathTooLong.name() == "path_too_long"@,
        RejectReason::MalformedValue.name() == "malformed_value"@,
        RejectReason::ValueTooLong.name() == "value_too_long"@,
        RejectReason::ReservedPrefix.name() == "reserved_prefix"@,
        RejectReason::SigilNotAllowedHere.name() == "sigil_not_allowed_here"@,
        RejectReason::MalformedTtl.name() == "malformed_ttl"@,
        RejectReason::RegistryFull.name() == "registry_full"@,
{
}

/// A scoped entry is refused for its own reason: its key, that it has no value or too long
/// a one, or that the document holds 64 keys and not this one.
pub proof fn scoped_entries_are_refused_for_a_reason(facts: Seq<ScopedFactView>, e: DataEntryView)
    ensures
        scoped_refusal_at(facts, e) is None <==> {
            &&& key_of(e.path, true) is Ok
            &&& !reserved(key_of(e.path, true)->Ok_0.path)
            &&& e.value matches Some(v)
            &&& byte_len(v) <= 4_096
            &&& facts.len() < 64 || exists|i: int|
                0 <= i < facts.len() && (#[trigger] facts[i].key) == e.path
        },
{
}

} // verus!
