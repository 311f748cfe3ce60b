//! `domain_data.*`: the provenance registry.
//!
//! One implementation stands behind `domain_data.update` and the `data`
//! shorthands of other calls: the same validation, the same per-entry outcomes,
//! the same guards, the same caps.
use crate::clock::Timestamp;
use crate::daemon::rpc::params::{
    given, given_value, json_type, kind_word, opt_str_array, opt_u64, str_array_param, u64_param,
};
use crate::domain_data::entry::{duration_text, render_duration, Entry, EntryView};
use crate::domain_data::map::{DomainDataStore, DomainDataView};
use crate::domain_data::path::{is_reserved, reserved};
use crate::domain_data::persist::StoredRegistry;
use crate::domain_data::store::{
    after_batch, after_removals, asserted, batch_outcome, entry_requests, is_scoped, outcome_views,
    parse_ttl, removed_by, scope_one, scoped_refusal_at, sigilled, ttl_of, wanted, DataEntry,
    DataEntryView, DataOutcome, DataOutcomeView, Outcome, Registry, RegistryView, RejectReason,
    RemoveOutcome, ScopedData, ScopedFactView,
};
use crate::domain_data::{core_key_texts, core_keys, CASE_NAME_KEY};
use crate::json::{item_views, Json, JsonView};
use crate::text;
use crate::text::{decimal_text, optional_str, optional_text, text_views};
use crate::text_map::precedes;
use vstd::prelude::*;

verus! {

broadcast use vstd::string::group_string_axioms;

/// What one item of a batch comes to before the registry sees it.
pub enum ItemView {
    /// An entry to apply.
    Entry(DataEntryView),
    /// Refused alone: one malformed entry never rejects the rest.
    Refused(DataOutcomeView),
    /// Refuses the batch, for nothing says which key it is about.
    Unusable(Seq<char>),
}

/// What the `i`th item of a batch comes to. An absent or `null` value means
/// *validate*; any other that is no text is refused, as read for absent it would
/// silently confirm the old value.
pub open spec fn item_of(item: JsonView, i: nat) -> ItemView {
    match given(item, "path"@) {
        None => ItemView::Unusable("`entries["@ + decimal_text(i) + "]` is missing `path`"@),
        Some(JsonView::Text(path)) => match (given(item, "value"@), item.get("ttl"@)) {
            (Some(value), ttl) => match (value.as_str(), ttl) {
                (None, _) => refused_item(path, RejectReason::MalformedValue),
                (Some(s), None) => ItemView::Entry(
                    DataEntryView { path, value: Some(s), ttl: None },
                ),
                (Some(s), Some(raw)) => match ttl_of(raw) {
                    Ok(ttl) => ItemView::Entry(DataEntryView { path, value: Some(s), ttl }),
                    Err(_) => refused_item(path, RejectReason::MalformedTtl),
                },
            },
            (None, None) => ItemView::Entry(DataEntryView { path, value: None, ttl: None }),
            (None, Some(raw)) => match ttl_of(raw) {
                Ok(ttl) => ItemView::Entry(DataEntryView { path, value: None, ttl }),
                Err(_) => refused_item(path, RejectReason::MalformedTtl),
            },
        },
        Some(v) => ItemView::Unusable(
            "`entries["@ + decimal_text(i) + "].path` must be a string, not "@ + kind_word(v),
        ),
    }
}

/// A refusal of one item.
pub open spec fn refused_item(path: Seq<char>, reason: RejectReason) -> ItemView {
    ItemView::Refused(DataOutcomeView { path, outcome: Outcome::Rejected { reason } })
}

/// A batch, split: what goes to the registry, what a document keeps, and what is
/// known of each item already. A slot that holds nothing waits for the registry.
#[verifier::ext_equal]
pub struct SplitView {
    pub registry: Seq<DataEntryView>,
    pub facts: Seq<ScopedFactView>,
    pub slots: Seq<Option<DataOutcomeView>>,
}

impl SplitView {
    /// Nothing yet.
    pub open spec fn empty() -> SplitView {
        SplitView { registry: seq![], facts: seq![], slots: seq![] }
    }

    /// With one entry more. Where documents keep scoped entries, one with a
    /// sigil never reaches the registry.
    pub open spec fn with_entry(self, e: DataEntryView, scoping: bool) -> SplitView {
        if scoping && sigilled(e.path) {
            match scoped_refusal_at(self.facts, e) {
                None => SplitView {
                    facts: asserted(self.facts, e.path, e.value->0),
                    slots: self.slots.push(
                        Some(DataOutcomeView { path: e.path, outcome: Outcome::Scoped }),
                    ),
                    ..self
                },
                Some(reason) => SplitView {
                    slots: self.slots.push(
                        Some(DataOutcomeView { path: e.path, outcome: Outcome::Rejected { reason } }),
                    ),
                    ..self
                },
            }
        } else {
            SplitView {
                registry: self.registry.push(e),
                slots: self.slots.push(None),
                ..self
            }
        }
    }
}

/// A batch, split item by item.
pub open spec fn split_of(items: Seq<JsonView>, scoping: bool) -> Result<SplitView, Seq<char>>
    decreases items.len(),
{
    if items.len() == 0 {
        Ok(SplitView::empty())
    } else {
        match split_of(items.drop_last(), scoping) {
            Err(e) => Err(e),
            Ok(s) => match item_of(items.last(), (items.len() - 1) as nat) {
                ItemView::Unusable(e) => Err(e),
                ItemView::Refused(o) => Ok(SplitView { slots: s.slots.push(Some(o)), ..s }),
                ItemView::Entry(e) => Ok(s.with_entry(e, scoping)),
            },
        }
    }
}

/// A batch, split: it has to be a list, and not an empty one.
pub open spec fn batch_of(raw: Option<JsonView>, scoping: bool) -> Result<SplitView, Seq<char>> {
    match raw {
        Some(JsonView::Array(items)) => if items.len() == 0 {
            Err("entries must not be empty"@)
        } else {
            split_of(items, scoping)
        },
        _ => Err("entries is required and must be an array"@),
    }
}

proof fn lemma_split_stops(items: Seq<JsonView>, scoping: bool, n: int)
    requires
        0 <= n <= items.len(),
        split_of(items.take(n), scoping) is Err,
    ensures
        split_of(items, scoping) == split_of(items.take(n), scoping),
    decreases items.len() - n,
{
    if n < items.len() {
        assert(items.take(n + 1).drop_last() =~= items.take(n));
        lemma_split_stops(items, scoping, n + 1);
    } else {
        assert(items.take(n) =~= items);
    }
}

/// A batch, split.
#[derive(Debug)]
pub struct Split {
    pub registry: Vec<DataEntry>,
    pub scoped: ScopedData,
    pub slots: Vec<Option<DataOutcome>>,
}

/// What is known of each item.
pub open spec fn slot_views(slots: Seq<Option<DataOutcome>>) -> Seq<Option<DataOutcomeView>> {
    slots.map_values(
        |s: Option<DataOutcome>|
            match s {
                Some(o) => Some(o@),
                None => None,
            },
    )
}

impl View for Split {
    type V = SplitView;

    open spec fn view(&self) -> SplitView {
        SplitView {
            registry: entry_requests(self.registry@),
            facts: self.scoped@,
            slots: slot_views(self.slots@),
        }
    }
}

enum Item {
    Entry(DataEntry),
    Refused(DataOutcome),
    Unusable(String),
}

impl Item {
    spec fn view(&self) -> ItemView {
        match self {
            Item::Entry(e) => ItemView::Entry(e@),
            Item::Refused(o) => ItemView::Refused(o@),
            Item::Unusable(s) => ItemView::Unusable(s@),
        }
    }
}

fn refuse(path: &String, reason: RejectReason) -> (r: Item)
    ensures
        r@ == refused_item(path@, reason),
{
    Item::Refused(DataOutcome { path: path.clone(), outcome: Outcome::Rejected { reason } })
}

fn read_item(item: &Json, i: usize) -> (r: Item)
    ensures
        r@ == item_of(item@, i as nat),
{
    let path = match item.get("path") {
        Some(Json::Text(s)) => s.clone(),
        None => return Item::Unusable(
            text::join3("`entries[", &text::decimal(i as u64), "]` is missing `path`"),
        ),
        Some(Json::Null) => return Item::Unusable(
            text::join3("`entries[", &text::decimal(i as u64), "]` is missing `path`"),
        ),
        Some(other) => {
            let head = text::join3(
                "`entries[",
                &text::decimal(i as u64),
                "].path` must be a string, not ",
            );
            return Item::Unusable(text::join2(&head, json_type(other)));
        },
    };
    let value = match item.get("value") {
        None => None,
        Some(Json::Null) => None,
        Some(Json::Text(s)) => Some(s.clone()),
        Some(_) => return refuse(&path, RejectReason::MalformedValue),
    };
    let ttl = match item.get("ttl") {
        None => None,
        Some(raw) => match parse_ttl(raw) {
            Ok(ttl) => ttl,
            Err(_) => return refuse(&path, RejectReason::MalformedTtl),
        },
    };
    Item::Entry(DataEntry { path, value, ttl })
}

impl Split {
    fn empty() -> (r: Self)
        ensures
            r@ == SplitView::empty(),
    {
        let r = Split { registry: Vec::new(), scoped: ScopedData::default(), slots: Vec::new() };
        proof {
            assert(r@.registry =~= seq![]);
            assert(r@.slots =~= seq![]);
        }
        r
    }

    fn decide(&mut self, o: DataOutcome)
        ensures
            final(self)@ == (SplitView { slots: old(self)@.slots.push(Some(o@)), ..old(self)@ }),
    {
        let ghost before = self@;
        let ghost ov = o@;
        self.slots.push(Some(o));
        proof {
            assert(self@.slots =~= before.slots.push(Some(ov)));
        }
    }

    fn take(&mut self, e: DataEntry, scoping: bool)
        ensures
            final(self)@ == old(self)@.with_entry(e@, scoping),
    {
        let ghost before = self@;
        if scoping && is_scoped(&e) {
            match scope_one(&e, &mut self.scoped) {
                Ok(_) => {
                    let path = e.path.clone();
                    self.decide(DataOutcome { path, outcome: Outcome::Scoped });
                },
                Err(o) => self.decide(o),
            }
        } else {
            let ghost ev = e@;
            self.registry.push(e);
            self.slots.push(None);
            proof {
                assert(self@.registry =~= before.registry.push(ev));
                assert(self@.slots =~= before.slots.push(None));
            }
        }
    }
}

/// Read a batch: the entries for the registry, what a document keeps of it, and
/// what can be decided of its items before the registry sees them.
pub fn parse_data_entries(raw: Option<&Json>, scoping: bool) -> (r: Result<Split, String>)
    ensures
        ({
            let rv = match raw {
                Some(v) => Some(v@),
                None => None,
            };
            match r {
                Ok(s) => batch_of(rv, scoping) == Ok::<SplitView, Seq<char>>(s@),
                Err(e) => batch_of(rv, scoping) == Err::<SplitView, Seq<char>>(e@),
            }
        }),
{
    let items = match raw {
        Some(v) => match v.as_array() {
            Some(items) => items,
            None => return Err(text::owned("entries is required and must be an array")),
        },
        None => return Err(text::owned("entries is required and must be an array")),
    };
    if items.len() == 0 {
        return Err(text::owned("entries must not be empty"));
    }
    let ghost all = item_views(items@);
    let mut split = Split::empty();
    let mut i: usize = 0;
    proof {
        assert(all.take(0) =~= seq![]);
        assert(all.len() == items@.len());
    }
    while i < items.len()
        invariant
            all == item_views(items@),
            all.len() > 0,
            raw matches Some(v) && v@ == JsonView::Array(all),
            i <= items@.len(),
            split_of(all.take(i as int), scoping) == Ok::<SplitView, Seq<char>>(split@),
        decreases items@.len() - i,
    {
        proof {
            assert(all.take(i + 1).drop_last() =~= all.take(i as int));
            assert(all.take(i + 1).last() == items@[i as int]@);
        }
        match read_item(&items[i], i) {
            Item::Entry(e) => split.take(e, scoping),
            Item::Refused(o) => split.decide(o),
            Item::Unusable(e) => {
                proof {
                    lemma_split_stops(all, scoping, i + 1);
                }
                return Err(e);
            },
        }
        i += 1;
    }
    proof {
        assert(all.take(all.len() as int) =~= all);
    }
    Ok(split)
}

/// How many slots wait for the registry.
pub open spec fn waiting(slots: Seq<Option<DataOutcomeView>>) -> nat
    decreases slots.len(),
{
    if slots.len() == 0 {
        0
    } else {
        waiting(slots.drop_last()) + if slots.last() is None {
            1nat
        } else {
            0
        }
    }
}

/// What is reported of a batch: what was decided of an item at its place, and
/// what the registry said at the places that waited for it, in its order.
pub open spec fn merged(
    slots: Seq<Option<DataOutcomeView>>,
    applied: Seq<DataOutcomeView>,
) -> Seq<DataOutcomeView> {
    Seq::new(
        slots.len(),
        |i: int|
            match slots[i] {
                Some(o) => o,
                None => applied[waiting(slots.take(i)) as int],
            },
    )
}

proof fn lemma_waiting_monotone(slots: Seq<Option<DataOutcomeView>>, i: int)
    requires
        0 <= i < slots.len(),
        slots[i] is None,
    ensures
        waiting(slots.take(i)) < waiting(slots),
    decreases slots.len(),
{
    if i == slots.len() - 1 {
        assert(slots.drop_last() =~= slots.take(i));
    } else {
        lemma_waiting_monotone(slots.drop_last(), i);
        assert(slots.drop_last().take(i) =~= slots.take(i));
    }
}

proof fn lemma_split_waits(items: Seq<JsonView>, scoping: bool)
    ensures
        split_of(items, scoping) matches Ok(s) ==> waiting(s.slots) == s.registry.len()
            && s.slots.len() == items.len(),
    decreases items.len(),
{
    if items.len() > 0 {
        lemma_split_waits(items.drop_last(), scoping);
        if let Ok(s) = split_of(items.drop_last(), scoping) {
            match item_of(items.last(), (items.len() - 1) as nat) {
                ItemView::Unusable(_) => {},
                ItemView::Refused(o) => {
                    assert(s.slots.push(Some(o)).drop_last() =~= s.slots);
                },
                ItemView::Entry(e) => {
                    let after = s.with_entry(e, scoping);
                    assert(after.slots.drop_last() =~= s.slots);
                },
            }
        }
    }
}

proof fn lemma_nothing_scoped(items: Seq<JsonView>)
    ensures
        split_of(items, false) matches Ok(s) ==> s.facts.len() == 0,
    decreases items.len(),
{
    if items.len() > 0 {
        lemma_nothing_scoped(items.drop_last());
    }
}

/// Put what the registry said where it belongs: one outcome for each item sent,
/// in the order sent, so that a caller can match them by position.
pub fn merge_outcomes(slots: Vec<Option<DataOutcome>>, applied: Vec<DataOutcome>) -> (r: Vec<
    DataOutcome,
>)
    requires
        waiting(slot_views(slots@)) == applied@.len(),
    ensures
        outcome_views(r@) == merged(slot_views(slots@), outcome_views(applied@)),
{
    let ghost sv = slot_views(slots@);
    let ghost av = outcome_views(applied@);
    let mut out: Vec<DataOutcome> = Vec::new();
    let mut next: usize = 0;
    let mut i: usize = 0;
    while i < slots.len()
        invariant
            sv == slot_views(slots@),
            av == outcome_views(applied@),
            waiting(sv) == applied@.len(),
            i <= slots@.len(),
            next == waiting(sv.take(i as int)),
            next <= i,
            out@.len() == i,
            forall|k: int| 0 <= k < i ==> (#[trigger] out@[k])@ == merged(sv, av)[k],
        decreases slots@.len() - i,
    {
        proof {
            assert(sv.take(i + 1).drop_last() =~= sv.take(i as int));
            assert(sv.take(i + 1).last() == sv[i as int]);
            if sv[i as int] is None {
                lemma_waiting_monotone(sv, i as int);
            }
        }
        match &slots[i] {
            Some(o) => out.push(o.clone()),
            None => {
                proof {
                    assert(av[next as int] == applied@[next as int]@);
                }
                out.push(applied[next].clone());
                next += 1;
            },
        }
        i += 1;
    }
    proof {
        assert(outcome_views(out@) =~= merged(sv, av));
    }
    out
}

/// What the registry says of a batch.
pub open spec fn batch_outcomes(
    r: RegistryView,
    entries: Seq<DataEntryView>,
    now: Timestamp,
) -> Seq<DataOutcomeView> {
    Seq::new(entries.len(), |i: int| batch_outcome(r, entries, now, i))
}

/// What a batch came to.
#[derive(Debug)]
pub struct AppliedData {
    /// One for each item, in the order sent.
    pub outcomes: Vec<DataOutcome>,
    /// What one document keeps of it.
    pub scoped: ScopedData,
    /// Whether the registry is to be written.
    pub wrote: bool,
}

fn apply_split(reg: &mut Registry, split: Split, now: Timestamp, always: bool) -> (r: AppliedData)
    requires
        old(reg).wf(),
        waiting(split@.slots) == split@.registry.len(),
    ensures
        final(reg).wf(),
        final(reg)@ == after_batch(old(reg)@, split@.registry, now),
        outcome_views(r.outcomes@) == merged(
            split@.slots,
            batch_outcomes(old(reg)@, split@.registry, now),
        ),
        r.scoped@ == split@.facts,
        r.wrote == (always || split@.registry.len() > 0),
{
    let ghost before = reg@;
    let ghost sv = split@;
    let wrote = always || split.registry.len() > 0;
    let applied = reg.update(split.registry.as_slice(), now);
    proof {
        assert(outcome_views(applied@) =~= batch_outcomes(before, sv.registry, now));
    }
    AppliedData { outcomes: merge_outcomes(split.slots, applied), scoped: split.scoped, wrote }
}

/// Write a list of entries into a registry. Keys with a sigil are refused by the
/// registry: it is the wrong scope for a key that names one document.
pub fn apply_data_entries(reg: &mut Registry, raw: Option<&Json>, now: Timestamp) -> (r: Result<
    AppliedData,
    String,
>)
    requires
        old(reg).wf(),
    ensures
        final(reg).wf(),
        ({
            let rv = match raw {
                Some(v) => Some(v@),
                None => None,
            };
            match batch_of(rv, false) {
                Err(e) => {
                    &&& final(reg)@ == old(reg)@
                    &&& r matches Err(s)
                    &&& s@ == e
                },
                Ok(s) => {
                    &&& final(reg)@ == after_batch(old(reg)@, s.registry, now)
                    &&& r matches Ok(a)
                    &&& outcome_views(a.outcomes@) == merged(
                        s.slots,
                        batch_outcomes(old(reg)@, s.registry, now),
                    )
                    &&& a.scoped@.len() == 0
                    &&& a.wrote
                },
            }
        }),
{
    match parse_data_entries(raw, false) {
        Err(e) => Err(e),
        Ok(split) => {
            proof {
                if let Some(v) = raw {
                    lemma_split_waits(v@->Array_0, false);
                    lemma_nothing_scoped(v@->Array_0);
                }
            }
            Ok(apply_split(reg, split, now, true))
        },
    }
}

/// The entries that come with the arming of a collector, where any do: an
/// explicit `null` is none.
pub fn entries_given<'a>(params: &'a Json) -> (r: Option<&'a Json>)
    ensures
        match r {
            Some(v) => given(params@, "data"@) == Some(v@),
            None => given(params@, "data"@) is None,
        },
{
    given_value(params, "data")
}

/// The entries that were given, if any were: `null` is none.
pub open spec fn entries_in(raw: Option<&Json>) -> Option<JsonView> {
    match raw {
        Some(v) => if v@ is Null {
            None
        } else {
            Some(v@)
        },
        None => None,
    }
}

/// Write a list of entries for a case: what is scoped to the document stays out
/// of the registry, which is long-lived and shared, so that no case inherits
/// what the last one asserted. The list may be absent, or `null`, which means the
/// same: a capture that records nothing new is ordinary.
pub fn apply_case_data_entries(reg: &mut Registry, raw: Option<&Json>, now: Timestamp) -> (r:
    Result<AppliedData, String>)
    requires
        old(reg).wf(),
    ensures
        final(reg).wf(),
        match entries_in(raw) {
            None => {
                &&& final(reg)@ == old(reg)@
                &&& r matches Ok(a)
                &&& a.outcomes@.len() == 0
                &&& a.scoped@.len() == 0
                &&& !a.wrote
            },
            Some(v) => match batch_of(Some(v), true) {
                Err(e) => {
                    &&& final(reg)@ == old(reg)@
                    &&& r matches Err(s)
                    &&& s@ == e
                },
                Ok(s) => {
                    &&& final(reg)@ == after_batch(old(reg)@, s.registry, now)
                    &&& r matches Ok(a)
                    &&& outcome_views(a.outcomes@) == merged(
                        s.slots,
                        batch_outcomes(old(reg)@, s.registry, now),
                    )
                    &&& a.scoped@ == s.facts
                    &&& a.wrote == (s.registry.len() > 0)
                },
            },
        },
{
    let absent = match raw {
        None | Some(Json::Null) => true,
        Some(_) => false,
    };
    if absent {
        return Ok(
            AppliedData { outcomes: Vec::new(), scoped: ScopedData::default(), wrote: false },
        );
    }
    match parse_data_entries(raw, true) {
        Err(e) => Err(e),
        Ok(split) => {
            proof {
                if let Some(v) = raw {
                    lemma_split_waits(v@->Array_0, true);
                }
            }
            Ok(apply_split(reg, split, now, false))
        },
    }
}

/// Every item of a batch has exactly one outcome, at its own place, under the
/// path that the caller spelled.
pub proof fn outcomes_match_items(
    r: RegistryView,
    items: Seq<JsonView>,
    scoping: bool,
    now: Timestamp,
    i: int,
)
    requires
        split_of(items, scoping) is Ok,
        0 <= i < items.len(),
    ensures
        ({
            let s = split_of(items, scoping)->Ok_0;
            let all = merged(s.slots, batch_outcomes(r, s.registry, now));
            &&& all.len() == items.len()
            &&& given(items[i], "path"@) == Some(JsonView::Text(all[i].path))
        }),
    decreases items.len(),
{
    lemma_split_waits(items, scoping);
    lemma_slot_paths(items, scoping, i);
    let s = split_of(items, scoping)->Ok_0;
    if s.slots[i] is None {
        lemma_waiting_monotone(s.slots, i);
    }
}

proof fn lemma_slot_paths(items: Seq<JsonView>, scoping: bool, i: int)
    requires
        split_of(items, scoping) is Ok,
        0 <= i < items.len(),
    ensures
        ({
            let s = split_of(items, scoping)->Ok_0;
            let path = given(items[i], "path"@);
            &&& s.slots.len() == items.len()
            &&& waiting(s.slots) == s.registry.len()
            &&& match s.slots[i] {
                Some(o) => path == Some(JsonView::Text(o.path)),
                None => {
                    &&& waiting(s.slots.take(i)) < s.registry.len()
                    &&& path == Some(
                        JsonView::Text(s.registry[waiting(s.slots.take(i)) as int].path),
                    )
                },
            }
        }),
    decreases items.len(),
{
    lemma_split_waits(items, scoping);
    let front = items.drop_last();
    let s = split_of(items, scoping)->Ok_0;
    let f = split_of(front, scoping)->Ok_0;
    lemma_split_waits(front, scoping);
    assert(s.slots.drop_last() =~= f.slots);
    if i < front.len() {
        lemma_slot_paths(front, scoping, i);
        assert(s.slots.take(i) =~= f.slots.take(i));
        assert(s.slots[i] == f.slots[i]);
    } else {
        assert(s.slots.take(i) =~= f.slots);
    }
}

/// What is scoped to a document never reaches the registry.
pub proof fn documents_keep_their_own(items: Seq<JsonView>)
    ensures
        split_of(items, true) matches Ok(s) ==> forall|i: int|
            0 <= i < s.registry.len() ==> !sigilled((#[trigger] s.registry[i]).path),
    decreases items.len(),
{
    if items.len() > 0 {
        documents_keep_their_own(items.drop_last());
    }
}

/// An outcome as it is reported.
#[derive(Debug, PartialEq, Eq)]
pub struct WireOutcome {
    pub path: String,
    pub outcome: &'static str,
    pub cause: Option<&'static str>,
    pub reason: Option<&'static str>,
}

/// An outcome as it is reported: a cause where it is unknown, a reason where it
/// was rejected.
pub fn wire_outcome(o: &DataOutcome) -> (r: WireOutcome)
    ensures
        r.path@ == o@.path,
        r.outcome@ == o@.outcome.name(),
        optional_str(r.cause) == (match o@.outcome {
            Outcome::Unknown { cause } => Some(cause.name()),
            _ => None,
        }),
        optional_str(r.reason) == (match o@.outcome {
            Outcome::Rejected { reason } => Some(reason.name()),
            _ => None,
        }),
{
    WireOutcome {
        path: o.path.clone(),
        outcome: o.outcome.as_str(),
        cause: match o.outcome {
            Outcome::Unknown { cause } => Some(cause.as_str()),
            _ => None,
        },
        reason: match o.outcome {
            Outcome::Rejected { reason } => Some(reason.as_str()),
            _ => None,
        },
    }
}

/// Remove by a list of patterns, of which at least one has to be given. Says
/// what became of each.
pub fn domain_data_remove(reg: &mut Registry, params: &Json) -> (r: Result<
    Vec<RemoveOutcome>,
    String,
>)
    requires
        old(reg).wf(),
    ensures
        final(reg).wf(),
        match str_array_param(params@, "patterns"@) {
            Err(e) => {
                &&& final(reg)@ == old(reg)@
                &&& r matches Err(s)
                &&& s@ == e
            },
            Ok(patterns) => {
                let given = match patterns {
                    Some(p) => p,
                    None => seq![],
                };
                if given.len() == 0 {
                    &&& final(reg)@ == old(reg)@
                    &&& r matches Err(s)
                    &&& s@ == "patterns is required and must be a non-empty array"@
                } else {
                    &&& final(reg)@ == after_removals(old(reg)@, given)
                    &&& r matches Ok(outcomes)
                    &&& outcomes@.len() == given.len()
                    &&& forall|i: int|
                        0 <= i < given.len() ==> (#[trigger] outcomes@[i])@ == removed_by(
                            after_removals(old(reg)@, given.take(i)),
                            given[i],
                        ).1
                }
            },
        },
{
    let patterns = match opt_str_array(params, "patterns") {
        Err(e) => return Err(e),
        Ok(Some(p)) => p,
        Ok(None) => Vec::new(),
    };
    if patterns.len() == 0 {
        proof {
            assert(text_views(patterns@).len() == 0);
        }
        return Err(text::owned("patterns is required and must be a non-empty array"));
    }
    let ghost given = text_views(patterns@);
    let outcomes = reg.remove(patterns.as_slice());
    proof {
        assert forall|i: int| 0 <= i < given.len() implies (#[trigger] outcomes@[i])@ == removed_by(
            after_removals(old(reg)@, given.take(i)),
            given[i],
        ).1 by {
            assert(given[i] == patterns@[i]@);
        }
    }
    Ok(outcomes)
}

/// The refusal of an age that no instant has.
pub open spec fn unusable_age(secs: u64) -> Seq<char> {
    "`validated_before_secs` is "@ + decimal_text(secs as nat)
        + ", which is not a usable age in seconds"@
}

/// The instant before which a query asks for confirmations. An age that reaches
/// back before the first instant is refused rather than wrapped around.
pub fn cutoff_of(params: &Json, now: Timestamp) -> (r: Result<Option<Timestamp>, String>)
    ensures
        match u64_param(params@, "validated_before_secs"@) {
            Err(e) => r matches Err(s) && s@ == e,
            Ok(None) => r == Ok::<Option<Timestamp>, String>(None),
            Ok(Some(secs)) => match r {
                Ok(t) => {
                    &&& t is Some
                    &&& t->0.instant() == now.instant() - secs * 1_000_000_000
                },
                Err(s) => {
                    &&& now.unix_secs() - secs < crate::clock::MIN_SECS
                    &&& s@ == unusable_age(secs)
                },
            },
        },
{
    match opt_u64(params, "validated_before_secs") {
        Err(e) => Err(e),
        Ok(None) => Ok(None),
        Ok(Some(secs)) => match now.minus_seconds(secs) {
            Some(t) => Ok(Some(t)),
            None => Err(
                text::join3(
                    "`validated_before_secs` is ",
                    &text::decimal(secs),
                    ", which is not a usable age in seconds",
                ),
            ),
        },
    }
}

/// A key of a registry as it is reported.
#[derive(Debug, PartialEq, Eq)]
pub struct DomainDataKey {
    pub path: String,
    pub value: String,
    pub created_at: String,
    pub validated_at: String,
    pub age_secs: i64,
    pub ttl: Option<String>,
    pub expired: Option<bool>,
}

/// Whether a row reports an entry.
pub open spec fn reports_entry(row: DomainDataKey, e: EntryView, now: Timestamp) -> bool {
    let age = crate::clock::whole_seconds(now.instant() - e.validated_at.instant());
    &&& row.value@ == e.value
    &&& row.created_at@ == e.created_at.rfc3339()
    &&& row.validated_at@ == e.validated_at.rfc3339()
    &&& row.age_secs == age
    &&& match e.ttl_secs {
        Some(ttl) => optional_text(row.ttl) == Some(duration_text(ttl)) && row.expired == Some(
            age >= ttl,
        ),
        None => row.ttl is None && row.expired is None,
    }
}

fn report_entry(path: &String, e: &Entry, now: Timestamp) -> (r: DomainDataKey)
    ensures
        r.path@ == path@,
        reports_entry(r, e@, now),
{
    DomainDataKey {
        path: path.clone(),
        value: e.value.clone(),
        created_at: e.created_at.to_rfc3339(),
        validated_at: e.validated_at.to_rfc3339(),
        age_secs: e.age(now),
        ttl: match e.ttl_secs {
            Some(ttl) => Some(render_duration(ttl)),
            None => None,
        },
        expired: e.is_expired(now),
    }
}

/// The core keys among the first `n` that a registry lacks.
pub open spec fn missing_keys(r: RegistryView, n: int) -> Seq<Seq<char>>
    decreases n,
{
    if n <= 0 {
        seq![]
    } else if r.entries.contains_key(core_key_texts()[n - 1]) {
        missing_keys(r, n - 1)
    } else {
        missing_keys(r, n - 1).push(core_key_texts()[n - 1])
    }
}

/// What a query of a registry is answered.
#[derive(Debug)]
pub struct DomainDataAnswer {
    /// The keys asked for, in order.
    pub keys: Vec<DomainDataKey>,
    /// How many keys there are in all.
    pub total: usize,
    /// The core keys that are not there.
    pub missing_core: Vec<String>,
}

/// Whether an answer is the one that a registry gives: the keys under a prefix,
/// those only that were last confirmed before a moment, how many keys there are in
/// all, and what is missing of the core keys.
pub open spec fn answers(
    r: DomainDataAnswer,
    reg: RegistryView,
    prefix: Option<Seq<char>>,
    cutoff: Option<Timestamp>,
    now: Timestamp,
) -> bool {
    &&& forall|i: int, j: int|
        0 <= i < j < r.keys@.len() ==> precedes(
            (#[trigger] r.keys@[i]).path@,
            (#[trigger] r.keys@[j]).path@,
        )
    &&& forall|i: int|
        0 <= i < r.keys@.len() ==> {
            let key = (#[trigger] r.keys@[i]).path@;
            &&& reg.entries.contains_key(key)
            &&& wanted(prefix, cutoff, key, reg.entries[key])
            &&& reports_entry(r.keys@[i], reg.entries[key], now)
        }
    &&& forall|key: Seq<char>|
        reg.entries.contains_key(key) && #[trigger] wanted(prefix, cutoff, key, reg.entries[key])
            ==> exists|i: int| 0 <= i < r.keys@.len() && (#[trigger] r.keys@[i]).path@ == key
    &&& reg.entries.dom().finite()
    &&& r.total == reg.entries.dom().len()
    &&& text_views(r.missing_core@) == missing_keys(reg, core_key_texts().len() as int)
}

/// Answer a query of a registry.
pub fn domain_data_get(
    reg: &Registry,
    prefix: Option<&str>,
    cutoff: Option<Timestamp>,
    now: Timestamp,
) -> (r: DomainDataAnswer)
    requires
        reg.wf(),
    ensures
        answers(r, reg@, optional_str(prefix), cutoff, now),
{
    let found = reg.query(prefix, cutoff);
    let mut keys: Vec<DomainDataKey> = Vec::new();
    let mut i: usize = 0;
    while i < found.len()
        invariant
            i <= found@.len(),
            keys@.len() == i,
            forall|k: int|
                0 <= k < i ==> (#[trigger] keys@[k]).path@ == found@[k].0@ && reports_entry(
                    keys@[k],
                    found@[k].1@,
                    now,
                ),
        decreases found@.len() - i,
    {
        keys.push(report_entry(found[i].0, found[i].1, now));
        i += 1;
    }
    proof {
        assert forall|key: Seq<char>|
            reg@.entries.contains_key(key) && #[trigger] wanted(
                optional_str(prefix),
                cutoff,
                key,
                reg@.entries[key],
            ) implies exists|i: int| 0 <= i < keys@.len() && (#[trigger] keys@[i]).path@ == key by {
            let i = choose|i: int| 0 <= i < found@.len() && (#[trigger] found@[i]).0@ == key;
            assert(keys@[i].path@ == key);
        }
    }
    let core = core_keys();
    let mut missing: Vec<String> = Vec::new();
    let mut k: usize = 0;
    proof {
        assert(text_views(missing@) =~= seq![]);
    }
    while k < core.len()
        invariant
            reg.wf(),
            core@.len() == core_key_texts().len(),
            forall|i: int| 0 <= i < core@.len() ==> (#[trigger] core@[i])@ == core_key_texts()[i],
            k <= core@.len(),
            text_views(missing@) == missing_keys(reg@, k as int),
        decreases core@.len() - k,
    {
        let ghost before = missing@;
        if reg.get(core[k]).is_none() {
            let key = text::owned(core[k]);
            let ghost kv = key@;
            missing.push(key);
            proof {
                assert(text_views(missing@) =~= text_views(before).push(kv));
            }
        }
        k += 1;
    }
    DomainDataAnswer { keys, total: reg.len(), missing_core: missing }
}

/// Answer a query of a domain. Of one whose registry is not open, as it has no
/// file, nothing is reported.
pub fn domain_data_of(
    store: &DomainDataStore,
    domain: &str,
    prefix: Option<&str>,
    cutoff: Option<Timestamp>,
    now: Timestamp,
) -> (r: DomainDataAnswer)
    requires
        store.wf(),
    ensures
        answers(r, store@.held(domain@), optional_str(prefix), cutoff, now),
{
    match store.registry(domain) {
        Some(reg) => domain_data_get(reg.read(), prefix, cutoff, now),
        None => domain_data_get(&Registry::new(), prefix, cutoff, now),
    }
}

/// A query of a domain that nobody recorded anything for reports nothing at all,
/// not even logmon's own keys, and leaves no registry behind.
pub proof fn untouched_domains_report_nothing(
    s: DomainDataView,
    domain: Seq<char>,
    stored: StoredRegistry,
    quarantined: bool,
    now: Timestamp,
    prefix: Option<Seq<char>>,
    cutoff: Option<Timestamp>,
    r: DomainDataAnswer,
)
    requires
        !s.open.contains_key(domain),
        answers(
            r,
            s.with_read(domain, false, stored, quarantined, now).held(domain),
            prefix,
            cutoff,
            now,
        ),
    ensures
        s.with_read(domain, false, stored, quarantined, now) == s,
        r.total == 0,
        r.keys@.len() == 0,
{
    if r.keys@.len() > 0 {
        assert(s.held(domain).entries.contains_key(r.keys@[0].path@));
    }
}

/// A fact of the registry as a case copies it.
#[derive(Debug, PartialEq, Eq)]
pub struct RegistryFact {
    pub path: String,
    pub value: String,
    pub created_at: Timestamp,
    pub validated_at: Timestamp,
    pub ttl_secs: Option<u64>,
    pub expired: Option<bool>,
}

/// Whether a fact is a copy of an entry.
pub open spec fn copies_entry(f: RegistryFact, e: EntryView, now: Timestamp) -> bool {
    let age = crate::clock::whole_seconds(now.instant() - e.validated_at.instant());
    &&& f.value@ == e.value
    &&& f.created_at == e.created_at
    &&& f.validated_at == e.validated_at
    &&& f.ttl_secs == e.ttl_secs
    &&& f.expired == (match e.ttl_secs {
        Some(ttl) => Some(age >= ttl),
        None => None,
    })
}

/// What a case copies of a registry.
#[derive(Debug)]
pub struct RegistryCopy {
    pub facts: Vec<RegistryFact>,
    pub incarnation: Option<String>,
    pub case_name: Option<String>,
}

/// The value at a key of a registry.
pub open spec fn value_of(r: RegistryView, key: Seq<char>) -> Option<Seq<char>> {
    if r.entries.contains_key(key) {
        Some(r.entries[key].value)
    } else {
        None
    }
}

fn read_value(reg: &Registry, key: &str) -> (r: Option<String>)
    requires
        reg.wf(),
    ensures
        optional_text(r) == value_of(reg@, key@),
{
    match reg.get(key) {
        Some(e) => Some(e.value.clone()),
        None => None,
    }
}

/// The registry as of `now`, with the era and the prefix for the names of case
/// files. The reserved keys are left out of the copy: they are bookkeeping, and
/// listing them would present the two as the same kind of claim.
pub fn case_registry_copy(reg: &Registry, now: Timestamp) -> (r: RegistryCopy)
    requires
        reg.wf(),
    ensures
        optional_text(r.incarnation) == value_of(reg@, "/logmon/incarnation"@),
        optional_text(r.case_name) == value_of(reg@, CASE_NAME_KEY@),
        forall|i: int, j: int|
            0 <= i < j < r.facts@.len() ==> precedes(
                (#[trigger] r.facts@[i]).path@,
                (#[trigger] r.facts@[j]).path@,
            ),
        forall|i: int|
            0 <= i < r.facts@.len() ==> {
                let key = (#[trigger] r.facts@[i]).path@;
                &&& reg@.entries.contains_key(key)
                &&& !reserved(key)
                &&& copies_entry(r.facts@[i], reg@.entries[key], now)
            },
        forall|key: Seq<char>| #[trigger]
            reg@.entries.contains_key(key) && !reserved(key) ==> exists|i: int|
                0 <= i < r.facts@.len() && (#[trigger] r.facts@[i]).path@ == key,
{
    let all = reg.query(None, None);
    let mut facts: Vec<RegistryFact> = Vec::new();
    let ghost mut places: Seq<int> = seq![];
    let mut i: usize = 0;
    while i < all.len()
        invariant
            i <= all@.len(),
            places.len() == facts@.len(),
            forall|k: int, l: int|
                0 <= k < l < places.len() ==> #[trigger] places[k] < #[trigger] places[l],
            forall|k: int|
                0 <= k < facts@.len() ==> {
                    &&& 0 <= #[trigger] places[k] < i
                    &&& facts@[k].path@ == all@[places[k]].0@
                    &&& !reserved(facts@[k].path@)
                    &&& copies_entry(facts@[k], all@[places[k]].1@, now)
                },
            forall|n: int|
                0 <= n < i && !reserved((#[trigger] all@[n]).0@) ==> places.contains(n),
        decreases all@.len() - i,
    {
        let (path, e) = all[i];
        if !is_reserved(path) {
            let ghost earlier = places;
            facts.push(
                RegistryFact {
                    path: path.clone(),
                    value: e.value.clone(),
                    created_at: e.created_at,
                    validated_at: e.validated_at,
                    ttl_secs: e.ttl_secs,
                    expired: e.is_expired(now),
                },
            );
            proof {
                places = earlier.push(i as int);
                assert(places[earlier.len() as int] == i);
                assert forall|n: int|
                    0 <= n < i + 1 && !reserved((#[trigger] all@[n]).0@) implies places.contains(
                    n,
                ) by {
                    if n < i {
                        let k = earlier.index_of(n);
                        assert(places[k] == n);
                    }
                }
            }
        }
        i += 1;
    }
    proof {
        assert forall|a: int, b: int| 0 <= a < b < facts@.len() implies precedes(
            (#[trigger] facts@[a]).path@,
            (#[trigger] facts@[b]).path@,
        ) by {
            assert(places[a] < places[b]);
            assert(precedes(all@[places[a]].0@, all@[places[b]].0@));
        }
        assert forall|k: int| 0 <= k < facts@.len() implies {
            let key = (#[trigger] facts@[k]).path@;
            &&& reg@.entries.contains_key(key)
            &&& !reserved(key)
            &&& copies_entry(facts@[k], reg@.entries[key], now)
        } by {
            assert(0 <= places[k] < i);
            assert(all@[places[k]].0@ == facts@[k].path@);
        }
        assert forall|key: Seq<char>| #[trigger]
            reg@.entries.contains_key(key) && !reserved(key) implies exists|k: int|
            0 <= k < facts@.len() && (#[trigger] facts@[k]).path@ == key by {
            assert(wanted(optional_str(None), None, key, reg@.entries[key]));
            let n = choose|n: int| 0 <= n < all@.len() && (#[trigger] all@[n]).0@ == key;
            assert(places.contains(n));
            let k = places.index_of(n);
            assert(facts@[k].path@ == key);
        }
    }
    RegistryCopy {
        facts,
        incarnation: read_value(reg, "/logmon/incarnation"),
        case_name: read_value(reg, CASE_NAME_KEY),
    }
}

/// An entry is what its item says: its path, its value and its lifetime.
pub proof fn items_are_read_as_given(item: JsonView, n: nat)
    ensures
        item_of(item, n) matches ItemView::Entry(e) ==> {
            &&& item.get("path"@) == Some(JsonView::Text(e.path))
            &&& given(item, "value"@) is None ==> e.value is None
            &&& given(item, "value"@) matches Some(v) ==> v == JsonView::Text(e.value->0) && e.value is Some
            &&& item.get("ttl"@) is None ==> e.ttl is None
            &&& item.get("ttl"@) matches Some(raw) ==> ttl_of(raw) is Ok && e.ttl == ttl_of(
                raw,
            )->Ok_0
        },
        item_of(item, n) matches ItemView::Refused(o) ==> {
            &&& item.get("path"@) == Some(JsonView::Text(o.path))
            &&& o.outcome == (Outcome::Rejected { reason: RejectReason::MalformedValue }) <==> given(
                item,
                "value"@,
            ) is Some && !(given(item, "value"@)->0 is Text)
            &&& o.outcome == (Outcome::Rejected { reason: RejectReason::MalformedTtl }) <==> (given(
                item,
                "value"@,
            ) is None || given(item, "value"@)->0 is Text) && item.get("ttl"@) is Some && ttl_of(
                item.get("ttl"@)->0,
            ) is Err
        },
        item_of(item, n) is Unusable <==> !(item.get("path"@) matches Some(JsonView::Text(_))),
{
}

/// Outside a document every entry is for the registry; in one, those that are marked for
/// the document stay in it, and the others are for the registry.
pub proof fn entries_go_where_they_belong(s: SplitView, e: DataEntryView, scoping: bool)
    ensures
        !scoping || e.path.len() == 0 || e.path[0] != '@' ==> {
            &&& s.with_entry(e, scoping).registry == s.registry.push(e)
            &&& s.with_entry(e, scoping).facts == s.facts
            &&& s.with_entry(e, scoping).slots == s.slots.push(None)
        },
        scoping && e.path.len() > 0 && e.path[0] == '@' ==> {
            &&& s.with_entry(e, scoping).registry == s.registry
            &&& s.with_entry(e, scoping).slots.len() == s.slots.len() + 1
            &&& s.with_entry(e, scoping).slots.last() is Some
            &&& s.with_entry(e, scoping).slots.last()->0.path == e.path
            &&& scoped_refusal_at(s.facts, e) is None ==> {
                &&& s.with_entry(e, scoping).slots.last()->0.outcome == Outcome::Scoped
                &&& s.with_entry(e, scoping).facts == asserted(s.facts, e.path, e.value->0)
            }
            &&& scoped_refusal_at(s.facts, e) matches Some(reason) ==> {
                &&& s.with_entry(e, scoping).slots.last()->0.outcome == (Outcome::Rejected {
                    reason,
                })
                &&& s.with_entry(e, scoping).facts == s.facts
            }
        },
{
}

/// A core key is reported missing exactly where the registry does not hold it.
pub proof fn missing_core_keys_are_reported(r: RegistryView, n: int, i: int)
    requires
        0 <= i < n <= core_key_texts().len(),
    ensures
        missing_keys(r, n).contains(core_key_texts()[i]) <==> !r.entries.contains_key(
            core_key_texts()[i],
        ),
        core_key_texts() == seq!["/Build/commit"@, "/Build/profile"@, "/Action"@],
    decreases n,
{
    let key = core_key_texts()[i];
    let before = missing_keys(r, n - 1);
    let now = missing_keys(r, n);
    let last = core_key_texts()[n - 1];
    if i < n - 1 {
        missing_core_keys_are_reported(r, n - 1, i);
        if before.contains(key) {
            let k = choose|k: int| 0 <= k < before.len() && before[k] == key;
            assert(now[k] == key);
        }
        if now.contains(key) && !before.contains(key) {
            let k = choose|k: int| 0 <= k < now.len() && now[k] == key;
            if k < before.len() {
                assert(before[k] == key);
            }
            assert(key == last);
        }
    } else {
        if !r.entries.contains_key(key) {
            assert(now.last() == key);
            assert(now[now.len() - 1] == key);
        } else if now.contains(key) {
            lemma_only_missing(r, n, key);
        }
    }
}

proof fn lemma_only_missing(r: RegistryView, n: int, key: Seq<char>)
    requires
        n <= core_key_texts().len(),
        missing_keys(r, n).contains(key),
    ensures
        !r.entries.contains_key(key),
    decreases n,
{
    if n > 0 {
        let before = missing_keys(r, n - 1);
        let now = missing_keys(r, n);
        let k = choose|k: int| 0 <= k < now.len() && now[k] == key;
        if k < before.len() {
            assert(before[k] == key);
            lemma_only_missing(r, n - 1, key);
        }
    }
}

/// A row tells what its entry holds, how long ago that was confirmed, and whether its
/// lifetime is over; an entry without a lifetime never expires.
pub proof fn rows_tell_of_their_entry(row: DomainDataKey, e: EntryView, now: Timestamp)
    requires
        reports_entry(row, e, now),
    ensures
        row.value@ == e.value,
        row.created_at@ == e.created_at.rfc3339(),
        row.validated_at@ == e.validated_at.rfc3339(),
        e.ttl_secs is None ==> row.expired is None && row.ttl is None,
        e.ttl_secs matches Some(ttl) ==> {
            &&& row.expired matches Some(x)
            &&& x <==> row.age_secs >= ttl
            &&& row.ttl matches Some(t)
            &&& t@ == duration_text(ttl)
        },
{
}

/// What a document copies of the registry is what the registry holds.
pub proof fn copies_tell_of_their_entry(
    f: RegistryFact,
    e: EntryView,
    now: Timestamp,
    r: RegistryView,
    key: Seq<char>,
)
    ensures
        copies_entry(f, e, now) ==> {
            &&& f.value@ == e.value
            &&& f.created_at == e.created_at
            &&& f.validated_at == e.validated_at
            &&& f.ttl_secs == e.ttl_secs
            &&& f.expired is Some <==> e.ttl_secs is Some
        },
        r.entries.contains_key(key) ==> value_of(r, key) == Some(r.entries[key].value),
        !r.entries.contains_key(key) ==> value_of(r, key) is None,
{
}

/// A moment that is so many seconds ago is that many seconds before now.
pub proof fn cutoffs_lie_in_the_past(
    params: Json,
    now: Timestamp,
    r: Result<Option<Timestamp>, String>,
)
    requires
        call_ensures(cutoff_of, (&params, now), r),
    ensures
        params@.get("validated_before_secs"@) is None ==> r == Ok::<Option<Timestamp>, String>(None),
        params@.u64_at("validated_before_secs"@) matches Some(secs) ==> r matches Ok(t) ==> t is Some
            && now.instant() - t->0.instant() == secs * 1_000_000_000,
{
}

/// On the wire an outcome has the path of its entry, and a cause or a reason where it has
/// one.
pub proof fn outcomes_are_told_in_full(o: DataOutcome, r: WireOutcome)
    requires
        call_ensures(wire_outcome, (&o,), r),
    ensures
        r.path@ == o@.path,
        r.outcome@ == o@.outcome.name(),
        o@.outcome matches Outcome::Unknown { cause } ==> optional_str(r.cause) == Some(cause.name()),
        o@.outcome matches Outcome::Rejected { reason } ==> optional_str(r.reason) == Some(
            reason.name(),
        ),
        r.cause is Some ==> o@.outcome is Unknown,
        r.reason is Some ==> o@.outcome is Rejected,
{
}

} // verus!
