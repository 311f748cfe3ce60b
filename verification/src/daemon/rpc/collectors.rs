//! What the `collectors.*` methods ask for, and how a recorded run is read.
use crate::daemon::domain::{is_name, is_valid_name, Domain, DomainId, DomainRegistry};
use crate::daemon::rpc::domains::{resolve_domain, vanished};
use crate::daemon::rpc::logs::{
    parse_and_resolve_filter, query_filter, query_seqs, size_given, size_param,
};
use crate::daemon::rpc::params::{
    bool_param, group_keys_of, group_keys_param, opt_bool, opt_str, opt_str_array, opt_usize,
    optional_texts, req_str, required_str, str_array_param, str_param, threshold_of,
    threshold_param, ThresholdChange, ThresholdChangeView,
};
use crate::daemon::rpc::traces::no_cursor;
use crate::filter::admission::{
    admission_of, admit_span_filter, warning_views, AdmissionError, AdmissionErrorView,
    AdmissionWarning, AdmissionWarningView,
};
use crate::filter::parser::{
    filter_of, parse_filter, reading_views, DurationReading, DurationReadingView, FilterView,
    ParsedFilter,
};
use crate::json::{Json, JsonView};
use crate::receiver::metrics::TraceIngestLoss;
use crate::store::bookmarks::BookmarkStore;
use crate::text;
use crate::text::{decimal_text, first_at, optional_str, optional_text, text_views};
use vstd::prelude::*;

verus! {

broadcast use vstd::string::group_string_axioms;

/// How much a collector keeps of each span.
#[derive(Debug, Clone, Copy, PartialEq, Eq, Structural)]
pub enum CollectorLevel {
    Scalar,
    Timing,
    Tree,
}

impl CollectorLevel {
    /// The word for a level.
    pub open spec fn word(self) -> Seq<char> {
        match self {
            CollectorLevel::Scalar => "scalar"@,
            CollectorLevel::Timing => "timing"@,
            CollectorLevel::Tree => "tree"@,
        }
    }

    pub fn as_str(&self) -> (r: &'static str)
        ensures
            r@ == self.word(),
    {
        match self {
            CollectorLevel::Scalar => "scalar",
            CollectorLevel::Timing => "timing",
            CollectorLevel::Tree => "tree",
        }
    }

    /// Whether single spans are kept.
    pub open spec fn samples(self) -> bool {
        self != CollectorLevel::Scalar
    }
}

/// Why a collector is refused.
#[derive(Debug, PartialEq, Eq)]
pub enum CollectorRefusal {
    Refused(String),
    /// Its filter can never match a span.
    NotAdmitted(AdmissionError),
}

/// What a [`CollectorRefusal`] says.
#[verifier::ext_equal]
pub enum CollectorRefusalView {
    Refused(Seq<char>),
    NotAdmitted(AdmissionErrorView),
}

impl View for CollectorRefusal {
    type V = CollectorRefusalView;

    open spec fn view(&self) -> CollectorRefusalView {
        match self {
            CollectorRefusal::Refused(s) => CollectorRefusalView::Refused(s@),
            CollectorRefusal::NotAdmitted(e) => CollectorRefusalView::NotAdmitted(e@),
        }
    }
}

/// The level that is asked for.
pub open spec fn level_param(params: JsonView) -> Result<Option<CollectorLevel>, Seq<char>> {
    match str_param(params, "level"@) {
        Err(e) => Err(e),
        Ok(None) => Ok(None),
        Ok(Some(s)) => if s == "scalar"@ {
            Ok(Some(CollectorLevel::Scalar))
        } else if s == "timing"@ {
            Ok(Some(CollectorLevel::Timing))
        } else if s == "tree"@ {
            Ok(Some(CollectorLevel::Tree))
        } else {
            Err("unknown level `"@ + s + "`: expected `scalar`, `timing` or `tree`"@)
        },
    }
}

/// Read the level that is asked for.
pub fn level_of(params: &Json) -> (r: Result<Option<CollectorLevel>, String>)
    ensures
        match r {
            Ok(l) => level_param(params@) == Ok::<Option<CollectorLevel>, Seq<char>>(l),
            Err(e) => level_param(params@) == Err::<Option<CollectorLevel>, Seq<char>>(e@),
        },
{
    match opt_str(params, "level") {
        Err(e) => Err(e),
        Ok(None) => Ok(None),
        Ok(Some(s)) => if text::same(s, "scalar") {
            Ok(Some(CollectorLevel::Scalar))
        } else if text::same(s, "timing") {
            Ok(Some(CollectorLevel::Timing))
        } else if text::same(s, "tree") {
            Ok(Some(CollectorLevel::Tree))
        } else {
            Err(
                text::join3("unknown level `", s, "`: expected `scalar`, `timing` or `tree`"),
            )
        },
    }
}

/// A filter that may feed a collector, with what is odd about it.
#[derive(Debug)]
pub struct AdmittedFilter {
    pub text: String,
    pub filter: ParsedFilter,
    pub warnings: Vec<AdmissionWarning>,
}

/// What an [`AdmittedFilter`] says.
#[verifier::ext_equal]
pub struct AdmittedFilterView {
    pub text: Seq<char>,
    pub filter: FilterView,
    pub warnings: Seq<AdmissionWarningView>,
}

impl View for AdmittedFilter {
    type V = AdmittedFilterView;

    open spec fn view(&self) -> AdmittedFilterView {
        AdmittedFilterView {
            text: self.text@,
            filter: self.filter@,
            warnings: warning_views(self.warnings@),
        }
    }
}

/// What admitting a collector's filter comes to.
pub open spec fn collector_filter(s: Seq<char>, readings: Seq<DurationReadingView>) -> Result<
    AdmittedFilterView,
    CollectorRefusalView,
> {
    match filter_of(s, readings) {
        Err(e) => Err(CollectorRefusalView::Refused("invalid filter: "@ + e.message())),
        Ok(f) => match admission_of(f) {
            Err(e) => Err(CollectorRefusalView::NotAdmitted(e)),
            Ok(warnings) => Ok(AdmittedFilterView { text: s, filter: f, warnings }),
        },
    }
}

/// Admit a filter for a collector.
pub fn admit_collector_filter(s: &str, readings: &Vec<DurationReading>) -> (r: Result<
    AdmittedFilter,
    CollectorRefusal,
>)
    ensures
        match r {
            Ok(f) => collector_filter(s@, reading_views(readings@)) == Ok::<
                AdmittedFilterView,
                CollectorRefusalView,
            >(f@),
            Err(e) => collector_filter(s@, reading_views(readings@)) == Err::<
                AdmittedFilterView,
                CollectorRefusalView,
            >(e@),
        },
{
    let filter = match parse_filter(s, readings) {
        Ok(f) => f,
        Err(e) => {
            return Err(CollectorRefusal::Refused(text::join2("invalid filter: ", &e.to_text())));
        },
    };
    match admit_span_filter(&filter) {
        Ok(a) => Ok(AdmittedFilter { text: text::owned(s), filter, warnings: a.warnings }),
        Err(e) => Err(CollectorRefusal::NotAdmitted(e)),
    }
}

/// A collector that is to be armed.
#[derive(Debug)]
pub struct CollectorPlan {
    pub name: String,
    pub filter: AdmittedFilter,
    pub level: CollectorLevel,
    pub group_keys: Vec<String>,
    pub max_sample_bytes: usize,
    pub threshold: ThresholdChange,
    pub description: Option<String>,
}

/// What a [`CollectorPlan`] asks for.
#[verifier::ext_equal]
pub struct CollectorPlanView {
    pub name: Seq<char>,
    pub filter: AdmittedFilterView,
    pub level: CollectorLevel,
    pub group_keys: Seq<Seq<char>>,
    pub max_sample_bytes: nat,
    pub threshold: ThresholdChangeView,
    pub description: Option<Seq<char>>,
}

impl View for CollectorPlan {
    type V = CollectorPlanView;

    open spec fn view(&self) -> CollectorPlanView {
        CollectorPlanView {
            name: self.name@,
            filter: self.filter@,
            level: self.level,
            group_keys: text_views(self.group_keys@),
            max_sample_bytes: self.max_sample_bytes as nat,
            threshold: self.threshold@,
            description: optional_text(self.description),
        }
    }
}

/// The refusal of a collector's name.
pub open spec fn bad_collector_name(name: Seq<char>) -> Seq<char> {
    "invalid collector name `"@ + name
        + "`: use letters, digits, `_` and `-` only. Collector names appear in filenames and in `collector@label`, so `/`, `..` and `@` cannot be permitted"@
}

/// The refusal of a collector of an anonymous session.
pub open spec fn unnamed_owner() -> Seq<char> {
    "collectors require a named session: they outlive a disconnect, and an anonymous session's identity does not. Call session.start with a name, or use traces.profile for a one-off measurement"@
}

/// Texts, or none.
pub open spec fn texts_or_none(texts: Option<Seq<Seq<char>>>) -> Seq<Seq<char>> {
    match texts {
        Some(t) => t,
        None => seq![],
    }
}

/// What a call of `collectors.add` asks for.
pub open spec fn collector_request(
    params: JsonView,
    anonymous: bool,
    readings: Seq<DurationReadingView>,
    domains: Map<Seq<char>, Domain>,
    bound: Seq<char>,
    default_sample_bytes: usize,
) -> Result<CollectorPlanView, CollectorRefusalView> {
    match required_str(params, "name"@) {
        Err(e) => Err(CollectorRefusalView::Refused(e)),
        Ok(name) => if !is_name(name) {
            Err(CollectorRefusalView::Refused(bad_collector_name(name)))
        } else if anonymous {
            Err(CollectorRefusalView::Refused(unnamed_owner()))
        } else {
            match required_str(params, "filter"@) {
                Err(e) => Err(CollectorRefusalView::Refused(e)),
                Ok(s) => if !domains.contains_key(bound) {
                    Err(CollectorRefusalView::Refused(vanished(bound)))
                } else {
                    match collector_filter(s, readings) {
                        Err(e) => Err(e),
                        Ok(filter) => match level_param(params) {
                            Err(e) => Err(CollectorRefusalView::Refused(e)),
                            Ok(level) => match group_keys_param(params) {
                                Err(e) => Err(CollectorRefusalView::Refused(e)),
                                Ok(keys) => match size_param(params, "max_sample_bytes"@) {
                                    Err(e) => Err(CollectorRefusalView::Refused(e)),
                                    Ok(bytes) => match threshold_param(params) {
                                        Err(e) => Err(CollectorRefusalView::Refused(e)),
                                        Ok(threshold) => match str_param(
                                            params,
                                            "description"@,
                                        ) {
                                            Err(e) => Err(CollectorRefusalView::Refused(e)),
                                            Ok(description) => Ok(
                                                CollectorPlanView {
                                                    name,
                                                    filter,
                                                    level: match level {
                                                        Some(l) => l,
                                                        None => CollectorLevel::Tree,
                                                    },
                                                    group_keys: texts_or_none(keys),
                                                    max_sample_bytes: size_given(
                                                        bytes,
                                                        default_sample_bytes,
                                                    ),
                                                    threshold,
                                                    description,
                                                },
                                            ),
                                        },
                                    },
                                },
                            },
                        },
                    }
                },
            }
        },
    }
}

/// Read a call of `collectors.add` by a session that is bound to `bound`.
///
/// An anonymous session cannot own a collector: its name is never presented
/// again, so the collector would be out of reach once the session disconnects.
pub fn collectors_add(
    params: &Json,
    anonymous: bool,
    readings: &Vec<DurationReading>,
    domains: &DomainRegistry,
    bound: &DomainId,
    default_sample_bytes: usize,
) -> (r: Result<CollectorPlan, CollectorRefusal>)
    requires
        domains.wf(),
    ensures
        match r {
            Ok(plan) => collector_request(
                params@,
                anonymous,
                reading_views(readings@),
                domains@,
                bound@,
                default_sample_bytes,
            ) == Ok::<CollectorPlanView, CollectorRefusalView>(plan@),
            Err(e) => collector_request(
                params@,
                anonymous,
                reading_views(readings@),
                domains@,
                bound@,
                default_sample_bytes,
            ) == Err::<CollectorPlanView, CollectorRefusalView>(e@),
        },
{
    let name = match req_str(params, "name") {
        Ok(s) => s,
        Err(e) => return Err(CollectorRefusal::Refused(e)),
    };
    if !is_valid_name(name) {
        return Err(
            CollectorRefusal::Refused(
                text::join3(
                    "invalid collector name `",
                    name,
                    "`: use letters, digits, `_` and `-` only. Collector names appear in filenames and in `collector@label`, so `/`, `..` and `@` cannot be permitted",
                ),
            ),
        );
    }
    if anonymous {
        return Err(
            CollectorRefusal::Refused(
                text::owned(
                    "collectors require a named session: they outlive a disconnect, and an anonymous session's identity does not. Call session.start with a name, or use traces.profile for a one-off measurement",
                ),
            ),
        );
    }
    let s = match req_str(params, "filter") {
        Ok(s) => s,
        Err(e) => return Err(CollectorRefusal::Refused(e)),
    };
    if let Err(e) = resolve_domain(domains, bound) {
        return Err(CollectorRefusal::Refused(e));
    }
    let filter = match admit_collector_filter(s, readings) {
        Ok(f) => f,
        Err(e) => return Err(e),
    };
    let level = match level_of(params) {
        Ok(Some(l)) => l,
        Ok(None) => CollectorLevel::Tree,
        Err(e) => return Err(CollectorRefusal::Refused(e)),
    };
    let group_keys = match group_keys_of(params) {
        Ok(Some(keys)) => keys,
        Ok(None) => Vec::new(),
        Err(e) => return Err(CollectorRefusal::Refused(e)),
    };
    let max_sample_bytes: usize = match opt_usize(params, "max_sample_bytes") {
        Ok(Some(n)) => n,
        Ok(None) => default_sample_bytes,
        Err(e) => return Err(CollectorRefusal::Refused(e)),
    };
    let threshold = match threshold_of(params) {
        Ok(t) => t,
        Err(e) => return Err(CollectorRefusal::Refused(e)),
    };
    let description = match words_of(params, "description") {
        Ok(s) => s,
        Err(e) => return Err(CollectorRefusal::Refused(e)),
    };
    let plan = CollectorPlan {
        name: text::owned(name),
        filter,
        level,
        group_keys,
        max_sample_bytes,
        threshold,
        description,
    };
    proof {
        let keys = group_keys_param(params@)->Ok_0;
        assert(text_views(plan.group_keys@) =~= texts_or_none(keys));
    }
    Ok(plan)
}

/// A change to a collector.
#[derive(Debug)]
pub struct CollectorEdit {
    pub name: String,
    pub level: Option<CollectorLevel>,
    pub filter: Option<AdmittedFilter>,
    pub domain: Option<DomainId>,
    pub group_keys: Option<Vec<String>>,
    pub threshold: ThresholdChange,
}

/// What a [`CollectorEdit`] asks for.
#[verifier::ext_equal]
pub struct CollectorEditView {
    pub name: Seq<char>,
    pub level: Option<CollectorLevel>,
    pub filter: Option<AdmittedFilterView>,
    pub domain: Option<Seq<char>>,
    pub group_keys: Option<Seq<Seq<char>>>,
    pub threshold: ThresholdChangeView,
}

impl View for CollectorEdit {
    type V = CollectorEditView;

    open spec fn view(&self) -> CollectorEditView {
        CollectorEditView {
            name: self.name@,
            level: self.level,
            filter: match self.filter {
                Some(f) => Some(f@),
                None => None,
            },
            domain: match self.domain {
                Some(d) => Some(d@),
                None => None,
            },
            group_keys: optional_texts(self.group_keys),
            threshold: self.threshold@,
        }
    }
}

/// The filter that an edit names. It is admitted on the terms of arming: an edit
/// that skipped a gate could arm what arming refuses.
pub open spec fn edited_filter(params: JsonView, readings: Seq<DurationReadingView>) -> Result<
    Option<AdmittedFilterView>,
    CollectorRefusalView,
> {
    match str_param(params, "filter"@) {
        Err(e) => Err(CollectorRefusalView::Refused(e)),
        Ok(None) => Ok(None),
        Ok(Some(s)) => match collector_filter(s, readings) {
            Ok(f) => Ok(Some(f)),
            Err(e) => Err(e),
        },
    }
}

/// The domain that an edit moves a collector to: one that is there.
pub open spec fn edited_domain(params: JsonView, domains: Map<Seq<char>, Domain>) -> Result<
    Option<Seq<char>>,
    Seq<char>,
> {
    match str_param(params, "domain"@) {
        Err(e) => Err(e),
        Ok(None) => Ok(None),
        Ok(Some(name)) => if !is_name(name) {
            Err("invalid domain name: "@ + name)
        } else if !domains.contains_key(name) {
            Err("domain \""@ + name + "\" does not exist"@)
        } else {
            Ok(Some(name))
        },
    }
}

fn domain_to_move_to(params: &Json, domains: &DomainRegistry) -> (r: Result<Option<DomainId>, String>)
    requires
        domains.wf(),
    ensures
        match r {
            Ok(d) => edited_domain(params@, domains@) == Ok::<Option<Seq<char>>, Seq<char>>(
                match d {
                    Some(d) => Some(d@),
                    None => None,
                },
            ),
            Err(e) => edited_domain(params@, domains@) == Err::<Option<Seq<char>>, Seq<char>>(e@),
        },
{
    let name = match opt_str(params, "domain") {
        Err(e) => return Err(e),
        Ok(None) => return Ok(None),
        Ok(Some(s)) => s,
    };
    let id = match DomainId::new(name) {
        Ok(id) => id,
        Err(e) => return Err(e.to_text()),
    };
    if domains.contains(&id) {
        Ok(Some(id))
    } else {
        Err(text::join3("domain \"", name, "\" does not exist"))
    }
}

/// What a call of `collectors.edit` asks for, without its description and its
/// sample budget.
pub open spec fn edit_request(
    params: JsonView,
    readings: Seq<DurationReadingView>,
    domains: Map<Seq<char>, Domain>,
) -> Result<CollectorEditView, CollectorRefusalView> {
    match required_str(params, "name"@) {
        Err(e) => Err(CollectorRefusalView::Refused(e)),
        Ok(name) => match level_param(params) {
            Err(e) => Err(CollectorRefusalView::Refused(e)),
            Ok(level) => match edited_filter(params, readings) {
                Err(e) => Err(e),
                Ok(filter) => match edited_domain(params, domains) {
                    Err(e) => Err(CollectorRefusalView::Refused(e)),
                    Ok(domain) => match group_keys_param(params) {
                        Err(e) => Err(CollectorRefusalView::Refused(e)),
                        Ok(group_keys) => match threshold_param(params) {
                            Err(e) => Err(CollectorRefusalView::Refused(e)),
                            Ok(threshold) => Ok(
                                CollectorEditView {
                                    name,
                                    level,
                                    filter,
                                    domain,
                                    group_keys,
                                    threshold,
                                },
                            ),
                        },
                    },
                },
            },
        },
    }
}

/// Read a call of `collectors.edit`. What is absent stays as it is; a list of
/// group keys that is there and empty does not.
pub fn collectors_edit(params: &Json, readings: &Vec<DurationReading>, domains: &DomainRegistry) -> (r:
    Result<CollectorEdit, CollectorRefusal>)
    requires
        domains.wf(),
    ensures
        match r {
            Ok(edit) => edit_request(params@, reading_views(readings@), domains@) == Ok::<
                CollectorEditView,
                CollectorRefusalView,
            >(edit@),
            Err(e) => edit_request(params@, reading_views(readings@), domains@) == Err::<
                CollectorEditView,
                CollectorRefusalView,
            >(e@),
        },
{
    let name = match req_str(params, "name") {
        Ok(s) => s,
        Err(e) => return Err(CollectorRefusal::Refused(e)),
    };
    let level = match level_of(params) {
        Ok(l) => l,
        Err(e) => return Err(CollectorRefusal::Refused(e)),
    };
    let filter = match opt_str(params, "filter") {
        Err(e) => return Err(CollectorRefusal::Refused(e)),
        Ok(None) => None,
        Ok(Some(s)) => match admit_collector_filter(s, readings) {
            Ok(f) => Some(f),
            Err(e) => return Err(e),
        },
    };
    let domain = match domain_to_move_to(params, domains) {
        Ok(d) => d,
        Err(e) => return Err(CollectorRefusal::Refused(e)),
    };
    let group_keys = match group_keys_of(params) {
        Ok(k) => k,
        Err(e) => return Err(CollectorRefusal::Refused(e)),
    };
    let threshold = match threshold_of(params) {
        Ok(t) => t,
        Err(e) => return Err(CollectorRefusal::Refused(e)),
    };
    Ok(CollectorEdit { name: text::owned(name), level, filter, domain, group_keys, threshold })
}

/// The group keys that are in force after an edit: those it names, or those of
/// the collector as it is armed. A threshold is held against them, so that a key
/// and a threshold that uses it can come in one call.
pub fn keys_after_edit(edit: &CollectorEdit, armed: &Vec<String>) -> (r: Vec<String>)
    ensures
        text_views(r@) == (match edit@.group_keys {
            Some(keys) => keys,
            None => text_views(armed@),
        }),
{
    match &edit.group_keys {
        Some(keys) => text::clone_texts(keys),
        None => text::clone_texts(armed),
    }
}

/// Whether an edit leaves a collector's definition as it is.
pub open spec fn changes_nothing(edit: CollectorEditView) -> bool {
    &&& edit.level is None
    &&& edit.filter is None
    &&& edit.domain is None
    &&& edit.group_keys is None
    &&& edit.threshold is Keep
}

/// What an edit holds beside what [`collectors_edit`] reads.
#[derive(Debug)]
pub struct EditRest {
    pub description: Option<String>,
    pub max_sample_bytes: Option<usize>,
}

/// The refusal of an edit of nothing.
pub open spec fn nothing_to_edit() -> Seq<char> {
    "nothing to edit: pass at least one of description, filter, level, group_keys, max_sample_bytes, domain or threshold"@
}

/// Read the rest of a call of `collectors.edit`, and refuse one that edits
/// nothing.
pub fn finish_edit(params: &Json, edit: &CollectorEdit) -> (r: Result<EditRest, String>)
    ensures
        match (str_param(params@, "description"@), size_param(params@, "max_sample_bytes"@)) {
            (Err(why), _) => r matches Err(e) && e@ == why,
            (_, Err(why)) => r matches Err(e) && e@ == why,
            (Ok(None), Ok(None)) if changes_nothing(edit@) => r matches Err(e) && e@
                == nothing_to_edit(),
            (Ok(description), Ok(bytes)) => {
                &&& r matches Ok(rest)
                &&& optional_text(rest.description) == description
                &&& bytes == (match rest.max_sample_bytes {
                    Some(n) => Some(n as u64),
                    None => None,
                })
            },
        },
{
    let description = match opt_str(params, "description") {
        Ok(Some(s)) => Some(text::owned(s)),
        Ok(None) => None,
        Err(e) => return Err(e),
    };
    let max_sample_bytes = match opt_usize(params, "max_sample_bytes") {
        Ok(n) => n,
        Err(e) => return Err(e),
    };
    let kept = match &edit.threshold {
        ThresholdChange::Keep => true,
        _ => false,
    };
    if description.is_none() && max_sample_bytes.is_none() && edit.level.is_none()
        && edit.filter.is_none() && edit.domain.is_none() && edit.group_keys.is_none() && kept {
        return Err(
            text::owned(
                "nothing to edit: pass at least one of description, filter, level, group_keys, max_sample_bytes, domain or threshold",
            ),
        );
    }
    Ok(EditRest { description, max_sample_bytes })
}

/// What an edit cost: a change of what is measured discards the live window, and
/// never a recorded run.
pub fn edit_note(zeroed: bool) -> (r: &'static str)
    ensures
        r@ == (if zeroed {
            "the live window was discarded; recorded snapshots are untouched and each keeps the definition it was taken under"@
        } else {
            "nothing was discarded"@
        }),
{
    if zeroed {
        "the live window was discarded; recorded snapshots are untouched and each keeps the definition it was taken under"
    } else {
        "nothing was discarded"
    }
}

/// An edit that names a filter arms nothing that arming a collector refuses.
pub proof fn edits_pass_the_gates_of_arming(
    params: JsonView,
    readings: Seq<DurationReadingView>,
    domains: Map<Seq<char>, Domain>,
    bound: Seq<char>,
    default_sample_bytes: usize,
)
    requires
        edit_request(params, readings, domains) is Ok,
        edit_request(params, readings, domains)->Ok_0.filter is Some,
        is_name(edit_request(params, readings, domains)->Ok_0.name),
        domains.contains_key(bound),
        size_param(params, "max_sample_bytes"@) is Ok,
        str_param(params, "description"@) is Ok,
    ensures
        collector_request(params, false, readings, domains, bound, default_sample_bytes) is Ok,
{
}

/// What a call of `traces.profile` measures.
#[derive(Debug)]
pub struct ProfilePlan {
    pub filter: AdmittedFilter,
    pub group_keys: Vec<String>,
}

/// The filter of a profile: everything, where none is given.
pub open spec fn profile_text(given: Option<Seq<char>>) -> Seq<char> {
    match given {
        Some(s) => s,
        None => "ALL"@,
    }
}

/// What a call of `traces.profile` measures: the spans that are there, by a
/// filter without a cursor, for a profile must be repeatable.
pub open spec fn profile_request(
    params: JsonView,
    readings: Seq<DurationReadingView>,
    seqs: Map<Seq<char>, u64>,
    session: Seq<char>,
) -> Result<(AdmittedFilterView, Seq<Seq<char>>), CollectorRefusalView> {
    match str_param(params, "filter"@) {
        Err(e) => Err(CollectorRefusalView::Refused(e)),
        Ok(given) => match query_filter(Some(profile_text(given)), readings, seqs, session) {
            Err(e) => Err(CollectorRefusalView::Refused(e)),
            Ok(q) => if q.cursor is Some {
                Err(CollectorRefusalView::Refused(no_cursor("traces.profile"@)))
            } else {
                let f = match q.filter {
                    Some(f) => f,
                    None => FilterView::All,
                };
                match admission_of(f) {
                    Err(e) => Err(CollectorRefusalView::NotAdmitted(e)),
                    Ok(warnings) => match group_keys_param(params) {
                        Err(e) => Err(CollectorRefusalView::Refused(e)),
                        Ok(keys) => Ok(
                            (
                                AdmittedFilterView {
                                    text: profile_text(given),
                                    filter: f,
                                    warnings,
                                },
                                texts_or_none(keys),
                            ),
                        ),
                    },
                }
            },
        },
    }
}

/// Read a call of `traces.profile`.
pub fn traces_profile(
    params: &Json,
    readings: &Vec<DurationReading>,
    bookmarks: &mut BookmarkStore,
    session: &str,
) -> (r: Result<ProfilePlan, CollectorRefusal>)
    requires
        old(bookmarks).wf(),
    ensures
        final(bookmarks).wf(),
        match (
            r,
            profile_request(params@, reading_views(readings@), old(bookmarks)@, session@),
        ) {
            (Ok(plan), Ok(asked)) => plan.filter@ == asked.0 && text_views(plan.group_keys@)
                == asked.1,
            (Err(e), Err(why)) => e@ == why,
            _ => false,
        },
        final(bookmarks)@ == (match str_param(params@, "filter"@) {
            Ok(given) => query_seqs(
                Some(profile_text(given)),
                reading_views(readings@),
                old(bookmarks)@,
                session@,
            ),
            Err(_) => old(bookmarks)@,
        }),
{
    let given = match opt_str(params, "filter") {
        Ok(Some(s)) => s,
        Ok(None) => "ALL",
        Err(e) => return Err(CollectorRefusal::Refused(e)),
    };
    let q = match parse_and_resolve_filter(Some(given), readings, bookmarks, session) {
        Ok(q) => q,
        Err(e) => return Err(CollectorRefusal::Refused(e)),
    };
    if q.cursor_commit.is_some() {
        return Err(
            CollectorRefusal::Refused(
                text::join2("cursor qualifier not permitted in ", "traces.profile"),
            ),
        );
    }
    let filter = match q.filter {
        Some(f) => f,
        None => ParsedFilter::All,
    };
    let warnings = match admit_span_filter(&filter) {
        Ok(a) => a.warnings,
        Err(e) => return Err(CollectorRefusal::NotAdmitted(e)),
    };
    let group_keys = match group_keys_of(params) {
        Ok(Some(keys)) => keys,
        Ok(None) => Vec::new(),
        Err(e) => return Err(CollectorRefusal::Refused(e)),
    };
    proof {
        assert(text_views(group_keys@) =~= texts_or_none(group_keys_param(params@)->Ok_0));
    }
    Ok(ProfilePlan { filter: AdmittedFilter { text: text::owned(given), filter, warnings }, group_keys })
}

/// What a snapshot is to record.
#[derive(Debug, PartialEq, Eq)]
pub struct SnapshotRequest {
    pub name: String,
    pub per_name: bool,
    pub per_group: bool,
    pub projections: bool,
    pub label: Option<String>,
    pub description: Option<String>,
    /// The live window is discarded once it has been recorded.
    pub reset: bool,
}

/// What a [`SnapshotRequest`] asks for.
#[verifier::ext_equal]
pub struct SnapshotRequestView {
    pub name: Seq<char>,
    pub per_name: bool,
    pub per_group: bool,
    pub projections: bool,
    pub label: Option<Seq<char>>,
    pub description: Option<Seq<char>>,
    pub reset: bool,
}

impl View for SnapshotRequest {
    type V = SnapshotRequestView;

    open spec fn view(&self) -> SnapshotRequestView {
        SnapshotRequestView {
            name: self.name@,
            per_name: self.per_name,
            per_group: self.per_group,
            projections: self.projections,
            label: optional_text(self.label),
            description: optional_text(self.description),
            reset: self.reset,
        }
    }
}

/// What a call of `collectors.snapshot` asks for. Each flag holds where it is not
/// given. One that discards the live window cannot be read as absent where it is
/// of the wrong type.
pub open spec fn snapshot_request(params: JsonView) -> Result<SnapshotRequestView, Seq<char>> {
    match required_str(params, "name"@) {
        Err(e) => Err(e),
        Ok(name) => match bool_param(params, "per_name"@) {
            Err(e) => Err(e),
            Ok(per_name) => match bool_param(params, "per_group"@) {
                Err(e) => Err(e),
                Ok(per_group) => match bool_param(params, "projections"@) {
                    Err(e) => Err(e),
                    Ok(projections) => match str_param(params, "label"@) {
                        Err(e) => Err(e),
                        Ok(label) => match str_param(params, "description"@) {
                            Err(e) => Err(e),
                            Ok(description) => match bool_param(params, "reset"@) {
                                Err(e) => Err(e),
                                Ok(reset) => Ok(
                                    SnapshotRequestView {
                                        name,
                                        per_name: per_name != Some(false),
                                        per_group: per_group != Some(false),
                                        projections: projections != Some(false),
                                        label,
                                        description,
                                        reset: reset != Some(false),
                                    },
                                ),
                            },
                        },
                    },
                },
            },
        },
    }
}

fn flag_or(params: &Json, key: &str, default: bool) -> (r: Result<bool, String>)
    ensures
        match r {
            Ok(b) => bool_param(params@, key@) is Ok && b == (match bool_param(params@, key@)->Ok_0 {
                Some(given) => given,
                None => default,
            }),
            Err(e) => bool_param(params@, key@) == Err::<Option<bool>, Seq<char>>(e@),
        },
{
    match opt_bool(params, key) {
        Ok(Some(b)) => Ok(b),
        Ok(None) => Ok(default),
        Err(e) => Err(e),
    }
}

pub(crate) fn words_of(params: &Json, key: &str) -> (r: Result<Option<String>, String>)
    ensures
        match r {
            Ok(s) => str_param(params@, key@) == Ok::<Option<Seq<char>>, Seq<char>>(
                optional_text(s),
            ),
            Err(e) => str_param(params@, key@) == Err::<Option<Seq<char>>, Seq<char>>(e@),
        },
{
    match opt_str(params, key) {
        Ok(Some(s)) => Ok(Some(text::owned(s))),
        Ok(None) => Ok(None),
        Err(e) => Err(e),
    }
}

/// Read a call of `collectors.snapshot`.
pub fn collectors_snapshot(params: &Json) -> (r: Result<SnapshotRequest, String>)
    ensures
        match r {
            Ok(q) => snapshot_request(params@) == Ok::<SnapshotRequestView, Seq<char>>(q@),
            Err(e) => snapshot_request(params@) == Err::<SnapshotRequestView, Seq<char>>(e@),
        },
{
    let name = match req_str(params, "name") {
        Ok(s) => s,
        Err(e) => return Err(e),
    };
    let per_name = match flag_or(params, "per_name", true) {
        Ok(b) => b,
        Err(e) => return Err(e),
    };
    let per_group = match flag_or(params, "per_group", true) {
        Ok(b) => b,
        Err(e) => return Err(e),
    };
    let projections = match flag_or(params, "projections", true) {
        Ok(b) => b,
        Err(e) => return Err(e),
    };
    let label = match words_of(params, "label") {
        Ok(s) => s,
        Err(e) => return Err(e),
    };
    let description = match words_of(params, "description") {
        Ok(s) => s,
        Err(e) => return Err(e),
    };
    match flag_or(params, "reset", true) {
        Ok(reset) => Ok(
            SnapshotRequest {
                name: text::owned(name),
                per_name,
                per_group,
                projections,
                label,
                description,
                reset,
            },
        ),
        Err(e) => Err(e),
    }
}

/// What is said with a run that was recorded and could not be written. The run
/// is there; what failed is that it will not outlive the daemon.
pub fn durability_warning(error: &str) -> (r: String)
    ensures
        r@ == "this run is in memory and in the response, but could not be written to disk, so it will not survive a daemon restart: "@
            + error@,
{
    text::join2(
        "this run is in memory and in the response, but could not be written to disk, so it will not survive a daemon restart: ",
        error,
    )
}

/// What a comparison may overlook.
#[derive(Debug, Clone, Copy, PartialEq, Eq, Structural)]
pub struct Allowances {
    pub mismatch: bool,
    pub lossy: bool,
    pub truncated: bool,
}

/// What a comparison may overlook: nothing that it does not name.
pub open spec fn allowances_param(params: JsonView) -> Result<Allowances, Seq<char>> {
    match bool_param(params, "allow_mismatch"@) {
        Err(e) => Err(e),
        Ok(mismatch) => match bool_param(params, "allow_lossy"@) {
            Err(e) => Err(e),
            Ok(lossy) => match bool_param(params, "allow_truncated"@) {
                Err(e) => Err(e),
                Ok(truncated) => Ok(
                    Allowances {
                        mismatch: mismatch == Some(true),
                        lossy: lossy == Some(true),
                        truncated: truncated == Some(true),
                    },
                ),
            },
        },
    }
}

/// Read what a comparison may overlook.
pub fn allowances_of(params: &Json) -> (r: Result<Allowances, String>)
    ensures
        match r {
            Ok(a) => allowances_param(params@) == Ok::<Allowances, Seq<char>>(a),
            Err(e) => allowances_param(params@) == Err::<Allowances, Seq<char>>(e@),
        },
{
    let mismatch = match flag_or(params, "allow_mismatch", false) {
        Ok(b) => b,
        Err(e) => return Err(e),
    };
    let lossy = match flag_or(params, "allow_lossy", false) {
        Ok(b) => b,
        Err(e) => return Err(e),
    };
    match flag_or(params, "allow_truncated", false) {
        Ok(truncated) => Ok(Allowances { mismatch, lossy, truncated }),
        Err(e) => Err(e),
    }
}

/// What is compared or documented.
#[derive(Debug, PartialEq, Eq)]
pub enum ArmSpec {
    /// The live window of a collector.
    Live(String),
    /// Every recorded run of a collector, merged.
    Merged(String),
    /// One recorded run.
    Recorded { collector: String, label: String },
}

/// What an [`ArmSpec`] says.
#[verifier::ext_equal]
pub enum ArmSpecView {
    Live(Seq<char>),
    Merged(Seq<char>),
    Recorded { collector: Seq<char>, label: Seq<char> },
}

impl View for ArmSpec {
    type V = ArmSpecView;

    open spec fn view(&self) -> ArmSpecView {
        match self {
            ArmSpec::Live(name) => ArmSpecView::Live(name@),
            ArmSpec::Merged(name) => ArmSpecView::Merged(name@),
            ArmSpec::Recorded { collector, label } => ArmSpecView::Recorded {
                collector: collector@,
                label: label@,
            },
        }
    }
}

/// The refusal of an arm without a collector.
pub open spec fn nameless_arm(spec_text: Seq<char>) -> Seq<char> {
    "`"@ + spec_text
        + "` names no collector: use `<collector>`, `<collector>@<label>`, or `<collector>@*` for every recorded run merged"@
}

/// What a text names: `<collector>`, `<collector>@<label>` or `<collector>@*`.
pub open spec fn arm_of(s: Seq<char>) -> Result<ArmSpecView, Seq<char>> {
    let at = first_at(s, '@');
    let name = s.take(at);
    if at == 0 {
        Err(nameless_arm(s))
    } else if at >= s.len() {
        Ok(ArmSpecView::Live(s))
    } else if s.skip(at + 1) == "*"@ {
        Ok(ArmSpecView::Merged(name))
    } else {
        Ok(ArmSpecView::Recorded { collector: name, label: s.skip(at + 1) })
    }
}

/// Read what is compared or documented. `*` is no label of a run, so it cannot
/// be taken for one.
pub fn parse_arm(s: &str) -> (r: Result<ArmSpec, String>)
    ensures
        match r {
            Ok(a) => arm_of(s@) == Ok::<ArmSpecView, Seq<char>>(a@),
            Err(e) => arm_of(s@) == Err::<ArmSpecView, Seq<char>>(e@),
        },
{
    let chars = text::chars_of(s);
    let at: usize = text::find_first(&chars, '@');
    if at == 0 {
        return Err(
            text::join3(
                "`",
                s,
                "` names no collector: use `<collector>`, `<collector>@<label>`, or `<collector>@*` for every recorded run merged",
            ),
        );
    }
    if at == chars.len() {
        return Ok(ArmSpec::Live(text::owned(s)));
    }
    let name = text::text_between(&chars, 0, at);
    let label = text::text_between(&chars, at + 1, chars.len());
    proof {
        assert(name@ =~= s@.take(at as int));
        assert(label@ =~= s@.skip(at + 1));
    }
    if text::same(&label, "*") {
        Ok(ArmSpec::Merged(name))
    } else {
        Ok(ArmSpec::Recorded { collector: name, label })
    }
}

/// The refusal of a collector that a session does not have.
pub open spec fn absent_collector_text(name: Seq<char>) -> Seq<char> {
    "no collector named `"@ + name + "` in this session"@
}

/// The refusal of a collector that a session does not have.
pub fn absent_collector(name: &str) -> (r: String)
    ensures
        r@ == absent_collector_text(name@),
{
    text::join3("no collector named `", name, "` in this session")
}

/// The refusal of merging the runs of a collector that has recorded none.
pub open spec fn nothing_to_merge(name: Seq<char>) -> Seq<char> {
    "collector `"@ + name
        + "` has no recorded runs to merge. Take one with collectors.snapshot, or name the live window as `"@
        + name + "`"@
}

/// What an arm that reads as such comes to, given whether its collector is armed and
/// how many runs of it are recorded: a live window needs the one, a merge the other.
pub open spec fn arm_refusal(arm: ArmSpecView, armed: bool, runs: nat) -> Option<Seq<char>> {
    match arm {
        ArmSpecView::Live(name) => if armed {
            None
        } else {
            Some(absent_collector_text(name))
        },
        ArmSpecView::Merged(name) => if runs > 0 {
            None
        } else {
            Some(nothing_to_merge(name))
        },
        ArmSpecView::Recorded { .. } => None,
    }
}

/// Whether there is something behind an arm.
pub fn resolve_arm(arm: &ArmSpec, armed: bool, runs: usize) -> (r: Result<(), String>)
    ensures
        match r {
            Ok(()) => arm_refusal(arm@, armed, runs as nat) is None,
            Err(e) => arm_refusal(arm@, armed, runs as nat) == Some(e@),
        },
{
    match arm {
        ArmSpec::Live(name) => if armed {
            Ok(())
        } else {
            Err(absent_collector(name))
        },
        ArmSpec::Merged(name) => if runs > 0 {
            Ok(())
        } else {
            let mut e = text::join3(
                "collector `",
                name,
                "` has no recorded runs to merge. Take one with collectors.snapshot, or name the live window as `",
            );
            e.append(name);
            e.append("`");
            Err(e)
        },
        ArmSpec::Recorded { .. } => Ok(()),
    }
}

/// The most arms of one document: each is resolved and held at once.
pub const MAX_ARMS: usize = 8;

/// The arms of a document.
pub open spec fn document_arms(params: JsonView) -> Result<Seq<Seq<char>>, Seq<char>> {
    match str_array_param(params, "names"@) {
        Err(e) => Err(e),
        Ok(names) => {
            let names = texts_or_none(names);
            if names.len() == 0 {
                Err(
                    "missing required parameter: names — the arms to document, first one the baseline. An arm is `<collector>`, `<collector>@<label>`, or `<collector>@*` for every recorded run merged"@,
                )
            } else if names.len() > MAX_ARMS {
                Err(
                    "too many arms ("@ + decimal_text(names.len()) + " > "@ + decimal_text(
                        MAX_ARMS as nat,
                    )
                        + "): every arm is resolved and held at once, and a document comparing more than a handful against one baseline is not a table anyone reads. Document them in groups"@,
                )
            } else {
                Ok(names)
            }
        },
    }
}

/// Read the arms of a document. More than can be held are refused with their
/// number rather than cut.
pub fn arms_of_document(params: &Json) -> (r: Result<Vec<String>, String>)
    ensures
        match r {
            Ok(names) => document_arms(params@) == Ok::<Seq<Seq<char>>, Seq<char>>(
                text_views(names@),
            ),
            Err(e) => document_arms(params@) == Err::<Seq<Seq<char>>, Seq<char>>(e@),
        },
{
    let names = match opt_str_array(params, "names") {
        Ok(Some(names)) => names,
        Ok(None) => Vec::new(),
        Err(e) => return Err(e),
    };
    proof {
        assert(text_views(names@) =~= texts_or_none(str_array_param(params@, "names"@)->Ok_0));
    }
    let n: usize = names.len();
    if n == 0 {
        return Err(
            text::owned(
                "missing required parameter: names — the arms to document, first one the baseline. An arm is `<collector>`, `<collector>@<label>`, or `<collector>@*` for every recorded run merged",
            ),
        );
    }
    if n > MAX_ARMS {
        let head = text::join3("too many arms (", &text::decimal(n as u64), " > ");
        return Err(
            text::join3(
                &head,
                &text::decimal(MAX_ARMS as u64),
                "): every arm is resolved and held at once, and a document comparing more than a handful against one baseline is not a table anyone reads. Document them in groups",
            ),
        );
    }
    Ok(names)
}

/// How many of the oldest runs a history leaves out: a limit keeps the newest.
pub fn runs_left_out(runs: usize, limit: Option<usize>) -> (r: usize)
    ensures
        r == (match limit {
            Some(n) => if runs > n {
                runs - n
            } else {
                0
            },
            None => 0,
        }),
{
    match limit {
        Some(n) => if runs > n {
            runs - n
        } else {
            0
        },
        None => 0,
    }
}

/// What a grouped read groups by.
#[derive(Debug, Clone, Copy, PartialEq, Eq, Structural)]
pub enum Grouping {
    Ungrouped,
    Name,
    Group,
    Path,
    Trace,
}

impl Grouping {
    /// The grouping that a name stands for. The empty name is `none`.
    pub open spec fn of_name(s: Seq<char>) -> Option<Grouping> {
        if s == "none"@ || s.len() == 0 {
            Some(Grouping::Ungrouped)
        } else if s == "name"@ {
            Some(Grouping::Name)
        } else if s == "group"@ {
            Some(Grouping::Group)
        } else if s == "path"@ {
            Some(Grouping::Path)
        } else if s == "trace"@ {
            Some(Grouping::Trace)
        } else {
            None
        }
    }

    pub fn parse(s: &str) -> (r: Option<Self>)
        ensures
            r == Grouping::of_name(s@),
    {
        if text::same(s, "none") || s.is_empty() {
            Some(Grouping::Ungrouped)
        } else if text::same(s, "name") {
            Some(Grouping::Name)
        } else if text::same(s, "group") {
            Some(Grouping::Group)
        } else if text::same(s, "path") {
            Some(Grouping::Path)
        } else if text::same(s, "trace") {
            Some(Grouping::Trace)
        } else {
            None
        }
    }

    /// Runs can be compared by what a recorded run retains. Its traces and paths
    /// are projected from per-span records, which it does not.
    pub open spec fn is_compared(self) -> bool {
        self == Grouping::Ungrouped || self == Grouping::Name || self == Grouping::Group
    }

    pub fn compares(&self) -> (r: bool)
        ensures
            r == self.is_compared(),
    {
        match self {
            Grouping::Ungrouped | Grouping::Name | Grouping::Group => true,
            Grouping::Path | Grouping::Trace => false,
        }
    }
}

/// The grouping that a read asks for.
pub open spec fn read_grouping(params: JsonView) -> Result<Grouping, Seq<char>> {
    match str_param(params, "group_by"@) {
        Err(e) => Err(e),
        Ok(None) => Ok(Grouping::Ungrouped),
        Ok(Some(s)) => match Grouping::of_name(s) {
            Some(g) => Ok(g),
            None => Err(
                "unknown group_by `"@ + s + "`: expected `none`, `name`, `group`, `path` or `trace`"@,
            ),
        },
    }
}

/// Read the grouping that a read asks for. A recorded run and a live one refuse
/// the same names.
pub fn grouping_of(params: &Json) -> (r: Result<Grouping, String>)
    ensures
        match r {
            Ok(g) => read_grouping(params@) == Ok::<Grouping, Seq<char>>(g),
            Err(e) => read_grouping(params@) == Err::<Grouping, Seq<char>>(e@),
        },
{
    match opt_str(params, "group_by") {
        Err(e) => Err(e),
        Ok(None) => Ok(Grouping::Ungrouped),
        Ok(Some(s)) => match Grouping::parse(s) {
            Some(g) => Ok(g),
            None => Err(
                text::join3(
                    "unknown group_by `",
                    s,
                    "`: expected `none`, `name`, `group`, `path` or `trace`",
                ),
            ),
        },
    }
}

/// What is known of the nesting of a recorded run's spans.
pub open spec fn nesting_word(level: CollectorLevel, nested_matches: Option<u64>) -> Seq<char> {
    match nested_matches {
        Some(n) => if level != CollectorLevel::Tree {
            "unknown"@
        } else if n > 0 {
            "detected"@
        } else {
            "undetected"@
        },
        None => "unknown"@,
    }
}

/// What is known of the nesting of a recorded run's spans. `nested_matches` is
/// there where the run stored a projection. Without one, or at a level that does
/// not know a span's parent, the question was not asked, and calling it
/// undetected would let a reader infer a flat call structure.
pub fn nesting(level: CollectorLevel, nested_matches: Option<u64>) -> (r: &'static str)
    ensures
        r@ == nesting_word(level, nested_matches),
{
    match nested_matches {
        Some(n) => match level {
            CollectorLevel::Tree => if n > 0 {
                "detected"
            } else {
                "undetected"
            },
            _ => "unknown",
        },
        None => "unknown",
    }
}

/// Something that a read could not honour.
#[derive(Debug, PartialEq, Eq)]
pub struct Suppressed {
    pub field: &'static str,
    pub reason: &'static str,
    pub remedy: &'static str,
}

/// What a [`Suppressed`] says.
#[verifier::ext_equal]
pub struct SuppressedView {
    pub field: Seq<char>,
    pub reason: Seq<char>,
    pub remedy: Seq<char>,
}

impl View for Suppressed {
    type V = SuppressedView;

    open spec fn view(&self) -> SuppressedView {
        SuppressedView { field: self.field@, reason: self.reason@, remedy: self.remedy@ }
    }
}

/// The views of a list.
pub open spec fn suppressed_views(s: Seq<Suppressed>) -> Seq<SuppressedView> {
    Seq::new(s.len(), |i: int| s[i]@)
}

/// What a run without projections lacks.
pub open spec fn lacks_samples() -> SuppressedView {
    SuppressedView {
        field: "sampled"@,
        reason: "this snapshot was recorded with projections disabled, and the samples it would have been projected from are not retained"@,
        remedy: "take the next snapshot with projections: true"@,
    }
}

/// Why a recorded run keeps its warm-up.
pub open spec fn keeps_warmup() -> SuppressedView {
    SuppressedView {
        field: "excluded_by_warmup"@,
        reason: "skip_warmup_ms cannot apply to a recorded run: the projection was computed when the snapshot was taken, and the per-span records it was computed from are not retained. These numbers cover the whole recorded window, warm-up included"@,
        remedy: "pass skip_warmup_ms on a live read, or reset the collector after warm-up so the next snapshot records a clean window"@,
    }
}

/// What is to be done where a recorded run cannot be grouped.
pub open spec fn grouping_remedy(group_by: Grouping) -> Seq<char> {
    match group_by {
        Grouping::Path =>
            "this run's top call paths ARE stored: read them with collectors.document, or group a live window by `path`"@,
        Grouping::Name | Grouping::Group =>
            "group a live window before snapshotting -- a recorded run keeps its headline tiers and projections, not a grouping this path can project"@,
        _ =>
            "group a live window before snapshotting -- per-trace rows are projected from per-span records, which a snapshot does not keep"@,
    }
}

/// Why a recorded run is not grouped.
pub open spec fn lacks_groups(group_by: Grouping) -> SuppressedView {
    SuppressedView {
        field: "groups"@,
        reason: "a recorded run is served from what it stored, and this read path projects no grouping from it"@,
        remedy: grouping_remedy(group_by),
    }
}

/// What merged runs lack.
pub open spec fn lacks_merged_samples() -> SuppressedView {
    SuppressedView {
        field: "merged.sampled"@,
        reason: "sample-derived figures do not merge — self time and a wall-clock union across separate runs are not a self time and not a union"@,
        remedy: "read the per-snapshot `sampled` blocks, or compare two runs directly rather than merging them"@,
    }
}

/// What merged runs lack. It is said of every merge: whoever merges runs looks
/// for a total, and self time summed over runs would be a number without meaning.
pub fn suppressed_by_merging() -> (r: Suppressed)
    ensures
        r@ == lacks_merged_samples(),
{
    Suppressed {
        field: "merged.sampled",
        reason: "sample-derived figures do not merge — self time and a wall-clock union across separate runs are not a self time and not a union",
        remedy: "read the per-snapshot `sampled` blocks, or compare two runs directly rather than merging them",
    }
}

/// What the read of a recorded run could not honour.
pub open spec fn unhonoured(
    level: CollectorLevel,
    has_projections: bool,
    skips_warmup: bool,
    group_by: Grouping,
) -> Seq<SuppressedView> {
    let samples = if !has_projections && level.samples() {
        seq![lacks_samples()]
    } else {
        seq![]
    };
    let warmup = if skips_warmup {
        seq![keeps_warmup()]
    } else {
        seq![]
    };
    let groups = if group_by != Grouping::Ungrouped {
        seq![lacks_groups(group_by)]
    } else {
        seq![]
    };
    samples + warmup + groups
}

/// What the read of a recorded run could not honour. The run is served from what
/// it stored, so whatever shapes a read comes too late; handing back numbers that
/// ignored it, and not saying so, is what this list is for.
pub fn suppressed_by_recording(
    level: CollectorLevel,
    has_projections: bool,
    skips_warmup: bool,
    group_by: Grouping,
) -> (r: Vec<Suppressed>)
    ensures
        suppressed_views(r@) == unhonoured(level, has_projections, skips_warmup, group_by),
{
    let mut out: Vec<Suppressed> = Vec::new();
    let sampled = match level {
        CollectorLevel::Scalar => false,
        _ => true,
    };
    if !has_projections && sampled {
        out.push(
            Suppressed {
                field: "sampled",
                reason: "this snapshot was recorded with projections disabled, and the samples it would have been projected from are not retained",
                remedy: "take the next snapshot with projections: true",
            },
        );
    }
    if skips_warmup {
        out.push(
            Suppressed {
                field: "excluded_by_warmup",
                reason: "skip_warmup_ms cannot apply to a recorded run: the projection was computed when the snapshot was taken, and the per-span records it was computed from are not retained. These numbers cover the whole recorded window, warm-up included",
                remedy: "pass skip_warmup_ms on a live read, or reset the collector after warm-up so the next snapshot records a clean window",
            },
        );
    }
    let remedy: Option<&'static str> = match group_by {
        Grouping::Ungrouped => None,
        Grouping::Path => Some(
            "this run's top call paths ARE stored: read them with collectors.document, or group a live window by `path`",
        ),
        Grouping::Name | Grouping::Group => Some(
            "group a live window before snapshotting -- a recorded run keeps its headline tiers and projections, not a grouping this path can project",
        ),
        Grouping::Trace => Some(
            "group a live window before snapshotting -- per-trace rows are projected from per-span records, which a snapshot does not keep",
        ),
    };
    if let Some(remedy) = remedy {
        out.push(
            Suppressed {
                field: "groups",
                reason: "a recorded run is served from what it stored, and this read path projects no grouping from it",
                remedy,
            },
        );
    }
    proof {
        assert(suppressed_views(out@) =~= unhonoured(
            level,
            has_projections,
            skips_warmup,
            group_by,
        ));
    }
    out
}

/// A read of a recorded run says of every option that it could not
/// honour that it did not, and of nothing that was not asked for.
pub proof fn recordings_say_what_they_ignore(
    level: CollectorLevel,
    has_projections: bool,
    skips_warmup: bool,
    group_by: Grouping,
)
    ensures
        unhonoured(level, has_projections, skips_warmup, group_by).contains(keeps_warmup())
            == skips_warmup,
        unhonoured(level, has_projections, skips_warmup, group_by).contains(lacks_groups(group_by))
            == (group_by != Grouping::Ungrouped),
{
    reveal_strlit("sampled");
    reveal_strlit("excluded_by_warmup");
    reveal_strlit("groups");
    assert(lacks_samples().field.len() == 7);
    assert(keeps_warmup().field.len() == 18);
    assert(lacks_groups(group_by).field.len() == 6);
    let all = unhonoured(level, has_projections, skips_warmup, group_by);
    let first = if !has_projections && level.samples() {
        1int
    } else {
        0
    };
    if skips_warmup {
        assert(all[first] == keeps_warmup());
    }
    if group_by != Grouping::Ungrouped {
        assert(all[all.len() - 1] == lacks_groups(group_by));
    }
}

/// What a collector's owner is told where its domain is gone.
pub const ORPHAN_NOTE: &'static str =
    "the pinned domain no longer exists, so this collector can never match another span. Ephemeral domains are not re-created at boot, so this is the normal outcome of a restart for a collector armed on one. Re-pin it with collectors.edit, or remove it.";

/// The note on a collector whose domain is gone. Whether it is, is asked when a
/// collector is listed: when it is restored, no domain is there yet.
pub fn orphan_note(domains: &DomainRegistry, pinned: &DomainId) -> (r: Option<&'static str>)
    requires
        domains.wf(),
    ensures
        optional_str(r) == (if domains@.contains_key(pinned@) {
            None
        } else {
            Some(ORPHAN_NOTE@)
        }),
{
    if domains.contains(pinned) {
        None
    } else {
        Some(ORPHAN_NOTE)
    }
}

/// What the loss of spans in a collector's window is told from.
#[derive(Debug, Clone, Copy, PartialEq, Eq, Structural)]
pub enum IngestBasis {
    /// The domain is the one that the collector was armed on.
    Same { baseline: TraceIngestLoss, current: TraceIngestLoss },
    /// It is gone, or another one of that name: its counters say nothing of the
    /// window.
    Unavailable,
}

/// What the loss in a collector's window is told from. `same` says whether the
/// counters of the domain are those that the collector was armed on.
pub fn ingest_basis(
    domains: &DomainRegistry,
    pinned: &DomainId,
    same: bool,
    baseline: TraceIngestLoss,
) -> (r: IngestBasis)
    requires
        domains.wf(),
    ensures
        r == (if domains@.contains_key(pinned@) && same {
            IngestBasis::Same { baseline, current: domains@[pinned@].metrics@.trace_loss() }
        } else {
            IngestBasis::Unavailable
        }),
{
    match domains.get(pinned) {
        Some(d) => if same {
            IngestBasis::Same { baseline, current: d.metrics.trace_ingest_loss() }
        } else {
            IngestBasis::Unavailable
        },
        None => IngestBasis::Unavailable,
    }
}

/// The loss in a window, where it can be told. That it cannot is not the same as
/// no loss.
pub fn window_loss(basis: IngestBasis) -> (r: Option<TraceIngestLoss>)
    ensures
        r == (match basis {
            IngestBasis::Same { baseline, current } => Some(current.delta(baseline)),
            IngestBasis::Unavailable => None,
        }),
{
    match basis {
        IngestBasis::Same { baseline, current } => Some(current.since(baseline)),
        IngestBasis::Unavailable => None,
    }
}

/// The levels go by their names, and `scalar` alone keeps no samples.
pub proof fn levels_go_by_their_names(params: JsonView)
    ensures
        CollectorLevel::Scalar.word() == "scalar"@,
        CollectorLevel::Timing.word() == "timing"@,
        CollectorLevel::Tree.word() == "tree"@,
        !CollectorLevel::Scalar.samples(),
        CollectorLevel::Timing.samples(),
        CollectorLevel::Tree.samples(),
        params.get("level"@) is None ==> level_param(params) == Ok::<
            Option<CollectorLevel>,
            Seq<char>,
        >(None),
        params.get("level"@) matches Some(JsonView::Text(s)) ==> {
            &&& level_param(params) matches Ok(l) ==> l matches Some(level) && level.word() == s
            &&& s == "scalar"@ || s == "timing"@ || s == "tree"@ ==> level_param(params) is Ok
        },
{
    reveal_strlit("scalar");
    reveal_strlit("timing");
    reveal_strlit("tree");
}

/// A collector is armed as its call says, for a named session, on a filter that was
/// admitted: at level `tree` and with the usual allowance for samples where it says nothing.
pub proof fn collectors_are_armed_as_asked(
    params: JsonView,
    anonymous: bool,
    readings: Seq<DurationReadingView>,
    domains: Map<Seq<char>, Domain>,
    bound: Seq<char>,
    default_sample_bytes: usize,
)
    requires
        collector_request(params, anonymous, readings, domains, bound, default_sample_bytes) is Ok,
    ensures
        ({
            let p = collector_request(
                params,
                anonymous,
                readings,
                domains,
                bound,
                default_sample_bytes,
            )->Ok_0;
            &&& !anonymous
            &&& domains.contains_key(bound)
            &&& is_name(p.name)
            &&& params.get("name"@) == Some(JsonView::Text(p.name))
            &&& params.get("filter"@) == Some(JsonView::Text(p.filter.text))
            &&& filter_of(p.filter.text, readings) is Ok
            &&& p.filter.filter == filter_of(p.filter.text, readings)->Ok_0
            &&& admission_of(p.filter.filter) is Ok
            &&& p.filter.warnings == admission_of(p.filter.filter)->Ok_0
            &&& params.get("level"@) is None ==> p.level == CollectorLevel::Tree
            &&& params.text_at("level"@) matches Some(s) ==> p.level.word() == s
            &&& params.get("group_keys"@) is None ==> p.group_keys.len() == 0
            &&& str_array_param(params, "group_keys"@) matches Ok(Some(keys)) ==> p.group_keys
                == keys
            &&& params.u64_at("max_sample_bytes"@) matches Some(n) ==> p.max_sample_bytes == n
            &&& params.get("max_sample_bytes"@) is None ==> p.max_sample_bytes
                == default_sample_bytes
            &&& threshold_param(params) == Ok::<ThresholdChangeView, Seq<char>>(p.threshold)
            &&& p.description == params.text_at("description"@)
        }),
{
    levels_go_by_their_names(params);
}

/// An edit changes what its call names and leaves the rest.
pub proof fn collectors_are_edited_as_asked(
    params: JsonView,
    readings: Seq<DurationReadingView>,
    domains: Map<Seq<char>, Domain>,
)
    requires
        edit_request(params, readings, domains) is Ok,
    ensures
        ({
            let e = edit_request(params, readings, domains)->Ok_0;
            &&& params.get("name"@) == Some(JsonView::Text(e.name))
            &&& params.get("level"@) is None ==> e.level is None
            &&& params.text_at("level"@) matches Some(s) ==> e.level matches Some(l) && l.word()
                == s
            &&& params.get("filter"@) is None ==> e.filter is None
            &&& params.text_at("filter"@) matches Some(s) ==> e.filter matches Some(f) && f.text == s
                && admission_of(f.filter) is Ok
            &&& params.get("domain"@) is None ==> e.domain is None
            &&& params.text_at("domain"@) matches Some(s) ==> e.domain == Some(s)
                && domains.contains_key(s)
            &&& params.get("group_keys"@) is None ==> e.group_keys is None
            &&& params.get("threshold"@) is None ==> e.threshold is Keep
            &&& params.get("threshold"@) == Some(JsonView::Null) ==> e.threshold is Clear
            &&& changes_nothing(e) <==> e.level is None && e.filter is None && e.domain is None
                && e.group_keys is None && e.threshold is Keep
        }),
{
    levels_go_by_their_names(params);
}

/// A profile is taken of the spans that its filter admits, and of all where none is given.
pub proof fn profiles_are_taken_as_asked(
    params: JsonView,
    readings: Seq<DurationReadingView>,
    seqs: Map<Seq<char>, u64>,
    session: Seq<char>,
)
    requires
        profile_request(params, readings, seqs, session) is Ok,
    ensures
        ({
            let (filter, keys) = profile_request(params, readings, seqs, session)->Ok_0;
            &&& params.text_at("filter"@) matches Some(s) ==> filter.text == s
            &&& params.get("filter"@) is None ==> filter.text == "ALL"@
            &&& admission_of(filter.filter) is Ok
            &&& query_filter(Some(filter.text), readings, seqs, session) matches Ok(q)
            &&& q.cursor is None
            &&& q.filter matches Some(f) ==> filter.filter == f
            &&& str_array_param(params, "group_keys"@) matches Ok(Some(k)) ==> keys == k
        }),
{
}

/// A snapshot holds everything and resets its collector unless its call says otherwise.
pub proof fn snapshots_are_taken_as_asked(params: JsonView)
    requires
        snapshot_request(params) is Ok,
    ensures
        ({
            let s = snapshot_request(params)->Ok_0;
            &&& params.get("name"@) == Some(JsonView::Text(s.name))
            &&& s.per_name <==> params.get("per_name"@) != Some(JsonView::Bool(false))
            &&& s.per_group <==> params.get("per_group"@) != Some(JsonView::Bool(false))
            &&& s.projections <==> params.get("projections"@) != Some(JsonView::Bool(false))
            &&& s.reset <==> params.get("reset"@) != Some(JsonView::Bool(false))
            &&& s.label == params.text_at("label"@)
            &&& s.description == params.text_at("description"@)
        }),
{
}

/// An arm is a live collector, one recorded run of it, or all of them: what stands behind
/// the first `@` is the run, and `*` stands for all.
pub proof fn arms_are_read_as_written(name: Seq<char>, label: Seq<char>)
    requires
        !name.contains('@'),
    ensures
        name.len() > 0 ==> {
            &&& arm_of(name) == Ok::<ArmSpecView, Seq<char>>(ArmSpecView::Live(name))
            &&& arm_of(name + "@*"@) == Ok::<ArmSpecView, Seq<char>>(ArmSpecView::Merged(name))
            &&& label != "*"@ ==> arm_of(name + "@"@ + label) == Ok::<ArmSpecView, Seq<char>>(
                ArmSpecView::Recorded { collector: name, label },
            )
        },
        arm_of("@"@ + label) is Err,
{
    reveal_strlit("@");
    reveal_strlit("*");
    reveal_strlit("@*");
    let starred = name + "@*"@;
    let run = name + "@"@ + label;
    text::first_and_last_places(name, '@');
    text::first_and_last_places(starred, '@');
    text::first_and_last_places(run, '@');
    text::first_and_last_places("@"@ + label, '@');
    let n = name.len() as int;
    assert(starred[n] == '@');
    assert(run[n] == '@');
    assert forall|i: int| 0 <= i < n implies #[trigger] name[i] != '@' && starred[i] != '@' && run[i]
        != '@' by {
        assert(name.contains(name[i]));
    }
    if first_at(starred, '@') < n {
        assert(name[first_at(starred, '@')] != '@');
    }
    if first_at(run, '@') < n {
        assert(name[first_at(run, '@')] != '@');
    }
    if first_at(name, '@') < n {
        assert(name[first_at(name, '@')] != '@');
    }
    assert(first_at(starred, '@') == n);
    assert(first_at(run, '@') == n);
    assert(starred.take(n) =~= name);
    assert(run.take(n) =~= name);
    assert(starred.skip(n + 1) =~= "*"@);
    assert(run.skip(n + 1) =~= label);
    assert(("@"@ + label)[0] == '@');
}

/// A live arm needs an armed collector, a merged one at least one run.
pub proof fn arms_need_what_they_name(name: Seq<char>, armed: bool, runs: nat)
    ensures
        arm_refusal(ArmSpecView::Live(name), armed, runs) is None <==> armed,
        arm_refusal(ArmSpecView::Merged(name), armed, runs) is None <==> runs > 0,
{
}

/// A document has from one to eight arms, those that its call lists, in their order.
pub proof fn documents_have_few_arms(params: JsonView)
    ensures
        document_arms(params) matches Ok(names) ==> {
            &&& 1 <= names.len() <= 8
            &&& str_array_param(params, "names"@) == Ok::<Option<Seq<Seq<char>>>, Seq<char>>(
                Some(names),
            )
        },
        str_array_param(params, "names"@) matches Ok(Some(names)) ==> (document_arms(params) is Ok
            <==> 1 <= names.len() <= 8),
{
}

/// The groupings go by their names.
pub proof fn groupings_go_by_their_names(params: JsonView)
    ensures
        Grouping::of_name("none"@) == Some(Grouping::Ungrouped),
        Grouping::of_name(seq![]) == Some(Grouping::Ungrouped),
        Grouping::of_name("name"@) == Some(Grouping::Name),
        Grouping::of_name("group"@) == Some(Grouping::Group),
        Grouping::of_name("path"@) == Some(Grouping::Path),
        Grouping::of_name("trace"@) == Some(Grouping::Trace),
        params.get("group_by"@) is None ==> read_grouping(params) == Ok::<Grouping, Seq<char>>(
            Grouping::Ungrouped,
        ),
        params.text_at("group_by"@) matches Some(s) ==> {
            &&& Grouping::of_name(s) matches Some(g) ==> read_grouping(params) == Ok::<
                Grouping,
                Seq<char>,
            >(g)
            &&& Grouping::of_name(s) is None ==> read_grouping(params) is Err
        },
{
    reveal_strlit("none");
    reveal_strlit("name");
    reveal_strlit("group");
    reveal_strlit("path");
    reveal_strlit("trace");
    assert("none"@[1] == 'o' && "name"@[1] == 'a' && "path"@[0] == 'p' && "name"@[0] == 'n' && "none"@[0]
        == 'n' && "trace"@[0] == 't' && "group"@[0] == 'g');
    assert("none"@.len() == 4 && "name"@.len() == 4 && "path"@.len() == 4 && "trace"@.len() == 5
        && "group"@.len() == 5);
}

/// Whether matches nest is known at level `tree` alone, and where they were counted.
pub proof fn nesting_is_known_of_trees(n: u64)
    ensures
        nesting_word(CollectorLevel::Tree, Some(n)) == (if n > 0 {
            "detected"@
        } else {
            "undetected"@
        }),
        nesting_word(CollectorLevel::Timing, Some(n)) == "unknown"@,
        nesting_word(CollectorLevel::Scalar, Some(n)) == "unknown"@,
        nesting_word(CollectorLevel::Tree, None) == "unknown"@,
{
}

/// A recorded run says that it has no samples exactly where it should have had some.
pub proof fn recordings_say_what_they_lack(
    level: CollectorLevel,
    has_projections: bool,
    skips_warmup: bool,
    group_by: Grouping,
)
    ensures
        ({
            let said = unhonoured(level, has_projections, skips_warmup, group_by);
            &&& (exists|i: int| 0 <= i < said.len() && (#[trigger] said[i]).field == "sampled"@)
                <==> !has_projections && level != CollectorLevel::Scalar
            &&& (exists|i: int| 0 <= i < said.len() && (#[trigger] said[i]).field == "groups"@)
                <==> group_by != Grouping::Ungrouped
            &&& (exists|i: int|
                0 <= i < said.len() && (#[trigger] said[i]).field == "excluded_by_warmup"@)
                <==> skips_warmup
        }),
{
    reveal_strlit("sampled");
    reveal_strlit("groups");
    reveal_strlit("excluded_by_warmup");
    assert("sampled"@.len() == 7 && "groups"@.len() == 6 && "excluded_by_warmup"@.len() == 18);
    let said = unhonoured(level, has_projections, skips_warmup, group_by);
    let a = if !has_projections && level.samples() {
        1int
    } else {
        0
    };
    let b = if skips_warmup {
        a + 1
    } else {
        a
    };
    if !has_projections && level.samples() {
        assert(said[0] == lacks_samples());
    }
    if skips_warmup {
        assert(said[a] == keeps_warmup());
    }
    if group_by != Grouping::Ungrouped {
        assert(said[b] == lacks_groups(group_by));
    }
}

/// A limit leaves out the runs beyond it.
pub proof fn limits_leave_out_the_rest(runs: usize, limit: Option<usize>, r: usize)
    requires
        call_ensures(runs_left_out, (runs, limit), r),
    ensures
        limit is None ==> r == 0,
        limit matches Some(n) ==> (n >= runs ==> r == 0) && (n < runs ==> r + n == runs),
{
}

/// An edit that names group keys puts them in the place of those that were there.
pub proof fn edited_keys_replace_the_old(
    edit: CollectorEdit,
    armed: Vec<String>,
    r: Vec<String>,
)
    requires
        call_ensures(keys_after_edit, (&edit, &armed), r),
    ensures
        edit.group_keys matches Some(keys) ==> text_views(r@) == text_views(keys@),
        edit.group_keys is None ==> text_views(r@) == text_views(armed@),
{
}

} // verus!
