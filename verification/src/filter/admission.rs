//! Filter admission for span collectors.
//!
//! The rule is narrow and two-sided: **block only what provably cannot match,
//! and mark everything else that is likely to surprise.** A blocking check that
//! rejects valid input gets disabled or routed around, and then it protects
//! nothing.
use crate::filter::parser::{
    has_span_qualifier, is_span_qualifier_view, qualifier_views, DurationMs, DurationOp, FilterView,
    ParsedFilter, Qualifier, QualifierView, Selector, SelectorView,
};
use crate::text;
use vstd::prelude::*;

verus! {

broadcast use vstd::string::group_string_axioms;

/// The bit pattern of a positive infinite double.
pub const INFINITE_BITS: u64 = 0x7ff0_0000_0000_0000;

/// The sign bit of a double.
pub const SIGN_BIT: u64 = 0x8000_0000_0000_0000;

impl DurationMs {
    /// The bits without the sign.
    pub open spec fn magnitude(self) -> int {
        if self.bits < SIGN_BIT {
            self.bits as int
        } else {
            self.bits - SIGN_BIT
        }
    }

    /// Whether the threshold is not a number.
    pub open spec fn nan(self) -> bool {
        self.magnitude() > INFINITE_BITS
    }

    pub open spec fn infinite(self) -> bool {
        self.magnitude() == INFINITE_BITS
    }

    pub open spec fn positive(self) -> bool {
        self.bits < SIGN_BIT
    }

    /// The place of a number in the order of numbers: both zeros at nought, and
    /// the negative numbers mirrored below it.
    pub open spec fn place(self) -> int {
        if self.positive() {
            self.magnitude()
        } else {
            -self.magnitude()
        }
    }

    pub fn is_nan(&self) -> (r: bool)
        ensures
            r == self.nan(),
    {
        self.bits % SIGN_BIT > INFINITE_BITS
    }

    pub fn is_infinite(&self) -> (r: bool)
        ensures
            r == self.infinite(),
    {
        self.bits % SIGN_BIT == INFINITE_BITS
    }

    pub fn is_sign_positive(&self) -> (r: bool)
        ensures
            r == self.positive(),
    {
        self.bits < SIGN_BIT
    }

    /// Whether this number is greater than `other`.
    pub fn above(&self, other: &DurationMs) -> (r: bool)
        requires
            !self.nan(),
            !other.nan(),
        ensures
            r == (self.place() > other.place()),
    {
        let a: u64 = self.bits % SIGN_BIT;
        let b: u64 = other.bits % SIGN_BIT;
        if self.is_sign_positive() {
            if other.is_sign_positive() {
                a > b
            } else {
                a > 0 || b > 0
            }
        } else if other.is_sign_positive() {
            false
        } else {
            a < b
        }
    }
}

/// Why a filter cannot be accepted. Every variant is *provable* from the
/// parsed filter alone: nothing here is a heuristic.
#[derive(Debug, PartialEq, Eq)]
pub enum AdmissionError {
    /// `NONE` matches nothing, by definition.
    MatchesNothing,
    /// A log-only qualifier (`l>=`, `m=`, `h=`, ...) cannot match a span.
    LogOnlyQualifier(String),
    /// `d>=NaN`, `d<=NaN`, `d>=+inf`, `d<=-inf`. Every comparison against NaN
    /// is false, and no finite duration reaches +inf.
    ///
    /// Deliberately **not** `d<=+inf` or `d>=-inf`: those match *everything*.
    /// They are no-ops, and are marked rather than blocked.
    ImpossibleDurationThreshold(DurationMs),
    /// `d>=100, d<=50`. Qualifiers are AND-ed, so the interval is empty, and it
    /// is a plausible transposition of "between 50 and 100 ms".
    EmptyDurationInterval { lower: DurationMs, upper: DurationMs },
}

/// What an [`AdmissionError`] says.
#[verifier::ext_equal]
pub enum AdmissionErrorView {
    MatchesNothing,
    LogOnlyQualifier(Seq<char>),
    ImpossibleDurationThreshold(DurationMs),
    EmptyDurationInterval { lower: DurationMs, upper: DurationMs },
}

impl View for AdmissionError {
    type V = AdmissionErrorView;

    open spec fn view(&self) -> AdmissionErrorView {
        match self {
            AdmissionError::MatchesNothing => AdmissionErrorView::MatchesNothing,
            AdmissionError::LogOnlyQualifier(s) => AdmissionErrorView::LogOnlyQualifier(s@),
            AdmissionError::ImpossibleDurationThreshold(v) =>
                AdmissionErrorView::ImpossibleDurationThreshold(*v),
            AdmissionError::EmptyDurationInterval { lower, upper } =>
                AdmissionErrorView::EmptyDurationInterval { lower: *lower, upper: *upper },
        }
    }
}

impl AdmissionError {
    /// The message that a caller is shown, with the thresholds as they are
    /// written out: the refused one, or the lower and the upper.
    pub fn to_text(&self, first: &str, second: &str) -> (r: String)
        ensures
            r@ == match self@ {
                AdmissionErrorView::MatchesNothing =>
                    "filter matches nothing (NONE) and would never collect"@,
                AdmissionErrorView::LogOnlyQualifier(s) =>
                    "filter contains the log-only qualifier `"@ + s
                        + "`, which cannot match a span"@,
                AdmissionErrorView::ImpossibleDurationThreshold(_) => "duration threshold `"@
                    + first@ + "` can never be satisfied by a finite span duration"@,
                AdmissionErrorView::EmptyDurationInterval { .. } =>
                    "duration interval is empty: d>="@ + first@ + " and d<="@ + second@
                        + " cannot both hold"@,
            },
    {
        match self {
            AdmissionError::MatchesNothing => text::owned(
                "filter matches nothing (NONE) and would never collect",
            ),
            AdmissionError::LogOnlyQualifier(s) => text::join3(
                "filter contains the log-only qualifier `",
                s,
                "`, which cannot match a span",
            ),
            AdmissionError::ImpossibleDurationThreshold(_) => text::join3(
                "duration threshold `",
                first,
                "` can never be satisfied by a finite span duration",
            ),
            AdmissionError::EmptyDurationInterval { .. } => {
                let head = text::join3("duration interval is empty: d>=", first, " and d<=");
                text::join3(&head, second, " cannot both hold")
            },
        }
    }
}

/// Something admitted, but likely not what the author meant. Reported so the
/// surprise is immediate rather than discovered after a 40-minute run.
#[derive(Debug, PartialEq, Eq)]
pub enum AdmissionWarning {
    /// A selector the parser did not recognise, so it became an attribute
    /// lookup. The catch-all turns every typo into one of these:
    /// `SV=store_server` parses cleanly and matches nothing.
    ///
    /// Reported **per qualifier**, not per filter: `sn=x, SV=y` is a perfectly
    /// natural filter whose AND still yields nothing, and a whole-filter check
    /// would stay silent on it.
    UninterpretedSelector(String),
    /// No `sn`/`sv`/`st`/`sk`/`d` qualifier anywhere, so nothing in the filter
    /// is span-specific.
    NoSpanSpecificQualifier,
    /// `d<=+inf` / `d>=-inf`: admitted, but a no-op.
    NoOpDurationThreshold(DurationMs),
    /// A bare pattern matches the span **name only**, narrower than the log
    /// path, where it scans every field.
    BarePatternMatchesNameOnly,
    /// `st=` substring-matches the error *message*, so `st=ok` also admits an
    /// errored span whose message happens to contain "ok".
    StatusMatchesErrorMessages,
    /// Attributes are read as strings on the span path, so a non-string value
    /// never matches, whatever the pattern.
    AttributeMatchIsStringOnly(String),
}

/// What an [`AdmissionWarning`] says.
#[verifier::ext_equal]
pub enum AdmissionWarningView {
    UninterpretedSelector(Seq<char>),
    NoSpanSpecificQualifier,
    NoOpDurationThreshold(DurationMs),
    BarePatternMatchesNameOnly,
    StatusMatchesErrorMessages,
    AttributeMatchIsStringOnly(Seq<char>),
}

impl View for AdmissionWarning {
    type V = AdmissionWarningView;

    open spec fn view(&self) -> AdmissionWarningView {
        match self {
            AdmissionWarning::UninterpretedSelector(s) =>
                AdmissionWarningView::UninterpretedSelector(s@),
            AdmissionWarning::NoSpanSpecificQualifier =>
                AdmissionWarningView::NoSpanSpecificQualifier,
            AdmissionWarning::NoOpDurationThreshold(v) =>
                AdmissionWarningView::NoOpDurationThreshold(*v),
            AdmissionWarning::BarePatternMatchesNameOnly =>
                AdmissionWarningView::BarePatternMatchesNameOnly,
            AdmissionWarning::StatusMatchesErrorMessages =>
                AdmissionWarningView::StatusMatchesErrorMessages,
            AdmissionWarning::AttributeMatchIsStringOnly(s) =>
                AdmissionWarningView::AttributeMatchIsStringOnly(s@),
        }
    }
}

impl AdmissionWarning {
    /// The message that a caller is shown, with the threshold as it is written
    /// out.
    pub fn to_text(&self, threshold: &str) -> (r: String)
        ensures
            r@ == match self@ {
                AdmissionWarningView::UninterpretedSelector(s) => "`"@ + s
                    + "` is not a known selector, so it was read as a span attribute name; if that attribute does not exist this filter matches nothing"@,
                AdmissionWarningView::NoSpanSpecificQualifier =>
                    "no span-specific qualifier (sn/sv/st/sk/d) — this filter is not obviously about spans"@,
                AdmissionWarningView::NoOpDurationThreshold(_) => "duration threshold `"@
                    + threshold@ + "` matches every span; it has no effect"@,
                AdmissionWarningView::BarePatternMatchesNameOnly =>
                    "a bare pattern matches the span NAME only, unlike on the log path where it scans every field"@,
                AdmissionWarningView::StatusMatchesErrorMessages =>
                    "`st=` also substring-matches error messages, so `st=ok` can admit errored spans"@,
                AdmissionWarningView::AttributeMatchIsStringOnly(s) => "attribute `"@ + s
                    + "` is matched via as_str(), so a boolean or numeric value never matches"@,
            },
    {
        match self {
            AdmissionWarning::UninterpretedSelector(s) => text::join3(
                "`",
                s,
                "` is not a known selector, so it was read as a span attribute name; if that attribute does not exist this filter matches nothing",
            ),
            AdmissionWarning::NoSpanSpecificQualifier => text::owned(
                "no span-specific qualifier (sn/sv/st/sk/d) — this filter is not obviously about spans",
            ),
            AdmissionWarning::NoOpDurationThreshold(_) => text::join3(
                "duration threshold `",
                threshold,
                "` matches every span; it has no effect",
            ),
            AdmissionWarning::BarePatternMatchesNameOnly => text::owned(
                "a bare pattern matches the span NAME only, unlike on the log path where it scans every field",
            ),
            AdmissionWarning::StatusMatchesErrorMessages => text::owned(
                "`st=` also substring-matches error messages, so `st=ok` can admit errored spans",
            ),
            AdmissionWarning::AttributeMatchIsStringOnly(s) => text::join3(
                "attribute `",
                s,
                "` is matched via as_str(), so a boolean or numeric value never matches",
            ),
        }
    }
}

/// The outcome of admitting a filter for a span collector.
#[derive(Debug, PartialEq, Eq)]
pub struct Admission {
    pub warnings: Vec<AdmissionWarning>,
}

/// The views of a list of warnings.
pub open spec fn warning_views(ws: Seq<AdmissionWarning>) -> Seq<AdmissionWarningView> {
    ws.map_values(|w: AdmissionWarning| w@)
}

impl View for Admission {
    type V = Seq<AdmissionWarningView>;

    open spec fn view(&self) -> Seq<AdmissionWarningView> {
        warning_views(self.warnings@)
    }
}

impl Default for Admission {
    fn default() -> (r: Self)
        ensures
            r@ == Seq::<AdmissionWarningView>::empty(),
    {
        let r = Admission { warnings: Vec::new() };
        proof {
            assert(r@ =~= seq![]);
        }
        r
    }
}

/// The name of a selector that only log records have.
pub open spec fn log_only_name(sel: SelectorView) -> Option<Seq<char>> {
    match sel {
        SelectorView::Message => Some("m"@),
        SelectorView::FullMessage => Some("fm"@),
        SelectorView::MessageOrFull => Some("mfm"@),
        SelectorView::Host => Some("h"@),
        SelectorView::Facility => Some("fa"@),
        SelectorView::File => Some("fi"@),
        SelectorView::Line => Some("ln"@),
        _ => None,
    }
}

fn selector_name(sel: &Selector) -> (r: Option<&'static str>)
    ensures
        text::optional_str(r) == log_only_name(sel@),
{
    match sel {
        Selector::Message => Some("m"),
        Selector::FullMessage => Some("fm"),
        Selector::MessageOrFull => Some("mfm"),
        Selector::Host => Some("h"),
        Selector::Facility => Some("fa"),
        Selector::File => Some("fi"),
        Selector::Line => Some("ln"),
        _ => None,
    }
}

/// Why no span can meet a qualifier, if none can.
pub open spec fn blocked(q: QualifierView) -> Option<AdmissionErrorView> {
    match q {
        QualifierView::LevelFilter { .. } => Some(AdmissionErrorView::LogOnlyQualifier("l"@)),
        QualifierView::SelectorPattern(sel, _) => match log_only_name(sel) {
            Some(name) => Some(AdmissionErrorView::LogOnlyQualifier(name)),
            None => None,
        },
        QualifierView::DurationFilter(op, v) => if v.nan() || (v.infinite() && v.positive() == (op
            == DurationOp::Gte)) {
            Some(AdmissionErrorView::ImpossibleDurationThreshold(v))
        } else {
            None
        },
        _ => None,
    }
}

/// What a qualifier that is not blocked is marked with.
pub open spec fn marks(q: QualifierView) -> Seq<AdmissionWarningView> {
    match q {
        QualifierView::SelectorPattern(SelectorView::SpanStatus, _) =>
            seq![AdmissionWarningView::StatusMatchesErrorMessages],
        QualifierView::SelectorPattern(SelectorView::AdditionalField(key), _) => seq![
            AdmissionWarningView::UninterpretedSelector(key),
            AdmissionWarningView::AttributeMatchIsStringOnly(key),
        ],
        QualifierView::DurationFilter(_, v) => if v.infinite() {
            seq![AdmissionWarningView::NoOpDurationThreshold(v)]
        } else {
            seq![]
        },
        QualifierView::BarePattern(_) => seq![AdmissionWarningView::BarePatternMatchesNameOnly],
        _ => seq![],
    }
}

/// The first reason to block one of the qualifiers.
pub open spec fn first_block(qs: Seq<QualifierView>) -> Option<AdmissionErrorView>
    decreases qs.len(),
{
    if qs.len() == 0 {
        None
    } else if first_block(qs.drop_last()) is Some {
        first_block(qs.drop_last())
    } else {
        blocked(qs.last())
    }
}

/// What all the qualifiers are marked with, in their order.
pub open spec fn all_marks(qs: Seq<QualifierView>) -> Seq<AdmissionWarningView>
    decreases qs.len(),
{
    if qs.len() == 0 {
        seq![]
    } else {
        all_marks(qs.drop_last()) + marks(qs.last())
    }
}

/// The bound that the finite `op` thresholds of the qualifiers leave: the
/// highest lower bound or the lowest upper one, the first of equal ones.
pub open spec fn tightest(qs: Seq<QualifierView>, op: DurationOp) -> Option<DurationMs>
    decreases qs.len(),
{
    if qs.len() == 0 {
        None
    } else {
        let before = tightest(qs.drop_last(), op);
        match qs.last() {
            QualifierView::DurationFilter(o, v) => if o == op && !v.infinite() {
                match before {
                    None => Some(v),
                    Some(b) => if op == DurationOp::Gte && v.place() > b.place() {
                        Some(v)
                    } else if op == DurationOp::Lte && v.place() < b.place() {
                        Some(v)
                    } else {
                        Some(b)
                    },
                }
            } else {
                before
            },
            _ => before,
        }
    }
}

/// What admitting a filter comes to.
pub open spec fn admission_of(f: FilterView) -> Result<
    Seq<AdmissionWarningView>,
    AdmissionErrorView,
> {
    match f {
        FilterView::Nothing => Err(AdmissionErrorView::MatchesNothing),
        FilterView::All => Ok(seq![AdmissionWarningView::NoSpanSpecificQualifier]),
        FilterView::Qualifiers(qs) => {
            let lower = tightest(qs, DurationOp::Gte);
            let upper = tightest(qs, DurationOp::Lte);
            if first_block(qs) is Some {
                Err(first_block(qs)->0)
            } else if lower is Some && upper is Some && lower->0.place() > upper->0.place() {
                Err(AdmissionErrorView::EmptyDurationInterval { lower: lower->0, upper: upper->0 })
            } else if has_span_qualifier(qs) {
                Ok(all_marks(qs))
            } else {
                Ok(all_marks(qs).push(AdmissionWarningView::NoSpanSpecificQualifier))
            }
        },
    }
}

/// Admit a filter for use as a span collector's predicate.
pub fn admit_span_filter(filter: &ParsedFilter) -> (r: Result<Admission, AdmissionError>)
    ensures
        (match r {
            Ok(a) => Ok::<Seq<AdmissionWarningView>, AdmissionErrorView>(a@),
            Err(e) => Err::<Seq<AdmissionWarningView>, AdmissionErrorView>(e@),
        }) == admission_of(filter@),
{
    let qs = match filter {
        ParsedFilter::Nothing => return Err(AdmissionError::MatchesNothing),
        // It matches every span, and nothing in it is about spans.
        ParsedFilter::All => {
            let mut warnings: Vec<AdmissionWarning> = Vec::new();
            warnings.push(AdmissionWarning::NoSpanSpecificQualifier);
            proof {
                assert(warning_views(warnings@) =~= seq![
                    AdmissionWarningView::NoSpanSpecificQualifier,
                ]);
            }
            return Ok(Admission { warnings });
        },
        ParsedFilter::Qualifiers(qs) => qs,
    };
    let ghost views = qualifier_views(qs@);
    let mut warnings: Vec<AdmissionWarning> = Vec::new();
    let mut has_span_specific = false;
    let mut lower: Option<DurationMs> = None;
    let mut upper: Option<DurationMs> = None;
    let mut i: usize = 0;
    proof {
        assert(warning_views(warnings@) =~= seq![]);
        assert(views.take(0) =~= seq![]);
    }
    while i < qs.len()
        invariant
            filter@ == FilterView::Qualifiers(views),
            views == qualifier_views(qs@),
            i <= qs@.len(),
            first_block(views.take(i as int)) is None,
            warning_views(warnings@) == all_marks(views.take(i as int)),
            has_span_specific == has_span_qualifier(views.take(i as int)),
            lower == tightest(views.take(i as int), DurationOp::Gte),
            upper == tightest(views.take(i as int), DurationOp::Lte),
            lower is Some ==> !lower->0.nan(),
            upper is Some ==> !upper->0.nan(),
        decreases qs@.len() - i,
    {
        let ghost now = views.take(i + 1);
        let ghost earlier = warnings@;
        proof {
            assert(now.drop_last() =~= views.take(i as int));
            assert(now.last() == qs@[i as int]@);
            lemma_span_qualifier_grows(now);
            if blocked(now.last()) is Some {
                lemma_block_stays(views, i + 1);
            }
        }
        match &qs[i] {
            Qualifier::LevelFilter { .. } => {
                return Err(AdmissionError::LogOnlyQualifier(text::owned("l")));
            },
            Qualifier::SelectorPattern(sel, _) => {
                match selector_name(sel) {
                    Some(name) => {
                        return Err(AdmissionError::LogOnlyQualifier(text::owned(name)));
                    },
                    None => {},
                }
                match sel {
                    Selector::SpanName | Selector::ServiceName | Selector::SpanKind => {
                        has_span_specific = true;
                    },
                    Selector::SpanStatus => {
                        has_span_specific = true;
                        warnings.push(AdmissionWarning::StatusMatchesErrorMessages);
                    },
                    Selector::AdditionalField(key) => {
                        // Per-qualifier, always: a filter can pair a valid span
                        // selector with a typo and still collect nothing.
                        warnings.push(AdmissionWarning::UninterpretedSelector(key.clone()));
                        warnings.push(AdmissionWarning::AttributeMatchIsStringOnly(key.clone()));
                    },
                    _ => {},
                }
            },
            Qualifier::DurationFilter(op, v) => {
                has_span_specific = true;
                if v.is_nan() {
                    return Err(AdmissionError::ImpossibleDurationThreshold(*v));
                }
                if v.is_infinite() {
                    // d>=+inf and d<=-inf can never hold.
                    if v.is_sign_positive() == (*op == DurationOp::Gte) {
                        return Err(AdmissionError::ImpossibleDurationThreshold(*v));
                    }
                    // d<=+inf and d>=-inf always hold: no-ops, not errors.
                    warnings.push(AdmissionWarning::NoOpDurationThreshold(*v));
                } else {
                    match op {
                        DurationOp::Gte => {
                            let keep = match &lower {
                                Some(l) => !v.above(l),
                                None => false,
                            };
                            if !keep {
                                lower = Some(*v);
                            }
                        },
                        DurationOp::Lte => {
                            let keep = match &upper {
                                Some(u) => !u.above(v),
                                None => false,
                            };
                            if !keep {
                                upper = Some(*v);
                            }
                        },
                    }
                }
            },
            Qualifier::BarePattern(_) => {
                warnings.push(AdmissionWarning::BarePatternMatchesNameOnly);
            },
            // Bookmarks are rejected separately for collectors (a pre-parsed
            // filter would freeze a stale seq bound); they are legal elsewhere,
            // so admission does not object.
            Qualifier::BookmarkFilter { .. } => {},
            Qualifier::CursorFilter { .. } => {},
            Qualifier::SeqFilter { .. } => {},
        }
        proof {
            assert(warning_views(warnings@) =~= warning_views(earlier) + marks(now.last()));
        }
        i += 1;
    }
    proof {
        assert(views.take(views.len() as int) =~= views);
    }
    // Strict: `d>=100, d<=100` legitimately matches exactly 100.
    match (lower, upper) {
        (Some(l), Some(u)) => {
            if l.above(&u) {
                return Err(AdmissionError::EmptyDurationInterval { lower: l, upper: u });
            }
        },
        _ => {},
    }
    if !has_span_specific {
        let ghost earlier = warnings@;
        warnings.push(AdmissionWarning::NoSpanSpecificQualifier);
        proof {
            assert(warning_views(warnings@) =~= warning_views(earlier).push(
                AdmissionWarningView::NoSpanSpecificQualifier,
            ));
        }
    }
    Ok(Admission { warnings })
}

proof fn lemma_span_qualifier_grows(qs: Seq<QualifierView>)
    requires
        qs.len() > 0,
    ensures
        has_span_qualifier(qs) == (has_span_qualifier(qs.drop_last()) || is_span_qualifier_view(
            qs.last(),
        )),
{
    let front = qs.drop_last();
    if has_span_qualifier(front) {
        let i = choose|i: int| 0 <= i < front.len() && is_span_qualifier_view(#[trigger] front[i]);
        assert(is_span_qualifier_view(qs[i]));
    }
    if has_span_qualifier(qs) {
        let i = choose|i: int| 0 <= i < qs.len() && is_span_qualifier_view(#[trigger] qs[i]);
        if i < front.len() {
            assert(is_span_qualifier_view(front[i]));
        }
    }
}

proof fn lemma_block_stays(qs: Seq<QualifierView>, n: int)
    requires
        0 <= n <= qs.len(),
        first_block(qs.take(n)) is Some,
    ensures
        first_block(qs) == first_block(qs.take(n)),
    decreases qs.len() - n,
{
    if n < qs.len() {
        assert(qs.take(n + 1).drop_last() =~= qs.take(n));
        lemma_block_stays(qs, n + 1);
    } else {
        assert(qs.take(n) =~= qs);
    }
}

/// A span duration, by the place of its value in the order of numbers, meets a
/// duration qualifier.
pub open spec fn duration_meets(place: int, q: QualifierView) -> bool {
    match q {
        QualifierView::DurationFilter(op, v) => !v.nan() && if op == DurationOp::Gte {
            place >= v.place()
        } else {
            place <= v.place()
        },
        _ => true,
    }
}

/// Whether a number is finite, by its place in the order of numbers.
pub open spec fn finite_place(place: int) -> bool {
    -INFINITE_BITS < place < INFINITE_BITS
}

/// Nothing is blocked for its duration thresholds that a finite duration could
/// meet: where one meets every duration qualifier, admission finds no
/// impossible threshold and no empty interval.
pub proof fn satisfiable_durations_are_admitted(qs: Seq<QualifierView>, place: int)
    requires
        finite_place(place),
        forall|i: int| 0 <= i < qs.len() ==> duration_meets(place, #[trigger] qs[i]),
    ensures
        admission_of(FilterView::Qualifiers(qs)) matches Err(e) ==> e is LogOnlyQualifier,
{
    lemma_bounds_hold(qs, place);
}

proof fn lemma_bounds_hold(qs: Seq<QualifierView>, place: int)
    requires
        finite_place(place),
        forall|i: int| 0 <= i < qs.len() ==> duration_meets(place, #[trigger] qs[i]),
    ensures
        first_block(qs) matches Some(e) ==> e is LogOnlyQualifier,
        tightest(qs, DurationOp::Gte) matches Some(l) ==> l.place() <= place,
        tightest(qs, DurationOp::Lte) matches Some(u) ==> place <= u.place(),
    decreases qs.len(),
{
    if qs.len() > 0 {
        let front = qs.drop_last();
        assert forall|i: int| 0 <= i < front.len() implies duration_meets(place, #[trigger] front[i]) by {
            assert(front[i] == qs[i]);
        }
        lemma_bounds_hold(front, place);
        assert(duration_meets(place, qs[qs.len() - 1]));
    }
}

/// What is blocked for its thresholds can never be met: no finite duration
/// meets every duration qualifier.
pub proof fn blocked_durations_never_match(qs: Seq<QualifierView>, place: int)
    requires
        finite_place(place),
        admission_of(FilterView::Qualifiers(qs)) matches Err(e) && !(e is LogOnlyQualifier),
    ensures
        exists|i: int| 0 <= i < qs.len() && !duration_meets(place, #[trigger] qs[i]),
{
    if forall|i: int| 0 <= i < qs.len() ==> duration_meets(place, #[trigger] qs[i]) {
        satisfiable_durations_are_admitted(qs, place);
    }
}

proof fn lemma_blocks_are_found(qs: Seq<QualifierView>, i: int)
    requires
        0 <= i < qs.len(),
        blocked(qs[i]) is Some,
    ensures
        first_block(qs) is Some,
    decreases qs.len(),
{
    if i < qs.len() - 1 {
        assert(qs.drop_last()[i] == qs[i]);
        lemma_blocks_are_found(qs.drop_last(), i);
    }
}

proof fn lemma_block_is_of_one(qs: Seq<QualifierView>) -> (i: int)
    requires
        first_block(qs) is Some,
    ensures
        0 <= i < qs.len(),
        first_block(qs) == blocked(qs[i]),
        forall|j: int| 0 <= j < i ==> blocked(#[trigger] qs[j]) is None,
    decreases qs.len(),
{
    let front = qs.drop_last();
    if first_block(front) is Some {
        let i = lemma_block_is_of_one(front);
        assert forall|j: int| 0 <= j < i implies blocked(#[trigger] qs[j]) is None by {
            assert(front[j] == qs[j]);
        }
        i
    } else {
        assert forall|j: int| 0 <= j < qs.len() - 1 implies blocked(#[trigger] qs[j]) is None by {
            if blocked(qs[j]) is Some {
                assert(front[j] == qs[j]);
                lemma_blocks_are_found(front, j);
            }
        }
        qs.len() - 1
    }
}

/// What only a log record has is refused wherever it stands: its level, its messages, its
/// host, facility, file and line.
pub proof fn log_only_qualifiers_are_refused(qs: Seq<QualifierView>, i: int)
    requires
        0 <= i < qs.len(),
    ensures
        qs[i] is LevelFilter ==> admission_of(FilterView::Qualifiers(qs)) is Err,
        qs[i] matches QualifierView::SelectorPattern(sel, _) && (sel == SelectorView::Message || sel
            == SelectorView::FullMessage || sel == SelectorView::MessageOrFull || sel
            == SelectorView::Host || sel == SelectorView::Facility || sel == SelectorView::File
            || sel == SelectorView::Line) ==> admission_of(FilterView::Qualifiers(qs)) is Err,
{
    if blocked(qs[i]) is Some {
        lemma_blocks_are_found(qs, i);
    }
}

/// A refusal that names a qualifier names one that stands in the filter, by the word that
/// it is written with, and the first of those.
pub proof fn refusals_name_the_first_of_them(qs: Seq<QualifierView>) -> (i: int)
    requires
        admission_of(FilterView::Qualifiers(qs)) matches Err(e) && e is LogOnlyQualifier,
    ensures
        0 <= i < qs.len(),
        ({
            let word = admission_of(FilterView::Qualifiers(qs))->Err_0->LogOnlyQualifier_0;
            match qs[i] {
                QualifierView::LevelFilter { .. } => word == "l"@,
                QualifierView::SelectorPattern(sel, _) => match sel {
                    SelectorView::Message => word == "m"@,
                    SelectorView::FullMessage => word == "fm"@,
                    SelectorView::MessageOrFull => word == "mfm"@,
                    SelectorView::Host => word == "h"@,
                    SelectorView::Facility => word == "fa"@,
                    SelectorView::File => word == "fi"@,
                    SelectorView::Line => word == "ln"@,
                    _ => false,
                },
                _ => false,
            }
        }),
        forall|j: int|
            0 <= j < i ==> !((#[trigger] qs[j]) is LevelFilter) && !(qs[j]
                matches QualifierView::SelectorPattern(SelectorView::Message, _)),
{
    let i = lemma_block_is_of_one(qs);
    assert forall|j: int| 0 <= j < i implies !((#[trigger] qs[j]) is LevelFilter) && !(qs[j]
        matches QualifierView::SelectorPattern(SelectorView::Message, _)) by {
        assert(blocked(qs[j]) is None);
    }
    i
}

/// A filter that matches nothing is refused, one that matches everything is admitted with a
/// warning.
pub proof fn all_is_admitted_and_none_is_not()
    ensures
        admission_of(FilterView::Nothing) is Err,
        admission_of(FilterView::All) == Ok::<Seq<AdmissionWarningView>, AdmissionErrorView>(
            seq![AdmissionWarningView::NoSpanSpecificQualifier],
        ),
{
}

/// The warnings of a filter are those of its qualifiers, in their order.
pub proof fn warnings_come_in_order(a: Seq<QualifierView>, b: Seq<QualifierView>)
    ensures
        all_marks(a + b) == all_marks(a) + all_marks(b),
    decreases b.len(),
{
    if b.len() == 0 {
        assert(a + b =~= a);
        assert(all_marks(a) + all_marks(b) =~= all_marks(a));
    } else {
        warnings_come_in_order(a, b.drop_last());
        assert((a + b).drop_last() =~= a + b.drop_last());
        assert((a + b).last() == b.last());
        assert(all_marks(a + b) =~= all_marks(a) + all_marks(b));
    }
}

/// What each qualifier is warned of: a status is matched against messages too, an attribute
/// by its text alone and under any name, a bare pattern against the name alone, and a bound
/// without end holds nothing back.
pub proof fn surprising_qualifiers_are_marked(q: QualifierView)
    ensures
        q matches QualifierView::SelectorPattern(SelectorView::SpanStatus, _) ==> all_marks(seq![q])
            == seq![AdmissionWarningView::StatusMatchesErrorMessages],
        q matches QualifierView::SelectorPattern(SelectorView::AdditionalField(key), _) ==> all_marks(
            seq![q],
        ) == seq![
            AdmissionWarningView::UninterpretedSelector(key),
            AdmissionWarningView::AttributeMatchIsStringOnly(key),
        ],
        q is BarePattern ==> all_marks(seq![q]) == seq![
            AdmissionWarningView::BarePatternMatchesNameOnly,
        ],
        q matches QualifierView::DurationFilter(_, v) ==> all_marks(seq![q]).len() == (if v.infinite() {
            1nat
        } else {
            0
        }),
        q matches QualifierView::SelectorPattern(SelectorView::SpanName, _) ==> all_marks(
            seq![q],
        ).len() == 0,
{
    reveal_with_fuel(all_marks, 2);
    assert(seq![q].drop_last() =~= seq![]);
    assert(all_marks(seq![q]) =~= marks(q));
}

} // verus!
