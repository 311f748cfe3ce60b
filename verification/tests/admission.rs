use logmon_core::filter::admission::{
    admit_span_filter, Admission, AdmissionError, AdmissionWarning,
};
use logmon_core::filter::parser;
use logmon_core::filter::parser::{
    duration_literals, DurationMs, DurationReading, FilterParseError, ParsedFilter,
};

/// How the durations of a filter read as numbers.
fn readings(filter: &str) -> Vec<DurationReading> {
    duration_literals(filter)
        .into_iter()
        .map(|text| DurationReading {
            value: text
                .parse::<f64>()
                .ok()
                .map(|d| DurationMs { bits: d.to_bits() }),
            text,
        })
        .collect()
}

fn parse_filter(filter: &str) -> Result<ParsedFilter, FilterParseError> {
    parser::parse_filter(filter, &readings(filter))
}

fn admitted(s: &str) -> Result<Admission, AdmissionError> {
    admit_span_filter(&parse_filter(s).expect("parses"))
}

fn warns(s: &str) -> Vec<AdmissionWarning> {
    admitted(s).expect("admitted").warnings
}

// ---- blocked: provably never matches -------------------------------

#[test]
fn none_is_blocked() {
    assert_eq!(admitted("NONE"), Err(AdmissionError::MatchesNothing));
}

#[test]
fn log_only_qualifiers_are_blocked() {
    assert_eq!(
        admitted("l>=ERROR"),
        Err(AdmissionError::LogOnlyQualifier("l".into()))
    );
    assert_eq!(
        admitted("h=myhost"),
        Err(AdmissionError::LogOnlyQualifier("h".into()))
    );
    // A filter MIXING log and span selectors never reaches admission: the
    // parser rejects it outright. Asserted here so the division of labour
    // is pinned — if the parser ever relaxed, admission would have to
    // cover this and this test would say so.
    assert!(
        matches!(
            parse_filter("sv=svc, m=boom"),
            Err(FilterParseError::MixedLogSpanSelectors)
        ),
        "mixed selectors are a parse error, not an admission error"
    );
}

#[test]
fn impossible_duration_thresholds_are_blocked() {
    for f in ["d>=nan", "d<=nan", "d>=inf", "d<=-inf"] {
        assert!(
            matches!(
                admitted(f),
                Err(AdmissionError::ImpossibleDurationThreshold(_))
            ),
            "{f} can never match and must be blocked"
        );
    }
}

#[test]
fn an_empty_duration_interval_is_blocked() {
    assert_eq!(
        admitted("d>=100, d<=50"),
        Err(AdmissionError::EmptyDurationInterval {
            lower: DurationMs { bits: 100f64.to_bits() },
            upper: DurationMs { bits: 50f64.to_bits() }
        })
    );
}

#[test]
fn a_degenerate_but_satisfiable_interval_is_admitted() {
    // The bound is STRICT: exactly 100.0 is a real, matchable duration.
    assert!(admitted("d>=100, d<=100").is_ok());
}

// ---- marked, never blocked -----------------------------------------

#[test]
fn no_op_duration_thresholds_are_marked_not_blocked() {
    // They match EVERYTHING, which is the opposite of the blocking bar.
    for f in ["d<=inf", "d>=-inf"] {
        let w = warns(f);
        assert!(
            w.iter()
                .any(|w| matches!(w, AdmissionWarning::NoOpDurationThreshold(_))),
            "{f} should be marked as a no-op"
        );
    }
}

#[test]
fn a_mistyped_selector_is_marked_per_qualifier() {
    // The flagship filter with the shift key stuck.
    let w = warns("SV=store_server");
    assert!(w
        .iter()
        .any(|w| matches!(w, AdmissionWarning::UninterpretedSelector(k) if k == "SV")));

    // And — the case a whole-filter check misses — a valid span selector
    // paired with a typo. The AND still collects nothing.
    let w = warns("sn=cache.lookup, SV=store_server");
    assert!(
        w.iter()
            .any(|w| matches!(w, AdmissionWarning::UninterpretedSelector(k) if k == "SV")),
        "a per-filter check would stay silent here"
    );
}

#[test]
fn attribute_filters_are_admitted_and_marked_string_only() {
    // The driving example's own selector: a boolean attribute never
    // matches, for any pattern.
    let w = warns("cache.enabled=true");
    assert!(w.iter().any(
        |w| matches!(w, AdmissionWarning::AttributeMatchIsStringOnly(k) if k == "cache.enabled")
    ));
}

#[test]
fn legal_span_filters_the_old_predicate_rejected_are_admitted() {
    // Every one of these is rejected by `is_span_filter`, and every one is
    // a legal span filter.
    assert!(admitted("schema.resolve").is_ok(), "bare pattern");
    assert!(admitted("cache.enabled=true").is_ok(), "attribute only");
    assert!(admitted("ALL").is_ok(), "ALL matches every span");
}

#[test]
fn a_bare_pattern_is_marked_as_name_only() {
    let w = warns("schema.resolve");
    assert!(w
        .iter()
        .any(|w| matches!(w, AdmissionWarning::BarePatternMatchesNameOnly)));
}

#[test]
fn status_filters_are_marked_because_they_match_error_messages() {
    let w = warns("st=ok");
    assert!(w
        .iter()
        .any(|w| matches!(w, AdmissionWarning::StatusMatchesErrorMessages)));
}

#[test]
fn a_plain_span_filter_admits_without_surprises() {
    let w = warns("sv=store_server, d>=10");
    assert!(
        w.is_empty(),
        "the recommended filter should be quiet: {w:?}"
    );
}

#[test]
fn no_span_specific_qualifier_is_marked() {
    let w = warns("cache.enabled=true");
    assert!(w
        .iter()
        .any(|w| matches!(w, AdmissionWarning::NoSpanSpecificQualifier)));
    // …and is absent once anything span-specific appears.
    let w = warns("sv=svc");
    assert!(!w
        .iter()
        .any(|w| matches!(w, AdmissionWarning::NoSpanSpecificQualifier)));
}

#[test]
fn admission_errors_and_warnings_say_what_is_wrong() {
    let e = admitted("d>=100, d<=50").unwrap_err();
    assert_eq!(
        e.to_text("100", "50"),
        "duration interval is empty: d>=100 and d<=50 cannot both hold"
    );
    assert_eq!(
        admitted("NONE").unwrap_err().to_text("", ""),
        "filter matches nothing (NONE) and would never collect"
    );
    assert_eq!(
        AdmissionWarning::BarePatternMatchesNameOnly.to_text(""),
        "a bare pattern matches the span NAME only, unlike on the log path where it scans every field"
    );
}

#[test]
fn all_is_marked_as_not_about_spans() {
    assert_eq!(warns("ALL"), vec![AdmissionWarning::NoSpanSpecificQualifier]);
}
