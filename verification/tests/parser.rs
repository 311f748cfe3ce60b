use logmon_core::filter::parser;
use logmon_core::filter::parser::{
    contains_bookmark_qualifier, contains_cursor_qualifier, duration_literals,
    evicted_before_window, lower_seq_range, resolved_seq_range, BookmarkOp, DurationMs, DurationOp,
    DurationReading, FilterParseError, LevelOp, ParsedFilter, Pattern,
    PatternFieldError, Qualifier, Selector,
};
use logmon_core::gelf::message::Level;

/// How the durations of a filter read as numbers.
fn readings(filter: &str) -> Vec<DurationReading> {
    duration_literals(filter)
        .into_iter()
        .map(|text| DurationReading {
            value: text
                .parse::<f64>()
                .ok()
                .map(|d| DurationMs { bits: d.to_bits() }),
            text,
        })
        .collect()
}

fn parse_filter(filter: &str) -> Result<ParsedFilter, FilterParseError> {
    parser::parse_filter(filter, &readings(filter))
}

fn parse_one(s: &str) -> Qualifier {
    match parse_filter(s).unwrap() {
        ParsedFilter::Qualifiers(mut qs) => qs.remove(0),
        _ => panic!("expected qualifiers"),
    }
}

#[test]
fn parses_bookmark_gte_bare_name() {
    match parse_one("b>=before") {
        Qualifier::BookmarkFilter { op: BookmarkOp::Gte, name } => {
            assert_eq!(name, "before");
        }
        other => panic!("unexpected: {other:?}"),
    }
}

#[test]
fn parses_bookmark_lte_bare_name() {
    match parse_one("b<=after") {
        Qualifier::BookmarkFilter { op: BookmarkOp::Lte, name } => {
            assert_eq!(name, "after");
        }
        other => panic!("unexpected: {other:?}"),
    }
}

#[test]
fn parses_bookmark_qualified_name() {
    match parse_one("b>=session-A/before") {
        Qualifier::BookmarkFilter { op: BookmarkOp::Gte, name } => {
            assert_eq!(name, "session-A/before");
        }
        other => panic!("unexpected: {other:?}"),
    }
}

#[test]
fn empty_bookmark_name_errors() {
    let err = parse_filter("b>=").unwrap_err();
    assert!(matches!(err, FilterParseError::EmptyBookmarkName));
}

#[test]
fn invalid_bookmark_char_errors() {
    let err = parse_filter("b>=foo bar").unwrap_err();
    assert!(matches!(err, FilterParseError::InvalidBookmarkName(_)));
}

#[test]
fn bookmark_combines_with_log_qualifier_without_mix_error() {
    let parsed = parse_filter("b>=before, l>=warn").unwrap();
    if let ParsedFilter::Qualifiers(qs) = parsed {
        assert_eq!(qs.len(), 2);
    } else {
        panic!("expected qualifiers");
    }
}

#[test]
fn bookmark_combines_with_span_qualifier_without_mix_error() {
    let parsed = parse_filter("b>=before, d>=100").unwrap();
    if let ParsedFilter::Qualifiers(qs) = parsed {
        assert_eq!(qs.len(), 2);
    } else {
        panic!("expected qualifiers");
    }
}

#[test]
fn bookmark_whitespace_around_name_trimmed() {
    match parse_one("b>=  before  ") {
        Qualifier::BookmarkFilter { name, .. } => assert_eq!(name, "before"),
        other => panic!("unexpected: {other:?}"),
    }
}

#[test]
fn contains_bookmark_qualifier_detects_b_gte() {
    let parsed = parse_filter("b>=foo, l>=warn").unwrap();
    assert!(contains_bookmark_qualifier(&parsed));
}

#[test]
fn contains_bookmark_qualifier_false_for_plain_filter() {
    let parsed = parse_filter("l>=warn").unwrap();
    assert!(!contains_bookmark_qualifier(&parsed));
}

#[test]
fn contains_bookmark_qualifier_handles_all_and_none() {
    assert!(!contains_bookmark_qualifier(&ParsedFilter::All));
    assert!(!contains_bookmark_qualifier(&ParsedFilter::Nothing));
}

#[test]
fn parses_c_ge_qualifier() {
    let f = parse_filter("c>=mycursor").unwrap();
    if let ParsedFilter::Qualifiers(qs) = f {
        assert!(matches!(
            &qs[0],
            Qualifier::CursorFilter { name } if name == "mycursor"
        ));
    } else {
        panic!("expected Qualifiers");
    }
}

#[test]
fn parses_c_ge_with_session_qualifier() {
    let f = parse_filter("c>=other-sess/cursor1").unwrap();
    if let ParsedFilter::Qualifiers(qs) = f {
        assert!(matches!(
            &qs[0],
            Qualifier::CursorFilter { name } if name == "other-sess/cursor1"
        ));
    } else {
        panic!("expected Qualifiers");
    }
}

#[test]
fn rejects_multiple_cursor_qualifiers() {
    let err = parse_filter("c>=a, c>=b").unwrap_err();
    assert!(
        err.to_text().contains("only one cursor qualifier"),
        "expected multi-cursor error, got: {err:?}"
    );
}

#[test]
fn c_le_token_rejected_with_guidance() {
    // c<= is intentionally not defined for cursors.
    // Must reject explicitly (not fall through to selector pattern parsing)
    // to avoid the user getting a silent no-match filter.
    let err = parse_filter("c<=foo").unwrap_err();
    assert!(
        matches!(err, FilterParseError::CursorLteNotSupported),
        "expected CursorLteNotSupported, got: {err:?}"
    );
    let msg = err.to_text();
    assert!(
        msg.contains("c<="),
        "error message should mention the offending token, got: {msg}"
    );
    assert!(
        msg.contains("c>=") || msg.contains("b<="),
        "error message should suggest the correct alternative, got: {msg}"
    );
}

#[test]
fn rejects_invalid_cursor_name_chars() {
    let err = parse_filter("c>=bad name").unwrap_err();
    assert!(
        matches!(err, FilterParseError::InvalidBookmarkName(_)),
        "expected InvalidBookmarkName, got: {err:?}"
    );
}

#[test]
fn contains_bookmark_qualifier_matches_cursor_too() {
    let f = parse_filter("c>=foo").unwrap();
    assert!(contains_bookmark_qualifier(&f));
    let f = parse_filter("b>=foo").unwrap();
    assert!(contains_bookmark_qualifier(&f));
    let f = parse_filter("l>=ERROR").unwrap();
    assert!(!contains_bookmark_qualifier(&f));
}

#[test]
fn filters_read_every_kind_of_qualifier() {
    match parse_filter("ALL").unwrap() {
        ParsedFilter::All => {}
        other => panic!("unexpected: {other:?}"),
    }
    match parse_filter("NONE").unwrap() {
        ParsedFilter::Nothing => {}
        other => panic!("unexpected: {other:?}"),
    }
    assert!(matches!(
        parse_one("l>=warn"),
        Qualifier::LevelFilter {
            op: LevelOp::Gte,
            level: Level::Warn
        }
    ));
    assert!(matches!(
        parse_one("d>=100"),
        Qualifier::DurationFilter(DurationOp::Gte, value) if value.bits == 100f64.to_bits()
    ));
    assert!(matches!(
        parse_one("/time(out)?/i"),
        Qualifier::BarePattern(Pattern::Regex { .. })
    ));
    assert!(matches!(
        parse_one("h=myhost"),
        Qualifier::SelectorPattern(Selector::Host, _)
    ));
}

#[test]
fn each_filter_error_has_an_input() {
    let text = |f: &str| parse_filter(f).unwrap_err().to_text();
    assert_eq!(text("  "), "empty filter string");
    assert_eq!(text("l>=LOUD"), "unknown level: LOUD");
    assert_eq!(text("\"open"), "unclosed quote");
    assert_eq!(text("sn=a, m=b"), "cannot mix log and span selectors in the same filter");
    assert_eq!(text("b>="), "empty bookmark name");
    assert_eq!(text("b>=a b"), "invalid bookmark name: a b");
    assert_eq!(text("c>=a, c>=b"), "only one cursor qualifier permitted per filter");
    assert!(text("/(/").starts_with("invalid regex: "));
}

#[test]
fn a_range_folded_into_a_filter_is_read_back() {
    let f = lower_seq_range(None, Some(5), Some(9));
    assert_eq!(resolved_seq_range(&f), (Some(5), Some(9)));
    // The tighter bound wins.
    let f = lower_seq_range(f, Some(7), None);
    assert_eq!(resolved_seq_range(&f), (Some(7), Some(9)));
    assert_eq!(evicted_before_window(&f, Some(8)), Some(8));
    assert_eq!(evicted_before_window(&f, Some(7)), None);
    assert_eq!(evicted_before_window(&None, Some(7)), None);
    assert!(matches!(
        lower_seq_range(Some(ParsedFilter::Nothing), Some(1), None),
        Some(ParsedFilter::Nothing)
    ));
    assert!(lower_seq_range(None, None, None).is_none());
}

#[test]
fn cursors_are_told_from_bookmarks() {
    assert!(contains_cursor_qualifier(&parse_filter("l>=warn, c>=x").unwrap()));
    assert!(!contains_cursor_qualifier(&parse_filter("b>=x").unwrap()));
    assert!(!contains_cursor_qualifier(&ParsedFilter::All));
}

#[test]
fn a_stored_pattern_is_read_back() {
    for filter in ["plain", "/a.b/", "/a.b/i"] {
        let Qualifier::BarePattern(p) = parse_one(filter) else {
            panic!("no bare pattern: {filter}");
        };
        let f = p.to_fields();
        let back = Pattern::from_fields(
            Some(f.kind.to_string()),
            f.value.clone(),
            f.source.clone(),
            f.case_insensitive,
        )
        .unwrap();
        assert_eq!(back.to_fields(), f);
        if let Pattern::Regex { compiled, case_insensitive, .. } = back {
            assert!(compiled.is_match("xa!bx"));
            assert_eq!(compiled.is_match("A!B"), case_insensitive);
        }
    }
}

#[test]
fn each_stored_pattern_error_has_an_input() {
    let text = |s: &str| Some(s.to_string());
    let err = |k, v, s| Pattern::from_fields(k, v, s, None).unwrap_err();
    assert_eq!(err(text("substring"), None, None), PatternFieldError::MissingValue);
    assert_eq!(err(text("regex"), None, None), PatternFieldError::MissingSource);
    assert!(matches!(err(text("regex"), None, text("(")), PatternFieldError::InvalidRegex(_)));
    assert_eq!(err(None, None, None), PatternFieldError::UnknownType(None));
    assert_eq!(err(text("x"), None, None), PatternFieldError::UnknownType(text("x")));
}
