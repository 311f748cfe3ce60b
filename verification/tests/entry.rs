use chrono::DateTime;
use logmon_core::clock::Timestamp;
use logmon_core::domain_data::{parse_duration, render_duration, Entry, TtlParseError};

fn t(s: &str) -> Timestamp {
    let at = DateTime::parse_from_rfc3339(s).unwrap();
    Timestamp::new(at.timestamp(), at.timestamp_subsec_nanos()).unwrap()
}

#[test]
fn parses_every_unit() {
    assert_eq!(parse_duration("30s"), Ok(30));
    assert_eq!(parse_duration("5m"), Ok(300));
    assert_eq!(parse_duration("2h"), Ok(7200));
    assert_eq!(parse_duration("7d"), Ok(604_800));
    assert_eq!(parse_duration("4w"), Ok(2_419_200));
}

#[test]
fn rejects_the_shapes_that_would_have_to_be_guessed_at() {
    for s in ["", "m", "30", "30x", "1h30m", "-5m", "5 m", "1.5h", "s5"] {
        assert_eq!(
            parse_duration(s),
            Err(TtlParseError::Malformed),
            "{s} should be malformed"
        );
    }
    assert_eq!(parse_duration("0s"), Err(TtlParseError::Zero));
    assert_eq!(parse_duration("0d"), Err(TtlParseError::Zero));
}

#[test]
fn an_overflowing_literal_does_not_wrap() {
    assert_eq!(
        parse_duration(&format!("{}w", u64::MAX)),
        Err(TtlParseError::Overflow)
    );
    assert!(parse_duration("99999999999999999999s").is_err());
}

#[test]
fn durations_round_trip_through_rendering() {
    for s in ["30s", "5m", "2h", "7d", "4w", "90s"] {
        let secs = parse_duration(s).unwrap();
        assert_eq!(parse_duration(&render_duration(secs)), Ok(secs));
    }
}

#[test]
fn durations_render_as_the_shortest_exact_literal() {
    assert_eq!(render_duration(90), "90s");
    assert_eq!(render_duration(120), "2m");
    assert_eq!(render_duration(7200), "2h");
    assert_eq!(render_duration(86_400), "1d");
    assert_eq!(render_duration(1_209_600), "2w");
    assert_eq!(render_duration(0), "0w");
    for s in ["3600s", "60m", "1h", "0007d", "168h", "604800s", "1w"] {
        let secs = parse_duration(s).unwrap();
        assert!(render_duration(secs).len() <= s.len());
    }
}

#[test]
fn expiry_is_measured_from_validation_not_creation() {
    // The whole point: a value confirmed five minutes ago is evidence,
    // however long ago it was first set.
    let e = Entry {
        value: "1.0.2".into(),
        created_at: t("2026-07-01T00:00:00Z"),
        validated_at: t("2026-07-31T13:58:00Z"),
        ttl_secs: Some(1800),
    };
    assert_eq!(e.is_expired(t("2026-07-31T14:15:00Z")), Some(false));
    // Anchored on created_at instead, this month-old key would read expired
    // no matter how recently anyone confirmed it.
    assert_eq!(e.is_expired(t("2026-07-31T14:29:00Z")), Some(true));
}

#[test]
fn expiry_is_inclusive_at_the_boundary() {
    let e = Entry::new("x".into(), t("2026-07-31T12:00:00Z"), Some(60));
    assert_eq!(e.is_expired(t("2026-07-31T12:00:59Z")), Some(false));
    assert_eq!(e.is_expired(t("2026-07-31T12:01:00Z")), Some(true));
}

#[test]
fn no_ttl_yields_no_verdict_never_fresh() {
    let e = Entry::new("x".into(), t("2020-01-01T00:00:00Z"), None);
    assert_eq!(e.is_expired(t("2026-07-31T12:00:00Z")), None);
}

#[test]
fn age_runs_from_validation() {
    let e = Entry {
        value: "x".into(),
        created_at: t("2026-07-01T00:00:00Z"),
        validated_at: t("2026-07-31T12:00:00Z"),
        ttl_secs: None,
    };
    assert_eq!(e.age(t("2026-07-31T12:30:00Z")) / 60, 30);
}

#[test]
fn a_confirmation_in_the_future_has_a_negative_age() {
    let e = Entry::new("x".into(), t("2026-07-31T12:00:10Z"), Some(0));
    assert_eq!(e.age(t("2026-07-31T12:00:00Z")), -10);
    assert_eq!(e.is_expired(t("2026-07-31T12:00:00Z")), Some(false));
}

#[test]
fn timestamps_render_in_utc() {
    assert_eq!(t("2026-07-31T14:00:00+02:00").to_rfc3339(), "2026-07-31T12:00:00+00:00");
    assert_eq!(Timestamp::from_unix_nanos(1_500_000_000).to_rfc3339(), "1970-01-01T00:00:01.500+00:00");
    assert!(Timestamp::new(0, 1_000_000_000).is_none());
    assert!(Timestamp::new(i64::MAX, 0).is_none());
}
