use logmon_core::engine::epoch::{
    evidence_verdict, EpochCoverage, EpochLog, EvidenceVerdict, FilterPolicy, NarrowedSpan,
    EPOCH_CAPACITY,
};

fn policy(filters: &[&str]) -> FilterPolicy {
    FilterPolicy::new(filters.iter().map(|s| s.to_string()).collect())
}

#[test]
fn policy_is_order_and_duplicate_insensitive() {
    // Two sessions in either iteration order are one policy — otherwise a
    // HashMap rehash would fabricate a flip.
    assert_eq!(policy(&["b", "a"]), policy(&["a", "b"]));
    // And two sessions holding the same filter narrow the store exactly as
    // one does, so losing the duplicate is not a flip.
    assert_eq!(policy(&["a", "a"]), policy(&["a"]));
    assert!(!policy(&[]).is_filtered());
    assert!(policy(&["a"]).is_filtered());
}

#[test]
fn first_observation_opens_at_the_origin_not_at_the_seq() {
    let mut log = EpochLog::new(0);
    log.observe(7, &policy(&[]));
    assert_eq!(log.epochs()[0].seq_at_flip, 0);

    // A restored domain resumes its predecessor's counter, so its first
    // epoch starts where this incarnation did — not at 0, which would let
    // it speak for the previous run's seqs.
    let mut restored = EpochLog::new(500);
    restored.observe(507, &policy(&[]));
    assert_eq!(restored.epochs()[0].seq_at_flip, 500);
    assert!(!restored.coverage(499, 600).covered);
    assert!(restored.coverage(500, 600).covered);
}

#[test]
fn an_unchanged_policy_does_not_open_an_epoch() {
    let mut log = EpochLog::new(0);
    for seq in 1..=50 {
        log.observe(seq, &policy(&["l>=ERROR"]));
    }
    assert_eq!(log.epochs().len(), 1, "50 entries, one policy, one epoch");
}

#[test]
fn editing_a_filter_string_opens_an_epoch_though_the_boolean_never_moves() {
    // The `filters.edit` case: filtered before and filtered after, so a
    // marker keyed on the boolean would report the NEW filter string over
    // the OLD range — wrong information rather than missing information.
    let mut log = EpochLog::new(0);
    log.observe(1, &policy(&["l>=ERROR"]));
    log.observe(101, &policy(&["service:auth"]));

    let c = log.coverage(1, 200);
    assert_eq!(c.narrowed.len(), 2, "{c:?}");
    assert_eq!(c.narrowed[0].filters, vec!["l>=ERROR".to_string()]);
    assert_eq!((c.narrowed[0].from_seq, c.narrowed[0].to_seq), (1, 100));
    assert_eq!(c.narrowed[1].filters, vec!["service:auth".to_string()]);
    assert_eq!((c.narrowed[1].from_seq, c.narrowed[1].to_seq), (101, 200));
}

#[test]
fn narrowed_spans_are_clamped_to_the_queried_range() {
    let mut log = EpochLog::new(0);
    log.observe(1, &policy(&[]));
    log.observe(100, &policy(&["l>=ERROR"]));
    log.observe(200, &policy(&[]));

    // The caller is told which of ITS seqs were narrowed, not where the
    // epoch began.
    let c = log.coverage(150, 175);
    assert_eq!(c.narrowed.len(), 1);
    assert_eq!((c.narrowed[0].from_seq, c.narrowed[0].to_seq), (150, 175));

    // A range wholly inside the unfiltered tail is clean.
    assert!(log.coverage(200, 300).narrowed.is_empty());
    // Including seqs not yet assigned: the last epoch runs forever.
    assert!(log.coverage(10_000, u64::MAX).narrowed.is_empty());
}

#[test]
fn an_empty_log_covers_nothing() {
    let log = EpochLog::new(0);
    let c = log.coverage(0, u64::MAX);
    assert!(!c.covered, "no decision has been taken in this domain yet");
    assert_eq!(
        evidence_verdict(Some(&c), false, false),
        EvidenceVerdict::CannotVerify
    );
}

#[test]
fn dropping_the_oldest_epoch_is_reported_rather_than_papered_over() {
    let mut log = EpochLog::new(0);
    // Alternate so every observation is a genuine flip.
    for seq in 1..=(EPOCH_CAPACITY as u64 + 10) {
        let p = if seq % 2 == 0 {
            policy(&["a"])
        } else {
            policy(&["b"])
        };
        log.observe(seq, &p);
    }
    let epochs = log.epochs();
    assert_eq!(epochs.len(), EPOCH_CAPACITY);
    let oldest = epochs[0].seq_at_flip;
    assert!(oldest > 0, "the origin epoch was dropped: {oldest}");
    assert!(
        !log.coverage(0, oldest + 1).covered,
        "a range below the retained log must not inherit the oldest survivor's policy"
    );
    assert!(log.coverage(oldest, oldest + 1).covered);
}

#[test]
fn the_verdict_set_is_closed_and_defaults_to_the_safe_end() {
    for (v, s) in [
        (EvidenceVerdict::Complete, "complete"),
        (EvidenceVerdict::Evicted, "evicted"),
        (EvidenceVerdict::Filtered, "filtered"),
        (EvidenceVerdict::CannotVerify, "cannot_verify"),
    ] {
        assert_eq!(v.as_str(), s);
        assert_eq!(EvidenceVerdict::parse(s), Some(v));
    }
    // A closed set has to refuse what is not in it from the wire, not merely
    // never produce it.
    assert!(EvidenceVerdict::parse("partial").is_none());
    // A reply from a broker too old to send the field must not read as a
    // clean bill of health.
    assert_eq!(EvidenceVerdict::default(), EvidenceVerdict::CannotVerify);
}

#[test]
fn the_verdict_orders_by_the_strongest_reason_it_is_not_complete() {
    let clean = EpochCoverage {
        covered: true,
        narrowed: Vec::new(),
    };
    let narrowed = EpochCoverage {
        covered: true,
        narrowed: vec![NarrowedSpan {
            from_seq: 1,
            to_seq: 2,
            filters: vec!["l>=ERROR".into()],
        }],
    };
    let uncovered = EpochCoverage {
        covered: false,
        narrowed: Vec::new(),
    };

    assert_eq!(
        evidence_verdict(Some(&clean), false, false),
        EvidenceVerdict::Complete
    );
    assert_eq!(
        evidence_verdict(Some(&clean), true, false),
        EvidenceVerdict::Evicted
    );
    assert_eq!(
        evidence_verdict(Some(&clean), false, true),
        EvidenceVerdict::CannotVerify
    );
    assert_eq!(
        evidence_verdict(Some(&narrowed), true, false),
        EvidenceVerdict::Filtered
    );
    assert_eq!(
        evidence_verdict(Some(&uncovered), false, false),
        EvidenceVerdict::CannotVerify
    );
    // An empty store: no window, so no verdict about one. Every clause of
    // `complete` is otherwise vacuously satisfied by it.
    assert_eq!(
        evidence_verdict(None, false, false),
        EvidenceVerdict::CannotVerify
    );
}

#[test]
fn an_epoch_without_a_seq_narrows_nothing() {
    let mut log = EpochLog::new(0);
    log.observe(5, &policy(&["a"]));
    log.observe(10, &policy(&["b"]));
    log.observe(9, &policy(&["c"]));
    let span = |from_seq: u64, to_seq: u64, filter: &str| NarrowedSpan {
        from_seq,
        to_seq,
        filters: vec![filter.to_string()],
    };
    assert_eq!(
        log.coverage(1, 20),
        EpochCoverage { covered: true, narrowed: vec![span(1, 9, "a"), span(10, 20, "c")] }
    );
    // The same at the very first seq.
    let mut log = EpochLog::new(0);
    log.observe(0, &policy(&["a"]));
    log.observe(0, &policy(&["b"]));
    assert_eq!(log.coverage(0, 5).narrowed, vec![span(0, 5, "b")]);
}
