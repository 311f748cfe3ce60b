use logmon_core::clock::Timestamp;
use logmon_core::gelf::message::{Level, LogEntry};
use logmon_core::json::Json;
use logmon_core::logs::fields::{self, FieldSource};
use logmon_core::logs::profile::{
    axis_value, render, summarize, Axis, Bounds, GroupMap, LevelCounts, LogGroup, ABSENT_LABEL,
    KEY_CAP, OVERFLOW_LABEL,
};

fn now() -> Timestamp {
    Timestamp::new(1_785_000_000, 0).unwrap()
}

fn plus(t: Timestamp, secs: i64) -> Timestamp {
    Timestamp::new(t.secs() + secs, t.nanos()).unwrap()
}

fn text(s: &str) -> Json {
    Json::Text(s.to_string())
}

fn json(s: &str) -> Json {
    Json::parse(s.as_bytes()).unwrap()
}

/// `top_n` above any fixture's group count.
///
/// Whole-population invariants are asserted over the UNTRUNCATED set: the
/// returned rows sum to `matched` only when the real-key count is at most
/// `top_n`, so asserting it against a truncated reply would be a test that
/// passes only on small fixtures — the trap `scanned` exists to avoid one
/// level up.
const ALL_ROWS: usize = 10_000;

fn at(seq: u64, msg: &str, extra: &[(&str, Json)]) -> LogEntry {
    let mut e = LogEntry::synthetic(Level::Info, msg, now());
    e.seq = seq;
    for (k, v) in extra {
        e.additional_fields.insert((*k).to_string(), v.clone());
    }
    e
}

fn row<'a>(rows: &'a [LogGroup], key: &str) -> &'a LogGroup {
    match rows.iter().find(|r| r.key == key) {
        Some(r) => r,
        None => {
            let have: Vec<&str> = rows.iter().map(|r| r.key.as_str()).collect();
            panic!("no row keyed `{key}`; got {have:?}")
        }
    }
}

fn field_axis(names: &[&str]) -> (Axis, Vec<String>) {
    (Axis::Field, names.iter().map(|s| (*s).to_string()).collect())
}

/// every matched record lands in exactly one row, including the
/// ones lacking the axis.
///
/// These two are one test because they are one property: dropping the
/// records that lack the axis is what breaks reconciliation, and on the
/// measured buffer that is 86% of them.
#[test]
fn every_matched_record_lands_in_exactly_one_row() {
    let logs = vec![
        at(1, "a", &[("kind", text("x"))]),
        at(2, "b", &[("kind", text("y"))]),
        at(3, "c", &[]),
        at(4, "d", &[("kind", text("x"))]),
    ];
    let (axis, keys) = field_axis(&["kind"]);
    let (rows, total) = summarize(&logs, axis, keys, ALL_ROWS);

    let summed: usize = rows.iter().map(|r| r.count).sum();
    assert_eq!(summed, logs.len(), "rows must account for every record: {rows:?}");
    assert_eq!(total, 3, "x, y and the absent bucket");
    assert_eq!(row(&rows, "x").count, 2);
    assert_eq!(
        row(&rows, ABSENT_LABEL).count,
        1,
        "the record lacking `kind` is a row, not a silent drop"
    );
}

/// a field valued literally `__absent__` must not merge with the
/// reserved bucket.
///
/// `render` returns a string value unchanged, so a `String` key would put
/// these records in the same bucket as the ones genuinely lacking the
/// field, and the denominator would lie while every count still looked
/// plausible. The typed key is what prevents it.
#[test]
fn a_literal_absent_value_does_not_merge_with_the_reserved_bucket() {
    let logs = vec![
        at(1, "a", &[("kind", text(ABSENT_LABEL))]),
        at(2, "b", &[]),
    ];
    let (axis, keys) = field_axis(&["kind"]);
    let (rows, total) = summarize(&logs, axis, keys, ALL_ROWS);

    assert_eq!(total, 2, "a real `__absent__` value and the bucket are two keys");
    assert_eq!(
        rows.iter().filter(|r| r.key == ABSENT_LABEL).count(),
        2,
        "they render identically -- which is why the KEY, not the label, has \
         to keep them apart: {rows:?}"
    );
    for r in &rows {
        assert_eq!(r.count, 1, "neither absorbed the other");
    }
}

/// past the cap, keys fold to `__overflow__`, distinctly from
/// `__absent__`, and the fold is announced.
///
/// **The key-less record is appended LAST, after the cap is full**, and
/// that ordering is the test. Put first, `__absent__` is already in the
/// table and survives whatever the cap does; put last it is a *new* key
/// arriving at a full table, and a cap that does not exempt the reserved
/// buckets folds it into `__overflow__` — silently answering "lacked the
/// field" with "folded past the cap". That is how this was found.
#[test]
fn past_the_cap_keys_fold_to_overflow_and_the_fold_is_announced() {
    let mut logs: Vec<LogEntry> = (0..KEY_CAP + 50)
        .map(|i| at(i as u64, "m", &[("u", text(&format!("v{i}")))]))
        .collect();
    logs.push(at(999_999, "no key here", &[]));

    let (axis, keys) = field_axis(&["u"]);
    let mut map = GroupMap::new(axis, keys);
    for e in &logs {
        map.observe(e);
    }
    assert!(map.cardinality_capped(), "the fold must be announced");
    let matched = map.matched();
    let (rows, _) = map.finish(ALL_ROWS);

    assert!(
        rows.iter().any(|r| r.key == OVERFLOW_LABEL),
        "the folded keys get a bucket"
    );
    assert_eq!(
        row(&rows, ABSENT_LABEL).count,
        1,
        "and it is NOT the same bucket as `lacked the field entirely`"
    );
    let summed: usize = rows.iter().map(|r| r.count).sum();
    assert_eq!(summed, matched, "the fold must not lose records");
}

/// `groups_total` counts before truncation, reserved buckets included.
#[test]
fn groups_total_counts_before_truncation() {
    let mut logs: Vec<LogEntry> = (0..50)
        .map(|i| at(i, "m", &[("k", text(&format!("v{i}")))]))
        .collect();
    logs.push(at(500, "m", &[]));

    let (axis, keys) = field_axis(&["k"]);
    let (rows, total) = summarize(&logs, axis, keys, 5);
    assert_eq!(total, 51, "50 values plus the absent bucket");
    assert_eq!(
        rows.len(),
        6,
        "5 real rows, and the reserved bucket does NOT consume one of them: {rows:?}"
    );
    assert!(
        total > rows.len(),
        "which is exactly the case `groups_total` exists to make visible"
    );
}

/// These share one fixture, and the fixture is the test.
///
/// Append order is deliberately not seq order, and timestamp order
/// contradicts both. On a seq-ordered fixture "the record at max(seq)" and
/// "the last record visited" coincide, so the obvious wrong implementation
/// passes; and taking `max(timestamp)` picks a different record than
/// `timestamp@max(seq)` only when the two orders disagree.
fn out_of_order() -> Vec<LogEntry> {
    let base = now();
    let mut v = Vec::new();
    for (seq, msg, secs) in [
        (30u64, "middle", 100i64),
        (10, "oldest by seq", 300), // newest timestamp, oldest seq
        (50, "newest by seq", 1),   // oldest timestamp, newest seq
        (20, "second", 200),
    ] {
        let mut e = at(seq, msg, &[("k", text("one"))]);
        e.timestamp = plus(base, secs);
        v.push(e);
    }
    v
}

#[test]
fn the_ends_of_a_row_are_min_and_max_seq_not_visit_order() {
    let logs = out_of_order();
    let (axis, keys) = field_axis(&["k"]);
    let (rows, _) = summarize(&logs, axis, keys, ALL_ROWS);
    let r = row(&rows, "one");
    assert_eq!(r.first_seq, 10, "min seq, not the first visited");
    assert_eq!(r.last_seq, 50, "max seq, not the last visited");
}

#[test]
fn each_exemplar_comes_from_the_record_at_its_own_end() {
    let logs = out_of_order();
    let (axis, keys) = field_axis(&["k"]);
    let (rows, _) = summarize(&logs, axis, keys, ALL_ROWS);
    let r = row(&rows, "one");
    assert_eq!(r.first_exemplar, "oldest by seq");
    assert_eq!(r.last_exemplar, "newest by seq");
}

#[test]
fn each_timestamp_comes_from_the_same_record_as_its_seq() {
    let logs = out_of_order();
    let by_seq = |s: u64| logs.iter().find(|e| e.seq == s).unwrap();
    let (axis, keys) = field_axis(&["k"]);
    let (rows, _) = summarize(&logs, axis, keys, ALL_ROWS);
    let r = row(&rows, "one");
    assert_eq!(
        r.first_time,
        by_seq(10).timestamp,
        "the timestamp must come from the record at first_seq, NOT be \
         min(timestamp) -- here the two disagree, which is the point"
    );
    assert_eq!(r.last_time, by_seq(50).timestamp);
    assert!(
        r.last_time.before(&r.first_time),
        "the fixture is only meaningful if timestamp order contradicts seq \
         order; if this fails the other two assertions prove nothing"
    );
}

/// The WHOLE-POPULATION bounds, which are a different quantity from any
/// row's.
///
/// A mutation campaign replaced `bounds()` with `Bounds::default()` and all
/// 30 tests stayed green: every reply would have carried `first_seq: null`
/// regardless of what matched, and nothing asserted it. The integration
/// test whose name suggested it should — "carries its evidence and both
/// ends of each row" — reads its `first_seq` off a ROW.
///
/// Driven on the out-of-order fixture so min/max is distinguishable from
/// visit order here too, and asserted across two groups so it cannot be
/// satisfied by one row's bounds.
#[test]
fn the_population_bounds_span_every_matched_record() {
    let mut logs = out_of_order();
    // A second group, and the extremes of the population belong to it.
    let mut low = at(3, "lowest", &[("k", text("other"))]);
    low.timestamp = plus(logs[0].timestamp, -500);
    let mut high = at(90, "highest", &[("k", text("other"))]);
    high.timestamp = plus(logs[0].timestamp, 500);
    logs.push(low);
    logs.push(high);

    let (axis, keys) = field_axis(&["k"]);
    let mut map = GroupMap::new(axis, keys);
    for e in &logs {
        map.observe(e);
    }
    let b = map.bounds();
    assert_eq!(b.first_seq, Some(3), "min over the whole matched set");
    assert_eq!(b.last_seq, Some(90), "max over the whole matched set");

    let by_seq = |s: u64| logs.iter().find(|e| e.seq == s).unwrap().timestamp;
    assert_eq!(
        b.first_time,
        Some(by_seq(3)),
        "and the times come from those same records, not from min/max timestamp"
    );
    assert_eq!(b.last_time, Some(by_seq(90)));

    // Without this the assertions above would hold for a bounds() that
    // simply tracked one group.
    let (rows, _) = map.finish(ALL_ROWS);
    assert!(rows.len() > 1, "the extremes must span groups: {rows:?}");
}

/// An empty population has no bounds, rather than bounds of zero.
#[test]
fn an_empty_population_has_no_bounds() {
    let b = GroupMap::new(Axis::Level, Vec::new()).bounds();
    assert_eq!(b, Bounds::default());
    assert_eq!(b.first_seq, None, "not Some(0), which is a real seq");
}

/// a wholly-absent axis MEMBER is announced, named, per member.
#[test]
fn a_wholly_absent_field_axis_is_announced() {
    let logs = vec![at(1, "a", &[("kind", text("x"))])];
    let (axis, keys) = field_axis(&["targett"]);
    let mut map = GroupMap::new(axis, keys);
    for e in &logs {
        map.observe(e);
    }
    let s = map.suppressed();
    assert_eq!(s.len(), 1, "one entry, for the one absent member: {s:?}");
    assert!(s[0].reason.contains("targett"), "it must NAME it: {s:?}");
    assert_eq!(
        s[0].remedy, None,
        "nothing would help, and `remedy`'s own contract is `absent when \
         nothing would help` -- a `did you mean` with no target misdirects"
    );
}

/// the hole the design gate found: with one good key and one typo, the
/// TUPLE is never wholly absent, so a per-axis check fires nothing and the
/// reply looks like a valid two-dimensional answer.
#[test]
fn a_wholly_absent_tuple_member_is_announced_by_name() {
    let logs = vec![
        at(1, "a", &[("kind", text("x"))]),
        at(2, "b", &[("kind", text("y"))]),
    ];
    let (axis, keys) = field_axis(&["kind", "targett"]);
    let mut map = GroupMap::new(axis, keys);
    for e in &logs {
        map.observe(e);
    }
    let s = map.suppressed();
    assert_eq!(
        s.len(),
        1,
        "the present member must not be reported, or the warning means \
         nothing: {s:?}"
    );
    assert!(
        s[0].reason.contains("targett") && !s[0].reason.contains("kind"),
        "it must name the ABSENT member specifically: {s:?}"
    );

    let (rows, _) = map.finish(ALL_ROWS);
    assert!(
        rows.iter().all(|r| r.key.ends_with(ABSENT_LABEL)),
        "every row is partially absent -- which is exactly why nothing \
         fired before: {rows:?}"
    );
}

/// a built-in axis absent from the buffer, which is the
/// best-documented instance: `fi`/`ln`/`fa` match nothing on any emitter
/// that sends everything as underscore-prefixed extras.
#[test]
fn a_wholly_absent_builtin_axis_is_announced_with_the_sharp_remedy() {
    let logs = vec![at(1, "a", &[("line", Json::integer(42))])];
    let mut map = GroupMap::new(Axis::Line, Vec::new());
    for e in &logs {
        map.observe(e);
    }
    // No candidate map is passed in: the projection counted it on the same
    // walk, from the fixture's own additional `line` field. A caller-supplied
    // map is a second source for one fact, and this is the fact the remedy
    // is entirely made of.
    let s = map.suppressed();
    assert_eq!(s.len(), 1, "{s:?}");
    assert!(s[0].reason.contains("line"), "{s:?}");
    let remedy = s[0].remedy.as_ref().expect("a candidate exists, so a remedy does").to_text("100.00");
    assert!(
        remedy.contains("group_keys=[\"line\"]"),
        "the remedy must be the call that works: {remedy}"
    );
}

/// `trace_id` is the permanent no-candidate case: a closed-enum arm
/// cannot be a typo, and the parser removes it from `additional_fields`, so
/// no same-named field can ever exist to suggest.
#[test]
fn an_absent_trace_id_axis_gets_a_factual_reason_and_no_remedy() {
    let logs = vec![at(1, "background job", &[])];
    let mut map = GroupMap::new(Axis::TraceId, Vec::new());
    for e in &logs {
        map.observe(e);
    }
    let s = map.suppressed();
    assert_eq!(s.len(), 1);
    assert_eq!(s[0].remedy, None);
    assert!(
        !s[0].reason.contains("did you mean"),
        "a factual reason, never a suggestion with no target: {s:?}"
    );
}

/// an empty population warns about nothing. Every axis is absent from
/// it, and blaming the axis misdirects a reader whose problem is the filter.
#[test]
fn an_empty_population_produces_no_absent_axis_warning() {
    let (axis, keys) = field_axis(&["anything"]);
    let map = GroupMap::new(axis, keys);
    assert_eq!(map.matched(), 0);
    assert!(map.suppressed().is_empty());
}

/// a tuple keeps `__absent__` PER MEMBER rather than folding whole.
#[test]
fn a_partially_absent_tuple_keeps_its_present_member() {
    let logs = vec![at(1, "a", &[("kind", text("x"))])];
    let (axis, keys) = field_axis(&["kind", "region"]);
    let (rows, _) = summarize(&logs, axis, keys, ALL_ROWS);
    assert_eq!(
        rows[0].key,
        format!("x / {ABSENT_LABEL}"),
        "folding the whole tuple would throw away the half that IS known"
    );
}

/// two identical calls agree, including where counts tie.
#[test]
fn profile_ordering_is_stable_across_identical_calls() {
    let logs = vec![
        at(1, "m", &[("k", text("a"))]),
        at(2, "m", &[("k", text("b"))]),
        at(3, "m", &[("k", text("c"))]),
    ];
    let (axis, keys) = field_axis(&["k"]);
    let once: Vec<String> = summarize(&logs, axis, keys.clone(), ALL_ROWS)
        .0
        .into_iter()
        .map(|r| r.key)
        .collect();
    let twice: Vec<String> = summarize(&logs, axis, keys, ALL_ROWS)
        .0
        .into_iter()
        .map(|r| r.key)
        .collect();
    assert_eq!(
        once, twice,
        "all three tie on count; leaving that to HashMap iteration makes \
         two identical calls disagree"
    );
}

/// per-group levels sum to the top-level levels, per level.
#[test]
fn per_group_levels_reconcile_with_the_whole_population() {
    let mut logs = vec![
        at(1, "a", &[("k", text("x"))]),
        at(2, "b", &[("k", text("y"))]),
        at(3, "c", &[]),
    ];
    logs[0].level = Level::Error;
    logs[1].level = Level::Warn;

    let (axis, keys) = field_axis(&["k"]);
    let mut map = GroupMap::new(axis, keys);
    for e in &logs {
        map.observe(e);
    }
    let whole = map.levels();
    let (rows, _) = map.finish(ALL_ROWS);

    let mut summed = LevelCounts::default();
    for r in &rows {
        summed.trace += r.levels.trace;
        summed.debug += r.levels.debug;
        summed.info += r.levels.info;
        summed.warn += r.levels.warn;
        summed.error += r.levels.error;
    }
    assert_eq!(summed, whole, "two counts of one population must agree");
    assert_eq!(whole.total(), logs.len());
    assert_eq!(whole.error, 1, "and the fixture must actually span levels");
    assert_eq!(whole.warn, 1);
}

/// a structured value is not a dimension: it folds to `__absent__`
/// and is announced, because folding it silently would make that bucket
/// mean two things with nothing saying so.
#[test]
fn a_structured_value_folds_to_absent_and_is_announced() {
    let logs = vec![
        at(1, "a", &[("k", json("{\"nested\": 1}"))]),
        at(2, "b", &[("k", json("[\"a\", \"b\"]"))]),
        at(3, "c", &[("k", text("plain"))]),
    ];
    let (axis, keys) = field_axis(&["k"]);
    let mut map = GroupMap::new(axis, keys);
    for e in &logs {
        map.observe(e);
    }
    let s = map.suppressed();
    assert_eq!(s.len(), 1, "{s:?}");
    assert!(s[0].reason.contains('2'), "it must say HOW MANY: {s:?}");

    let (rows, _) = map.finish(ALL_ROWS);
    assert_eq!(row(&rows, ABSENT_LABEL).count, 2);
    assert_eq!(row(&rows, "plain").count, 1);
}

/// an ungrouped call returns no rows at all, rather than one.
#[test]
fn an_ungrouped_call_returns_no_rows_but_still_counts() {
    let logs = vec![at(1, "a", &[]), at(2, "b", &[])];
    let mut map = GroupMap::new(Axis::Overall, Vec::new());
    for e in &logs {
        map.observe(e);
    }
    assert_eq!(map.matched(), 2, "the population is still described");
    assert_eq!(map.levels().info, 2);
    let (rows, total) = map.finish(ALL_ROWS);
    assert!(rows.is_empty());
    assert_eq!(total, 0, "the handler renders this as `null`, not `0`");
}

/// **The cross-tool identity.** For every built-in axis, the group keys
/// this projection produces must equal the values `logs.fields` reports for
/// the same row.
///
/// One assertion pins level spelling (`Display`, not `Debug`), trace/span
/// id zero-padding, `line` stringification and the empty-`host` rule at
/// once — and it fails on drift in EITHER direction. Nothing inside either
/// tool can see this: both are internally consistent while disagreeing with
/// each other, which is the failure a caller meets one call apart.
#[test]
fn group_keys_agree_with_what_logs_fields_reports() {
    let mut e = LogEntry::synthetic(Level::Warn, "a message", now());
    e.seq = 7;
    e.host = "box-1".into();
    e.facility = Some("app".into());
    e.file = Some("src/main.rs".into());
    e.line = Some(42);
    e.trace_id = Some(0x1234);
    e.span_id = Some(0xabcd);
    let logs = vec![e];

    let stats = fields::summarize(&logs, 1, 50);
    let expected = |source: FieldSource, name: &str| -> Vec<String> {
        stats
            .iter()
            .find(|r| r.source == source && r.field == name)
            .unwrap_or_else(|| panic!("logs.fields has no {source:?} row for `{name}`"))
            .top_values
            .iter()
            .map(|t| t.value.clone())
            .collect()
    };

    for (axis, source, name) in [
        (Axis::Level, FieldSource::Builtin, "level"),
        (Axis::Message, FieldSource::Builtin, "message"),
        (Axis::Host, FieldSource::Builtin, "host"),
        (Axis::Facility, FieldSource::Builtin, "facility"),
        (Axis::File, FieldSource::Builtin, "file"),
        (Axis::Line, FieldSource::Builtin, "line"),
        (Axis::TraceId, FieldSource::Promoted, "trace_id"),
        (Axis::SpanId, FieldSource::Promoted, "span_id"),
    ] {
        let (rows, _) = summarize(&logs, axis, Vec::new(), ALL_ROWS);
        let mut got: Vec<String> = rows
            .iter()
            .filter(|r| r.key != ABSENT_LABEL && r.key != OVERFLOW_LABEL)
            .map(|r| r.key.clone())
            .collect();
        let mut want = expected(source, name);
        got.sort();
        want.sort();
        assert_eq!(
            got, want,
            "`{}` disagrees with what logs.fields reports for {source:?}/{name} \
             -- an agent reading the map and then measuring would get two \
             different vocabularies one call apart",
            axis.as_str()
        );
    }
}

/// The half of that identity which a populated fixture cannot show: `logs.fields` reports
/// an empty `host` at 0% coverage, so the profile must treat it as absent
/// rather than as a group keyed on the empty string.
#[test]
fn an_empty_host_is_absent_in_both_tools() {
    let mut e = LogEntry::synthetic(Level::Info, "m", now());
    e.host = String::new();
    let logs = vec![e];

    let stats = fields::summarize(&logs, 1, 3);
    let host = stats
        .iter()
        .find(|r| r.source == FieldSource::Builtin && r.field == "host")
        .expect("host row");
    assert_eq!(host.present, 0, "logs.fields calls an empty host absent");

    let (rows, _) = summarize(&logs, Axis::Host, Vec::new(), ALL_ROWS);
    assert_eq!(
        rows.iter().map(|r| r.key.as_str()).collect::<Vec<_>>(),
        vec![ABSENT_LABEL],
        "so the profile must too -- an `\"\"` group would be a value the map \
         says does not exist: {rows:?}"
    );
}

/// The axis vocabulary is a single enumeration, and `parse` must round-trip
/// every arm it advertises. A new variant is a compile error at `as_str`;
/// this catches a stale `ALL` or a `parse` arm that never matches.
#[test]
fn every_advertised_axis_parses_back() {
    for a in Axis::all() {
        assert_eq!(Axis::parse(a.as_str()), Some(a), "{}", a.as_str());
    }
    assert_eq!(Axis::parse(""), Some(Axis::Overall), "the empty spelling");
    assert_eq!(Axis::parse("LEVEL"), None, "and it is case-sensitive");
    assert!(Axis::accepted().contains("none"), "{}", Axis::accepted());
}

#[test]
fn a_remedy_names_the_call_and_its_coverage() {
    let mut map = GroupMap::new(Axis::File, Vec::new());
    map.observe(&at(1, "a", &[("file", text("main.rs"))]));
    map.observe(&at(2, "b", &[]));
    let s = map.suppressed();
    assert_eq!(s[0].field, "group_keys[0]");
    assert_eq!(
        s[0].reason,
        "`file` did not appear in any of the 2 matched records, so every row is `__absent__`"
    );
    let remedy = s[0].remedy.as_ref().unwrap();
    assert_eq!((remedy.covering, remedy.matched), (1, 2));
    assert_eq!(
        remedy.to_text("50.00"),
        "an additional field named `file` covers 50.00% — use group_by=\"field\", \
         group_keys=[\"file\"]"
    );
}

#[test]
fn values_render_as_they_are_shown() {
    assert_eq!(render(&text("plain")), "plain");
    assert_eq!(render(&Json::integer(7)), "7");
    assert_eq!(render(&json("{\"a\":[true,null]}")), "{\"a\":[true,null]}");
    let mut e = LogEntry::synthetic(Level::Warn, "m", now());
    e.trace_id = Some(0x1234);
    assert_eq!(axis_value(Axis::Level, &e).as_deref(), Some("WARN"));
    assert_eq!(
        axis_value(Axis::TraceId, &e).as_deref(),
        Some("00000000000000000000000000001234")
    );
    assert_eq!(axis_value(Axis::SpanId, &e), None);
}
