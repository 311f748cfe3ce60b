use logmon_core::clock::Timestamp;
use logmon_core::gelf::message::{Level, LogEntry};
use logmon_core::json::Json;
use logmon_core::logs::fields::{
    summarize, FieldMap, FieldSource, FieldStats, ValueKind, BUILTIN_COUNT, DISTINCT_CAP, NAME_CAP,
};

fn now() -> Timestamp {
    Timestamp::new(1_785_000_000, 0).unwrap()
}

fn json(text: &str) -> Json {
    Json::parse(text.as_bytes()).unwrap()
}

fn entry(msg: &str, extra: &[(&str, Json)]) -> LogEntry {
    let mut e = LogEntry::synthetic(Level::Info, msg, now());
    for (k, v) in extra {
        e.additional_fields.insert((*k).to_string(), v.clone());
    }
    e
}

fn coverage_pct(row: &FieldStats) -> f64 {
    if row.matched == 0 {
        0.0
    } else {
        row.present as f64 * 100.0 / row.matched as f64
    }
}

/// Look up by `(source, name)` — the row's real identity. A helper keyed on
/// the name alone would have hidden the collision this model exists to fix.
fn row<'a>(rows: &'a [FieldStats], source: FieldSource, name: &str) -> &'a FieldStats {
    match rows
        .iter()
        .find(|r| r.field == name && r.source == source)
    {
        Some(r) => r,
        None => {
            let have: Vec<String> = rows
                .iter()
                .map(|r| format!("{:?}/{}", r.source, r.field))
                .collect();
            panic!("no {source:?} row for `{name}`; got {have:?}")
        }
    }
}

fn add<'a>(rows: &'a [FieldStats], name: &str) -> &'a FieldStats {
    row(rows, FieldSource::Additional, name)
}

/// coverage and distinct are exact over a known fixture.
#[test]
fn coverage_and_distinct_are_exact() {
    let logs = vec![
        entry("a", &[("kind", Json::Text("x".to_string()))]),
        entry("b", &[("kind", Json::Text("y".to_string()))]),
        entry("c", &[]),
        entry("d", &[("kind", Json::Text("x".to_string()))]),
    ];
    let rows = summarize(&logs, logs.len(), 3);

    let k = add(&rows, "kind");
    assert_eq!(k.present, 3, "three of four carry it");
    assert_eq!(k.distinct, Some(2), "x and y");
    assert!(
        (coverage_pct(k) - 75.0).abs() < 1e-9,
        "3/4 is 75%, got {}",
        coverage_pct(k)
    );
    assert_eq!(k.kind, ValueKind::Text);
    assert_eq!(k.top_values.first().map(|t| t.value.as_str()), Some("x"));
    assert_eq!(k.top_values.first().map(|t| t.count), Some(2));
}

/// `distinct` read off the TRUNCATED top-values list would report `min(distinct, top_values)` — always
/// plausible, never above the row count, and wrong for every field with
/// more values than rows requested.
#[test]
fn distinct_counts_all_values_not_just_the_reported_ones() {
    let logs: Vec<LogEntry> = (0..10)
        .map(|i| entry("m", &[("id", Json::Text(format!("v{i}")))]))
        .collect();
    let rows = summarize(&logs, logs.len(), 2);
    let f = add(&rows, "id");
    assert_eq!(f.top_values.len(), 2, "only two rows were asked for");
    assert_eq!(
        f.distinct,
        Some(10),
        "but ten distinct values were seen -- distinct must be counted \
         before truncation, not derived from the reported rows"
    );
}

/// a built-in absent from the data reports 0%, never omission.
///
/// The property the whole tool exists for: `omitted` and `present but never
/// populated` are different facts and must not render the same.
#[test]
fn an_absent_builtin_is_reported_at_zero_rather_than_dropped() {
    let logs = vec![entry("a", &[("file", Json::Text("src/x.rs".to_string()))])];
    let rows = summarize(&logs, logs.len(), 3);

    // `file` here is an ADDITIONAL field; the built-in of the same name is
    // never populated. Both facts have to survive.
    let builtin_absent = row(&rows, FieldSource::Builtin, "facility");
    assert_eq!(builtin_absent.present, 0);
    assert_eq!(coverage_pct(builtin_absent), 0.0);
    assert_eq!(
        add(&rows, "file").present,
        1,
        "the additional field is populated, which is exactly the confusion \
         this row set exists to expose"
    );
}

/// promoted fields appear despite being removed from
/// `additional_fields` at parse time.
#[test]
fn promoted_fields_are_reported_and_marked() {
    let mut e = LogEntry::synthetic(Level::Info, "m", now());
    e.trace_id = Some(0x1234);
    let rows = summarize(&vec![e], 1, 3);
    let t = row(&rows, FieldSource::Promoted, "trace_id");
    assert_eq!(t.present, 1);
    assert_eq!(
        t.selector, None,
        "NO log filter selector reaches trace_id -- the parser removes it \
         from additional_fields, so `trace_id=x` would match nothing and \
         report no error. A row claiming a selector here would manufacture \
         the silent-empty bucket this row exists to prevent"
    );
    assert_eq!(
        row(&rows, FieldSource::Promoted, "span_id").selector,
        None
    );
}

/// A name is not an identity.
///
/// GELF strips `_`, so a payload with both `file` and `_file` yields a
/// built-in AND an additional field of the same name. Keyed on the name
/// alone they would merge — coverage would reach 200% and the built-in's row
/// would be absorbed, hiding exactly the fact this read exists to show.
#[test]
fn a_builtin_and_a_same_named_additional_field_stay_separate() {
    let mut e = LogEntry::synthetic(Level::Info, "m", now());
    e.file = Some("builtin.rs".into());
    e.additional_fields
        .insert("file".into(), Json::Text("extra.rs".to_string()));

    let rows = summarize(&vec![e], 1, 3);

    let builtin = row(&rows, FieldSource::Builtin, "file");
    let extra = add(&rows, "file");

    assert_eq!(builtin.present, 1, "one record, not two");
    assert_eq!(extra.present, 1, "one record, not two");
    for r in [builtin, extra] {
        assert!(
            coverage_pct(r) <= 100.0,
            "coverage cannot exceed 100% of matched; got {}",
            coverage_pct(r)
        );
    }
    assert_eq!(builtin.selector.as_deref(), Some("fi"));
    assert_eq!(
        extra.selector.as_deref(),
        Some("file"),
        "different selectors reach these two, which is why they cannot \
         share a row"
    );
    assert_eq!(builtin.top_values.first().map(|t| t.value.as_str()), Some("builtin.rs"));
    assert_eq!(extra.top_values.first().map(|t| t.value.as_str()), Some("extra.rs"));
}

/// A never-populated built-in states its SCHEMA type rather than claiming
/// to be "neither a dimension nor a number".
#[test]
fn an_unpopulated_builtin_keeps_its_known_kind() {
    let rows = summarize(&vec![LogEntry::synthetic(Level::Info, "m", now())], 1, 3);
    let line = row(&rows, FieldSource::Builtin, "line");
    assert_eq!(line.present, 0);
    assert_eq!(
        line.kind,
        ValueKind::Integer,
        "`line` is a u32; reporting `other` because this buffer holds none \
         of it is a false claim about the schema"
    );
}

/// Integers and floats under one name are still summable.
#[test]
fn integer_and_float_merge_to_number_not_mixed() {
    let logs = vec![
        entry("a", &[("d", json("100"))]),
        entry("b", &[("d", json("100.5"))]),
    ];
    assert_eq!(
        add(&summarize(&logs, 2, 3), "d").kind,
        ValueKind::Number,
        "one quantity emitted with and without a decimal point sums fine; \
         `mixed` would warn at the one case where the warning is false"
    );
}

/// Field NAMES are capped like values are, and the cap is announced.
#[test]
fn field_names_are_capped_and_the_cap_is_reported() {
    let logs: Vec<LogEntry> = (0..NAME_CAP + 50)
        .map(|i| entry("m", &[(Box::leak(format!("f{i}").into_boxed_str()), json("1"))]))
        .collect();
    let mut map = FieldMap::new();
    for e in &logs {
        map.observe(e);
    }
    assert!(
        map.names_capped(),
        "an unbounded name table is how a per-record key turns a bounded \
         read into a leak"
    );
    let rows = map.finish(logs.len(), 3);
    assert!(rows.len() <= NAME_CAP, "got {} rows", rows.len());
}

/// An additional field whose NAME collides with a DSL selector gets no
/// selector, because none reaches it.
///
/// GELF validates nothing after the `_`, so `_h` produces an additional
/// field named `h` — and `h=value` resolves to `Selector::Host`, matching a
/// different field silently and with no error. Claiming `h` here would hand
/// the caller a filter that returns nothing.
#[test]
fn an_additional_field_named_like_a_selector_gets_no_selector() {
    for reserved in ["h", "m", "fi", "ln", "fa", "fm", "mfm", "sn", "sv", "st", "sk", "l"] {
        let e = entry("x", &[(reserved, Json::Text("SENTINEL".to_string()))]);
        let rows = summarize(&vec![e], 1, 3);
        let r = add(&rows, reserved);
        assert_eq!(
            r.selector, None,
            "`{reserved}=SENTINEL` does not reach this field -- it resolves \
             to a built-in selector (or fails to parse), so offering it \
             would be a filter that silently matches nothing"
        );
        assert_eq!(r.present, 1, "the field is still REPORTED, just not filterable");
    }
}

/// And an ordinary name keeps its selector, or the check above would be
/// indistinguishable from returning `None` for everything.
#[test]
fn an_ordinary_additional_field_keeps_its_name_as_selector() {
    let e = entry("x", &[("request_id", Json::Text("abc".to_string()))]);
    let rows = summarize(&vec![e], 1, 3);
    assert_eq!(
        add(&rows, "request_id").selector.as_deref(),
        Some("request_id")
    );
}

/// past the cap, `distinct` is `null` rather than a partial count.
#[test]
fn past_the_cap_distinct_is_unknown_not_wrong() {
    let logs: Vec<LogEntry> = (0..DISTINCT_CAP + 50)
        .map(|i| entry("m", &[("u", Json::Text(format!("v{i}")))]))
        .collect();
    let rows = summarize(&logs, logs.len(), 3);
    assert_eq!(
        add(&rows, "u").distinct,
        None,
        "a capped count reported as a total is a wrong number wearing a \
         plausible one"
    );
    assert_eq!(add(&rows, "u").present, logs.len(), "presence is still exact");
}

/// disagreeing value types report `mixed`, so nothing downstream
/// assumes the field can be summed.
#[test]
fn mixed_types_are_reported_as_mixed() {
    let logs = vec![
        entry("a", &[("n", json("1"))]),
        entry("b", &[("n", Json::Text("two".to_string()))]),
    ];
    let rows = summarize(&logs, logs.len(), 3);
    assert_eq!(add(&rows, "n").kind, ValueKind::Mixed);

    let ints = vec![entry("a", &[("n", json("1"))]), entry("b", &[("n", json("2"))])];
    assert_eq!(
        add(&summarize(&ints, 2, 3), "n").kind,
        ValueKind::Integer,
        "and a consistent field keeps its type, or `mixed` means nothing"
    );
}

/// two identical calls agree, including where counts tie.
#[test]
fn fields_ordering_is_stable_across_identical_calls() {
    let logs = vec![
        entry("m", &[("a", json("1")), ("b", json("1"))]),
        entry("m", &[("a", json("2")), ("b", json("2"))]),
    ];
    let first: Vec<String> = summarize(&logs, 2, 3).into_iter().map(|r| r.field).collect();
    let second: Vec<String> = summarize(&logs, 2, 3).into_iter().map(|r| r.field).collect();
    assert_eq!(
        first, second,
        "`a` and `b` tie on coverage; leaving the order to HashMap iteration \
         makes two identical calls disagree"
    );
}

/// `Default` must not bypass the built-in seeding.
#[test]
fn default_seeds_the_builtins_like_new() {
    let rows = FieldMap::default().finish(0, 3);
    assert_eq!(rows.len(), BUILTIN_COUNT);
}
