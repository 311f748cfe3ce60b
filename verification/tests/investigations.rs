use logmon_core::clock::Timestamp;
use logmon_core::daemon::domain::{Domain, DomainConfig, DomainId, DomainRegistry, DomainSource};
use logmon_core::daemon::rpc::cases::{
    capture_case, capture_window, case_collector_lines, neighbourhood, notes_of_case, read_case,
    resolve_case_anchor, window_count, Anchor, AnchorKind, CaseNote, MAX_CASE_WINDOW,
};
use logmon_core::daemon::rpc::collectors::{
    admit_collector_filter, allowances_of, arms_of_document, collectors_add, collectors_edit,
    collectors_snapshot, finish_edit, ingest_basis, keys_after_edit, level_of, nesting,
    orphan_note, parse_arm, resolve_arm, runs_left_out, suppressed_by_recording, traces_profile,
    window_loss, ArmSpec, CollectorLevel, CollectorPlan, CollectorRefusal, Grouping,
};
use logmon_core::daemon::rpc::params::ThresholdChange;
use logmon_core::daemon::rpc::traces::{
    export_spans, filter_without_cursor, logs_of_trace, plan_spans_export, spans_context,
    trace_parts, traces_get, traces_logs, traces_recent,
};
use logmon_core::engine::epoch::{EvidenceVerdict, FilterPolicy};
use logmon_core::engine::pipeline::LogPipeline;
use logmon_core::filter::parser::ParsedFilter;
use logmon_core::gelf::message::{Level, LogEntry};
use logmon_core::json::Json;
use logmon_core::receiver::metrics::{ReceiverSource, SendOutcome, TraceIngestLoss};
use logmon_core::span::types::{SpanEntry, SpanKind, SpanStatus};
use logmon_core::store::bookmarks::BookmarkStore;
use logmon_core::text_map::TextMap;

fn now() -> Timestamp {
    Timestamp::new(1_785_000_000, 0).unwrap()
}

fn json(text: &str) -> Json {
    Json::parse(text.as_bytes()).unwrap()
}

fn seqs(entries: &[LogEntry]) -> Vec<u64> {
    entries.iter().map(|e| e.seq).collect()
}

fn filled(capacity: usize, upto: u64) -> LogPipeline {
    let mut p = LogPipeline::new(capacity);
    let open = FilterPolicy::new(Vec::new());
    for _ in 0..upto {
        let seq = p.assign_seq();
        let mut e = LogEntry::synthetic(Level::Info, &format!("m{seq}"), now());
        e.seq = seq;
        e.trace_id = if seq % 2 == 0 { Some(5) } else { None };
        p.observe_policy(seq, &open);
        p.append_to_store(e);
    }
    p
}

fn span(span_id: u64, parent: Option<u64>) -> SpanEntry {
    SpanEntry {
        seq: span_id,
        trace_id: 1,
        span_id,
        parent_span_id: parent,
        start_time: now(),
        end_time: now(),
        name: "x".into(),
        kind: SpanKind::Internal,
        service_name: "s".into(),
        status: SpanStatus::Unset,
        attributes: TextMap::new(),
        events: vec![],
    }
}

fn domains() -> DomainRegistry {
    let mut r = DomainRegistry::new();
    r.insert(Domain::new(
        DomainConfig {
            name: DomainId::new("a").unwrap(),
            gelf_port: 0,
            otlp_grpc_port: 0,
            otlp_http_port: 0,
            log_buffer_size: 10,
            span_buffer_size: 10,
            source: DomainSource::Ephemeral,
        },
        0,
    ));
    r
}

#[test]
fn span_queries_take_no_cursor() {
    let mut b = BookmarkStore::new();
    let e = filter_without_cursor(
        &json(r#"{"filter":"c>=x"}"#),
        "traces.slow",
        &Vec::new(),
        &mut b,
        "me",
    )
    .unwrap_err();
    assert_eq!(e, "cursor qualifier not permitted in traces.slow");
    let (count, filter) = traces_recent(&json("{}"), &Vec::new(), &mut b, "me").unwrap();
    assert_eq!(count, 20);
    assert!(filter.is_none());
}

#[test]
fn a_trace_is_asked_for_in_hex() {
    let mut b = BookmarkStore::new();
    let q = traces_get(&json(r#"{"trace_id":"10"}"#), &Vec::new(), &mut b, "me").unwrap();
    assert_eq!((q.trace_id, q.include_logs), (16, true));
    let e = traces_get(&json(r#"{"trace_id":"?"}"#), &Vec::new(), &mut b, "me").unwrap_err();
    assert_eq!(e, "invalid trace_id: must be 32-char hex");
    let e = traces_get(&json("{}"), &Vec::new(), &mut b, "me").unwrap_err();
    assert_eq!(e, "missing required parameter: trace_id");
}

#[test]
fn a_trace_has_a_root_and_what_is_below_it() {
    let spans = vec![span(2, Some(1)), span(1, None), span(3, Some(2)), span(4, Some(1))];
    let parts = trace_parts(&spans);
    assert_eq!(parts.root, Some(1));
    let children: Vec<(usize, Vec<usize>)> =
        parts.children.into_iter().map(|c| (c.at, c.below)).collect();
    assert_eq!(children, vec![(0, vec![2]), (3, vec![])]);
}

#[test]
fn the_logs_of_a_trace_are_read_through_a_cursor() {
    let mut b = BookmarkStore::new();
    let (id, q) = traces_logs(
        &json(r#"{"trace_id":"5","filter":"c>=x"}"#),
        &Vec::new(),
        &mut b,
        "me",
    )
    .unwrap();
    let p = filled(10, 6);
    let logs = p.logs_by_trace_id(id);
    let (found, advanced) = logs_of_trace(&mut b, q.cursor_commit, &logs, &vec![true, false, true]);
    assert_eq!(seqs(&found), vec![2, 6]);
    assert_eq!(advanced, Some(6));
    assert_eq!(b.get("me/x"), Some(6));
}

#[test]
fn span_exports_say_whether_they_were_cut_short() {
    let mut b = BookmarkStore::new();
    let q = plan_spans_export(
        &json(r#"{"count":2,"from_seq":3}"#),
        &Vec::new(),
        &mut b,
        "me",
    )
    .unwrap();
    let r = export_spans(&q, &vec![true, true, true], Some(5));
    assert_eq!((r.at, r.matched), (vec![0, 1], 3));
    assert!(r.capped);
    assert_eq!(r.evicted_before_window, Some(5));
    let whole = export_spans(&q, &vec![true, true], Some(3));
    assert!(!whole.capped);
    assert_eq!(whole.evicted_before_window, None);
    assert_eq!(spans_context(&json(r#"{"seq":4}"#)), Ok((4, 5, 5)));
}

#[test]
fn a_case_needs_a_reason_and_an_absolute_directory() {
    let c = read_case(&json(r#"{"reason":" why ","dir":"/tmp/x","before":9000}"#)).unwrap();
    assert_eq!(c.reason, "why");
    assert_eq!((c.before.value, c.before.clamped), (MAX_CASE_WINDOW, true));
    assert_eq!((c.after.value, c.after.clamped), (350, false));
    let e = |p: &str| read_case(&json(p)).unwrap_err();
    assert!(e(r#"{"reason":" ","dir":"/x"}"#).starts_with("`reason` must not be empty"));
    assert!(e(r#"{"reason":"r","dir":"x"}"#).starts_with("`dir` must be an absolute path, and `x`"));
    assert_eq!(e("{}"), "missing required parameter: reason");
    assert_eq!(window_count(&json("{}"), "before").unwrap().value, 350);
}

fn anchor(p: &LogPipeline, b: &BookmarkStore, raw: &str) -> Result<Anchor, String> {
    resolve_case_anchor(p, b, Some(&json(raw)))
}

#[test]
fn an_anchor_is_tagged() {
    let p = filled(10, 6);
    let mut b = BookmarkStore::new();
    b.add("me", "mark", 3, false).unwrap();
    let a = anchor(&p, &b, r#"{"seq":4}"#).unwrap();
    assert_eq!((a.kind, a.seq, a.message.as_str()), (AnchorKind::Number, 4, "m4"));
    let a = anchor(&p, &b, r#"{"bookmark":"mark"}"#).unwrap();
    assert_eq!((a.kind.as_str(), a.seq), ("bookmark", 4));
    let a = anchor(&p, &b, r#"{"trace_id":"5"}"#).unwrap();
    assert_eq!((a.kind, a.of_many), (AnchorKind::TraceId, Some(3)));
    let e = |raw: &str| anchor(&p, &b, raw).unwrap_err();
    assert_eq!(e(r#"{"seq":99}"#), "no stored log entry has seq 99, so there is nothing to anchor on");
    assert_eq!(e(r#"{"bookmark":"gone"}"#), "no bookmark named `gone` on this domain");
    assert_eq!(e(r#"{"trace_id":"zz"}"#), "`zz` is not a hexadecimal trace id");
    assert_eq!(e(r#"{"trace_id":"6"}"#), "no stored log entry carries trace id `6`");
    assert!(e("{}").starts_with("`anchor` takes exactly one of"));
    assert!(e(r#"{"seq":1,"bookmark":"mark"}"#).contains("and 2 were given"));
    assert!(resolve_case_anchor(&p, &b, None).unwrap_err().starts_with("`anchor` is required"));
    b.add("me", "end", 6, false).unwrap();
    assert_eq!(
        anchor(&p, &b, r#"{"bookmark":"end"}"#).unwrap_err(),
        "bookmark `end` is at seq 6, and no stored entry follows it"
    );
}

#[test]
fn a_window_is_captured_around_its_anchor() {
    let p = filled(10, 8);
    let w = capture_window(&p, 4, 2, 1, Some(3)).unwrap();
    assert_eq!(seqs(&w.logs), vec![2, 3, 4, 5]);
    assert_eq!((w.from, w.to), (2, 5));
    assert_eq!(w.verdict, EvidenceVerdict::Complete);
    assert_eq!(w.spans_evicted_before_window, Some(3));
    assert!(w.narrowed_by.is_empty());
    assert_eq!(
        capture_window(&p, 77, 1, 1, None).unwrap_err(),
        "the anchor entry at seq 77 was evicted while the capture was being taken"
    );
    let b = BookmarkStore::new();
    let request = read_case(&json(r#"{"reason":"r","dir":"/x","before":1,"after":9999}"#)).unwrap();
    let c = capture_case(&p, &b, &request, Some(&json(r#"{"seq":4}"#)), None).unwrap();
    assert!(c.clamped);
    assert_eq!(seqs(&c.window.logs), vec![3, 4, 5, 6, 7, 8]);
    assert_eq!(seqs(&neighbourhood(&filled(100, 40).context_by_seq(20, 40, 40), 20)).len(), 21);
}

#[test]
fn a_capture_says_what_went_wrong() {
    let notes = notes_of_case(true, &Some("disk full".to_string()));
    match (&notes[0], &notes[1]) {
        (CaseNote::Truncated(t), CaseNote::Write(w)) => {
            assert_eq!(t, "before/after were clamped to 5000; the window is narrower than requested");
            assert_eq!(w, "the domain registry could not be persisted: disk full");
        }
        other => panic!("unexpected: {other:?}"),
    }
    assert!(notes_of_case(false, &None).is_empty());
}

#[test]
fn collectors_are_shown_by_name() {
    let names: Vec<String> = ["b", "a", "b", "A"].iter().map(|s| s.to_string()).collect();
    assert_eq!(case_collector_lines(&names), vec![3, 1, 0, 2]);
    assert!(case_collector_lines(&Vec::new()).is_empty());
}

fn arm(params: &str, anonymous: bool) -> Result<CollectorPlan, CollectorRefusal> {
    collectors_add(
        &json(params),
        anonymous,
        &Vec::new(),
        &domains(),
        &DomainId::new("a").unwrap(),
        1000,
    )
}

fn refusal<T: std::fmt::Debug>(r: Result<T, CollectorRefusal>) -> String {
    match r {
        Err(CollectorRefusal::Refused(s)) => s,
        other => panic!("unexpected: {other:?}"),
    }
}

#[test]
fn a_collector_is_armed_on_span_filters_alone() {
    let plan = arm(r#"{"name":"n","filter":"sn=GET","group_keys":["k"]}"#, false).unwrap();
    assert_eq!((plan.level, plan.max_sample_bytes), (CollectorLevel::Tree, 1000));
    assert_eq!(plan.group_keys, vec!["k".to_string()]);
    assert_eq!(plan.threshold, ThresholdChange::Keep);
    assert_eq!(plan.description, None);
    let plan = arm(
        r#"{"name":"n","filter":"sn=GET","description":"d","threshold":{"metric":"p95","op":">","value":3,"window_ms":5}}"#,
        false,
    )
    .unwrap();
    assert_eq!(plan.description.as_deref(), Some("d"));
    match plan.threshold {
        ThresholdChange::Replace(t) => assert_eq!((t.metric.as_str(), t.bounds.window_ms), ("p95", 5)),
        other => panic!("unexpected: {other:?}"),
    }
    assert_eq!(
        refusal(arm(r#"{"name":"n","filter":"ALL","threshold":{}}"#, false)),
        "threshold is missing `metric`"
    );
    assert_eq!(
        refusal(arm(r#"{"name":"n","filter":"ALL","description":7}"#, false)),
        "`description` must be a string, not a number"
    );
    assert!(refusal(arm(r#"{"name":"a b","filter":"ALL"}"#, false)).starts_with("invalid collector name `a b`"));
    assert!(refusal(arm(r#"{"name":"n","filter":"ALL"}"#, true)).starts_with("collectors require a named session"));
    assert_eq!(
        refusal(arm(r#"{"name":"n","filter":"ALL","level":"deep"}"#, false)),
        "unknown level `deep`: expected `scalar`, `timing` or `tree`"
    );
    assert!(matches!(
        arm(r#"{"name":"n","filter":"l>=ERROR"}"#, false),
        Err(CollectorRefusal::NotAdmitted(_))
    ));
    assert!(refusal(admit_collector_filter("", &Vec::new())).starts_with("invalid filter: "));
    assert_eq!(level_of(&json(r#"{"level":"timing"}"#)), Ok(Some(CollectorLevel::Timing)));
}

#[test]
fn an_edit_passes_the_gates_of_arming() {
    let d = domains();
    let edit = collectors_edit(
        &json(r#"{"name":"n","filter":"sn=GET","domain":"a"}"#),
        &Vec::new(),
        &d,
    )
    .unwrap();
    assert_eq!(edit.domain.as_ref().map(|d| d.as_str()), Some("a"));
    assert_eq!(keys_after_edit(&edit, &vec!["old".to_string()]), vec!["old".to_string()]);
    let e = refusal(collectors_edit(&json(r#"{"name":"n","domain":"b"}"#), &Vec::new(), &d));
    assert_eq!(e, "domain \"b\" does not exist");
    assert!(matches!(
        collectors_edit(&json(r#"{"name":"n","filter":"l>=ERROR"}"#), &Vec::new(), &d),
        Err(CollectorRefusal::NotAdmitted(_))
    ));
    let rest = finish_edit(
        &json(r#"{"name":"n","filter":"sn=GET","description":"d","max_sample_bytes":9}"#),
        &edit,
    )
    .unwrap();
    assert_eq!((rest.description.as_deref(), rest.max_sample_bytes), (Some("d"), Some(9)));
}

#[test]
fn a_profile_measures_everything_unless_told_otherwise() {
    let mut b = BookmarkStore::new();
    let p = traces_profile(&json("{}"), &Vec::new(), &mut b, "me").unwrap();
    assert_eq!(p.filter.text, "ALL");
    assert!(matches!(p.filter.filter, ParsedFilter::All));
    let e = refusal(traces_profile(&json(r#"{"filter":"c>=x"}"#), &Vec::new(), &mut b, "me"));
    assert_eq!(e, "cursor qualifier not permitted in traces.profile");
}

#[test]
fn a_snapshot_resets_unless_told_otherwise() {
    let s = collectors_snapshot(&json(r#"{"name":"n"}"#)).unwrap();
    assert!(s.reset && s.per_name && s.per_group && s.projections);
    let s = collectors_snapshot(&json(r#"{"name":"n","reset":false,"label":"l"}"#)).unwrap();
    assert!(!s.reset);
    assert_eq!(s.label.as_deref(), Some("l"));
    assert!(collectors_snapshot(&json(r#"{"name":"n","reset":"false"}"#)).is_err());
    let a = allowances_of(&json(r#"{"allow_lossy":true}"#)).unwrap();
    assert!(a.lossy && !a.mismatch && !a.truncated);
}

#[test]
fn an_arm_is_live_recorded_or_merged() {
    assert_eq!(parse_arm("c"), Ok(ArmSpec::Live("c".to_string())));
    assert_eq!(parse_arm("c@*"), Ok(ArmSpec::Merged("c".to_string())));
    assert_eq!(
        parse_arm("c@run@2"),
        Ok(ArmSpec::Recorded { collector: "c".to_string(), label: "run@2".to_string() })
    );
    assert!(parse_arm("@x").unwrap_err().starts_with("`@x` names no collector"));
    assert_eq!(arms_of_document(&json(r#"{"names":["a","b"]}"#)).unwrap().len(), 2);
    assert!(arms_of_document(&json("{}")).unwrap_err().starts_with("missing required parameter: names"));
    let many = json(&format!("{{\"names\":[{}]}}", vec!["\"a\""; 9].join(",")));
    assert!(arms_of_document(&many).unwrap_err().starts_with("too many arms (9 > 8)"));
    assert_eq!((runs_left_out(5, Some(2)), runs_left_out(5, None), runs_left_out(1, Some(2))), (3, 0, 0));
}

#[test]
fn an_arm_needs_something_behind_it() {
    let live = parse_arm("c").unwrap();
    assert_eq!(resolve_arm(&live, true, 0), Ok(()));
    assert_eq!(
        resolve_arm(&live, false, 3),
        Err("no collector named `c` in this session".to_string())
    );
    let merged = parse_arm("c@*").unwrap();
    assert_eq!(resolve_arm(&merged, false, 1), Ok(()));
    assert_eq!(
        resolve_arm(&merged, true, 0),
        Err("collector `c` has no recorded runs to merge. Take one with collectors.snapshot, \
             or name the live window as `c`"
            .to_string())
    );
    assert_eq!(resolve_arm(&parse_arm("c@run").unwrap(), false, 0), Ok(()));
}

#[test]
fn a_recorded_run_says_what_it_could_not_honour() {
    let all = suppressed_by_recording(CollectorLevel::Tree, false, true, Grouping::Path);
    let fields: Vec<&str> = all.iter().map(|s| s.field).collect();
    assert_eq!(fields, vec!["sampled", "excluded_by_warmup", "groups"]);
    assert!(all[2].remedy.contains("collectors.document"));
    assert!(suppressed_by_recording(CollectorLevel::Scalar, false, false, Grouping::Ungrouped).is_empty());
    assert_eq!(nesting(CollectorLevel::Tree, Some(2)), "detected");
    assert_eq!(nesting(CollectorLevel::Tree, Some(0)), "undetected");
    assert_eq!(nesting(CollectorLevel::Timing, Some(2)), "unknown");
    let d = domains();
    assert!(orphan_note(&d, &DomainId::new("a").unwrap()).is_none());
    assert!(orphan_note(&d, &DomainId::new("b").unwrap()).unwrap().starts_with("the pinned domain"));
}

#[test]
fn the_loss_of_a_window_is_told_from_its_own_domain() {
    let mut d = domains();
    let a = DomainId::new("a").unwrap();
    let baseline = TraceIngestLoss { dropped: 0, shed_batches: 0, malformed: 0 };
    d.get_mut(&a).unwrap().metrics.record_offer(
        ReceiverSource::OtlpGrpcTraces,
        SendOutcome::Full,
        1,
    );
    let loss = window_loss(ingest_basis(&d, &a, true, baseline)).unwrap();
    assert_eq!((loss.dropped, loss.is_clean()), (1, false));
    assert_eq!(window_loss(ingest_basis(&d, &a, false, baseline)), None);
    let gone = DomainId::new("b").unwrap();
    assert_eq!(window_loss(ingest_basis(&d, &gone, true, baseline)), None);
}
