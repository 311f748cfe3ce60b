use logmon_core::clock::Timestamp;
use logmon_core::daemon::domain::{Domain, DomainConfig, DomainId, DomainRegistry, DomainSource};
use logmon_core::daemon::domain_lifecycle::{
    address, bind_failed, gelf_config, otlp_config, spawn_ephemeral_domain, start_gelf,
    DomainPortSpec, GelfStep, GELF_ATTEMPTS,
};
use logmon_core::daemon::rpc::data::{
    apply_case_data_entries, apply_data_entries, case_registry_copy, cutoff_of, domain_data_get,
    domain_data_remove, wire_outcome,
};
use logmon_core::daemon::rpc::dispatch::{route, Method, REFUSED};
use logmon_core::daemon::rpc::domains::{
    domain_to_info, domains_create, domains_delete, domains_use, ensure_idempotent, port_matches,
    resolve_domain, sweep_displaced, CreateStep, DomainPolicy, DomainsCreate,
};
use logmon_core::daemon::rpc::params::{
    group_keys_of, json_type, opt_bool, opt_context_window, opt_str, opt_str_array, opt_u32,
    opt_u64, opt_usize, req_str, req_u32, req_u64, threshold_bounds, threshold_of, threshold_text,
    ThresholdChange,
};
use logmon_core::daemon::rpc::requests::{
    bookmarks_add, bookmarks_clear, bookmarks_remove, filters_add, filters_edit, sessions_drop,
    triggers_add, triggers_edit, DEFAULT_TRIGGER_NOTIFY_CONTEXT, DEFAULT_TRIGGER_POST_WINDOW,
    DEFAULT_TRIGGER_PRE_WINDOW,
};
use logmon_core::daemon::rpc::status::{session_start, status, SessionCounts};
use logmon_core::domain_data::store::Registry;
use logmon_core::json::Json;
use logmon_core::receiver::gelf::GelfReceiver;
use logmon_core::receiver::metrics::{ReceiverMetrics, ReceiverSource, SendOutcome};

fn now() -> Timestamp {
    Timestamp::new(1_785_000_000, 0).unwrap()
}

fn json(text: &str) -> Json {
    Json::parse(text.as_bytes()).unwrap()
}

fn domain(name: &str, gelf_port: u16, source: DomainSource) -> Domain {
    Domain::new(
        DomainConfig {
            name: DomainId::new(name).unwrap(),
            gelf_port,
            otlp_grpc_port: 0,
            otlp_http_port: 0,
            log_buffer_size: 100,
            span_buffer_size: 100,
            source,
        },
        0,
    )
}

fn registry(names: &[&str]) -> DomainRegistry {
    let mut r = DomainRegistry::new();
    for n in names {
        r.insert(domain(n, 1000, DomainSource::Ephemeral));
    }
    r
}

const POLICY: DomainPolicy = DomainPolicy {
    max_domains: 2,
    default_log_buffer_size: 10,
    default_span_buffer_size: 20,
    stale_after_secs: 60,
};

fn create(name: &str) -> DomainsCreate {
    DomainsCreate {
        name: name.to_string(),
        gelf_port: None,
        otlp_grpc_port: None,
        otlp_http_port: None,
        log_buffer_size: None,
        span_buffer_size: None,
        persist: false,
    }
}

#[test]
fn parameters_are_read_strictly() {
    let p = json(r#"{"s":"x","b":true,"n":3,"null":null,"quoted":"true","neg":-1,"a":["x","y"]}"#);
    assert_eq!(opt_str(&p, "s"), Ok(Some("x")));
    assert_eq!(opt_str(&p, "absent"), Ok(None));
    assert_eq!(opt_str(&p, "null"), Ok(None));
    assert_eq!(opt_str(&p, "n"), Err("`n` must be a string, not a number".to_string()));
    assert_eq!(req_str(&p, "absent"), Err("missing required parameter: absent".to_string()));
    assert_eq!(opt_bool(&p, "b"), Ok(Some(true)));
    assert_eq!(
        opt_bool(&p, "quoted"),
        Err("`quoted` must be a boolean, not the string \"true\" — send true unquoted".to_string())
    );
    assert_eq!(opt_u64(&p, "n"), Ok(Some(3)));
    assert_eq!(
        opt_u64(&p, "neg"),
        Err("`neg` must be a non-negative integer, not a number".to_string())
    );
    assert_eq!(req_u64(&p, "n"), Ok(3));
    assert_eq!(opt_usize(&p, "n"), Ok(Some(3)));
    assert_eq!(req_u32(&p, "n"), Ok(3));
    assert_eq!(opt_str_array(&p, "a"), Ok(Some(vec!["x".to_string(), "y".to_string()])));
    assert_eq!(
        opt_str_array(&json(r#"{"a":["x",1]}"#), "a"),
        Err("`a[1]` must be a string, not a number".to_string())
    );
    assert_eq!(json_type(&json("[]")), "an array");
    assert_eq!(json_type(&json("{}")), "an object");
}

#[test]
fn bounds_are_named_in_the_refusal() {
    let e = opt_u32(&json(r#"{"n":4294967296}"#), "n").unwrap_err();
    assert_eq!(e, "`n` is 4294967296, which exceeds the maximum 4294967295");
    let e = opt_context_window(&json(r#"{"n":10000001}"#), "n").unwrap_err();
    assert_eq!(e, "`n` is 10000001, which exceeds the maximum context window 10000000");
}

#[test]
fn group_keys_are_capped() {
    let keys = |n: usize| {
        json(&format!("{{\"group_keys\":[{}]}}", vec!["\"k\""; n].join(",")))
    };
    assert_eq!(group_keys_of(&keys(8)).unwrap().unwrap().len(), 8);
    assert!(group_keys_of(&keys(9)).unwrap_err().starts_with("too many group_keys (9 > 8)"));
}

#[test]
fn a_threshold_is_kept_cleared_or_replaced() {
    assert_eq!(threshold_of(&json("{}")), Ok(ThresholdChange::Keep));
    assert_eq!(threshold_of(&json(r#"{"threshold":null}"#)), Ok(ThresholdChange::Clear));
    let refused = |t: &str| threshold_of(&json(&format!("{{\"threshold\":{t}}}"))).unwrap_err();
    assert_eq!(refused("{}"), "threshold is missing `metric`");
    assert_eq!(refused(r#"{"metric":1}"#), "threshold.metric must be a string");
    assert_eq!(refused(r#"{"metric":"p95"}"#), "threshold is missing `op`");
    assert_eq!(refused(r#"{"metric":"p95","op":">"}"#), "threshold is missing `value`");
    assert_eq!(
        refused(r#"{"metric":"p95","op":">","value":1}"#),
        "threshold is missing `window_ms`"
    );
    assert_eq!(
        refused(r#"{"metric":"p95","op":">","value":1,"window_ms":5,"group":7}"#),
        "threshold.group must be a string, not a number"
    );
    let whole = r#"{"threshold":{"metric":"p95","op":">","value":1.5,"window_ms":5,"group":"g"}}"#;
    match threshold_of(&json(whole)) {
        Ok(ThresholdChange::Replace(t)) => {
            assert_eq!((t.metric.as_str(), t.op.as_str()), ("p95", ">"));
            assert_eq!(t.bounds.value.text, "1.5");
            assert_eq!((t.bounds.window_ms, t.bounds.group.as_deref()), (5, Some("g")));
        }
        other => panic!("unexpected: {other:?}"),
    }
    assert_eq!(
        threshold_of(&json(r#"{"threshold":3}"#)),
        Err("threshold must be an object: { metric, op, value, window_ms, group? }".to_string())
    );
    let t = json(r#"{"metric":"p95","value":1.5,"window_ms":1000,"group":"g"}"#);
    assert_eq!(threshold_text(&t, "metric"), Ok("p95"));
    assert_eq!(threshold_text(&t, "op"), Err("threshold is missing `op`".to_string()));
    let b = threshold_bounds(&t).unwrap();
    assert_eq!((b.value.text.as_str(), b.window_ms, b.group.as_deref()), ("1.5", 1000, Some("g")));
    let e = |t: &str| threshold_bounds(&json(t)).unwrap_err();
    assert_eq!(e("{}"), "threshold is missing `value`");
    assert_eq!(e(r#"{"value":"x"}"#), "threshold.value must be a number");
    assert_eq!(e(r#"{"value":1}"#), "threshold is missing `window_ms`");
    assert_eq!(e(r#"{"value":1,"window_ms":-1}"#), "threshold.window_ms must be a positive integer");
    assert_eq!(
        e(r#"{"value":1,"window_ms":1,"group":2}"#),
        "threshold.group must be a string, not a number"
    );
}

#[test]
fn triggers_have_windows_of_their_own() {
    let t = triggers_add(&json(r#"{"filter":"l>=ERROR"}"#), &Vec::new()).unwrap();
    assert_eq!(
        (t.pre_window, t.post_window, t.notify_context, t.oneshot),
        (
            DEFAULT_TRIGGER_PRE_WINDOW,
            DEFAULT_TRIGGER_POST_WINDOW,
            DEFAULT_TRIGGER_NOTIFY_CONTEXT,
            false
        )
    );
    let t = triggers_add(
        &json(r#"{"filter":"l>=ERROR","pre_window":1,"oneshot":true,"description":"d"}"#),
        &Vec::new(),
    )
    .unwrap();
    assert_eq!((t.pre_window, t.oneshot, t.description.as_deref()), (1, true, Some("d")));
    let e = triggers_edit(&json(r#"{"pre_window":1}"#)).unwrap_err();
    assert_eq!(e, "missing required parameter: id");
    let t = triggers_edit(&json(r#"{"id":4,"pre_window":1}"#)).unwrap();
    assert_eq!((t.id, t.pre_window, t.post_window), (4, Some(1), None));
}

#[test]
fn registered_filters_hold_no_references() {
    let f = filters_add(&json(r#"{"filter":"h=box","description":"mine"}"#), &Vec::new()).unwrap();
    assert_eq!((f.filter.as_str(), f.description.as_deref()), ("h=box", Some("mine")));
    let e = filters_add(&json(r#"{"filter":"b>=mark"}"#), &Vec::new()).unwrap_err();
    assert!(e.starts_with("bookmarks and cursors (b>=, b<=, c>=) are not allowed"), "{e}");
    assert!(triggers_add(&json(r#"{"filter":"c>=mark"}"#), &Vec::new()).is_err());
    let f = filters_edit(&json(r#"{"id":2,"filter":"ALL"}"#)).unwrap();
    assert_eq!((f.id, f.filter.as_deref()), (2, Some("ALL")));
}

#[test]
fn a_bookmark_starts_at_the_newest_seq() {
    let b = bookmarks_add(&json(r#"{"name":"here"}"#), 17).unwrap();
    assert_eq!((b.name.as_str(), b.start_seq, b.replace), ("here", 17, false));
    let b = bookmarks_add(&json(r#"{"name":"here","start_seq":3,"replace":true}"#), 17).unwrap();
    assert_eq!((b.start_seq, b.replace), (3, true));
    assert_eq!(bookmarks_clear(&json("{}"), "me"), Ok("me".to_string()));
    assert_eq!(bookmarks_clear(&json(r#"{"session":"you"}"#), "me"), Ok("you".to_string()));
    assert!(bookmarks_clear(&json(r#"{"session":5}"#), "me").is_err());
    assert_eq!(bookmarks_remove(&json(r#"{"name":"x"}"#), "me"), Ok("me/x".to_string()));
    assert_eq!(bookmarks_remove(&json(r#"{"name":"you/x"}"#), "me"), Ok("you/x".to_string()));
}

#[test]
fn dropping_a_session_that_is_gone_still_releases_its_collectors() {
    assert_eq!(sessions_drop(2, Err("no such session".to_string())), Ok(2));
    assert_eq!(
        sessions_drop(0, Err("no such session".to_string())),
        Err("no such session".to_string())
    );
    assert_eq!(sessions_drop(0, Ok(())), Ok(0));
}

#[test]
fn methods_are_found_by_name() {
    assert_eq!(route("logs.recent", false), Ok(Method::LogsRecent));
    assert_eq!(route("traces.profile", false), Ok(Method::TracesProfile));
    assert_eq!(route("domains.create", true), Ok(Method::DomainsCreate));
    assert!(route("domains.create", false).unwrap_err().contains("handle_async"));
    assert_eq!(route("nope", true), Err("unknown method: nope".to_string()));
    assert_eq!(REFUSED, -32601);
}

#[test]
fn a_domain_is_created_once() {
    let mut r = registry(&["a"]);
    match domains_create(&create("b"), &r, POLICY).unwrap().step {
        CreateStep::Spawn { log_buffer_size, span_buffer_size } => {
            assert_eq!((log_buffer_size, span_buffer_size), (10, 20));
        }
        other => panic!("unexpected: {other:?}"),
    }
    assert!(matches!(
        domains_create(&create("a"), &r, POLICY).unwrap().step,
        CreateStep::Exists
    ));
    let mut elsewhere = create("a");
    elsewhere.gelf_port = Some(2000);
    assert_eq!(
        domains_create(&elsewhere, &r, POLICY).unwrap_err(),
        "domain \"a\" already exists with different ports"
    );
    r.insert(domain("b", 0, DomainSource::Ephemeral));
    assert!(domains_create(&create("c"), &r, POLICY)
        .unwrap_err()
        .starts_with("max_domains (2) reached"));
}

#[test]
fn bad_requests_for_a_domain_are_refused() {
    let r = registry(&[]);
    let mut p = create("x");
    p.persist = true;
    assert!(domains_create(&p, &r, POLICY)
        .unwrap_err()
        .starts_with("persistent domains are not yet supported"));
    assert_eq!(
        domains_create(&create("no good"), &r, POLICY).unwrap_err(),
        "invalid domain name: no good"
    );
    let mut p = create("x");
    p.gelf_port = Some(9);
    p.otlp_http_port = Some(9);
    assert_eq!(
        domains_create(&p, &r, POLICY).unwrap_err(),
        "gelf_port and otlp_http_port must differ (both = 9)"
    );
    let mut p = create("x");
    p.span_buffer_size = Some(10_000_001);
    assert_eq!(
        domains_create(&p, &r, POLICY).unwrap_err(),
        "span_buffer_size 10000001 exceeds the maximum 10000000"
    );
}

#[test]
fn ports_that_were_left_open_fit() {
    assert!(port_matches(5, None) && port_matches(5, Some(5)) && !port_matches(5, Some(6)));
    let d = domain("a", 5, DomainSource::Ephemeral);
    let spec = |gelf| DomainPortSpec { gelf, otlp_grpc: None, otlp_http: None };
    assert!(ensure_idempotent(&d, &spec(Some(5))).is_ok());
    assert!(ensure_idempotent(&d, &spec(Some(6))).is_err());
}

#[test]
fn declared_domains_cannot_be_deleted() {
    let mut r = registry(&["a"]);
    r.insert(domain("fixed", 0, DomainSource::Config));
    assert_eq!(
        domains_delete(&mut r, "fixed").err().unwrap(),
        "cannot delete config-declared domain \"fixed\" — edit config.json"
    );
    assert_eq!(domains_delete(&mut r, "b").err().unwrap(), "domain \"b\" does not exist");
    assert_eq!(domains_delete(&mut r, "a").unwrap().id().as_str(), "a");
    assert_eq!(r.len(), 1);
    let gone = DomainId::new("a").unwrap();
    assert_eq!(
        resolve_domain(&r, &gone).err().unwrap(),
        "domain \"a\" no longer exists — use_domain to rebind"
    );
}

#[test]
fn a_rebind_is_warned_of() {
    let r = registry(&["a", "b", "default"]);
    let a = DomainId::new("a").unwrap();
    let plan = domains_use(&r, "b", &a, "me").unwrap();
    assert_eq!(plan.id.as_str(), "b");
    assert!(plan.resync_left);
    assert!(plan.rebind_warning.unwrap().starts_with("session me was bound to \"a\""));
    let plan = domains_use(&r, "b", &DomainId::default_domain(), "me").unwrap();
    assert_eq!(plan.rebind_warning, None, "leaving the default is what a session does first");
    assert_eq!(
        domains_use(&r, "c", &a, "me").unwrap_err(),
        "domain \"c\" does not exist — create it first"
    );
}

#[test]
fn a_displaced_session_leaves_no_bookmarks() {
    let mut r = registry(&["a", "b"]);
    let a = DomainId::new("a").unwrap();
    let b = DomainId::new("b").unwrap();
    r.get_mut(&a).unwrap().bookmarks.add("me", "x", 1, false).unwrap();
    r.get_mut(&b).unwrap().bookmarks.add("me", "x", 1, false).unwrap();
    sweep_displaced(&mut r, &vec![a.clone()], "me");
    assert_eq!(r.get(&a).unwrap().bookmarks.get("me/x"), None);
    assert_eq!(r.get(&b).unwrap().bookmarks.get("me/x"), Some(1));
}

#[test]
fn a_quiet_domain_goes_stale() {
    let mut d = domain("a", 5, DomainSource::Ephemeral);
    let info = domain_to_info(&d, 3, 60, 0);
    assert_eq!((info.span_count, info.activity.idle_secs, info.activity.stale), (3, None, false));
    d.metrics.record_offer(ReceiverSource::OtlpGrpcLogs, SendOutcome::Sent, 1_000_000_000);
    let at = |secs: i64| domain_to_info(&d, 0, 60, secs * 1_000_000_000).activity;
    assert_eq!((at(60).idle_secs, at(60).stale), (Some(59), false));
    assert!(at(61).stale);
    assert_eq!(at(61).last_log_received_at, Some(1_000_000_000));
    assert_eq!(at(61).last_span_received_at, None);
}

#[test]
fn free_ports_are_tried_so_often() {
    assert_eq!(start_gelf(Some(0)), GelfStep::Disabled);
    assert_eq!(bind_failed(start_gelf(Some(7))), GelfStep::GiveUp);
    let mut step = start_gelf(None);
    for _ in 0..GELF_ATTEMPTS - 1 {
        step = bind_failed(step);
        assert_ne!(step, GelfStep::GiveUp);
    }
    assert_eq!(bind_failed(step), GelfStep::GiveUp);
    assert_eq!(address(4317), "0.0.0.0:4317");
    assert_eq!(gelf_config(9).udp_addr, "0.0.0.0:9");
    let off = DomainPortSpec { gelf: None, otlp_grpc: Some(0), otlp_http: Some(0) };
    assert!(otlp_config(off).is_none());
}

#[test]
fn a_spawned_domain_says_where_it_listens() {
    let d = spawn_ephemeral_domain(
        DomainId::new("a").unwrap(),
        Some(GelfReceiver::bound(7, 7)),
        None,
        10,
        20,
        ReceiverMetrics::new(),
    );
    assert_eq!((d.config.gelf_port, d.config.otlp_http_port), (7, 0));
    assert_eq!(d.config.source, DomainSource::Ephemeral);
}

#[test]
fn data_entries_are_applied_in_place() {
    let mut reg = Registry::new();
    let raw = json(r#"[{"path":"/a","value":"1","ttl":"2h"},{"path":"bad path","value":"2"}]"#);
    let applied = apply_data_entries(&mut reg, Some(&raw), now()).unwrap();
    assert!(applied.wrote);
    let wires: Vec<_> = applied.outcomes.iter().map(wire_outcome).collect();
    assert_eq!((wires[0].path.as_str(), wires[0].outcome), ("/a", "created"));
    assert_eq!(wires[1].outcome, "rejected");
    assert!(wires[1].reason.is_some());
    let e = |raw: &str, reg: &mut Registry| {
        apply_data_entries(reg, Some(&json(raw)), now()).unwrap_err()
    };
    assert_eq!(e("[]", &mut reg), "entries must not be empty");
    assert_eq!(e("{}", &mut reg), "entries is required and must be an array");
    assert_eq!(e("[{}]", &mut reg), "`entries[0]` is missing `path`");

    let answer = domain_data_get(&reg, None, None, now());
    assert_eq!(answer.total, 1);
    assert_eq!((answer.keys[0].path.as_str(), answer.keys[0].ttl.as_deref()), ("/a", Some("2h")));
    assert_eq!(answer.keys[0].created_at, "2026-07-25T17:20:00+00:00");
    assert_eq!((answer.keys[0].age_secs, answer.keys[0].expired), (0, Some(false)));
    assert!(!answer.missing_core.is_empty());

    let removed = domain_data_remove(&mut reg, &json(r#"{"patterns":["/a"]}"#)).unwrap();
    assert_eq!((removed[0].pattern.as_str(), removed[0].removed), ("/a", 1));
    assert_eq!(
        domain_data_remove(&mut reg, &json("{}")).unwrap_err(),
        "patterns is required and must be a non-empty array"
    );
}

#[test]
fn a_cutoff_must_be_a_usable_age() {
    let at = |p: &str| cutoff_of(&json(p), now());
    assert_eq!(at("{}"), Ok(None));
    assert_eq!(
        at(r#"{"validated_before_secs":60}"#),
        Ok(Timestamp::new(1_784_999_940, 0))
    );
    assert_eq!(
        at(r#"{"validated_before_secs":9223372036854775807}"#),
        Err("`validated_before_secs` is 9223372036854775807, which is not a usable age in seconds"
            .to_string())
    );
}

#[test]
fn a_case_keeps_its_own_facts() {
    let mut reg = Registry::new();
    let raw = json(r#"[{"path":"/a","value":"1"},{"path":"@/ticket","value":"7"}]"#);
    let none = apply_case_data_entries(&mut reg, Some(&Json::Null), now()).unwrap();
    assert!(none.outcomes.is_empty() && none.scoped.facts.is_empty() && !none.wrote);
    let applied = apply_case_data_entries(&mut reg, Some(&raw), now()).unwrap();
    assert_eq!(applied.scoped.facts.len(), 1);
    assert_eq!(applied.scoped.facts[0].value, "7");
    let copy = case_registry_copy(&reg, now());
    assert_eq!(copy.facts.len(), 1);
    assert_eq!(copy.facts[0].path, "/a");
    assert_eq!(copy.incarnation, None);
}

#[test]
fn a_status_tells_of_the_bound_domain() {
    let mut r = registry(&["a"]);
    let a = DomainId::new("a").unwrap();
    r.get_mut(&a).unwrap().metrics.record_offer(
        ReceiverSource::OtlpHttpTraces,
        SendOutcome::Full,
        5,
    );
    let s = status(&r, &a).unwrap();
    assert_eq!((s.current_domain.as_str(), s.current_size), ("a", 0));
    assert_eq!((s.receiver_drops.otlp_http_traces, s.trace_ingest.dropped), (1, 1));
    assert_eq!(s.receiver_liveness.otlp_http_traces, None, "a drop is no reception");
    let gone = DomainId::new("b").unwrap();
    assert_eq!(
        status(&r, &gone).unwrap_err(),
        "domain \"b\" no longer exists — use_domain to rebind"
    );
    let counts = SessionCounts { queue_size: 1, trigger_count: 2, filter_count: 3 };
    let start = session_start(&r, &gone, Some(counts));
    assert_eq!((start.counts, start.buffer_size), (counts, 0));
    assert_eq!(
        start.capabilities,
        vec!["bookmarks", "oneshot_triggers", "client_info", "domains"]
    );
}
