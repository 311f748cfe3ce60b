use logmon_core::clock::Timestamp;
use logmon_core::daemon::connection::{
    pipeline_event_to_trigger_fired, Connection, ConnectionAction, ConnectionEvent,
    ConnectionPhase, StartParams, INVALID_PARAMS, INVALID_REQUEST, MAX_CLIENT_INFO,
};
use logmon_core::daemon::persistence::{DaemonConfig, SEQ_BLOCK_SIZE};
use logmon_core::daemon::server::{listeners, recorded_pid, Action, Daemon, Event, Phase};
use logmon_core::daemon::span_processor::{
    build_trace_summary, is_span_filter_str, process_span_for_domain, SpanSession, SpanTrigger,
};
use logmon_core::engine::pipeline::PipelineEvent;
use logmon_core::gelf::message::{Level, LogEntry};
use logmon_core::json::Json;
use logmon_core::span::types::{SpanEntry, SpanKind, SpanStatus};
use logmon_core::text_map::TextMap;

fn now() -> Timestamp {
    Timestamp::new(1_785_000_000, 0).unwrap()
}

#[test]
fn a_pid_file_names_a_process_or_none() {
    assert_eq!(recorded_pid(" 42\n"), Some(42));
    assert_eq!(recorded_pid("abc"), None);
    assert_eq!(recorded_pid("4294967296"), None);
}

#[test]
fn udp_and_tcp_share_a_port_unless_told_otherwise() {
    let mut config = DaemonConfig::default();
    let l = listeners(&config);
    assert_eq!((l.gelf_udp, l.gelf_tcp), (config.gelf_port, config.gelf_port));
    config.gelf_tcp_port = Some(7);
    config.otlp_grpc_port = 0;
    config.otlp_http_port = 0;
    let l = listeners(&config);
    assert_eq!((l.gelf_tcp, l.otlp), (7, None));
}

#[test]
fn a_daemon_starts_serves_and_stops() {
    let config = DaemonConfig::default();
    let (mut d, first) = Daemon::start(&config, false);
    assert!(matches!(first, Action::CreateDir));
    assert!(matches!(d.step(Event::Done), Action::ReadPid));
    assert!(matches!(d.step(Event::PidFile(Some("42".into()))), Action::AskAlive(42)));
    assert!(matches!(d.step(Event::Alive(false)), Action::RemoveStale));
    assert!(matches!(d.step(Event::Done), Action::LoadState));
    match d.step(Event::Loaded(5000)) {
        Action::SaveState(block) => assert_eq!(block, 5000 + SEQ_BLOCK_SIZE),
        other => panic!("unexpected: {other:?}"),
    }
    match d.step(Event::Done) {
        Action::BindGelf(c) => assert_eq!(c.udp_addr, format!("0.0.0.0:{}", config.gelf_port)),
        other => panic!("unexpected: {other:?}"),
    }
    assert!(matches!(d.step(Event::Listening(vec!["UDP:1".into()])), Action::BindOtlp(_)));
    assert!(matches!(
        d.step(Event::Listening(vec!["gRPC:2".into()])),
        Action::Announce("OTEL:ONLINE\n")
    ));
    assert_eq!(d.listening, vec!["UDP:1".to_string(), "gRPC:2".to_string()]);
    assert!(matches!(d.step(Event::Done), Action::WritePid));
    assert!(matches!(d.step(Event::Done), Action::BindSocket));
    assert!(matches!(d.step(Event::Done), Action::Serve));
    assert!(matches!(d.step(Event::Stop), Action::DropConnections));
    assert!(matches!(d.step(Event::Done), Action::Announce("OTEL:OFFLINE\n")));
    assert!(matches!(d.step(Event::Failed("nobody".into())), Action::SaveState(6000)));
    assert!(matches!(d.step(Event::Done), Action::Clean));
    assert!(matches!(d.step(Event::Done), Action::Exit));
    assert_eq!(d.phase, Phase::Stopped);
}

#[test]
fn a_live_daemon_is_left_alone() {
    let (mut d, _) = Daemon::start(&DaemonConfig::default(), false);
    d.step(Event::Done);
    d.step(Event::PidFile(Some("42".into())));
    match d.step(Event::Alive(true)) {
        Action::Abort(why) => {
            assert_eq!(why, "another broker is already running (pid 42); abort");
        }
        other => panic!("unexpected: {other:?}"),
    }
}

#[test]
fn injected_records_need_no_receivers() {
    let (mut d, _) = Daemon::start(&DaemonConfig::default(), true);
    d.step(Event::Done);
    assert!(matches!(d.step(Event::PidFile(None)), Action::LoadState));
    d.step(Event::Loaded(0));
    assert!(matches!(d.step(Event::Done), Action::WritePid));
    assert!(matches!(d.step(Event::Failed("denied".into())), Action::Abort(_)));
}

fn start(name: Option<&str>, version: u32, client_info: Option<Json>) -> ConnectionEvent {
    ConnectionEvent::First {
        id: 9,
        method: "session.start".into(),
        params: StartParams {
            name: name.map(String::from),
            protocol_version: version,
            client_info,
        },
    }
}

fn refused(action: ConnectionAction) -> (u64, i64, String) {
    match action {
        ConnectionAction::Refuse { id, code, message } => (id, code, message),
        other => panic!("unexpected: {other:?}"),
    }
}

#[test]
fn a_named_session_is_created_or_taken_up() {
    let mut c = Connection::new(1);
    match c.step(start(Some("me"), 1, None)) {
        ConnectionAction::CreateNamed(n) => assert_eq!(n, "me"),
        other => panic!("unexpected: {other:?}"),
    }
    match c.step(ConnectionEvent::Created(false)) {
        ConnectionAction::Reconnect(n) => assert_eq!(n, "me"),
        other => panic!("unexpected: {other:?}"),
    }
    assert!(matches!(
        c.step(ConnectionEvent::Reconnected(Ok(()))),
        ConnectionAction::Greet { id: 9, is_new: false, keep_client_info: false }
    ));
    assert!(matches!(c.step(ConnectionEvent::Request), ConnectionAction::Answer));
    assert!(matches!(c.step(ConnectionEvent::Fired("me".into())), ConnectionAction::Forward));
    assert!(matches!(c.step(ConnectionEvent::Fired("you".into())), ConnectionAction::Ignore));
    assert!(matches!(c.step(ConnectionEvent::Lagged), ConnectionAction::Ignore));
    assert!(matches!(c.step(ConnectionEvent::Gone), ConnectionAction::Disconnect { forget: false }));
    assert_eq!(c.phase, ConnectionPhase::Closed);
}

#[test]
fn an_anonymous_session_is_given_a_name() {
    let mut c = Connection::new(1);
    let info = Json::Text("cli".to_string());
    assert!(matches!(c.step(start(None, 1, Some(info))), ConnectionAction::CreateAnonymous));
    assert!(matches!(
        c.step(ConnectionEvent::Assigned("anon-1".into())),
        ConnectionAction::Greet { id: 9, is_new: true, keep_client_info: true }
    ));
    assert!(matches!(c.step(ConnectionEvent::Fired("anon-1".into())), ConnectionAction::Forward));
    assert!(matches!(c.step(ConnectionEvent::EventsClosed), ConnectionAction::Disconnect { forget: true }));
}

#[test]
fn a_renamed_session_keeps_its_connection() {
    let mut c = Connection::new(1);
    c.step(start(None, 1, None));
    c.step(ConnectionEvent::Assigned("anon-1".into()));
    assert!(matches!(c.step(ConnectionEvent::Renamed("me".into())), ConnectionAction::Ignore));
    assert!(matches!(c.step(ConnectionEvent::Fired("me".into())), ConnectionAction::Forward));
    assert!(matches!(c.step(ConnectionEvent::Fired("anon-1".into())), ConnectionAction::Ignore));
    assert!(matches!(
        c.step(ConnectionEvent::Gone),
        ConnectionAction::Disconnect { forget: false }
    ));
}

#[test]
fn a_bad_start_makes_no_session() {
    let mut c = Connection::new(1);
    let action = c.step(ConnectionEvent::First {
        id: 3,
        method: "logs.recent".into(),
        params: StartParams { name: None, protocol_version: 1, client_info: None },
    });
    assert_eq!(
        refused(action),
        (3, INVALID_REQUEST, "first request must be session.start".to_string())
    );
    let (_, code, message) = refused(Connection::new(1).step(start(None, 2, None)));
    assert_eq!(code, INVALID_REQUEST);
    assert_eq!(message, "unsupported protocol version: 2 (expected 1)");
    let long = Json::Text("x".repeat(MAX_CLIENT_INFO));
    assert_eq!(
        refused(Connection::new(1).step(start(None, 1, Some(long)))),
        (9, INVALID_PARAMS, "client_info exceeds 4 KB limit".to_string())
    );
    let fits = Json::Text("x".repeat(MAX_CLIENT_INFO - 2));
    assert!(matches!(
        Connection::new(1).step(start(None, 1, Some(fits))),
        ConnectionAction::CreateAnonymous
    ));
    let mut c = Connection::new(1);
    c.step(start(Some("me"), 1, None));
    c.step(ConnectionEvent::Created(false));
    let (_, _, message) = refused(c.step(ConnectionEvent::Reconnected(Err("busy".into()))));
    assert_eq!(message, "session error: busy");
    assert!(matches!(Connection::new(1).step(ConnectionEvent::Gone), ConnectionAction::Close));
}

#[test]
fn a_fired_trigger_is_told_to_its_client() {
    let ev = PipelineEvent {
        session_id: "me".into(),
        trigger_id: 3,
        trigger_description: None,
        filter_string: "l>=ERROR".into(),
        matched_entry: LogEntry::synthetic(Level::Error, "boom \"quoted\"", now()),
        context_before: vec![],
        pre_trigger_flushed: 4,
        pre_window: 5,
        post_window_size: 6,
        notify_context: 7,
        oneshot: true,
        trace_id: None,
        trace_summary: None,
    };
    let sent = pipeline_event_to_trigger_fired(
        &ev,
        Json::Text(ev.matched_entry.message.clone()),
        Json::Array(vec![]),
    );
    assert_eq!(
        sent.to_text(),
        "{\"trigger_id\":3,\"description\":null,\"filter_string\":\"l>=ERROR\",\"pre_window\":5,\
         \"post_window\":6,\"notify_context\":7,\"oneshot\":true,\
         \"matched_entry\":\"boom \\\"quoted\\\"\",\"context_before\":[]}"
    );
}

fn trigger(id: u32, filter: &str, matches: bool, oneshot: bool) -> SpanTrigger {
    SpanTrigger {
        id,
        filter_string: filter.into(),
        readings: Vec::new(),
        matches,
        oneshot,
    }
}

#[test]
fn only_span_triggers_fire_on_spans() {
    assert!(is_span_filter_str("sn=GET", &Vec::new()));
    assert!(!is_span_filter_str("l>=ERROR", &Vec::new()));
    let (fires, resync) = process_span_for_domain(&vec![SpanSession {
        session_id: "me".into(),
        triggers: vec![
            trigger(1, "l>=ERROR", true, false),
            trigger(2, "sn=GET", true, true),
            trigger(3, "sn=PUT", false, true),
        ],
    }]);
    assert_eq!(fires.len(), 1);
    assert_eq!((fires[0].session_id.as_str(), fires[0].trigger_id, fires[0].remove), ("me", 2, true));
    assert!(resync, "a trigger went");
}

#[test]
fn a_trace_is_summed_up_from_its_root() {
    let mk = |span_id, parent, name: &str, status| SpanEntry {
        seq: span_id,
        trace_id: 1,
        span_id,
        parent_span_id: parent,
        start_time: now(),
        end_time: Timestamp::new(1_785_000_001, 0).unwrap(),
        name: name.into(),
        kind: SpanKind::Internal,
        service_name: "svc".into(),
        status,
        attributes: TextMap::new(),
        events: vec![],
    };
    let spans = vec![
        mk(2, Some(1), "child", SpanStatus::Error("bad".into())),
        mk(1, None, "root", SpanStatus::Okay),
    ];
    let s = build_trace_summary(1, &spans).unwrap();
    assert_eq!((s.root_span_name.as_str(), s.span_count, s.has_errors), ("root", 2, true));
    assert_eq!(s.root_end_time, Timestamp::new(1_785_000_001, 0));
    assert!(build_trace_summary(1, &Vec::new()).is_none());
}
