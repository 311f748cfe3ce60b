use logmon_core::clock::Timestamp;
use logmon_core::gelf::message::{parse_gelf_message, GelfParseError, Level, LogEntry};
use logmon_core::gelf::tcp::{close_frame, Frame};
use logmon_core::gelf::udp::payload_end;
use logmon_core::json::Json;
use logmon_core::receiver::gelf::GelfReceiver;
use logmon_core::receiver::otlp::mapping::{
    bytes_to_span_id, bytes_to_trace_id, extract_resource_attrs, key_values_to_pairs,
    nanos_to_datetime, severity_to_level, Attribute, AttributeValue,
};
use logmon_core::receiver::otlp::http::{parse_json_log_record, parse_json_span, span_entries};
use logmon_core::receiver::otlp::OtlpReceiver;
use logmon_core::receiver::Receiver;
use logmon_core::span::types::{SpanKind, SpanStatus};
use logmon_core::text::hex;

fn now() -> Timestamp {
    Timestamp::new(1_785_000_000, 0).unwrap()
}

fn json(text: &str) -> Json {
    Json::parse(text.as_bytes()).unwrap()
}

fn gelf(text: &str) -> LogEntry {
    parse_gelf_message(text.as_bytes(), 7, now()).unwrap().0
}

#[test]
fn a_gelf_message_becomes_a_record() {
    let e = gelf(
        r#"{"host":"h","short_message":"boom","full_message":"boom\ntrace","level":3,
            "facility":"app","file":"a.rs","line":42,"_user":"ann","_n":5}"#,
    );
    assert_eq!(e.seq, 7);
    assert_eq!(e.level, Level::Error);
    assert_eq!(e.message, "boom");
    assert_eq!(e.full_message.as_deref(), Some("boom\ntrace"));
    assert_eq!((e.host.as_str(), e.facility.as_deref()), ("h", Some("app")));
    assert_eq!((e.file.as_deref(), e.line), (Some("a.rs"), Some(42)));
    assert_eq!(e.timestamp, now());
    assert_eq!(e.additional_fields.get("user"), Some(&Json::Text("ann".to_string())));
    assert_eq!(e.additional_fields.get("n").and_then(|v| v.as_u64()), Some(5));
}

#[test]
fn the_seconds_of_the_sender_are_handed_on() {
    let (e, sent) = parse_gelf_message(
        br#"{"host":"h","short_message":"m","timestamp":1700000000.5}"#,
        1,
        now(),
    )
    .unwrap();
    assert_eq!(sent.as_deref(), Some("1700000000.5"));
    assert_eq!(e.timestamp, now());
}

#[test]
fn a_named_level_wins_over_the_number() {
    assert_eq!(
        gelf(r#"{"host":"h","short_message":"m","level":7,"_level":"TRACE"}"#).level,
        Level::Trace
    );
    assert_eq!(gelf(r#"{"host":"h","short_message":"m"}"#).level, Level::Info);
}

#[test]
fn linking_ids_are_read_and_taken_out() {
    let e = gelf(
        r#"{"host":"h","short_message":"m","_trace_id":"000000000000000000000000000000ff",
            "_span_id":"00000000000000aa"}"#,
    );
    assert_eq!((e.trace_id, e.span_id), (Some(255), Some(170)));
    assert!(e.additional_fields.is_empty());
}

#[test]
fn each_gelf_error_has_an_input() {
    assert!(matches!(
        parse_gelf_message(b"{", 1, now()),
        Err(GelfParseError::InvalidJson(_))
    ));
    let missing = |text: &str| match parse_gelf_message(text.as_bytes(), 1, now()) {
        Err(GelfParseError::MissingField(f)) => f,
        other => panic!("unexpected: {other:?}"),
    };
    assert_eq!(missing("[]"), "root object");
    assert_eq!(missing("{}"), "host");
    assert_eq!(missing(r#"{"host":"h"}"#), "short_message");
}

#[test]
fn tcp_frames_end_with_a_null() {
    let mut buf = b"{}\0".to_vec();
    assert_eq!(close_frame(&mut buf), Frame::Record);
    assert_eq!(buf, b"{}");
    let mut buf = b"{}".to_vec();
    assert_eq!(close_frame(&mut buf), Frame::Record);
    let mut buf = b"\0".to_vec();
    assert_eq!(close_frame(&mut buf), Frame::Empty);
    let mut buf = Vec::new();
    assert_eq!(close_frame(&mut buf), Frame::End);
}

#[test]
fn udp_payloads_lose_trailing_nulls_alone() {
    assert_eq!(payload_end(b"a\0b\0\0xxx", 5), 3);
    assert_eq!(payload_end(b"\0\0", 2), 0);
    assert_eq!(payload_end(b"abc", 3), 3);
}

#[test]
fn receivers_say_where_they_listen() {
    let g = GelfReceiver::bound(12201, 12202);
    assert_eq!((g.udp_port(), g.tcp_port()), (12201, 12202));
    assert_eq!(g.listening_on(), vec!["UDP:12201", "TCP:12202"]);
    let o = OtlpReceiver::bound(4317, 4318);
    assert_eq!((o.grpc_port(), o.http_port()), (4317, 4318));
    assert_eq!(o.listening_on().len(), 2);
    assert_eq!((g.name(), o.name()), ("gelf", "otlp"));
}

#[test]
fn severities_map_to_levels() {
    let levels: Vec<Level> = [0, 1, 5, 9, 13, 17, 24, 25].into_iter().map(severity_to_level).collect();
    assert_eq!(
        levels,
        vec![
            Level::Info,
            Level::Trace,
            Level::Debug,
            Level::Info,
            Level::Warn,
            Level::Error,
            Level::Error,
            Level::Info
        ]
    );
}

#[test]
fn ids_are_read_from_bytes_of_their_width() {
    let mut trace = [0u8; 16];
    trace[15] = 9;
    trace[14] = 1;
    assert_eq!(bytes_to_trace_id(&trace), Some(265));
    assert_eq!(bytes_to_trace_id(&[0u8; 16]), None, "zero is no id");
    assert_eq!(bytes_to_trace_id(&[1u8; 8]), None);
    assert_eq!(bytes_to_span_id(&[0, 0, 0, 0, 0, 0, 1, 0]), Some(256));
    assert_eq!(hex(265, 32), "00000000000000000000000000000109");
}

#[test]
fn nanoseconds_become_instants() {
    assert_eq!(nanos_to_datetime(1_500_000_001), Timestamp::new(1, 500_000_001).unwrap());
}

#[test]
fn attributes_have_texts() {
    let attr = |key: &str, value: Option<AttributeValue>| Attribute { key: key.to_string(), value };
    let pairs = key_values_to_pairs(&vec![
        attr("service.name", Some(AttributeValue::Text("shop".to_string()))),
        attr("host.name", Some(AttributeValue::Text("box".to_string()))),
        attr("n", Some(AttributeValue::Integer(-3))),
        attr("b", Some(AttributeValue::Truth(true))),
        attr("raw", Some(AttributeValue::Bytes(vec![1, 20]))),
        attr("list", Some(AttributeValue::List)),
        attr("none", None),
    ]);
    let text = |k: &str| pairs.iter().find(|p| p.0 == k).map(|p| p.1.clone());
    assert_eq!(text("n").as_deref(), Some("-3"));
    assert_eq!(text("b").as_deref(), Some("true"));
    assert_eq!(text("raw").as_deref(), Some("[1, 20]"));
    assert_eq!(text("list"), None);
    assert_eq!(extract_resource_attrs(&pairs), ("shop".to_string(), "box".to_string()));
}

#[test]
fn a_json_record_is_mapped() {
    let e = parse_json_log_record(
        &json(
            r#"{"severityNumber":13,"body":{"stringValue":"slow"},"timeUnixNano":"2000000000",
                "traceId":"000000000000000000000000000000ff","spanId":"00000000000000aa",
                "attributes":[{"key":"k","value":{"arrayValue":{"values":[{"intValue":"4"}]}}}]}"#,
        ),
        "svc",
        "host",
        now(),
    )
    .unwrap();
    assert_eq!(e.level, Level::Warn);
    assert_eq!((e.trace_id, e.span_id), (Some(255), Some(170)));
    assert_eq!((e.facility.as_deref(), e.host.as_str()), (Some("svc"), "host"));
    assert_eq!(e.timestamp, Timestamp::new(2, 0).unwrap());
    assert_eq!(e.additional_fields.get("k").map(|v| v.to_text()).as_deref(), Some("[4]"));
}

const SPAN: &str = r#"{"traceId":"000000000000000000000000000000ff","spanId":"00000000000000aa",
    "parentSpanId":"00000000000000bb","name":"GET","kind":2,
    "startTimeUnixNano":"1000000000","endTimeUnixNano":"1500000000",
    "status":{"code":2,"message":"bad"},
    "events":[{"name":"e","timeUnixNano":"1200000000"}]}"#;

#[test]
fn a_json_span_is_mapped() {
    let s = parse_json_span(&json(SPAN), "svc").unwrap();
    assert_eq!((s.trace_id, s.span_id, s.parent_span_id), (255, 170, Some(187)));
    assert_eq!((s.name.as_str(), s.kind, s.service_name.as_str()), ("GET", SpanKind::Server, "svc"));
    assert_eq!(s.status, SpanStatus::Error("bad".to_string()));
    assert_eq!(s.end_time, Timestamp::new(1, 500_000_000).unwrap());
    assert_eq!(s.events.len(), 1);
    assert_eq!(s.events[0].name, "e");
    assert!(parse_json_span(&json(r#"{"name":"no ids"}"#), "svc").is_none());
}

#[test]
fn spans_without_ids_are_counted() {
    let body = format!(
        r#"{{"resourceSpans":[{{"scopeSpans":[{{"spans":[{SPAN},{{"name":"x"}}]}}]}}]}}"#
    );
    let read = span_entries(&json(&body));
    assert_eq!(read.spans.len(), 1);
    assert_eq!(read.malformed, 1);
}
