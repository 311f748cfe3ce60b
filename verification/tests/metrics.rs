use logmon_core::clock::Timestamp;
use logmon_core::gelf::message::{Level, LogEntry, LogSource};
use logmon_core::json::Json;
use logmon_core::receiver::metrics::{
    ReceiverDropSnapshot, ReceiverMetrics, ReceiverSource, TraceIngestLoss, TraceTransport,
};
use logmon_core::receiver::otlp::http::{
    channel_used_pct, handle_logs_at, handle_logs_inner, handle_traces_at, handle_traces_inner,
    used_pct,
};
use logmon_core::span::types::{SpanEntry, SpanKind, SpanStatus};
use logmon_core::text_map::TextMap;
use tokio::sync::mpsc;

fn now() -> Timestamp {
    Timestamp::new(1_785_000_000, 0).unwrap()
}

fn json(text: &str) -> Json {
    Json::parse(text.as_bytes()).unwrap()
}

fn entry() -> LogEntry {
    LogEntry {
        seq: 0,
        timestamp: now(),
        level: Level::Info,
        message: "x".into(),
        full_message: None,
        host: "h".into(),
        facility: None,
        file: None,
        line: None,
        additional_fields: TextMap::new(),
        trace_id: None,
        span_id: None,
        matched_filters: vec![],
        source: LogSource::Filter,
    }
}

fn span() -> SpanEntry {
    SpanEntry {
        seq: 0,
        trace_id: 1,
        span_id: 1,
        parent_span_id: None,
        start_time: now(),
        end_time: now(),
        name: "x".into(),
        kind: SpanKind::Internal,
        service_name: "s".into(),
        status: SpanStatus::Unset,
        attributes: TextMap::new(),
        events: vec![],
    }
}

#[test]
fn record_drop_increments_per_source() {
    let mut m = ReceiverMetrics::new();
    m.record_drop(ReceiverSource::OtlpHttpLogs, 0);
    m.record_drop(ReceiverSource::OtlpHttpLogs, 0);
    m.record_drop(ReceiverSource::GelfUdp, 0);

    let snap = m.snapshot();
    assert_eq!(snap.otlp_http_logs, 2);
    assert_eq!(snap.gelf_udp, 1);
    assert_eq!(snap.otlp_http_traces, 0);
}

#[test]
fn drops_add_up_over_any_mix_of_calls() {
    let mut m = ReceiverMetrics::new();
    for round in 0..3 {
        m.record_drop(ReceiverSource::GelfTcp, round);
        m.record_trace_batch_shed(TraceTransport::OtlpHttp);
        m.record_drop(ReceiverSource::OtlpGrpcLogs, round);
        m.record_trace_malformed(TraceTransport::OtlpGrpc);
        m.record_drop(ReceiverSource::GelfTcp, round);
    }
    let snap = m.snapshot();
    assert_eq!((snap.gelf_tcp, snap.otlp_grpc_logs), (6, 3));
    assert_eq!((snap.gelf_udp, snap.otlp_http_logs, snap.otlp_http_traces), (0, 0, 0));
}

#[test]
fn warnings_come_once_a_minute() {
    let minute = 60_000_000_000;
    let mut m = ReceiverMetrics::new();
    assert!(m.record_drop(ReceiverSource::GelfUdp, 5));
    assert!(!m.record_drop(ReceiverSource::GelfTcp, 5 + minute - 1));
    assert!(m.record_drop(ReceiverSource::GelfTcp, 5 + minute));
}

#[test]
fn trace_loss_ignores_every_non_trace_source() {
    // The reason this matters: a GELF burst during a run must not mark a
    // span collector's window as having lost spans. It lost logs.
    let mut m = ReceiverMetrics::new();
    for source in [
        ReceiverSource::GelfUdp,
        ReceiverSource::GelfTcp,
        ReceiverSource::OtlpHttpLogs,
        ReceiverSource::OtlpGrpcLogs,
    ] {
        m.record_drop(source, 0);
    }
    assert!(
        m.trace_ingest_loss().is_clean(),
        "no span was lost, whatever the log side did"
    );

    m.record_drop(ReceiverSource::OtlpHttpTraces, 0);
    m.record_drop(ReceiverSource::OtlpGrpcTraces, 0);
    assert_eq!(
        m.trace_ingest_loss().dropped,
        2,
        "both trace transports count toward span loss"
    );
}

#[test]
fn shed_and_malformed_are_counted_apart_from_drops_and_from_each_other() {
    let mut m = ReceiverMetrics::new();
    m.record_trace_batch_shed(TraceTransport::OtlpHttp);
    m.record_trace_batch_shed(TraceTransport::OtlpGrpc);
    m.record_trace_malformed(TraceTransport::OtlpHttp);

    let loss = m.trace_ingest_loss();
    assert_eq!(loss.shed_batches, 2);
    assert_eq!(loss.malformed, 1);
    assert_eq!(loss.dropped, 0);
    // And none of it leaked into the wire-facing drop snapshot, which
    // documents itself as counting only entries the broker silently lost.
    assert_eq!(m.snapshot(), ReceiverDropSnapshot::default());
}

#[test]
fn a_window_delta_never_reports_more_loss_than_happened() {
    let mut m = ReceiverMetrics::new();
    m.record_drop(ReceiverSource::OtlpHttpTraces, 0);
    let baseline = m.trace_ingest_loss();
    m.record_drop(ReceiverSource::OtlpHttpTraces, 0);
    m.record_trace_batch_shed(TraceTransport::OtlpGrpc);

    let delta = m.trace_ingest_loss().since(baseline);
    assert_eq!(delta.dropped, 1, "only what happened inside the window");
    assert_eq!(delta.shed_batches, 1);

    // A baseline ahead of the reading means the counters were reset under
    // us. Zero is the honest answer; wrapping would fabricate 18 quintillion.
    let stale = TraceIngestLoss {
        dropped: 99,
        shed_batches: 99,
        malformed: 99,
    };
    assert!(m.trace_ingest_loss().since(stale).is_clean());
}

#[test]
fn try_send_log_drops_when_full() {
    let (tx, mut rx) = mpsc::channel::<LogEntry>(1);
    let mut m = ReceiverMetrics::new();

    // First send fills the 1-slot channel.
    assert!(m.try_send_log(&tx, entry(), ReceiverSource::GelfUdp, 7).sent);
    // Second send finds it full → drop counted, no panic, no park.
    assert!(!m.try_send_log(&tx, entry(), ReceiverSource::GelfUdp, 8).sent);
    assert_eq!(m.snapshot().gelf_udp, 1);
    assert_eq!(m.liveness().gelf_udp, Some(7));
    assert_eq!(rx.try_recv().unwrap().message, "x");
    // A channel that nobody reads any more is neither.
    drop(rx);
    let r = m.try_send_log(&tx, entry(), ReceiverSource::GelfUdp, 9);
    assert!(!r.sent && !r.warn);
    assert_eq!(m.snapshot().gelf_udp, 1);
    assert_eq!(m.liveness().gelf_udp, Some(7));
}

#[test]
fn channel_used_pct_reads_capacity() {
    let (log_sender, _log_rx) = mpsc::channel::<LogEntry>(10);
    // Empty channel → 0% used.
    assert_eq!(channel_used_pct(&log_sender), 0);
    log_sender.try_send(entry()).unwrap();
    assert_eq!(channel_used_pct(&log_sender), 10);
    assert_eq!(used_pct(10, 2), 80);
    assert_eq!(used_pct(0, 0), 0);
}

const ONE_SPAN: &str = r#"{
    "resourceSpans": [{
        "resource": { "attributes": [] },
        "scopeSpans": [{
            "spans": [{
                "traceId": "0102030405060708090a0b0c0d0e0f10",
                "spanId":  "0102030405060708",
                "name": "synthetic",
                "startTimeUnixNano": "0",
                "endTimeUnixNano":   "0"
            }]
        }]
    }]
}"#;

#[test]
fn handle_traces_returns_429_when_span_channel_at_capacity() {
    let (span_sender, _span_rx) = mpsc::channel::<SpanEntry>(1);
    let mut metrics = ReceiverMetrics::new();
    // Fill the span channel.
    span_sender.try_send(span()).unwrap();

    // POST a single span — channel is full, so the threshold gate
    // returns 429 BEFORE any per-entry try_send_span runs. The
    // counter stays at 0 (the 429 is the backpressure signal).
    let handled = handle_traces_inner(&mut metrics, &span_sender, &json(ONE_SPAN), 0);
    // 80%+ full → 429 (span channel capacity=1, used=1 → 100%).
    assert_eq!(handled.status.code(), 429);
    // Nothing is dropped at the per-entry level: the body is rejected
    // wholesale, and counted as shed.
    assert_eq!(metrics.snapshot().otlp_http_traces, 0);
    assert_eq!(metrics.trace_ingest_loss().shed_batches, 1);
}

#[test]
fn handle_traces_below_threshold_sends_and_returns_200() {
    // Span channel cap=10, so 1 entry = 10% used, well below 80%.
    let (span_sender, mut span_rx) = mpsc::channel::<SpanEntry>(10);
    let mut metrics = ReceiverMetrics::new();

    let handled = handle_traces_inner(&mut metrics, &span_sender, &json(ONE_SPAN), 0);
    assert_eq!(handled.status.code(), 200);
    // Counter unchanged — entry made it through.
    assert_eq!(metrics.snapshot().otlp_http_traces, 0);
    // Channel now contains exactly one span.
    assert_eq!(span_sender.capacity(), 9, "expected one slot consumed");
    let sent = span_rx.try_recv().unwrap();
    assert_eq!(sent.trace_id, 0x0102030405060708090a0b0c0d0e0f10);
    assert_eq!(sent.name, "synthetic");
}

#[test]
fn a_body_is_shed_from_four_fifths_on() {
    let (span_sender, mut span_rx) = mpsc::channel::<SpanEntry>(10);
    let mut metrics = ReceiverMetrics::new();
    let shed = handle_traces_at(&mut metrics, &span_sender, &json(ONE_SPAN), 0, 80);
    assert_eq!(shed.status.code(), 429);
    assert!(span_rx.try_recv().is_err());
    assert_eq!(metrics.trace_ingest_loss().shed_batches, 1);
    let taken = handle_traces_at(&mut metrics, &span_sender, &json(ONE_SPAN), 0, 79);
    assert_eq!(taken.status.code(), 200);
    assert_eq!(span_rx.try_recv().unwrap().name, "synthetic");
    assert_eq!(metrics.trace_ingest_loss().shed_batches, 1);

    let (log_sender, mut log_rx) = mpsc::channel::<LogEntry>(10);
    let body = json(
        r#"{"resourceLogs":[{"scopeLogs":[{"logRecords":[{"body":{"stringValue":"boom"}}]}]}]}"#,
    );
    let shed = handle_logs_at(&mut metrics, &log_sender, &body, now(), 3, 80);
    assert_eq!(shed.status.code(), 429);
    assert!(log_rx.try_recv().is_err());
    let taken = handle_logs_at(&mut metrics, &log_sender, &body, now(), 3, 79);
    assert_eq!(taken.status.code(), 200);
    assert_eq!(log_rx.try_recv().unwrap().message, "boom");
}

#[test]
fn log_bodies_are_forwarded_record_by_record() {
    let (log_sender, mut log_rx) = mpsc::channel::<LogEntry>(10);
    let mut metrics = ReceiverMetrics::new();
    let body = json(
        r#"{"resourceLogs":[{
            "resource":{"attributes":[{"key":"service.name","value":{"stringValue":"shop"}}]},
            "scopeLogs":[{"logRecords":[
                {"severityNumber":17,"body":{"stringValue":"boom"},"timeUnixNano":"1500000000"},
                {"severityNumber":9,"body":{"stringValue":"fine"}}
            ]}]}]}"#,
    );
    let handled = handle_logs_inner(&mut metrics, &log_sender, &body, now(), 3);
    assert_eq!(handled.status.code(), 200);
    let first = log_rx.try_recv().unwrap();
    assert_eq!(first.message, "boom");
    assert_eq!(first.level, Level::Error);
    assert_eq!(first.facility.as_deref(), Some("shop"));
    assert_eq!(first.timestamp, Timestamp::new(1, 500_000_000).unwrap());
    assert_eq!(log_rx.try_recv().unwrap().message, "fine");
    assert!(log_rx.try_recv().is_err());
    assert_eq!(metrics.liveness().otlp_http_logs, Some(3));
}
