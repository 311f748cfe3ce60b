//! Receiver-side metrics: per-source drop counters with rate-limited warning.
//!
//! Every receiver forwards entries via [`ReceiverMetrics::try_send_log`] and
//! [`ReceiverMetrics::try_send_span`], which never park: where the channel is
//! full they bump the per-source drop counter and report so. The first drop in
//! any 60-second window also asks for a warning, so that backpressure is seen.
use crate::gelf::message::LogEntry;
use crate::span::types::SpanEntry;
use vstd::prelude::*;

verus! {

/// Which receiver produced a drop.
#[derive(Debug, Clone, Copy, PartialEq, Eq, Structural)]
pub enum ReceiverSource {
    GelfUdp,
    GelfTcp,
    OtlpHttpLogs,
    OtlpHttpTraces,
    OtlpGrpcLogs,
    OtlpGrpcTraces,
}

impl ReceiverSource {
    /// The name of a source.
    pub open spec fn name(self) -> Seq<char> {
        match self {
            ReceiverSource::GelfUdp => "gelf_udp"@,
            ReceiverSource::GelfTcp => "gelf_tcp"@,
            ReceiverSource::OtlpHttpLogs => "otlp_http_logs"@,
            ReceiverSource::OtlpHttpTraces => "otlp_http_traces"@,
            ReceiverSource::OtlpGrpcLogs => "otlp_grpc_logs"@,
            ReceiverSource::OtlpGrpcTraces => "otlp_grpc_traces"@,
        }
    }

    pub fn as_str(&self) -> (r: &'static str)
        ensures
            r@ == self.name(),
    {
        match self {
            ReceiverSource::GelfUdp => "gelf_udp",
            ReceiverSource::GelfTcp => "gelf_tcp",
            ReceiverSource::OtlpHttpLogs => "otlp_http_logs",
            ReceiverSource::OtlpHttpTraces => "otlp_http_traces",
            ReceiverSource::OtlpGrpcLogs => "otlp_grpc_logs",
            ReceiverSource::OtlpGrpcTraces => "otlp_grpc_traces",
        }
    }

    /// Whether spans arrive on this source.
    pub open spec fn carries_spans(self) -> bool {
        self == ReceiverSource::OtlpHttpTraces || self == ReceiverSource::OtlpGrpcTraces
    }
}

/// The least time between two warnings: 60 seconds.
pub const WARN_INTERVAL_NANOS: i64 = 60_000_000_000;

/// The two transports a span can arrive on.
///
/// Deliberately narrower than [`ReceiverSource`]: a GELF burst or a log-side
/// refusal must not be able to reach the span accounting.
#[derive(Debug, Clone, Copy, PartialEq, Eq, Structural)]
pub enum TraceTransport {
    OtlpHttp,
    OtlpGrpc,
}

/// The three ways a span is lost before it can reach a collector, summed over
/// both OTLP trace transports.
#[derive(Debug, Clone, Copy, PartialEq, Eq, Structural)]
pub struct TraceIngestLoss {
    /// Per span, channel full.
    pub dropped: u64,
    /// Whole request bodies refused before any span in them was parsed. How many
    /// spans were in them is unknowable, so this counts batches.
    pub shed_batches: u64,
    /// Discarded at parse: unusable trace id, unusable span id, or empty name.
    pub malformed: u64,
}

impl Default for TraceIngestLoss {
    fn default() -> (r: Self)
        ensures
            r == (TraceIngestLoss { dropped: 0, shed_batches: 0, malformed: 0 }),
    {
        TraceIngestLoss { dropped: 0, shed_batches: 0, malformed: 0 }
    }
}

/// The growth of a counter, or nothing where it has gone back.
pub open spec fn growth(now: u64, before: u64) -> u64 {
    if now >= before {
        (now - before) as u64
    } else {
        0
    }
}

impl TraceIngestLoss {
    /// The loss accumulated between two readings of the same counters.
    pub open spec fn delta(self, baseline: Self) -> Self {
        TraceIngestLoss {
            dropped: growth(self.dropped, baseline.dropped),
            shed_batches: growth(self.shed_batches, baseline.shed_batches),
            malformed: growth(self.malformed, baseline.malformed),
        }
    }

    /// The loss accumulated between two readings of the same counters.
    ///
    /// A reading behind its baseline counts as none: a wrapped-around
    /// subtraction would turn a small bookkeeping mistake into a vast fabricated
    /// loss.
    pub fn since(self, baseline: Self) -> (r: Self)
        ensures
            r == self.delta(baseline),
    {
        TraceIngestLoss {
            dropped: self.dropped.saturating_sub(baseline.dropped),
            shed_batches: self.shed_batches.saturating_sub(baseline.shed_batches),
            malformed: self.malformed.saturating_sub(baseline.malformed),
        }
    }

    /// Whether nothing at all was lost.
    pub fn is_clean(self) -> (r: bool)
        ensures
            r == (self.dropped == 0 && self.shed_batches == 0 && self.malformed == 0),
    {
        self.dropped == 0 && self.shed_batches == 0 && self.malformed == 0
    }
}

/// All drop counters, as a status reports them.
#[derive(Debug, Clone, Copy, PartialEq, Eq, Structural)]
pub struct ReceiverDropSnapshot {
    pub gelf_udp: u64,
    pub gelf_tcp: u64,
    pub otlp_http_logs: u64,
    pub otlp_http_traces: u64,
    pub otlp_grpc_logs: u64,
    pub otlp_grpc_traces: u64,
}

impl Default for ReceiverDropSnapshot {
    fn default() -> (r: Self)
        ensures
            forall|s: ReceiverSource| #[trigger] r.of(s) == 0,
    {
        ReceiverDropSnapshot {
            gelf_udp: 0,
            gelf_tcp: 0,
            otlp_http_logs: 0,
            otlp_http_traces: 0,
            otlp_grpc_logs: 0,
            otlp_grpc_traces: 0,
        }
    }
}

impl ReceiverDropSnapshot {
    /// The counter of a source.
    pub open spec fn of(self, source: ReceiverSource) -> u64 {
        match source {
            ReceiverSource::GelfUdp => self.gelf_udp,
            ReceiverSource::GelfTcp => self.gelf_tcp,
            ReceiverSource::OtlpHttpLogs => self.otlp_http_logs,
            ReceiverSource::OtlpHttpTraces => self.otlp_http_traces,
            ReceiverSource::OtlpGrpcLogs => self.otlp_grpc_logs,
            ReceiverSource::OtlpGrpcTraces => self.otlp_grpc_traces,
        }
    }
}

/// When something was last received on each source, in nanoseconds since the
/// Unix epoch; `None` where nothing ever was.
#[derive(Debug, Clone, Copy, PartialEq, Eq, Structural)]
pub struct ReceiverLivenessNanos {
    pub gelf_udp: Option<i64>,
    pub gelf_tcp: Option<i64>,
    pub otlp_http_logs: Option<i64>,
    pub otlp_http_traces: Option<i64>,
    pub otlp_grpc_logs: Option<i64>,
    pub otlp_grpc_traces: Option<i64>,
}

impl Default for ReceiverLivenessNanos {
    fn default() -> (r: Self)
        ensures
            forall|s: ReceiverSource| (#[trigger] r.of(s)) is None,
    {
        ReceiverLivenessNanos {
            gelf_udp: None,
            gelf_tcp: None,
            otlp_http_logs: None,
            otlp_http_traces: None,
            otlp_grpc_logs: None,
            otlp_grpc_traces: None,
        }
    }
}

impl ReceiverLivenessNanos {
    /// When something was last received on a source.
    pub open spec fn of(self, source: ReceiverSource) -> Option<i64> {
        match source {
            ReceiverSource::GelfUdp => self.gelf_udp,
            ReceiverSource::GelfTcp => self.gelf_tcp,
            ReceiverSource::OtlpHttpLogs => self.otlp_http_logs,
            ReceiverSource::OtlpHttpTraces => self.otlp_http_traces,
            ReceiverSource::OtlpGrpcLogs => self.otlp_grpc_logs,
            ReceiverSource::OtlpGrpcTraces => self.otlp_grpc_traces,
        }
    }
}

/// The counters of one broker.
pub struct ReceiverMetrics {
    drops: ReceiverDropSnapshot,
    /// Trace request bodies refused wholesale. Apart from the drops, because the
    /// two mean different things to a client: a drop is silent data loss, a shed
    /// is a refusal the client saw.
    http_shed: u64,
    grpc_shed: u64,
    http_malformed: u64,
    grpc_malformed: u64,
    /// When a warning was last asked for.
    last_warn: Option<i64>,
    last: ReceiverLivenessNanos,
}

/// What is counted.
#[verifier::ext_equal]
pub struct MetricsView {
    pub drops: ReceiverDropSnapshot,
    pub http_shed: u64,
    pub grpc_shed: u64,
    pub http_malformed: u64,
    pub grpc_malformed: u64,
    pub last_warn: Option<i64>,
    pub last: ReceiverLivenessNanos,
}

impl View for ReceiverMetrics {
    type V = MetricsView;

    closed spec fn view(&self) -> MetricsView {
        MetricsView {
            drops: self.drops,
            http_shed: self.http_shed,
            grpc_shed: self.grpc_shed,
            http_malformed: self.http_malformed,
            grpc_malformed: self.grpc_malformed,
            last_warn: self.last_warn,
            last: self.last,
        }
    }
}

/// A counter after one more. It wraps around.
pub open spec fn after(count: u64) -> u64 {
    if count == u64::MAX {
        0
    } else {
        (count + 1) as u64
    }
}

/// Whether a warning is due: none was ever given, or the last one is a whole
/// interval old.
pub open spec fn warning_due(last: Option<i64>, now: i64) -> bool {
    match last {
        None => true,
        Some(t) => now - t >= WARN_INTERVAL_NANOS,
    }
}

impl MetricsView {
    /// Nothing counted yet.
    pub open spec fn fresh(self) -> bool {
        &&& forall|s: ReceiverSource| #[trigger] self.drops.of(s) == 0
        &&& forall|s: ReceiverSource| (#[trigger] self.last.of(s)) is None
        &&& self.http_shed == 0 && self.grpc_shed == 0
        &&& self.http_malformed == 0 && self.grpc_malformed == 0
        &&& self.last_warn is None
    }

    /// With one more drop on a source, and the warning that came with it.
    pub open spec fn dropped(self, source: ReceiverSource, now: i64) -> MetricsView {
        MetricsView {
            drops: ReceiverDropSnapshot {
                gelf_udp: if source == ReceiverSource::GelfUdp {
                    after(self.drops.gelf_udp)
                } else {
                    self.drops.gelf_udp
                },
                gelf_tcp: if source == ReceiverSource::GelfTcp {
                    after(self.drops.gelf_tcp)
                } else {
                    self.drops.gelf_tcp
                },
                otlp_http_logs: if source == ReceiverSource::OtlpHttpLogs {
                    after(self.drops.otlp_http_logs)
                } else {
                    self.drops.otlp_http_logs
                },
                otlp_http_traces: if source == ReceiverSource::OtlpHttpTraces {
                    after(self.drops.otlp_http_traces)
                } else {
                    self.drops.otlp_http_traces
                },
                otlp_grpc_logs: if source == ReceiverSource::OtlpGrpcLogs {
                    after(self.drops.otlp_grpc_logs)
                } else {
                    self.drops.otlp_grpc_logs
                },
                otlp_grpc_traces: if source == ReceiverSource::OtlpGrpcTraces {
                    after(self.drops.otlp_grpc_traces)
                } else {
                    self.drops.otlp_grpc_traces
                },
            },
            last_warn: if warning_due(self.last_warn, now) {
                Some(now)
            } else {
                self.last_warn
            },
            ..self
        }
    }

    /// With something received on a source. The earliest time there is stands
    /// for never.
    pub open spec fn received(self, source: ReceiverSource, now: i64) -> MetricsView {
        let at = if now == i64::MIN {
            None
        } else {
            Some(now)
        };
        MetricsView {
            last: ReceiverLivenessNanos {
                gelf_udp: if source == ReceiverSource::GelfUdp {
                    at
                } else {
                    self.last.gelf_udp
                },
                gelf_tcp: if source == ReceiverSource::GelfTcp {
                    at
                } else {
                    self.last.gelf_tcp
                },
                otlp_http_logs: if source == ReceiverSource::OtlpHttpLogs {
                    at
                } else {
                    self.last.otlp_http_logs
                },
                otlp_http_traces: if source == ReceiverSource::OtlpHttpTraces {
                    at
                } else {
                    self.last.otlp_http_traces
                },
                otlp_grpc_logs: if source == ReceiverSource::OtlpGrpcLogs {
                    at
                } else {
                    self.last.otlp_grpc_logs
                },
                otlp_grpc_traces: if source == ReceiverSource::OtlpGrpcTraces {
                    at
                } else {
                    self.last.otlp_grpc_traces
                },
            },
            ..self
        }
    }

    /// With one more request body refused.
    pub open spec fn shed(self, transport: TraceTransport) -> MetricsView {
        match transport {
            TraceTransport::OtlpHttp => MetricsView { http_shed: after(self.http_shed), ..self },
            TraceTransport::OtlpGrpc => MetricsView { grpc_shed: after(self.grpc_shed), ..self },
        }
    }

    /// With one more span discarded at parse.
    pub open spec fn malformed(self, transport: TraceTransport) -> MetricsView {
        match transport {
            TraceTransport::OtlpHttp => MetricsView {
                http_malformed: after(self.http_malformed),
                ..self
            },
            TraceTransport::OtlpGrpc => MetricsView {
                grpc_malformed: after(self.grpc_malformed),
                ..self
            },
        }
    }

    /// After an entry was offered to a channel.
    pub open spec fn offered(self, source: ReceiverSource, outcome: SendOutcome, now: i64) -> MetricsView {
        match outcome {
            SendOutcome::Sent => self.received(source, now),
            SendOutcome::Full => self.dropped(source, now),
            SendOutcome::Closed => self,
        }
    }

    /// The spans that were dropped, over both transports.
    pub open spec fn spans_dropped(self) -> int {
        self.drops.otlp_http_traces + self.drops.otlp_grpc_traces
    }

    /// The bodies that were refused, over both transports.
    pub open spec fn bodies_shed(self) -> int {
        self.http_shed + self.grpc_shed
    }

    /// The spans that were discarded, over both transports.
    pub open spec fn spans_malformed(self) -> int {
        self.http_malformed + self.grpc_malformed
    }

    /// The span loss that is reported.
    pub open spec fn trace_loss(self) -> TraceIngestLoss {
        TraceIngestLoss {
            dropped: counted(self.spans_dropped()),
            shed_batches: counted(self.bodies_shed()),
            malformed: counted(self.spans_malformed()),
        }
    }
}

/// A sum of counters, as it is reported: one that is too large stays at the
/// largest count there is.
pub open spec fn counted(n: int) -> u64 {
    if n > u64::MAX {
        u64::MAX
    } else {
        n as u64
    }
}

/// What became of an entry that was offered to a channel.
#[derive(Debug, Clone, Copy, PartialEq, Eq, Structural)]
pub enum SendOutcome {
    Sent,
    Full,
    Closed,
}

/// What a receiver is told of an entry that it forwarded.
#[derive(Debug, Clone, Copy, PartialEq, Eq, Structural)]
pub struct Forwarded {
    /// Whether it was taken.
    pub sent: bool,
    /// Whether a warning about backpressure is due.
    pub warn: bool,
}

fn bumped(count: u64) -> (r: u64)
    ensures
        r == after(count),
{
    if count == u64::MAX {
        0
    } else {
        count + 1
    }
}

impl ReceiverMetrics {
    pub fn new() -> (r: Self)
        ensures
            r@.fresh(),
    {
        ReceiverMetrics {
            drops: ReceiverDropSnapshot::default(),
            http_shed: 0,
            grpc_shed: 0,
            http_malformed: 0,
            grpc_malformed: 0,
            last_warn: None,
            last: ReceiverLivenessNanos::default(),
        }
    }

    /// Stamp the last-received time for `source`.
    fn record_received(&mut self, source: ReceiverSource, now: i64)
        ensures
            final(self)@ == old(self)@.received(source, now),
    {
        let at = if now == i64::MIN {
            None
        } else {
            Some(now)
        };
        match source {
            ReceiverSource::GelfUdp => self.last.gelf_udp = at,
            ReceiverSource::GelfTcp => self.last.gelf_tcp = at,
            ReceiverSource::OtlpHttpLogs => self.last.otlp_http_logs = at,
            ReceiverSource::OtlpHttpTraces => self.last.otlp_http_traces = at,
            ReceiverSource::OtlpGrpcLogs => self.last.otlp_grpc_logs = at,
            ReceiverSource::OtlpGrpcTraces => self.last.otlp_grpc_traces = at,
        }
    }

    /// When something was last received on each source.
    pub fn liveness(&self) -> (r: ReceiverLivenessNanos)
        ensures
            r == self@.last,
    {
        self.last
    }

    /// Increment the counter for `source` and say whether a warning is due,
    /// which it is where the last one is at least 60 seconds ago or never was.
    pub fn record_drop(&mut self, source: ReceiverSource, now: i64) -> (warn: bool)
        ensures
            final(self)@ == old(self)@.dropped(source, now),
            warn == warning_due(old(self)@.last_warn, now),
    {
        match source {
            ReceiverSource::GelfUdp => self.drops.gelf_udp = bumped(self.drops.gelf_udp),
            ReceiverSource::GelfTcp => self.drops.gelf_tcp = bumped(self.drops.gelf_tcp),
            ReceiverSource::OtlpHttpLogs => self.drops.otlp_http_logs = bumped(
                self.drops.otlp_http_logs,
            ),
            ReceiverSource::OtlpHttpTraces => self.drops.otlp_http_traces = bumped(
                self.drops.otlp_http_traces,
            ),
            ReceiverSource::OtlpGrpcLogs => self.drops.otlp_grpc_logs = bumped(
                self.drops.otlp_grpc_logs,
            ),
            ReceiverSource::OtlpGrpcTraces => self.drops.otlp_grpc_traces = bumped(
                self.drops.otlp_grpc_traces,
            ),
        }
        let warn = match self.last_warn {
            None => true,
            Some(last) => now as i128 - last as i128 >= WARN_INTERVAL_NANOS as i128,
        };
        if warn {
            self.last_warn = Some(now);
        }
        warn
    }

    /// Record one trace request body refused wholesale under backpressure.
    pub fn record_trace_batch_shed(&mut self, transport: TraceTransport)
        ensures
            final(self)@ == old(self)@.shed(transport),
    {
        match transport {
            TraceTransport::OtlpHttp => self.http_shed = bumped(self.http_shed),
            TraceTransport::OtlpGrpc => self.grpc_shed = bumped(self.grpc_shed),
        }
    }

    /// Record one span discarded at parse time.
    pub fn record_trace_malformed(&mut self, transport: TraceTransport)
        ensures
            final(self)@ == old(self)@.malformed(transport),
    {
        match transport {
            TraceTransport::OtlpHttp => self.http_malformed = bumped(self.http_malformed),
            TraceTransport::OtlpGrpc => self.grpc_malformed = bumped(self.grpc_malformed),
        }
    }

    /// Span loss across both OTLP trace transports, and no other source.
    pub fn trace_ingest_loss(&self) -> (r: TraceIngestLoss)
        ensures
            r == self@.trace_loss(),
    {
        TraceIngestLoss {
            dropped: self.drops.otlp_http_traces.saturating_add(self.drops.otlp_grpc_traces),
            shed_batches: self.http_shed.saturating_add(self.grpc_shed),
            malformed: self.http_malformed.saturating_add(self.grpc_malformed),
        }
    }

    /// Account for an entry that was offered to a channel: what was taken is
    /// stamped, what found the channel full is counted as a drop, and a closed
    /// channel counts as neither.
    pub fn record_offer(&mut self, source: ReceiverSource, outcome: SendOutcome, now: i64) -> (r:
        Forwarded)
        ensures
            final(self)@ == old(self)@.offered(source, outcome, now),
            r.sent == (outcome == SendOutcome::Sent),
            r.warn == (outcome == SendOutcome::Full && warning_due(old(self)@.last_warn, now)),
    {
        match outcome {
            SendOutcome::Sent => {
                self.record_received(source, now);
                Forwarded { sent: true, warn: false }
            },
            SendOutcome::Full => {
                let warn = self.record_drop(source, now);
                Forwarded { sent: false, warn }
            },
            SendOutcome::Closed => Forwarded { sent: false, warn: false },
        }
    }

    /// Send a [`LogEntry`] without ever parking. What comes of it is up to the
    /// channel; the counters move as [`ReceiverMetrics::record_offer`] says.
    pub fn try_send_log(
        &mut self,
        sender: &tokio::sync::mpsc::Sender<LogEntry>,
        entry: LogEntry,
        source: ReceiverSource,
        now: i64,
    ) -> (r: Forwarded)
        ensures
            accounted(old(self)@, final(self)@, source, now, r),
    {
        let outcome = offer(sender, entry);
        let ghost before = self@;
        let r = self.record_offer(source, outcome, now);
        proof {
            assert(self@ == before.offered(source, outcome, now));
        }
        r
    }

    /// Send a [`SpanEntry`] without ever parking. What comes of it is up to the
    /// channel; the counters move as [`ReceiverMetrics::record_offer`] says.
    pub fn try_send_span(
        &mut self,
        sender: &tokio::sync::mpsc::Sender<SpanEntry>,
        entry: SpanEntry,
        source: ReceiverSource,
        now: i64,
    ) -> (r: Forwarded)
        ensures
            accounted(old(self)@, final(self)@, source, now, r),
    {
        let outcome = offer(sender, entry);
        let ghost before = self@;
        let r = self.record_offer(source, outcome, now);
        proof {
            assert(self@ == before.offered(source, outcome, now));
        }
        r
    }

    pub fn snapshot(&self) -> (r: ReceiverDropSnapshot)
        ensures
            r == self@.drops,
    {
        self.drops
    }
}

impl Default for ReceiverMetrics {
    fn default() -> (r: Self)
        ensures
            r@.fresh(),
    {
        Self::new()
    }
}

/// What holds of every send: the counters moved as some outcome moves them, and
/// the receiver was told of that outcome.
pub open spec fn accounted(
    before: MetricsView,
    now_view: MetricsView,
    source: ReceiverSource,
    now: i64,
    r: Forwarded,
) -> bool {
    if r.sent {
        now_view == before.offered(source, SendOutcome::Sent, now) && !r.warn
    } else {
        ||| now_view == before.offered(source, SendOutcome::Full, now) && r.warn == warning_due(
            before.last_warn,
            now,
        )
        ||| now_view == before.offered(source, SendOutcome::Closed, now) && !r.warn
    }
}

/// A log source can do what it likes without touching the accounting of spans,
/// and neither refused bodies nor discarded spans are counted as drops.
pub proof fn losses_are_counted_apart(
    m: MetricsView,
    source: ReceiverSource,
    transport: TraceTransport,
    outcome: SendOutcome,
    now: i64,
)
    ensures
        !source.carries_spans() ==> {
            let n = m.offered(source, outcome, now);
            &&& n.spans_dropped() == m.spans_dropped()
            &&& n.bodies_shed() == m.bodies_shed()
            &&& n.spans_malformed() == m.spans_malformed()
        },
        m.shed(transport).drops == m.drops,
        m.shed(transport).spans_malformed() == m.spans_malformed(),
        m.malformed(transport).drops == m.drops,
        m.malformed(transport).bodies_shed() == m.bodies_shed(),
{
}

/// A drop moves the counter of its own source, by one, and no other.
pub proof fn drops_move_one_counter(
    m: MetricsView,
    source: ReceiverSource,
    other: ReceiverSource,
    now: i64,
)
    ensures
        m.dropped(source, now).drops.of(source) == after(m.drops.of(source)),
        other != source ==> m.dropped(source, now).drops.of(other) == m.drops.of(other),
        m.dropped(source, now).last == m.last,
{
}

/// A call that moves the counters.
pub enum MetricsCall {
    /// An entry of a source was offered to its channel.
    Offer(ReceiverSource, SendOutcome, i64),
    /// A whole body was refused.
    Shed(TraceTransport),
    /// A span was discarded.
    Malformed(TraceTransport),
}

/// The metrics after calls, one after the other.
pub open spec fn after_calls(m: MetricsView, calls: Seq<MetricsCall>) -> MetricsView
    decreases calls.len(),
{
    if calls.len() == 0 {
        m
    } else {
        let before = after_calls(m, calls.drop_last());
        match calls.last() {
            MetricsCall::Offer(source, outcome, now) => before.offered(source, outcome, now),
            MetricsCall::Shed(transport) => before.shed(transport),
            MetricsCall::Malformed(transport) => before.malformed(transport),
        }
    }
}

/// How many of the calls are drops of a source.
pub open spec fn drops_among(calls: Seq<MetricsCall>, source: ReceiverSource) -> nat
    decreases calls.len(),
{
    if calls.len() == 0 {
        0
    } else {
        drops_among(calls.drop_last(), source) + if calls.last() matches MetricsCall::Offer(
            s,
            SendOutcome::Full,
            _,
        ) && s == source {
            1nat
        } else {
            0
        }
    }
}

/// A counter after `n` more. It wraps around.
pub open spec fn counted_on(count: u64, n: nat) -> u64 {
    ((count + n) % 0x1_0000_0000_0000_0000) as u64
}

/// Whatever is called and however often, each drop counter has grown by the drops
/// of its own source, and by nothing else: what other sources drop, the bodies that
/// are refused and the spans that are discarded move none of it.
pub proof fn drops_add_up(m: MetricsView, calls: Seq<MetricsCall>, source: ReceiverSource)
    ensures
        after_calls(m, calls).drops.of(source) == counted_on(
            m.drops.of(source),
            drops_among(calls, source),
        ),
    decreases calls.len(),
{
    if calls.len() > 0 {
        let rest = calls.drop_last();
        drops_add_up(m, rest, source);
        match calls.last() {
            MetricsCall::Offer(s, SendOutcome::Full, now) => {
                drops_move_one_counter(after_calls(m, rest), s, source, now);
            },
            _ => {},
        }
    }
}

/// The metrics after drops, each of a source and at a time.
pub open spec fn after_drops(m: MetricsView, drops: Seq<(ReceiverSource, i64)>) -> MetricsView
    decreases drops.len(),
{
    if drops.len() == 0 {
        m
    } else {
        after_drops(m, drops.drop_last()).dropped(drops.last().0, drops.last().1)
    }
}

/// After a warning, no drop within the interval asks for another, however many
/// there are and whatever their sources.
pub proof fn warnings_are_rate_limited(
    m: MetricsView,
    source: ReceiverSource,
    at: i64,
    drops: Seq<(ReceiverSource, i64)>,
    later: i64,
)
    requires
        warning_due(m.last_warn, at),
        forall|i: int|
            0 <= i < drops.len() ==> at <= (#[trigger] drops[i]).1 && drops[i].1 - at
                < WARN_INTERVAL_NANOS,
        at <= later,
        later - at < WARN_INTERVAL_NANOS,
    ensures
        after_drops(m.dropped(source, at), drops).last_warn == Some(at),
        !warning_due(after_drops(m.dropped(source, at), drops).last_warn, later),
    decreases drops.len(),
{
    if drops.len() > 0 {
        let rest = drops.drop_last();
        assert forall|i: int| 0 <= i < rest.len() implies at <= (#[trigger] rest[i]).1 && rest[i].1
            - at < WARN_INTERVAL_NANOS by {
            assert(rest[i] == drops[i]);
        }
        assert(at <= drops[drops.len() - 1].1);
        warnings_are_rate_limited(m, source, at, rest, later);
    }
}

/// The sending half of a bounded channel.
#[verifier::external_type_specification]
#[verifier::external_body]
#[verifier::reject_recursive_types(T)]
pub struct ExSender<T>(tokio::sync::mpsc::Sender<T>);

/// Calls `tokio::sync::mpsc::Sender::try_send`, which takes the entry, or
/// refuses it because the channel is full or because it is closed. Which of
/// these happens rests on the other half of the channel, so nothing is claimed
/// of the outcome.
#[verifier::external_body]
fn offer<T>(sender: &tokio::sync::mpsc::Sender<T>, entry: T) -> (r: SendOutcome)
{
    match sender.try_send(entry) {
        Ok(()) => SendOutcome::Sent,
        Err(tokio::sync::mpsc::error::TrySendError::Full(_)) => SendOutcome::Full,
        Err(tokio::sync::mpsc::error::TrySendError::Closed(_)) => SendOutcome::Closed,
    }
}

/// What arrives on a source is remembered for that source, and for no other: when it
/// last did.
pub proof fn arrivals_are_remembered_by_source(
    m: MetricsView,
    source: ReceiverSource,
    other: ReceiverSource,
    now: i64,
)
    requires
        now > i64::MIN,
    ensures
        m.offered(source, SendOutcome::Sent, now).last.of(source) == Some(now),
        other != source ==> m.offered(source, SendOutcome::Sent, now).last.of(other) == m.last.of(
            other,
        ),
        m.offered(source, SendOutcome::Sent, now).drops == m.drops,
        m.offered(source, SendOutcome::Full, now).last == m.last,
        m.offered(source, SendOutcome::Closed, now) == m,
{
}

/// A refused body and a discarded span are each counted once, on their own transport, and
/// the loss that is reported adds the two transports up.
pub proof fn span_losses_add_up(m: MetricsView, transport: TraceTransport, source: ReceiverSource, now: i64)
    ensures
        m.http_shed < u64::MAX && m.grpc_shed < u64::MAX ==> {
            &&& m.shed(transport).bodies_shed() == m.bodies_shed() + 1
            &&& m.shed(TraceTransport::OtlpHttp).grpc_shed == m.grpc_shed
            &&& m.shed(TraceTransport::OtlpGrpc).http_shed == m.http_shed
        },
        m.http_malformed < u64::MAX && m.grpc_malformed < u64::MAX ==> {
            &&& m.malformed(transport).spans_malformed() == m.spans_malformed() + 1
            &&& m.malformed(TraceTransport::OtlpHttp).grpc_malformed == m.grpc_malformed
            &&& m.malformed(TraceTransport::OtlpGrpc).http_malformed == m.http_malformed
        },
        m.drops.otlp_http_traces < u64::MAX && m.drops.otlp_grpc_traces < u64::MAX ==> (m.dropped(
            source,
            now,
        ).spans_dropped() == m.spans_dropped() + (if source == ReceiverSource::OtlpHttpTraces
            || source == ReceiverSource::OtlpGrpcTraces {
            1int
        } else {
            0
        })),
        m.drops.otlp_http_traces + m.drops.otlp_grpc_traces <= u64::MAX ==> m.trace_loss().dropped
            == m.drops.otlp_http_traces + m.drops.otlp_grpc_traces,
        m.http_shed + m.grpc_shed <= u64::MAX ==> m.trace_loss().shed_batches == m.http_shed
            + m.grpc_shed,
        m.http_malformed + m.grpc_malformed <= u64::MAX ==> m.trace_loss().malformed
            == m.http_malformed + m.grpc_malformed,
{
}

/// The loss between two readings is what each counter has grown by, and none where one
/// has gone back; between a reading and itself there is none.
pub proof fn losses_between_readings(a: TraceIngestLoss, b: TraceIngestLoss)
    ensures
        a.dropped >= b.dropped ==> a.delta(b).dropped == a.dropped - b.dropped,
        a.shed_batches >= b.shed_batches ==> a.delta(b).shed_batches == a.shed_batches
            - b.shed_batches,
        a.malformed >= b.malformed ==> a.delta(b).malformed == a.malformed - b.malformed,
        a.dropped < b.dropped ==> a.delta(b).dropped == 0,
        a.shed_batches < b.shed_batches ==> a.delta(b).shed_batches == 0,
        a.malformed < b.malformed ==> a.delta(b).malformed == 0,
{
}

/// A warning is due with the first drop, and again a minute after the last one.
pub proof fn warnings_come_again_after_a_minute(m: MetricsView, source: ReceiverSource, at: i64, later: i64)
    ensures
        warning_due(None, at),
        later - at >= 60_000_000_000 ==> warning_due(Some(at), later),
        at <= later && later - at < 60_000_000_000 ==> !warning_due(Some(at), later),
        warning_due(m.last_warn, at) ==> m.dropped(source, at).last_warn == Some(at),
        !warning_due(m.last_warn, at) ==> m.dropped(source, at).last_warn == m.last_warn,
{
}

/// Each source has a name of its own, and spans arrive on the two that carry traces.
pub proof fn sources_have_their_names(a: ReceiverSource, b: ReceiverSource)
    ensures
        ReceiverSource::GelfUdp.name() == "gelf_udp"@,
        ReceiverSource::GelfTcp.name() == "gelf_tcp"@,
        ReceiverSource::OtlpHttpLogs.name() == "otlp_http_logs"@,
        ReceiverSource::OtlpHttpTraces.name() == "otlp_http_traces"@,
        ReceiverSource::OtlpGrpcLogs.name() == "otlp_grpc_logs"@,
        ReceiverSource::OtlpGrpcTraces.name() == "otlp_grpc_traces"@,
        a.carries_spans() <==> a == ReceiverSource::OtlpHttpTraces || a
            == ReceiverSource::OtlpGrpcTraces,
{
}

} // verus!
