//! What a span records.
use crate::clock::Timestamp;
use crate::gelf::message::field_views;
use crate::json::{Json, JsonView};
use crate::text_map::TextMap;
use vstd::prelude::*;

verus! {

broadcast use vstd::string::group_string_axioms;

/// The role of a span in its trace.
#[derive(Debug, Clone, Copy, PartialEq, Eq, Structural)]
pub enum SpanKind {
    Unspecified,
    Internal,
    Server,
    Client,
    Producer,
    Consumer,
}

/// How a span ended.
#[derive(Debug, PartialEq, Eq)]
pub enum SpanStatus {
    Unset,
    Okay,
    Error(String),
}

/// What a [`SpanStatus`] says.
#[verifier::ext_equal]
pub enum SpanStatusView {
    Unset,
    Okay,
    Error(Seq<char>),
}

impl View for SpanStatus {
    type V = SpanStatusView;

    open spec fn view(&self) -> SpanStatusView {
        match self {
            SpanStatus::Unset => SpanStatusView::Unset,
            SpanStatus::Okay => SpanStatusView::Okay,
            SpanStatus::Error(message) => SpanStatusView::Error(message@),
        }
    }
}

/// Something that happened during a span.
#[derive(Debug, PartialEq, Eq)]
pub struct SpanEvent {
    pub name: String,
    pub timestamp: Timestamp,
    pub attributes: TextMap<Json>,
}

/// What a [`SpanEvent`] records.
#[verifier::ext_equal]
pub struct SpanEventView {
    pub name: Seq<char>,
    pub timestamp: Timestamp,
    pub attributes: Map<Seq<char>, JsonView>,
}

impl View for SpanEvent {
    type V = SpanEventView;

    open spec fn view(&self) -> SpanEventView {
        SpanEventView {
            name: self.name@,
            timestamp: self.timestamp,
            attributes: field_views(self.attributes@),
        }
    }
}

/// The views of a list of events.
pub open spec fn event_views(events: Seq<SpanEvent>) -> Seq<SpanEventView> {
    events.map_values(|e: SpanEvent| e@)
}

/// One span. Its duration is the time from its start to its end.
#[derive(Debug, PartialEq, Eq)]
pub struct SpanEntry {
    pub seq: u64,
    pub trace_id: u128,
    pub span_id: u64,
    pub parent_span_id: Option<u64>,
    pub start_time: Timestamp,
    pub end_time: Timestamp,
    pub name: String,
    pub kind: SpanKind,
    pub service_name: String,
    pub status: SpanStatus,
    pub attributes: TextMap<Json>,
    pub events: Vec<SpanEvent>,
}

/// What a [`SpanEntry`] records.
#[verifier::ext_equal]
pub struct SpanEntryView {
    pub seq: u64,
    pub trace_id: u128,
    pub span_id: u64,
    pub parent_span_id: Option<u64>,
    pub start_time: Timestamp,
    pub end_time: Timestamp,
    pub name: Seq<char>,
    pub kind: SpanKind,
    pub service_name: Seq<char>,
    pub status: SpanStatusView,
    pub attributes: Map<Seq<char>, JsonView>,
    pub events: Seq<SpanEventView>,
}

impl View for SpanEntry {
    type V = SpanEntryView;

    open spec fn view(&self) -> SpanEntryView {
        SpanEntryView {
            seq: self.seq,
            trace_id: self.trace_id,
            span_id: self.span_id,
            parent_span_id: self.parent_span_id,
            start_time: self.start_time,
            end_time: self.end_time,
            name: self.name@,
            kind: self.kind,
            service_name: self.service_name@,
            status: self.status@,
            attributes: field_views(self.attributes@),
            events: event_views(self.events@),
        }
    }
}

/// The views of a list of spans.
pub open spec fn span_views(spans: Seq<SpanEntry>) -> Seq<SpanEntryView> {
    spans.map_values(|s: SpanEntry| s@)
}

/// What is told of a trace in a line.
#[derive(Debug, PartialEq, Eq)]
pub struct TraceSummary {
    pub trace_id: u128,
    pub root_span_name: String,
    pub service_name: String,
    pub start_time: Timestamp,
    /// When the root span ended, from which the total duration is told; `None`
    /// where the root has not arrived, which counts as no duration.
    pub root_end_time: Option<Timestamp>,
    pub span_count: u32,
    pub has_errors: bool,
    /// Filled in where logs are at hand.
    pub linked_log_count: u32,
}

/// What a [`TraceSummary`] tells.
#[verifier::ext_equal]
pub struct TraceSummaryView {
    pub trace_id: u128,
    pub root_span_name: Seq<char>,
    pub service_name: Seq<char>,
    pub start_time: Timestamp,
    pub root_end_time: Option<Timestamp>,
    pub span_count: u32,
    pub has_errors: bool,
    pub linked_log_count: u32,
}

impl View for TraceSummary {
    type V = TraceSummaryView;

    open spec fn view(&self) -> TraceSummaryView {
        TraceSummaryView {
            trace_id: self.trace_id,
            root_span_name: self.root_span_name@,
            service_name: self.service_name@,
            start_time: self.start_time,
            root_end_time: self.root_end_time,
            span_count: self.span_count,
            has_errors: self.has_errors,
            linked_log_count: self.linked_log_count,
        }
    }
}

} // verus!
