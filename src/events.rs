//! Lifecycle events published to live subscribers.
use vstd::prelude::*;
use crate::ids::TraceId;
use crate::span::{Span, SpanView};

verus! {

/// Live event published by the store.
#[derive(Clone, Debug)]
pub enum TraceEvent {
    /// A new trace started with a root span.
    TraceStarted { trace_id: TraceId, root_span_name: String, service_name: String },
    /// Every span of a trace has ended.
    TraceCompleted { trace_id: TraceId, duration_nanos: u64, span_count: usize },
    /// A span was added to a trace.
    SpanAdded { trace_id: TraceId, span: Span },
}

/// What an event holds.
pub enum TraceEventView {
    TraceStarted { trace_id: TraceId, root_span_name: String, service_name: String },
    TraceCompleted { trace_id: TraceId, duration_nanos: u64, span_count: usize },
    SpanAdded { trace_id: TraceId, span: SpanView },
}

impl View for TraceEvent {
    type V = TraceEventView;

    open spec fn view(&self) -> TraceEventView {
        match self {
            TraceEvent::TraceStarted { trace_id, root_span_name, service_name } => {
                TraceEventView::TraceStarted {
                    trace_id: *trace_id,
                    root_span_name: *root_span_name,
                    service_name: *service_name,
                }
            },
            TraceEvent::TraceCompleted { trace_id, duration_nanos, span_count } => {
                TraceEventView::TraceCompleted {
                    trace_id: *trace_id,
                    duration_nanos: *duration_nanos,
                    span_count: *span_count,
                }
            },
            TraceEvent::SpanAdded { trace_id, span } => TraceEventView::SpanAdded {
                trace_id: *trace_id,
                span: span@,
            },
        }
    }
}

} // verus!
