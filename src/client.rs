//! Client side: span building, active spans, and the batching of finished spans.
use vstd::prelude::*;
use tokio::sync::mpsc::UnboundedSender;
use crate::context::TraceContext;
use crate::ids::TraceContextError;
use crate::span::{
    attr_insert, event_views, AttributeValue, Attributes, Span, SpanEvent, SpanStatus, SpanView,
    Timestamp,
};

verus! {

#[verifier::external_type_specification]
#[verifier::external_body]
#[verifier::reject_recursive_types(T)]
pub struct ExUnboundedSender<T>(UnboundedSender<T>);

/// Relies on tokio::sync::mpsc::UnboundedSender::send: queues the span for the
/// batcher without blocking; once the batcher has stopped, the span is dropped.
#[verifier::external_body]
fn queue_span(tx: &UnboundedSender<Span>, span: Span) {
    let _ = tx.send(span);
}

/// Conversion of plain values into attribute values.
pub trait IntoAttributeValue: Sized {
    /// The attribute value this converts to.
    spec fn attribute_value(&self) -> AttributeValue;

    fn into_attribute_value(self) -> (r: AttributeValue)
        ensures
            r == self.attribute_value(),
    ;
}

impl IntoAttributeValue for String {
    open spec fn attribute_value(&self) -> AttributeValue {
        AttributeValue::String(*self)
    }

    fn into_attribute_value(self) -> (r: AttributeValue) {
        AttributeValue::String(self)
    }
}

impl IntoAttributeValue for i64 {
    open spec fn attribute_value(&self) -> AttributeValue {
        AttributeValue::Int(*self)
    }

    fn into_attribute_value(self) -> (r: AttributeValue) {
        AttributeValue::Int(self)
    }
}

impl IntoAttributeValue for i32 {
    open spec fn attribute_value(&self) -> AttributeValue {
        AttributeValue::Int(*self as i64)
    }

    fn into_attribute_value(self) -> (r: AttributeValue) {
        AttributeValue::Int(self as i64)
    }
}

impl IntoAttributeValue for bool {
    open spec fn attribute_value(&self) -> AttributeValue {
        AttributeValue::Bool(*self)
    }

    fn into_attribute_value(self) -> (r: AttributeValue) {
        AttributeValue::Bool(self)
    }
}

impl IntoAttributeValue for AttributeValue {
    open spec fn attribute_value(&self) -> AttributeValue {
        *self
    }

    fn into_attribute_value(self) -> (r: AttributeValue) {
        self
    }
}

/// Builder for creating and starting spans.
pub struct SpanBuilder {
    name: String,
    service_name: String,
    attributes: Attributes,
    parent: Option<TraceContext>,
    span_tx: UnboundedSender<Span>,
}

/// What a span builder holds, its queue aside.
pub struct SpanBuilderView {
    pub name: String,
    pub service_name: String,
    pub attributes: Seq<(String, AttributeValue)>,
    pub parent: Option<TraceContext>,
}

impl View for SpanBuilder {
    type V = SpanBuilderView;

    closed spec fn view(&self) -> SpanBuilderView {
        SpanBuilderView {
            name: self.name,
            service_name: self.service_name,
            attributes: self.attributes@,
            parent: self.parent,
        }
    }
}

/// The span that starts with context `c` at `now`.
pub open spec fn started_span(b: SpanBuilderView, c: TraceContext, now: Timestamp) -> SpanView {
    SpanView {
        trace_id: c.trace_id,
        span_id: c.span_id,
        parent_span_id: c.parent_span_id,
        name: b.name,
        start_time: now,
        end_time: None,
        attributes: b.attributes,
        events: Seq::empty(),
        status: SpanStatus::Success,
        service_name: b.service_name,
    }
}

impl SpanBuilder {
    /// A builder for a span named `name` of service `service_name`, whose finished
    /// span goes to `span_tx`.
    pub fn new(name: String, service_name: String, span_tx: UnboundedSender<Span>) -> (r: SpanBuilder)
        ensures
            r@.name == name,
            r@.service_name == service_name,
            r@.attributes == Seq::<(String, AttributeValue)>::empty(),
            r@.parent is None,
    {
        SpanBuilder { name, service_name, attributes: Attributes::new(), parent: None, span_tx }
    }

    /// Sets the parent trace context (for propagation).
    pub fn with_parent(self, parent: TraceContext) -> (r: SpanBuilder)
        ensures
            r@ == (SpanBuilderView { parent: Some(parent), ..self@ }),
    {
        let mut b = self;
        b.parent = Some(parent);
        b
    }

    /// Adds an attribute, replacing an earlier value under the same key.
    pub fn with_attribute<V: IntoAttributeValue>(self, key: String, value: V) -> (r: SpanBuilder)
        ensures
            r@ == (SpanBuilderView {
                attributes: attr_insert(self@.attributes, key, value.attribute_value()),
                ..self@
            }),
    {
        let mut b = self;
        let v = value.into_attribute_value();
        b.attributes.insert(key, v);
        b
    }

    /// Starts the span with context `context` at `now`.
    pub fn start_with(self, context: TraceContext, now: Timestamp) -> (r: ActiveSpan)
        ensures
            r@.span == started_span(self@, context, now),
            r@.context == context,
    {
        let span = Span {
            trace_id: context.trace_id,
            span_id: context.span_id,
            parent_span_id: context.parent_span_id,
            name: self.name,
            start_time: now,
            end_time: None,
            attributes: self.attributes,
            events: Vec::new(),
            status: SpanStatus::Success,
            service_name: self.service_name,
        };
        proof {
            assert(event_views(span.events@) =~= Seq::<crate::span::SpanEventView>::empty());
        }
        ActiveSpan { span, context, span_tx: self.span_tx }
    }

    /// Starts the span now: a child of the parent context when one is set, else
    /// the root of a new trace.
    pub fn start(self) -> (r: Result<ActiveSpan, TraceContextError>)
        ensures
            r is Err ==> r == Err::<ActiveSpan, _>(TraceContextError::RandomUnavailable),
            r matches Ok(a) ==> a@.span == started_span(self@, a@.context, a@.span.start_time)
                && match self@.parent {
                Some(p) => a@.context.trace_id == p.trace_id && a@.context.parent_span_id == Some(
                    p.span_id,
                ) && a@.context.flags == p.flags,
                None => a@.context.parent_span_id is None && a@.context.flags == 1,
            },
    {
        let context = match self.parent {
            Some(p) => p.child(),
            None => TraceContext::new_root(),
        };
        match context {
            Ok(c) => {
                let now = Timestamp::now();
                Ok(self.start_with(c, now))
            },
            Err(e) => Err(e),
        }
    }
}

/// Span in progress.
pub struct ActiveSpan {
    span: Span,
    context: TraceContext,
    span_tx: UnboundedSender<Span>,
}

/// What an active span holds, its queue aside.
pub struct ActiveSpanView {
    pub span: SpanView,
    pub context: TraceContext,
}

impl View for ActiveSpan {
    type V = ActiveSpanView;

    closed spec fn view(&self) -> ActiveSpanView {
        ActiveSpanView { span: self.span@, context: self.context }
    }
}

impl ActiveSpan {
    /// The trace context, for propagation to downstream calls.
    pub fn context(&self) -> (r: &TraceContext)
        ensures
            *r == self@.context,
    {
        &self.context
    }

    /// The span as recorded so far.
    pub fn span(&self) -> (r: &Span)
        ensures
            r@ == self@.span,
    {
        &self.span
    }

    /// Appends an event named `name` at `now`, with no attributes.
    pub fn add_event_at(&mut self, name: String, now: Timestamp)
        ensures
            final(self)@ == (ActiveSpanView {
                span: SpanView {
                    events: old(self)@.span.events.push(
                        crate::span::SpanEventView {
                            name,
                            timestamp: now,
                            attributes: Seq::empty(),
                        },
                    ),
                    ..old(self)@.span
                },
                ..old(self)@
            }),
    {
        let ev = SpanEvent { name, timestamp: now, attributes: Attributes::new() };
        self.span.events.push(ev);
        proof {
            assert(event_views(self.span.events@) =~= event_views(old(self).span.events@).push(
                ev@,
            ));
        }
    }

    /// Appends an event named `name` at the current time.
    pub fn add_event(&mut self, name: String)
        ensures
            final(self)@.span.events.len() == old(self)@.span.events.len() + 1,
            final(self)@.span.events.last().name == name,
            final(self)@.span.events.drop_last() == old(self)@.span.events,
    {
        let now = Timestamp::now();
        self.add_event_at(name, now);
    }

    /// Marks the span as failed with `message`.
    pub fn set_error(&mut self, message: String)
        ensures
            final(self)@ == (ActiveSpanView {
                span: SpanView { status: SpanStatus::Error { message }, ..old(self)@.span },
                ..old(self)@
            }),
    {
        self.span.status = SpanStatus::Error { message };
    }

    /// The finished span: this span stamped with end time `now`.
    pub fn finish_at(self, now: Timestamp) -> (r: (Span, UnboundedSender<Span>))
        ensures
            r.0@ == (SpanView { end_time: Some(now), ..self@.span }),
    {
        let mut span = self.span;
        span.end_time = Some(now);
        (span, self.span_tx)
    }

    /// Ends the span now and queues it for sending; a queue that is closed drops it.
    pub fn end(self) {
        let now = Timestamp::now();
        let (span, tx) = self.finish_at(now);
        queue_span(&tx, span);
    }
}

/// Largest number of spans sent in one batch.
pub const MAX_BATCH: usize = 100;

/// What wakes the batcher.
pub enum BatchInput {
    /// A finished span arrived from the queue.
    Span(Span),
    /// The flush interval elapsed.
    Tick,
    /// Every producer is gone.
    Closed,
}

/// What the batcher asks its driver to do.
pub enum BatchAction {
    /// Nothing to send yet.
    Wait,
    /// Send these spans in one call.
    Send(Vec<Span>),
    /// Send these last spans, then stop.
    Finish(Vec<Span>),
    /// Nothing is left to send: stop.
    Stop,
}

/// Client-side span buffer, flushed at `MAX_BATCH` spans, on each interval tick,
/// and once more when the queue closes.
pub struct Batcher {
    batch: Vec<Span>,
}

impl View for Batcher {
    type V = Seq<SpanView>;

    closed spec fn view(&self) -> Seq<SpanView> {
        crate::span::span_views(self.batch@)
    }
}

/// The spans an action hands out.
pub open spec fn action_spans(a: BatchAction) -> Option<Seq<SpanView>> {
    match a {
        BatchAction::Wait => None,
        BatchAction::Stop => None,
        BatchAction::Send(v) => Some(crate::span::span_views(v@)),
        BatchAction::Finish(v) => Some(crate::span::span_views(v@)),
    }
}

impl Batcher {
    /// An empty buffer.
    pub fn new() -> (r: Batcher)
        ensures
            r@ == Seq::<SpanView>::empty(),
    {
        let b = Batcher { batch: Vec::new() };
        proof {
            assert(b@ =~= Seq::<SpanView>::empty());
        }
        b
    }

    /// Number of buffered spans.
    pub fn len(&self) -> (r: usize)
        ensures
            r == self@.len(),
    {
        self.batch.len()
    }

    /// Takes the buffered spans, leaving the buffer empty.
    fn take_batch(&mut self) -> (r: Vec<Span>)
        ensures
            crate::span::span_views(r@) == old(self)@,
            final(self)@ == Seq::<SpanView>::empty(),
    {
        let mut out: Vec<Span> = Vec::new();
        std::mem::swap(&mut out, &mut self.batch);
        proof {
            assert(self@ =~= Seq::<SpanView>::empty());
        }
        out
    }

    /// Decides what to do on `input`: a span is buffered, and the buffer is sent once
    /// it holds `MAX_BATCH` spans; a tick sends a non-empty buffer; closing sends what
    /// is left, if anything, and stops.
    pub fn step(&mut self, input: BatchInput) -> (r: BatchAction)
        requires
            old(self)@.len() < MAX_BATCH,
        ensures
            final(self)@.len() < MAX_BATCH,
            match input {
                BatchInput::Span(s) => if old(self)@.len() + 1 >= MAX_BATCH {
                    action_spans(r) == Some(old(self)@.push(s@)) && r is Send
                        && final(self)@ == Seq::<SpanView>::empty()
                } else {
                    r is Wait && final(self)@ == old(self)@.push(s@)
                },
                BatchInput::Tick => if old(self)@.len() > 0 {
                    action_spans(r) == Some(old(self)@) && r is Send && final(self)@ == Seq::<
                        SpanView,
                    >::empty()
                } else {
                    r is Wait && final(self)@ == old(self)@
                },
                BatchInput::Closed => if old(self)@.len() > 0 {
                    action_spans(r) == Some(old(self)@) && r is Finish
                        && final(self)@ == Seq::<SpanView>::empty()
                } else {
                    r is Stop && final(self)@ == old(self)@
                },
            },
    {
        match input {
            BatchInput::Span(s) => {
                self.batch.push(s);
                proof {
                    assert(self@ =~= old(self)@.push(s@));
                }
                if self.batch.len() >= MAX_BATCH {
                    BatchAction::Send(self.take_batch())
                } else {
                    BatchAction::Wait
                }
            },
            BatchInput::Tick => {
                if self.batch.len() > 0 {
                    BatchAction::Send(self.take_batch())
                } else {
                    BatchAction::Wait
                }
            },
            BatchInput::Closed => {
                if self.batch.len() > 0 {
                    BatchAction::Finish(self.take_batch())
                } else {
                    BatchAction::Stop
                }
            },
        }
    }
}

} // verus!
