use hindsight::client::{BatchAction, BatchInput, Batcher, SpanBuilder};
use hindsight::events::TraceEvent;
use hindsight::ids::{SpanId, TraceId};
use hindsight::span::{AttributeValue, Attributes, Span, SpanStatus, Timestamp};
use hindsight::store::{without_self_spans, TraceStore};
use hindsight::trace::{Trace, TraceFilter, TraceType};
use tokio::sync::broadcast::error::TryRecvError;

const MS: u64 = 1_000_000;

fn sid(n: u8) -> SpanId {
    SpanId([n, 0, 0, 0, 0, 0, 0, n])
}

fn tid(n: u8) -> TraceId {
    TraceId([n; 16])
}

fn span(trace: u8, id: u8, parent: Option<u8>, name: &str, start: u64, end: Option<u64>, service: &str) -> Span {
    Span {
        trace_id: tid(trace),
        span_id: sid(id),
        parent_span_id: parent.map(sid),
        name: name.to_string(),
        start_time: Timestamp(start),
        end_time: end.map(Timestamp),
        attributes: Attributes::new(),
        events: Vec::new(),
        status: SpanStatus::Success,
        service_name: service.to_string(),
    }
}

fn with_attr(mut s: Span, k: &str, v: AttributeValue) -> Span {
    s.attributes.insert(k.to_string(), v);
    s
}

fn drain(rx: &mut tokio::sync::broadcast::Receiver<TraceEvent>) -> Vec<TraceEvent> {
    let mut out = Vec::new();
    while let Ok(e) = rx.try_recv() {
        out.push(e);
    }
    out
}

const T0: u64 = 1_700_000_000_000_000_000;

#[test]
fn fast_two_span_trace() {
    let mut store = TraceStore::new(3600 * 1_000_000_000);
    let mut rx = store.subscribe_events();
    let root = span(1, 1, None, "GET /api/users", T0, Some(T0 + 12 * MS), "api-gateway");
    let child = span(1, 2, Some(1), "db.query users", T0 + 2 * MS, Some(T0 + 10 * MS), "api-gateway");
    assert_eq!(store.ingest_at(vec![root, child], Timestamp(T0)), 2);
    let events = drain(&mut rx);
    let kinds: Vec<&str> = events
        .iter()
        .filter_map(|e| match e {
            TraceEvent::TraceStarted { .. } => Some("started"),
            TraceEvent::SpanAdded { .. } => Some("added"),
            TraceEvent::TraceCompleted { .. } => None,
        })
        .collect();
    assert_eq!(kinds, vec!["started", "added", "added"]);
    match events.last().unwrap() {
        TraceEvent::TraceCompleted { trace_id, duration_nanos, span_count } => {
            assert_eq!(*trace_id, tid(1));
            assert_eq!(*duration_nanos, 12_000_000);
            assert_eq!(*span_count, 2);
        }
        other => panic!("unexpected last event {:?}", other),
    }
    let list = store.list_traces(TraceFilter::default());
    assert_eq!(list.len(), 1);
    assert_eq!(list[0].span_count, 2);
    assert!(!list[0].has_errors);
    assert_eq!(list[0].trace_type, TraceType::Generic);
    assert_eq!(list[0].root_span_name, "GET /api/users");
    assert_eq!(list[0].service_name, "api-gateway");
    assert_eq!(list[0].duration_nanos, Some(12 * MS));
}

#[test]
fn fresh_root_publishes_started_then_added() {
    let mut store = TraceStore::new(1000);
    let mut rx = store.subscribe_events();
    store.ingest_at(vec![span(4, 4, None, "root", T0, None, "svc")], Timestamp(T0));
    let events = drain(&mut rx);
    assert_eq!(events.len(), 2);
    assert!(matches!(&events[0], TraceEvent::TraceStarted { root_span_name, service_name, .. }
        if root_span_name == "root" && service_name == "svc"));
    assert!(matches!(&events[1], TraceEvent::SpanAdded { span, .. } if span.span_id == sid(4)));
    assert!(store.get_trace(tid(4)).is_some());
}

#[test]
fn reingest_is_not_a_new_trace() {
    let mut store = TraceStore::new(1000);
    store.ingest_at(vec![span(4, 4, None, "root", T0, None, "svc")], Timestamp(T0));
    let mut rx = store.subscribe_events();
    store.ingest_at(vec![span(4, 4, None, "root2", T0, None, "svc")], Timestamp(T0));
    let events = drain(&mut rx);
    assert_eq!(events.len(), 1);
    assert!(matches!(&events[0], TraceEvent::SpanAdded { .. }));
    assert_eq!(store.span_count(), 1);
    assert_eq!(store.get_trace(tid(4)).unwrap().spans[0].name, "root2");
}

#[test]
fn error_leaf_filters() {
    let mut store = TraceStore::new(1000);
    let mut s = span(2, 1, None, "GET /api/user/999", T0, Some(T0 + MS), "api");
    s.status = SpanStatus::Error { message: "User not found".to_string() };
    let s = with_attr(s, "http.status_code", AttributeValue::Int(404));
    store.ingest_at(vec![s], Timestamp(T0));
    let all = store.list_traces(TraceFilter::default());
    assert!(all[0].has_errors);
    let mut f = TraceFilter::default();
    f.has_errors = Some(true);
    assert_eq!(store.list_traces(f).len(), 1);
    let mut f = TraceFilter::default();
    f.has_errors = Some(false);
    assert_eq!(store.list_traces(f).len(), 0);
}

#[test]
fn mixed_classification() {
    let mut store = TraceStore::new(1000);
    let parent = with_attr(span(3, 1, None, "query", T0, Some(T0 + 5), "app"), "picante.query", AttributeValue::Bool(true));
    let child = with_attr(span(3, 2, Some(1), "rpc", T0 + 1, Some(T0 + 4), "app"), "rpc.system", AttributeValue::String("rapace".to_string()));
    store.ingest_at(vec![parent, child], Timestamp(T0));
    let list = store.list_traces(TraceFilter::default());
    assert_eq!(list[0].trace_type, TraceType::Mixed);
}

#[test]
fn classify_single_frameworks() {
    let p = with_attr(span(3, 1, None, "q", T0, None, "app"), "picante.query", AttributeValue::Int(1));
    let t = Trace::from_spans(vec![p]).unwrap();
    assert_eq!(t.classify_type(), TraceType::Picante);
    let r = with_attr(span(3, 1, None, "q", T0, None, "app"), "rpc.system", AttributeValue::String("rapace".to_string()));
    assert_eq!(Trace::from_spans(vec![r]).unwrap().classify_type(), TraceType::Rapace);
    let other = with_attr(span(3, 1, None, "q", T0, None, "app"), "rpc.system", AttributeValue::String("grpc".to_string()));
    assert_eq!(Trace::from_spans(vec![other]).unwrap().classify_type(), TraceType::Generic);
    let d = with_attr(span(3, 1, None, "q", T0, None, "app"), "dodeca.build", AttributeValue::Bool(true));
    assert_eq!(Trace::from_spans(vec![d]).unwrap().classify_type(), TraceType::Dodeca);
    let none = span(3, 1, None, "q", T0, None, "app");
    assert_eq!(Trace::from_spans(vec![none]).unwrap().classify_type(), TraceType::Generic);
    assert_eq!(TraceType::default(), TraceType::Generic);
}

#[test]
fn out_of_order_arrival() {
    let mut store = TraceStore::new(1000);
    store.ingest_at(vec![span(5, 2, Some(1), "child", T0 + 1, Some(T0 + 2), "svc")], Timestamp(T0));
    assert_eq!(store.list_traces(TraceFilter::default()).len(), 0);
    assert!(store.get_trace(tid(5)).is_none());
    store.ingest_at(vec![span(5, 1, None, "root", T0, Some(T0 + 3), "svc")], Timestamp(T0));
    let list = store.list_traces(TraceFilter::default());
    assert_eq!(list.len(), 1);
    assert_eq!(list[0].span_count, 2);
}

#[test]
fn self_tracing_exclusion() {
    let mut store = TraceStore::new(1000);
    let spans = vec![
        span(6, 1, None, "a", T0, None, "hindsight-server"),
        span(6, 2, None, "b", T0, None, "hindsight-server"),
        span(6, 3, None, "c", T0, None, "hindsight-server"),
        span(7, 4, None, "d", T0, None, "shop"),
        span(8, 5, None, "e", T0, None, "shop"),
    ];
    assert_eq!(store.ingest_spans(spans), 5);
    assert_eq!(store.span_count(), 2);
    assert!(store.get_trace(tid(6)).is_none());
    assert!(store.get_trace(tid(7)).is_some());
}

#[test]
fn without_self_spans_keeps_order() {
    let kept = without_self_spans(vec![
        span(1, 1, None, "x", 0, None, "a"),
        span(1, 2, None, "y", 0, None, "hindsight-server"),
        span(1, 3, None, "z", 0, None, "b"),
    ]);
    let names: Vec<&str> = kept.iter().map(|s| s.name.as_str()).collect();
    assert_eq!(names, vec!["x", "z"]);
}

#[test]
fn slow_subscriber_sees_lag() {
    let mut store = TraceStore::new(1000);
    let mut rx = store.subscribe_events();
    let spans: Vec<Span> = (0..2000u32)
        .map(|i| {
            let mut s = span(9, 0, Some(200), "s", T0, None, "svc");
            s.span_id = SpanId([(i >> 8) as u8, i as u8, 1, 1, 1, 1, 1, 1]);
            s
        })
        .collect();
    assert_eq!(store.ingest_at(spans, Timestamp(T0)), 2000);
    match rx.try_recv() {
        Err(TryRecvError::Lagged(n)) => assert!(n > 0),
        other => panic!("expected lag, got {:?}", other.map(|_| ())),
    }
    let rest = drain(&mut rx);
    assert_eq!(rest.len(), 1024);
    assert_eq!(store.span_count(), 2000);
}

#[test]
fn list_sorted_newest_first_and_limited() {
    let mut store = TraceStore::new(1000);
    for i in 0..5u8 {
        store.ingest_at(vec![span(10 + i, 10 + i, None, "r", T0 + i as u64 * MS, Some(T0 + i as u64 * MS + 1), "svc")], Timestamp(T0));
    }
    let list = store.list_traces(TraceFilter::default());
    let starts: Vec<u64> = list.iter().map(|s| s.start_time.0).collect();
    assert_eq!(starts, vec![T0 + 4 * MS, T0 + 3 * MS, T0 + 2 * MS, T0 + MS, T0]);
    let mut f = TraceFilter::default();
    f.limit = Some(2);
    let limited = store.list_traces(f);
    assert_eq!(limited.len(), 2);
    assert_eq!(limited[0].start_time.0, T0 + 4 * MS);
}

#[test]
fn list_default_limit_is_100() {
    let mut store = TraceStore::new(1000);
    let spans: Vec<Span> = (0..120u32)
        .map(|i| {
            let mut s = span(0, 0, None, "r", T0 + i as u64, None, "svc");
            s.trace_id = TraceId([i as u8, 1, 2, 3, 4, 5, 6, 7, 8, 9, 10, 11, 12, 13, 14, 15]);
            s.span_id = SpanId([i as u8, 9, 9, 9, 9, 9, 9, 9]);
            s
        })
        .collect();
    store.ingest_at(spans, Timestamp(T0));
    assert_eq!(store.list_traces(TraceFilter::default()).len(), 100);
}

#[test]
fn duration_and_service_filters() {
    let mut store = TraceStore::new(1000);
    store.ingest_at(vec![span(20, 1, None, "fast", T0, Some(T0 + MS), "web")], Timestamp(T0));
    store.ingest_at(vec![span(21, 2, None, "slow", T0 + 1, Some(T0 + 1 + 50 * MS), "db")], Timestamp(T0));
    store.ingest_at(vec![span(22, 3, None, "open", T0 + 2, None, "web")], Timestamp(T0));
    let mut f = TraceFilter::default();
    f.min_duration_nanos = Some(10 * MS);
    let l = store.list_traces(f);
    assert_eq!(l.len(), 1);
    assert_eq!(l[0].root_span_name, "slow");
    let mut f = TraceFilter::default();
    f.max_duration_nanos = Some(10 * MS);
    let names: Vec<String> = store.list_traces(f).into_iter().map(|s| s.root_span_name).collect();
    assert_eq!(names, vec!["open".to_string(), "fast".to_string()]);
    let mut f = TraceFilter::default();
    f.service = Some("db".to_string());
    assert_eq!(store.list_traces(f).len(), 1);
}

#[test]
fn ttl_sweep() {
    let ttl = 60 * 1_000_000_000u64;
    let mut store = TraceStore::new(ttl);
    store.ingest_at(vec![span(30, 1, None, "r", T0, None, "svc")], Timestamp(T0));
    store.cleanup_expired(Timestamp(T0 + ttl - 1));
    assert!(store.get_trace(tid(30)).is_some());
    store.cleanup_expired(Timestamp(T0 - 5));
    assert!(store.get_trace(tid(30)).is_some());
    store.cleanup_expired(Timestamp(T0 + ttl));
    assert!(store.get_trace(tid(30)).is_none());
    assert_eq!(store.span_count(), 1);
}

#[test]
fn distinct_spans_all_stored() {
    let mut store = TraceStore::new(1000);
    for batch in 0..4u8 {
        let spans: Vec<Span> = (0..25u8).map(|i| span(40 + batch, batch * 25 + i, Some(0), "s", T0, None, "svc")).collect();
        store.ingest_at(spans, Timestamp(T0));
    }
    assert_eq!(store.span_count(), 100);
}

#[test]
fn from_spans_assembly() {
    assert!(Trace::from_spans(vec![]).is_none());
    assert!(Trace::from_spans(vec![span(1, 2, Some(1), "c", 5, Some(9), "s")]).is_none());
    let t = Trace::from_spans(vec![
        span(1, 2, Some(1), "c", 5, Some(30), "s"),
        span(1, 3, Some(1), "d", 7, None, "s"),
        span(1, 1, None, "r", 3, Some(20), "s"),
    ])
    .unwrap();
    assert_eq!(t.root_span_id, sid(1));
    assert_eq!(t.start_time, Timestamp(3));
    assert_eq!(t.end_time, Some(Timestamp(30)));
    let order: Vec<SpanId> = t.spans.iter().map(|s| s.span_id).collect();
    assert_eq!(order, vec![sid(1), sid(2), sid(3)]);
    let kids: Vec<SpanId> = t.children(sid(1)).iter().map(|s| s.span_id).collect();
    assert_eq!(kids, vec![sid(2), sid(3)]);
    let open = Trace::from_spans(vec![span(1, 1, None, "r", 3, None, "s")]).unwrap();
    assert_eq!(open.end_time, None);
}

#[test]
fn from_spans_first_root_wins_and_sort_is_stable() {
    let t = Trace::from_spans(vec![
        span(1, 5, None, "second", 10, None, "s"),
        span(1, 6, None, "first", 4, None, "s"),
        span(1, 7, Some(6), "tie", 10, None, "s"),
    ])
    .unwrap();
    assert_eq!(t.root_span_id, sid(6));
    let order: Vec<SpanId> = t.spans.iter().map(|s| s.span_id).collect();
    assert_eq!(order, vec![sid(6), sid(5), sid(7)]);
}

#[test]
fn span_duration() {
    let s = span(1, 1, None, "r", 100, Some(350), "s");
    assert_eq!(s.duration_nanos(), Some(250));
    let open = span(1, 1, None, "r", 100, None, "s");
    assert_eq!(open.duration_nanos(), None);
    let skewed = span(1, 1, None, "r", 100, Some(50), "s");
    assert_eq!(skewed.duration_nanos(), None);
}

#[test]
fn attributes_insert_replaces() {
    let mut a = Attributes::new();
    a.insert("k".to_string(), AttributeValue::Int(1));
    a.insert("j".to_string(), AttributeValue::Bool(true));
    a.insert("k".to_string(), AttributeValue::Int(2));
    assert_eq!(a.len(), 2);
    assert!(matches!(a.get("k"), Some(AttributeValue::Int(2))));
    assert!(a.contains_key("j"));
    assert!(!a.contains_key("x"));
}

#[test]
fn batcher_flushes_at_size_tick_and_close() {
    let mut b = Batcher::new();
    for i in 0..99u8 {
        assert!(matches!(b.step(BatchInput::Span(span(1, i, None, "s", 0, None, "x"))), BatchAction::Wait));
    }
    match b.step(BatchInput::Span(span(1, 99, None, "s", 0, None, "x"))) {
        BatchAction::Send(v) => assert_eq!(v.len(), 100),
        _ => panic!("expected a full batch"),
    }
    assert_eq!(b.len(), 0);
    assert!(matches!(b.step(BatchInput::Tick), BatchAction::Wait));
    b.step(BatchInput::Span(span(1, 1, None, "s", 0, None, "x")));
    match b.step(BatchInput::Tick) {
        BatchAction::Send(v) => assert_eq!(v.len(), 1),
        _ => panic!("expected a tick flush"),
    }
    b.step(BatchInput::Span(span(1, 2, None, "s", 0, None, "x")));
    match b.step(BatchInput::Closed) {
        BatchAction::Finish(v) => assert_eq!(v.len(), 1),
        _ => panic!("expected the final flush"),
    }
    let mut empty = Batcher::new();
    assert!(matches!(empty.step(BatchInput::Closed), BatchAction::Stop));
}

#[test]
fn span_builder_and_active_span() {
    let (tx, mut rx) = tokio::sync::mpsc::unbounded_channel();
    let b = SpanBuilder::new("op".to_string(), "svc".to_string(), tx)
        .with_attribute("user_id".to_string(), 123i64)
        .with_attribute("ok".to_string(), true);
    let mut active = b.start().unwrap();
    assert!(active.context().parent_span_id.is_none());
    active.add_event("checkpoint".to_string());
    active.set_error("boom".to_string());
    let ctx = *active.context();
    active.end();
    let s = rx.try_recv().unwrap();
    assert_eq!(s.name, "op");
    assert_eq!(s.service_name, "svc");
    assert_eq!(s.trace_id, ctx.trace_id);
    assert!(s.end_time.is_some());
    assert_eq!(s.events.len(), 1);
    assert_eq!(s.events[0].name, "checkpoint");
    assert!(matches!(s.status, SpanStatus::Error { ref message } if message == "boom"));
    assert!(matches!(s.attributes.get("user_id"), Some(AttributeValue::Int(123))));

    let (tx2, mut rx2) = tokio::sync::mpsc::unbounded_channel();
    let child = SpanBuilder::new("child".to_string(), "svc".to_string(), tx2).with_parent(ctx).start().unwrap();
    assert_eq!(child.context().trace_id, ctx.trace_id);
    assert_eq!(child.context().parent_span_id, Some(ctx.span_id));
    child.end();
    assert_eq!(rx2.try_recv().unwrap().parent_span_id, Some(ctx.span_id));
}

#[test]
fn timestamp_now_is_recent() {
    let now = Timestamp::now();
    assert!(now.0 > T0);
}

#[test]
fn attributes_kept_in_key_order() {
    let mut a = Attributes::new();
    a.insert("zeta".to_string(), AttributeValue::Int(1));
    a.insert("alpha".to_string(), AttributeValue::Int(2));
    a.insert("mid".to_string(), AttributeValue::Int(3));
    a.insert("alpha".to_string(), AttributeValue::Int(4));
    a.insert("al".to_string(), AttributeValue::Int(5));
    let keys: Vec<String> = (0..a.len()).map(|i| a.entry(i).0.clone()).collect();
    assert_eq!(keys, vec!["al", "alpha", "mid", "zeta"]);
    assert!(matches!(a.entry(1).1, AttributeValue::Int(4)));
    let copy = a.clone();
    assert_eq!(copy.len(), 4);
    assert!(matches!(copy.get("zeta"), Some(AttributeValue::Int(1))));
}

#[test]
fn fresh_root_trace_holds_stored_spans_in_start_order() {
    let mut store = TraceStore::new(1000);
    store.ingest_at(
        vec![
            span(50, 3, Some(1), "late", T0 + 9, None, "svc"),
            span(50, 2, Some(1), "early", T0 + 2, None, "svc"),
            span(51, 7, None, "other", T0, None, "svc"),
        ],
        Timestamp(T0),
    );
    store.ingest_at(vec![span(50, 1, None, "root", T0, None, "svc")], Timestamp(T0));
    let t = store.get_trace(tid(50)).unwrap();
    assert_eq!(t.trace_id, tid(50));
    let ids: Vec<SpanId> = t.spans.iter().map(|s| s.span_id).collect();
    assert_eq!(ids, vec![sid(1), sid(2), sid(3)]);
    assert_eq!(t.root_span_id, sid(1));
}

#[test]
fn self_span_id_not_queryable() {
    let mut store = TraceStore::new(1000);
    store.ingest_spans(vec![
        span(60, 1, None, "root", T0, None, "shop"),
        span(60, 2, Some(1), "own", T0 + 1, None, "hindsight-server"),
    ]);
    let t = store.get_trace(tid(60)).unwrap();
    assert!(t.spans.iter().all(|s| s.span_id != sid(2)));
    assert_eq!(store.list_traces(TraceFilter::default())[0].span_count, 1);
}
