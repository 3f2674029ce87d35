//! The in-memory trace store: span and trace maps, ingest with incremental trace
//! assembly, lifecycle events, TTL sweeping, and queries.
use vstd::prelude::*;
use dashmap::DashMap;
use tokio::sync::broadcast::{Receiver, Sender};
use crate::events::{TraceEvent, TraceEventView};
use crate::ids::{lemma_trace_id_eq, SpanId, TraceId};
use crate::span::{duration_between, span_duration, span_views, Span, SpanView, Timestamp};
use crate::listing::{
    lemma_listing_sorted_and_bounded, listing, listing_limit, is_newest_first, newest_first,
    sort_newest_first, summaries, summarize_trace,
};
use crate::trace::{
    TraceFilter, TraceSummary, assemble, lemma_max_end, lemma_root_of, lemma_sort_contents, lemma_sort_ordered, sort_by_start, starts_in_order, Trace, TraceView,
};

verus! {

#[verifier::external_type_specification]
#[verifier::external_body]
#[verifier::reject_recursive_types(K)]
#[verifier::reject_recursive_types(V)]
#[verifier::reject_recursive_types(S)]
pub struct ExDashMap<K, V, S>(DashMap<K, V, S>);

#[verifier::external_type_specification]
#[verifier::external_body]
#[verifier::reject_recursive_types(T)]
pub struct ExSender<T>(Sender<T>);

#[verifier::external_type_specification]
#[verifier::external_body]
#[verifier::reject_recursive_types(T)]
pub struct ExReceiver<T>(Receiver<T>);

/// A trace as stored, with the time it was (re)assembled.
pub struct StoredTrace {
    pub trace: Trace,
    pub created_at: Timestamp,
}

/// What a stored trace holds.
pub struct StoredTraceView {
    pub trace: TraceView,
    pub created_at: Timestamp,
}

/// The spans that a span map holds, by span id.
pub uninterp spec fn span_entries(m: DashMap<SpanId, Span>) -> Map<SpanId, SpanView>;

/// The traces that a trace map holds, by trace id.
pub uninterp spec fn trace_entries(m: DashMap<TraceId, StoredTrace>) -> Map<
    TraceId,
    StoredTraceView,
>;

/// Relies on DashMap::new: a new map is empty.
#[verifier::external_body]
fn new_span_map() -> (r: DashMap<SpanId, Span>)
    ensures
        span_entries(r).dom() == Set::<SpanId>::empty(),
{
    DashMap::new()
}

/// Relies on DashMap::new: a new map is empty.
#[verifier::external_body]
fn new_trace_map() -> (r: DashMap<TraceId, StoredTrace>)
    ensures
        trace_entries(r).dom() == Set::<TraceId>::empty(),
{
    DashMap::new()
}

/// Relies on DashMap::contains_key: whether the key is present.
#[verifier::external_body]
fn span_map_contains(m: &DashMap<SpanId, Span>, k: &SpanId) -> (r: bool)
    ensures
        r == span_entries(*m).contains_key(*k),
{
    m.contains_key(k)
}

/// Relies on DashMap::len: the number of entries.
#[verifier::external_body]
fn span_map_len(m: &DashMap<SpanId, Span>) -> (r: usize)
    ensures
        r == span_entries(*m).dom().len(),
{
    m.len()
}

/// Relies on DashMap::insert: stores the value under the key, replacing any earlier one.
#[verifier::external_body]
fn span_map_insert(m: &mut DashMap<SpanId, Span>, k: SpanId, v: Span)
    ensures
        span_entries(*final(m)) == span_entries(*old(m)).insert(k, v@),
{
    m.insert(k, v);
}

/// Relies on DashMap::iter: every entry exactly once, in an unspecified order,
/// each value cloned.
#[verifier::external_body]
fn span_map_entries(m: &DashMap<SpanId, Span>) -> (r: Vec<(SpanId, Span)>)
    ensures
        forall|k: SpanId|
            #[trigger] span_entries(*m).contains_key(k) ==> exists|i: int|
                0 <= i < r@.len() && r@[i].0 == k,
        forall|i: int|
            0 <= i < r@.len() ==> span_entries(*m).contains_key(#[trigger] r@[i].0)
                && span_entries(*m)[r@[i].0] == r@[i].1@,
        forall|i: int, j: int| 0 <= i < j < r@.len() ==> r@[i].0 != r@[j].0,
{
    m.iter().map(|e| (*e.key(), e.value().clone())).collect()
}

/// Relies on DashMap::insert: stores the value under the key, replacing any earlier one.
#[verifier::external_body]
fn trace_map_insert(m: &mut DashMap<TraceId, StoredTrace>, k: TraceId, v: StoredTrace)
    ensures
        trace_entries(*final(m)) == trace_entries(*old(m)).insert(
            k,
            StoredTraceView { trace: v.trace@, created_at: v.created_at },
        ),
{
    m.insert(k, v);
}

/// Relies on DashMap::get: the trace stored under the key, cloned.
#[verifier::external_body]
fn trace_map_get(m: &DashMap<TraceId, StoredTrace>, k: &TraceId) -> (r: Option<Trace>)
    ensures
        r is Some == trace_entries(*m).contains_key(*k),
        r matches Some(t) ==> trace_entries(*m)[*k].trace == t@,
{
    m.get(k).map(|e| e.trace.clone())
}

/// Relies on DashMap::iter: every stored trace exactly once, in an unspecified order,
/// cloned.
#[verifier::external_body]
fn trace_map_entries(m: &DashMap<TraceId, StoredTrace>) -> (r: Vec<(TraceId, Trace)>)
    ensures
        forall|k: TraceId|
            #[trigger] trace_entries(*m).contains_key(k) ==> exists|i: int|
                0 <= i < r@.len() && r@[i].0 == k,
        forall|i: int|
            0 <= i < r@.len() ==> trace_entries(*m).contains_key(#[trigger] r@[i].0)
                && trace_entries(*m)[r@[i].0].trace == r@[i].1@,
        forall|i: int, j: int| 0 <= i < j < r@.len() ==> r@[i].0 != r@[j].0,
{
    m.iter().map(|e| (*e.key(), e.value().trace.clone())).collect()
}

/// Whether a trace assembled at `created_at` is still within its time to live at `now`.
/// A clock that reads earlier than `created_at` counts as no time elapsed.
pub open spec fn live(created_at: Timestamp, now: Timestamp, ttl_nanos: u64) -> bool {
    let elapsed: int = if now.0 >= created_at.0 {
        now.0 - created_at.0
    } else {
        0
    };
    elapsed < ttl_nanos
}

/// Whether a trace assembled at `created_at` is still within its time to live at `now`.
pub fn is_live(created_at: Timestamp, now: Timestamp, ttl_nanos: u64) -> (r: bool)
    ensures
        r == live(created_at, now, ttl_nanos),
{
    let elapsed: u64 = if now.0 >= created_at.0 {
        now.0 - created_at.0
    } else {
        0
    };
    elapsed < ttl_nanos
}

/// The traces of `m` that are still live at `now`.
pub open spec fn live_traces(
    m: Map<TraceId, StoredTraceView>,
    now: Timestamp,
    ttl_nanos: u64,
) -> Map<TraceId, StoredTraceView> {
    m.restrict(Set::new(|k: TraceId| m.contains_key(k) && live(m[k].created_at, now, ttl_nanos)))
}

/// Relies on DashMap::retain: keeps exactly the entries for which the predicate holds.
#[verifier::external_body]
fn trace_map_retain_live(m: &mut DashMap<TraceId, StoredTrace>, now: Timestamp, ttl_nanos: u64)
    ensures
        trace_entries(*final(m)) == live_traces(trace_entries(*old(m)), now, ttl_nanos),
{
    m.retain(|_, stored| is_live(stored.created_at, now, ttl_nanos));
}

/// Relies on tokio::sync::broadcast::channel: a broadcast channel that buffers the
/// last 1000 events (rounded up to 1024) for each receiver; the initial receiver
/// is dropped.
#[verifier::external_body]
fn new_event_channel() -> (r: Sender<TraceEvent>) {
    tokio::sync::broadcast::channel(1000).0
}

/// Relies on tokio::sync::broadcast::Sender::send: hands the event to every receiver
/// alive now without blocking; with no receivers the event is dropped.
#[verifier::external_body]
fn send_event(tx: &Sender<TraceEvent>, ev: TraceEvent) {
    let _ = tx.send(ev);
}

/// Relies on tokio::sync::broadcast::Sender::subscribe: a receiver of the events
/// sent after this call.
#[verifier::external_body]
fn new_receiver(tx: &Sender<TraceEvent>) -> (r: Receiver<TraceEvent>) {
    tx.subscribe()
}

/// What the store holds: its spans and traces, the time to live, and every event
/// it has published so far.
pub struct StoreView {
    pub spans: Map<SpanId, SpanView>,
    pub traces: Map<TraceId, StoredTraceView>,
    pub ttl_nanos: u64,
    pub published: Seq<TraceEventView>,
}

/// `ks` lists, once each, the ids of the spans of trace `tid` in `m`.
pub open spec fn lists_trace_spans(ks: Seq<SpanId>, m: Map<SpanId, SpanView>, tid: TraceId) -> bool {
    &&& ks.no_duplicates()
    &&& forall|k: SpanId| #[trigger] ks.contains(k) <==> (m.contains_key(k) && m[k].trace_id == tid)
}

/// The spans of `m` in the order `ks` lists them.
pub open spec fn spans_listed(ks: Seq<SpanId>, m: Map<SpanId, SpanView>) -> Seq<SpanView> {
    ks.map_values(|k: SpanId| m[k])
}

/// Every span of the trace has ended, and so has the trace.
pub open spec fn is_complete(t: TraceView) -> bool {
    &&& t.end_time is Some
    &&& forall|i: int| 0 <= i < t.spans.len() ==> (#[trigger] t.spans[i]).end_time is Some
}

/// The completion event for a freshly assembled trace: published when the trace is
/// complete and its duration is known.
pub open spec fn completion_events(tid: TraceId, t: TraceView) -> Seq<TraceEventView> {
    if is_complete(t) && span_duration(t.start_time, t.end_time) is Some {
        seq![
            TraceEventView::TraceCompleted {
                trace_id: tid,
                duration_nanos: span_duration(t.start_time, t.end_time).unwrap(),
                span_count: t.spans.len() as usize,
            },
        ]
    } else {
        Seq::empty()
    }
}

/// Events published when span `s` arrives at a store in state `st`: `TraceStarted`
/// for a root span not seen before, then `SpanAdded`.
pub open spec fn arrival_events(st: StoreView, s: SpanView) -> Seq<TraceEventView> {
    let added = TraceEventView::SpanAdded { trace_id: s.trace_id, span: s };
    if s.parent_span_id is None && !st.spans.contains_key(s.span_id) {
        seq![
            TraceEventView::TraceStarted {
                trace_id: s.trace_id,
                root_span_name: s.name,
                service_name: s.service_name,
            },
            added,
        ]
    } else {
        seq![added]
    }
}

/// The trace of `tid` is reassembled from the spans of `spans`, listed in some order
/// (the span map's, which is unspecified); `next` stores it, assembled at `now`, and
/// publishes its completion, or keeps the traces as they were when it has no root.
pub open spec fn reassembled(
    st: StoreView,
    spans: Map<SpanId, SpanView>,
    published: Seq<TraceEventView>,
    tid: TraceId,
    now: Timestamp,
    next: StoreView,
) -> bool {
    &&& next.spans == spans
    &&& next.ttl_nanos == st.ttl_nanos
    &&& exists|ks: Seq<SpanId>|
        #[trigger] lists_trace_spans(ks, spans, tid) && match assemble(spans_listed(ks, spans)) {
            None => next.traces == st.traces && next.published == published,
            Some(t) => next.traces == st.traces.insert(
                tid,
                StoredTraceView { trace: t, created_at: now },
            ) && next.published == published + completion_events(tid, t),
        }
}

/// `next` is a state the store may reach by ingesting span `s` at `now` from `st`.
pub open spec fn ingest_step(st: StoreView, s: SpanView, now: Timestamp, next: StoreView) -> bool {
    reassembled(
        st,
        st.spans.insert(s.span_id, s),
        st.published + arrival_events(st, s),
        s.trace_id,
        now,
        next,
    )
}

/// `out` is a state the store may reach by ingesting `spans` in order at `now`.
pub open spec fn ingest_outcome(
    st: StoreView,
    spans: Seq<SpanView>,
    now: Timestamp,
    out: StoreView,
) -> bool
    decreases spans.len(),
{
    if spans.len() == 0 {
        out == st
    } else {
        exists|mid: StoreView|
            ingest_outcome(st, spans.drop_last(), now, mid) && #[trigger] ingest_step(
                mid,
                spans.last(),
                now,
                out,
            )
    }
}

/// A span the server emitted about itself.
pub open spec fn is_self_span(s: SpanView) -> bool {
    s.service_name@ == "hindsight-server"@
}

/// The spans that did not come from the server itself, in order.
pub open spec fn kept_spans(s: Seq<SpanView>) -> Seq<SpanView> {
    s.filter(|x: SpanView| !is_self_span(x))
}

/// The spans that did not come from the server itself, in order.
pub fn without_self_spans(spans: Vec<Span>) -> (r: Vec<Span>)
    ensures
        span_views(r@) == kept_spans(span_views(spans@)),
{
    let ghost orig = span_views(spans@);
    let ghost pred = |x: SpanView| !is_self_span(x);
    let mut input = spans;
    let mut out: Vec<Span> = Vec::new();
    let ghost mut k: int = 0;
    proof {
        reveal(Seq::filter);
        assert(orig.skip(0) =~= orig);
        assert(orig.take(0) =~= Seq::<SpanView>::empty());
        assert(span_views(out@) =~= Seq::<SpanView>::empty());
    }
    while input.len() > 0
        invariant
            pred == (|x: SpanView| !is_self_span(x)),
            0 <= k <= orig.len(),
            span_views(input@) == orig.skip(k),
            k + input@.len() == orig.len(),
            span_views(out@) == orig.take(k).filter(pred),
        decreases input@.len(),
    {
        let ghost old_in = input@;
        let ghost before = out@;
        let span = input.remove(0);
        proof {
            reveal(Seq::filter);
            assert(span_views(old_in)[0] == span@);
            assert(orig.skip(k)[0] == orig[k]);
            assert(span_views(input@) =~= span_views(old_in).skip(1));
            assert(orig.skip(k).skip(1) =~= orig.skip(k + 1));
            assert(orig.take(k + 1).drop_last() =~= orig.take(k));
            assert(orig.take(k + 1).last() == span@);
        }
        proof {
            reveal_strlit("hindsight-server");
        }
        if !crate::span::str_eq(span.service_name.as_str(), "hindsight-server") {
            out.push(span);
            proof {
                assert(span_views(out@) =~= span_views(before).push(orig[k]));
            }
        }
        proof {
            k = k + 1;
        }
    }
    proof {
        assert(orig.take(k) =~= orig);
        assert(orig.filter(pred) == kept_spans(orig));
    }
    out
}

/// Every stored span sits under its own id, and every span of a stored trace has
/// its id stored.
pub open spec fn store_consistent(st: StoreView) -> bool {
    &&& forall|k: SpanId| #[trigger] st.spans.contains_key(k) ==> st.spans[k].span_id == k
    &&& forall|id: TraceId, i: int|
        #![trigger st.traces[id].trace.spans[i]]
        st.traces.contains_key(id) && 0 <= i < st.traces[id].trace.spans.len()
            ==> st.spans.contains_key(st.traces[id].trace.spans[i].span_id)
}

/// One ingest step keeps the store consistent.
proof fn lemma_step_consistent(st: StoreView, s: SpanView, now: Timestamp, out: StoreView)
    requires
        store_consistent(st),
        ingest_step(st, s, now, out),
    ensures
        store_consistent(out),
{
    let m = st.spans.insert(s.span_id, s);
    let published = st.published + arrival_events(st, s);
    let ks = choose|ks: Seq<SpanId>|
        #[trigger] lists_trace_spans(ks, m, s.trace_id) && match assemble(spans_listed(ks, m)) {
            None => out.traces == st.traces && out.published == published,
            Some(t) => out.traces == st.traces.insert(
                s.trace_id,
                StoredTraceView { trace: t, created_at: now },
            ) && out.published == published + completion_events(s.trace_id, t),
        };
    if let Some(t) = assemble(spans_listed(ks, m)) {
        lemma_assembled_trace(ks, m, s.trace_id);
        assert forall|id: TraceId, i: int|
            #![trigger out.traces[id].trace.spans[i]]
            out.traces.contains_key(id) && 0 <= i < out.traces[id].trace.spans.len()
                implies out.spans.contains_key(out.traces[id].trace.spans[i].span_id) by {
            if id == s.trace_id {
                let y = t.spans[i];
                assert(t.spans.contains(y));
                let k = choose|k: SpanId| #[trigger] m.contains_key(k) && m[k].trace_id == s.trace_id
                    && m[k] == y;
            } else {
                assert(st.spans.contains_key(st.traces[id].trace.spans[i].span_id));
            }
        }
    } else {
        assert forall|id: TraceId, i: int|
            #![trigger out.traces[id].trace.spans[i]]
            out.traces.contains_key(id) && 0 <= i < out.traces[id].trace.spans.len()
                implies out.spans.contains_key(out.traces[id].trace.spans[i].span_id) by {
            assert(st.spans.contains_key(st.traces[id].trace.spans[i].span_id));
        }
    }
}

/// Ingest keeps the store consistent.
pub proof fn lemma_outcome_consistent(
    st: StoreView,
    spans: Seq<SpanView>,
    now: Timestamp,
    out: StoreView,
)
    requires
        store_consistent(st),
        ingest_outcome(st, spans, now, out),
    ensures
        store_consistent(out),
    decreases spans.len(),
{
    reveal_with_fuel(ingest_outcome, 1);
    if spans.len() > 0 {
        let mid = choose|mid: StoreView|
            ingest_outcome(st, spans.drop_last(), now, mid) && #[trigger] ingest_step(
                mid,
                spans.last(),
                now,
                out,
            );
        lemma_outcome_consistent(st, spans.drop_last(), now, mid);
        lemma_step_consistent(mid, spans.last(), now, out);
    }
}

/// Which ids storing `spans` in order leaves in the span map.
pub proof fn lemma_with_spans_keys(m: Map<SpanId, SpanView>, spans: Seq<SpanView>)
    ensures
        forall|k: SpanId|
            #[trigger] with_spans(m, spans).contains_key(k) <==> (m.contains_key(k) || exists|i: int|
                0 <= i < spans.len() && spans[i].span_id == k),
    decreases spans.len(),
{
    if spans.len() > 0 {
        let init = spans.drop_last();
        lemma_with_spans_keys(m, init);
        let last = spans.last();
        assert(with_spans(m, spans) == with_spans(m, init).insert(last.span_id, last));
        assert(spans[spans.len() - 1] == last);
        assert forall|k: SpanId|
            #[trigger] with_spans(m, spans).contains_key(k) <==> (m.contains_key(k) || exists|i: int|
                0 <= i < spans.len() && spans[i].span_id == k) by {
            if exists|i: int| 0 <= i < spans.len() && spans[i].span_id == k {
                let i = choose|i: int| 0 <= i < spans.len() && spans[i].span_id == k;
                if i < spans.len() - 1 {
                    assert(init[i].span_id == k);
                }
            }
            if exists|i: int| 0 <= i < init.len() && init[i].span_id == k {
                let i = choose|i: int| 0 <= i < init.len() && init[i].span_id == k;
                assert(spans[i].span_id == k);
            }
        }
    }
}

/// A span the server emitted about itself, whose id the store has not seen and no
/// other span of the call shares, is not queryable after the server-facing ingest:
/// its id is not stored and no stored trace holds a span with that id.
pub proof fn lemma_self_span_not_queryable(
    st: StoreView,
    spans: Seq<SpanView>,
    i: int,
    now: Timestamp,
    out: StoreView,
)
    requires
        store_consistent(st),
        0 <= i < spans.len(),
        is_self_span(spans[i]),
        !st.spans.contains_key(spans[i].span_id),
        forall|j: int|
            0 <= j < spans.len() && !is_self_span(#[trigger] spans[j]) ==> spans[j].span_id
                != spans[i].span_id,
        ingest_outcome(st, kept_spans(spans), now, out),
    ensures
        !out.spans.contains_key(spans[i].span_id),
        forall|id: TraceId, k: int|
            #![trigger out.traces[id].trace.spans[k]]
            out.traces.contains_key(id) && 0 <= k < out.traces[id].trace.spans.len()
                ==> out.traces[id].trace.spans[k].span_id != spans[i].span_id,
        store_consistent(out),
{
    let kept = kept_spans(spans);
    let pred = |x: SpanView| !is_self_span(x);
    let id = spans[i].span_id;
    lemma_outcome_spans(st, kept, now, out);
    lemma_with_spans_keys(st.spans, kept);
    lemma_outcome_consistent(st, kept, now, out);
    assert forall|j: int| 0 <= j < kept.len() implies (#[trigger] kept[j]).span_id != id by {
        spans.lemma_filter_pred(pred, j);
        assert(kept.contains(kept[j]));
        spans.lemma_filter_contains_rev(pred, kept[j]);
        let j0 = choose|j0: int| 0 <= j0 < spans.len() && spans[j0] == kept[j];
        assert(!is_self_span(spans[j0]));
    }
}

/// No stored span, and no span of a stored trace, came from the server itself.
pub open spec fn holds_no_self_spans(st: StoreView) -> bool {
    &&& forall|k: SpanId| #[trigger] st.spans.contains_key(k) ==> !is_self_span(st.spans[k])
    &&& forall|id: TraceId, i: int|
        #[trigger] st.traces.contains_key(id) && 0 <= i < st.traces[id].trace.spans.len()
            ==> !is_self_span(#[trigger] st.traces[id].trace.spans[i])
}

/// Ingesting spans none of which came from the server keeps a store free of the
/// server's own spans.
pub proof fn lemma_ingest_keeps_out_self_spans(
    st: StoreView,
    spans: Seq<SpanView>,
    now: Timestamp,
    out: StoreView,
)
    requires
        holds_no_self_spans(st),
        forall|i: int| 0 <= i < spans.len() ==> !is_self_span(#[trigger] spans[i]),
        ingest_outcome(st, spans, now, out),
    ensures
        holds_no_self_spans(out),
    decreases spans.len(),
{
    reveal_with_fuel(ingest_outcome, 1);
    if spans.len() > 0 {
        let s = spans.last();
        let mid = choose|mid: StoreView|
            ingest_outcome(st, spans.drop_last(), now, mid) && #[trigger] ingest_step(
                mid,
                spans.last(),
                now,
                out,
            );
        lemma_ingest_keeps_out_self_spans(st, spans.drop_last(), now, mid);
        let m = mid.spans.insert(s.span_id, s);
        let published = mid.published + arrival_events(mid, s);
        assert(!is_self_span(spans[spans.len() - 1]));
        let ks = choose|ks: Seq<SpanId>|
            #[trigger] lists_trace_spans(ks, m, s.trace_id) && match assemble(
                spans_listed(ks, m),
            ) {
                None => out.traces == mid.traces && out.published == published,
                Some(t) => out.traces == mid.traces.insert(
                    s.trace_id,
                    StoredTraceView { trace: t, created_at: now },
                ) && out.published == published + completion_events(s.trace_id, t),
            };
        let g = spans_listed(ks, m);
        assert forall|i: int| 0 <= i < g.len() implies !is_self_span(#[trigger] g[i]) by {
            assert(ks.contains(ks[i]));
        }
        lemma_sort_contents(g);
        if let Some(t) = assemble(g) {
            assert forall|i: int| 0 <= i < t.spans.len() implies !is_self_span(#[trigger] t.spans[i]) by {
                assert(t.spans.contains(t.spans[i]));
                let j = choose|j: int| 0 <= j < g.len() && g[j] == t.spans[i];
            }
        }
    }
}

/// After the server-facing ingest, a store that held none of the server's own spans
/// still holds none: a span the server emitted about itself is never queryable.
pub proof fn lemma_self_spans_never_stored(
    st: StoreView,
    spans: Seq<SpanView>,
    now: Timestamp,
    out: StoreView,
)
    requires
        holds_no_self_spans(st),
        ingest_outcome(st, kept_spans(spans), now, out),
    ensures
        holds_no_self_spans(out),
{
    let kept = kept_spans(spans);
    assert forall|i: int| 0 <= i < kept.len() implies !is_self_span(#[trigger] kept[i]) by {
        spans.lemma_filter_pred(|x: SpanView| !is_self_span(x), i);
    }
    lemma_ingest_keeps_out_self_spans(st, kept, now, out);
}

/// `ts` lists, once each, the traces that `m` holds.
pub open spec fn lists_traces(ts: Seq<TraceView>, m: Map<TraceId, StoredTraceView>) -> bool {
    exists|ids: Seq<TraceId>|
        #[trigger] ids.no_duplicates() && (forall|k: TraceId| #[trigger]
            ids.contains(k) <==> m.contains_key(k)) && ts == ids.map_values(
            |k: TraceId| m[k].trace,
        )
}

/// In-memory trace store with a time to live.
pub struct TraceStore {
    traces: DashMap<TraceId, StoredTrace>,
    spans: DashMap<SpanId, Span>,
    ttl_nanos: u64,
    event_tx: Sender<TraceEvent>,
    published: Ghost<Seq<TraceEventView>>,
}

impl View for TraceStore {
    type V = StoreView;

    closed spec fn view(&self) -> StoreView {
        StoreView {
            spans: span_entries(self.spans),
            traces: trace_entries(self.traces),
            ttl_nanos: self.ttl_nanos,
            published: self.published@,
        }
    }
}

impl TraceStore {
    /// An empty store whose traces live for `ttl_nanos` nanoseconds.
    pub fn new(ttl_nanos: u64) -> (r: TraceStore)
        ensures
            r@.spans.dom() == Set::<SpanId>::empty(),
            r@.traces.dom() == Set::<TraceId>::empty(),
            r@.ttl_nanos == ttl_nanos,
            r@.published == Seq::<TraceEventView>::empty(),
            store_consistent(r@),
    {
        TraceStore {
            traces: new_trace_map(),
            spans: new_span_map(),
            ttl_nanos,
            event_tx: new_event_channel(),
            published: Ghost(Seq::empty()),
        }
    }

    /// Publishes an event to the live subscribers.
    fn publish(&mut self, ev: TraceEvent)
        ensures
            final(self)@ == (StoreView { published: old(self)@.published.push(ev@), ..old(self)@ }),
    {
        let ghost v = ev@;
        send_event(&self.event_tx, ev);
        self.published = Ghost(self.published@.push(v));
    }

    /// Reassembles the trace `trace_id` from the stored spans and stores it.
    fn update_trace(&mut self, trace_id: TraceId, now: Timestamp)
        ensures
            reassembled(
                old(self)@,
                old(self)@.spans,
                old(self)@.published,
                trace_id,
                now,
                final(self)@,
            ),
    {
        let ghost m = self@.spans;
        let entries = span_map_entries(&self.spans);
        let mut group: Vec<Span> = Vec::new();
        let ghost mut ks: Seq<SpanId> = Seq::empty();
        let mut i: usize = 0;
        proof {
            assert(span_views(group@) =~= spans_listed(ks, m));
        }
        while i < entries.len()
            invariant
                m == span_entries(self.spans),
                0 <= i <= entries@.len(),
                forall|k: SpanId|
                    #[trigger] m.contains_key(k) ==> exists|j: int|
                        0 <= j < entries@.len() && entries@[j].0 == k,
                forall|j: int|
                    0 <= j < entries@.len() ==> m.contains_key(#[trigger] entries@[j].0)
                        && m[entries@[j].0] == entries@[j].1@,
                forall|a: int, b: int| 0 <= a < b < entries@.len() ==> entries@[a].0 != entries@[b].0,
                ks.no_duplicates(),
                forall|k: SpanId|
                    #[trigger] ks.contains(k) <==> (exists|j: int|
                        0 <= j < i && entries@[j].0 == k) && m[k].trace_id == trace_id,
                span_views(group@) == spans_listed(ks, m),
            decreases entries@.len() - i,
        {
            let entry = &entries[i];
            let belongs = entry.1.trace_id == trace_id;
            proof {
                lemma_trace_id_eq(entry.1.trace_id, trace_id);
            }
            if belongs {
                let ghost before = group@;
                group.push(entry.1.duplicate());
                proof {
                    assert(!ks.contains(entry.0)) by {
                        if ks.contains(entry.0) {
                            let j = choose|j: int| 0 <= j < i && entries@[j].0 == entry.0;
                            assert(entries@[j].0 != entries@[i as int].0);
                        }
                    }
                    let ks2 = ks.push(entry.0);
                    assert(m[entries@[i as int].0] == entries@[i as int].1@);
                    assert(span_views(group@) =~= span_views(before).push(entry.1@));
                    assert(spans_listed(ks2, m) =~= spans_listed(ks, m).push(m[entry.0]));
                    assert(span_views(group@) =~= spans_listed(ks2, m));
                    assert forall|k: SpanId| #[trigger] ks2.contains(k) <==> (exists|j: int|
                        0 <= j < i + 1 && entries@[j].0 == k) && m[k].trace_id == trace_id by {
                        if ks2.contains(k) {
                            let x = choose|x: int| 0 <= x < ks2.len() && ks2[x] == k;
                            if x < ks.len() {
                                assert(ks.contains(k));
                            }
                        }
                        if (exists|j: int| 0 <= j < i + 1 && entries@[j].0 == k) && m[k].trace_id
                            == trace_id {
                            let j = choose|j: int| 0 <= j < i + 1 && entries@[j].0 == k;
                            if j < i {
                                assert(ks.contains(k));
                                let x = choose|x: int| 0 <= x < ks.len() && ks[x] == k;
                                assert(ks2[x] == k);
                            } else {
                                assert(ks2[ks.len() as int] == k);
                            }
                        }
                    }
                    ks = ks2;
                }
            } else {
                proof {
                    assert forall|k: SpanId| #[trigger] ks.contains(k) <==> (exists|j: int|
                        0 <= j < i + 1 && entries@[j].0 == k) && m[k].trace_id == trace_id by {
                        if (exists|j: int| 0 <= j < i + 1 && entries@[j].0 == k) && m[k].trace_id
                            == trace_id {
                            let j = choose|j: int| 0 <= j < i + 1 && entries@[j].0 == k;
                            if j == i {
                                assert(m[k] == entry.1@);
                            }
                        }
                    }
                }
            }
            i = i + 1;
        }
        proof {
            assert(lists_trace_spans(ks, m, trace_id));
        }
        match Trace::from_spans(group) {
            None => {},
            Some(trace) => {
                if trace.end_time.is_some() && all_ended(&trace) {
                    match duration_between(trace.start_time, trace.end_time) {
                        Some(d) => {
                            let n = trace.spans.len();
                            self.publish(
                                TraceEvent::TraceCompleted {
                                    trace_id,
                                    duration_nanos: d,
                                    span_count: n,
                                },
                            );
                        },
                        None => {},
                    }
                }
                let ghost tv = trace@;
                let stored = StoredTrace { trace, created_at: now };
                trace_map_insert(&mut self.traces, trace_id, stored);
                proof {
                    assert(self@.published =~= old(self)@.published + completion_events(trace_id, tv));
                }
            },
        }
    }

    /// Ingests one span at `now`.
    fn ingest_one(&mut self, span: Span, now: Timestamp)
        ensures
            ingest_step(old(self)@, span@, now, final(self)@),
    {
        let is_new = span.parent_span_id.is_none() && !span_map_contains(&self.spans, &span.span_id);
        if is_new {
            self.publish(
                TraceEvent::TraceStarted {
                    trace_id: span.trace_id,
                    root_span_name: span.name.clone(),
                    service_name: span.service_name.clone(),
                },
            );
        }
        self.publish(TraceEvent::SpanAdded { trace_id: span.trace_id, span: span.duplicate() });
        proof {
            assert(self@.published =~= old(self)@.published + arrival_events(old(self)@, span@));
        }
        let trace_id = span.trace_id;
        let span_id = span.span_id;
        let ghost sv = span@;
        span_map_insert(&mut self.spans, span_id, span);
        self.update_trace(trace_id, now);
    }

    /// Ingests spans at `now`, in order, reassembling the trace of each and publishing
    /// lifecycle events. Returns how many spans were given.
    pub fn ingest_at(&mut self, spans: Vec<Span>, now: Timestamp) -> (r: u32)
        ensures
            r == spans@.len() as u32,
            ingest_outcome(old(self)@, span_views(spans@), now, final(self)@),
            store_consistent(old(self)@) ==> store_consistent(final(self)@),
    {
        let count = spans.len() as u32;
        let ghost orig = span_views(spans@);
        let mut input = spans;
        let ghost mut k: int = 0;
        proof {
            assert(orig.skip(0) =~= orig);
            assert(orig.take(0) =~= Seq::<SpanView>::empty());
        }
        while input.len() > 0
            invariant
                0 <= k <= orig.len(),
                span_views(input@) == orig.skip(k),
                k + input@.len() == orig.len(),
                ingest_outcome(old(self)@, orig.take(k), now, self@),
            decreases input@.len(),
        {
            let ghost before = self@;
            let ghost old_in = input@;
            let span = input.remove(0);
            let ghost sv = span@;
            proof {
                assert(span_views(old_in)[0] == span@);
                assert(orig.skip(k)[0] == orig[k]);
                assert(span_views(input@) =~= span_views(old_in).skip(1));
                assert(orig.skip(k).skip(1) =~= orig.skip(k + 1));
            }
            self.ingest_one(span, now);
            proof {
                let t = orig.take(k + 1);
                assert(t.drop_last() =~= orig.take(k));
                assert(t.last() == orig[k]);
                assert(ingest_outcome(old(self)@, t.drop_last(), now, before));
                assert(ingest_step(before, sv, now, self@));
                assert(t.last() == sv);
                lemma_outcome_extend(old(self)@, t, now, before, self@);
                k = k + 1;
            }
        }
        proof {
            assert(orig.take(k) =~= orig);
            if store_consistent(old(self)@) {
                lemma_outcome_consistent(old(self)@, orig, now, self@);
            }
        }
        count
    }

    /// Ingests spans, stamping the traces they touch with the wall clock.
    /// Returns how many spans were given.
    pub fn ingest(&mut self, spans: Vec<Span>) -> (r: u32)
        ensures
            r == spans@.len() as u32,
            exists|now: Timestamp| ingest_outcome(old(self)@, span_views(spans@), now, final(self)@),
            store_consistent(old(self)@) ==> store_consistent(final(self)@),
    {
        let now = Timestamp::now();
        self.ingest_at(spans, now)
    }

    /// Ingest as served to clients: the server's own spans are dropped first, so that
    /// tracing the server cannot feed back into it. Returns how many spans were
    /// given, the dropped ones included.
    pub fn ingest_spans(&mut self, spans: Vec<Span>) -> (r: u32)
        ensures
            r == spans@.len() as u32,
            exists|now: Timestamp|
                ingest_outcome(
                    old(self)@,
                    kept_spans(span_views(spans@)),
                    now,
                    final(self)@,
                ),
            store_consistent(old(self)@) ==> store_consistent(final(self)@),
    {
        let count = spans.len() as u32;
        let kept = without_self_spans(spans);
        self.ingest(kept);
        count
    }

    /// Summaries of the stored traces that pass the filter, newest first, at most
    /// `filter.limit` of them (100 when it sets none).
    pub fn list_traces(&self, filter: TraceFilter) -> (r: Vec<TraceSummary>)
        ensures
            exists|ts: Seq<TraceView>|
                #[trigger] lists_traces(ts, self@.traces) && r@ == listing(ts, filter),
            is_newest_first(r@),
            r@.len() <= listing_limit(filter),
    {
        let ghost m = self@.traces;
        let entries = trace_map_entries(&self.traces);
        let ghost ids = entries@.map_values(|e: (TraceId, Trace)| e.0);
        let ghost ts = entries@.map_values(|e: (TraceId, Trace)| e.1@);
        let mut found: Vec<TraceSummary> = Vec::new();
        let mut i: usize = 0;
        proof {
            assert(ts.take(0) =~= Seq::<TraceView>::empty());
        }
        while i < entries.len()
            invariant
                ts == entries@.map_values(|e: (TraceId, Trace)| e.1@),
                0 <= i <= entries@.len(),
                found@ == summaries(ts.take(i as int), filter),
            decreases entries@.len() - i,
        {
            proof {
                assert(ts.take(i + 1).drop_last() =~= ts.take(i as int));
                assert(ts.take(i + 1).last() == entries@[i as int].1@);
            }
            match summarize_trace(&entries[i].1, &filter) {
                Some(x) => {
                    found.push(x);
                },
                None => {},
            }
            i = i + 1;
        }
        proof {
            assert(ts.take(i as int) =~= ts);
            assert(ids.no_duplicates()) by {
                assert forall|a: int, b: int|
                    0 <= a < ids.len() && 0 <= b < ids.len() && a != b implies ids[a] != ids[b] by {
                    if a < b {
                        assert(entries@[a].0 != entries@[b].0);
                    } else {
                        assert(entries@[b].0 != entries@[a].0);
                    }
                }
            }
            assert forall|k: TraceId| #[trigger] ids.contains(k) <==> m.contains_key(k) by {
                if m.contains_key(k) {
                    let j = choose|j: int| 0 <= j < entries@.len() && entries@[j].0 == k;
                    assert(ids[j] == k);
                }
                if ids.contains(k) {
                    let j = choose|j: int| 0 <= j < ids.len() && ids[j] == k;
                    assert(m.contains_key(entries@[j].0));
                }
            }
            assert(ts =~= ids.map_values(|k: TraceId| m[k].trace));
            assert(lists_traces(ts, m));
            lemma_listing_sorted_and_bounded(ts, filter);
        }
        let mut sorted = sort_newest_first(found);
        let limit: usize = match filter.limit {
            Some(l) => l,
            None => 100,
        };
        sorted.truncate(limit);
        proof {
            let all = newest_first(summaries(ts, filter));
            if all.len() > limit {
                assert(sorted@ =~= all.take(limit as int));
            }
        }
        sorted
    }

    /// A receiver of the events published from now on.
    pub fn subscribe_events(&self) -> (r: Receiver<TraceEvent>) {
        new_receiver(&self.event_tx)
    }

    /// The stored trace with this id.
    pub fn get_trace(&self, trace_id: TraceId) -> (r: Option<Trace>)
        ensures
            r is Some == self@.traces.contains_key(trace_id),
            r matches Some(t) ==> t@ == self@.traces[trace_id].trace,
    {
        trace_map_get(&self.traces, &trace_id)
    }

    /// Removes the traces whose time to live has run out at `now`.
    pub fn cleanup_expired(&mut self, now: Timestamp)
        ensures
            final(self)@ == (StoreView {
                traces: live_traces(old(self)@.traces, now, old(self)@.ttl_nanos),
                ..old(self)@
            }),
            store_consistent(old(self)@) ==> store_consistent(final(self)@),
    {
        let ttl = self.ttl_nanos;
        trace_map_retain_live(&mut self.traces, now, ttl);
    }

    /// Number of stored spans.
    pub fn span_count(&self) -> (r: usize)
        ensures
            r == self@.spans.dom().len(),
    {
        span_map_len(&self.spans)
    }

    /// The time to live of stored traces, in nanoseconds.
    pub fn ttl_nanos(&self) -> (r: u64)
        ensures
            r == self@.ttl_nanos,
    {
        self.ttl_nanos
    }
}

/// One more ingested span extends an outcome by one step.
proof fn lemma_outcome_extend(
    st: StoreView,
    spans: Seq<SpanView>,
    now: Timestamp,
    mid: StoreView,
    out: StoreView,
)
    requires
        spans.len() > 0,
        ingest_outcome(st, spans.drop_last(), now, mid),
        ingest_step(mid, spans.last(), now, out),
    ensures
        ingest_outcome(st, spans, now, out),
{
    reveal_with_fuel(ingest_outcome, 1);
}

/// The listed spans of a trace that holds a span without a parent assemble into a trace.
proof fn lemma_listed_assembles(ks: Seq<SpanId>, m: Map<SpanId, SpanView>, tid: TraceId, x: SpanId)
    requires
        lists_trace_spans(ks, m, tid),
        m.contains_key(x),
        m[x].trace_id == tid,
        m[x].parent_span_id is None,
    ensures
        assemble(spans_listed(ks, m)) is Some,
{
    let g = spans_listed(ks, m);
    assert(ks.contains(x));
    let p = choose|p: int| 0 <= p < ks.len() && ks[p] == x;
    assert(g[p] == m[x]);
    assert(g.contains(g[p]));
    lemma_sort_contents(g);
    let sorted = sort_by_start(g);
    assert(sorted.contains(g[p]));
    let q = choose|q: int| 0 <= q < sorted.len() && sorted[q] == g[p];
    assert(sorted[q].parent_span_id is None);
    lemma_root_of(sorted);
}

/// `t` is the trace of `tid` assembled from span map `m`: it carries that trace id,
/// holds exactly the stored spans of that trace, once each, ordered by start time
/// (spans that start together in the order the map listed them).
pub open spec fn holds_trace_of(t: TraceView, m: Map<SpanId, SpanView>, tid: TraceId) -> bool {
    &&& t.trace_id == tid
    &&& exists|ks: Seq<SpanId>|
        #[trigger] lists_trace_spans(ks, m, tid) && t.spans == sort_by_start(spans_listed(ks, m))
    &&& forall|y: SpanView|
        #[trigger] t.spans.contains(y) <==> exists|k: SpanId|
            #[trigger] m.contains_key(k) && m[k].trace_id == tid && m[k] == y
    &&& starts_in_order(t.spans)
}

/// A trace assembled from the listed spans of `tid` is the trace of `tid`.
proof fn lemma_assembled_trace(ks: Seq<SpanId>, m: Map<SpanId, SpanView>, tid: TraceId)
    requires
        lists_trace_spans(ks, m, tid),
        assemble(spans_listed(ks, m)) is Some,
    ensures
        holds_trace_of(assemble(spans_listed(ks, m)).unwrap(), m, tid),
{
    let g = spans_listed(ks, m);
    let t = assemble(g).unwrap();
    lemma_sort_contents(g);
    lemma_sort_ordered(g);
    assert(sort_by_start(g).contains(sort_by_start(g)[0]));
    let j = choose|j: int| 0 <= j < g.len() && g[j] == sort_by_start(g)[0];
    assert(ks.contains(ks[j]));
    assert forall|y: SpanView|
        #[trigger] t.spans.contains(y) <==> exists|k: SpanId|
            #[trigger] m.contains_key(k) && m[k].trace_id == tid && m[k] == y by {
        if t.spans.contains(y) {
            assert(g.contains(y));
            let i = choose|i: int| 0 <= i < g.len() && g[i] == y;
            assert(ks.contains(ks[i]));
            assert(m.contains_key(ks[i]) && m[ks[i]].trace_id == tid && m[ks[i]] == y);
        }
        if exists|k: SpanId| #[trigger] m.contains_key(k) && m[k].trace_id == tid && m[k] == y {
            let k = choose|k: SpanId| #[trigger] m.contains_key(k) && m[k].trace_id == tid && m[k] == y;
            assert(ks.contains(k));
            let i = choose|i: int| 0 <= i < ks.len() && ks[i] == k;
            assert(g[i] == y);
            assert(g.contains(y));
        }
    }
}

/// Ingesting a root span the store has not seen publishes `TraceStarted` and then
/// `SpanAdded` for it, followed at most by its trace's completion, and leaves its
/// trace queryable: the stored trace is that of its trace id, holding exactly the
/// stored spans of the trace, the new root among them, ordered by start time.
pub proof fn lemma_fresh_root_ingest(st: StoreView, s: SpanView, now: Timestamp, out: StoreView)
    requires
        ingest_outcome(st, seq![s], now, out),
        s.parent_span_id is None,
        !st.spans.contains_key(s.span_id),
    ensures
        out.published.len() == st.published.len() + 2 || out.published.len()
            == st.published.len() + 3,
        out.published.subrange(0, st.published.len() as int) == st.published,
        out.published[st.published.len() as int] == (TraceEventView::TraceStarted {
            trace_id: s.trace_id,
            root_span_name: s.name,
            service_name: s.service_name,
        }),
        out.published[st.published.len() + 1int] == (TraceEventView::SpanAdded {
            trace_id: s.trace_id,
            span: s,
        }),
        out.published.len() == st.published.len() + 3 ==> out.published[st.published.len()
            + 2int] is TraceCompleted,
        out.traces.contains_key(s.trace_id),
        out.spans == st.spans.insert(s.span_id, s),
        holds_trace_of(out.traces[s.trace_id].trace, out.spans, s.trace_id),
        out.traces[s.trace_id].trace.spans.contains(s),
{
    reveal_with_fuel(ingest_outcome, 2);
    assert(seq![s].drop_last() =~= Seq::<SpanView>::empty());
    assert(seq![s].last() == s);
    let mid = choose|mid: StoreView|
        ingest_outcome(st, seq![s].drop_last(), now, mid) && #[trigger] ingest_step(
            mid,
            seq![s].last(),
            now,
            out,
        );
    assert(mid == st);
    let spans = st.spans.insert(s.span_id, s);
    let published = st.published + arrival_events(st, s);
    let ks = choose|ks: Seq<SpanId>|
        #[trigger] lists_trace_spans(ks, spans, s.trace_id) && match assemble(
            spans_listed(ks, spans),
        ) {
            None => out.traces == st.traces && out.published == published,
            Some(t) => out.traces == st.traces.insert(
                s.trace_id,
                StoredTraceView { trace: t, created_at: now },
            ) && out.published == published + completion_events(s.trace_id, t),
        };
    lemma_listed_assembles(ks, spans, s.trace_id, s.span_id);
    let t = assemble(spans_listed(ks, spans)).unwrap();
    lemma_assembled_trace(ks, spans, s.trace_id);
    assert(spans.contains_key(s.span_id) && spans[s.span_id].trace_id == s.trace_id
        && spans[s.span_id] == s);
    assert(out.traces[s.trace_id].trace == t);
    assert(t.spans.contains(s));
    assert(out.published =~= published + completion_events(s.trace_id, t));
    assert(out.published.subrange(0, st.published.len() as int) =~= st.published);
}

/// Ingesting a span after which every span of its trace has ended, one of them
/// without a parent, stores a complete trace; when its duration is known, that
/// ingest publishes exactly one `TraceCompleted`, after the span's own events.
pub proof fn lemma_completion_published(st: StoreView, s: SpanView, now: Timestamp, out: StoreView)
    requires
        ingest_step(st, s, now, out),
        forall|k: SpanId|
            #[trigger] out.spans.contains_key(k) && out.spans[k].trace_id == s.trace_id
                ==> out.spans[k].end_time is Some,
        exists|k: SpanId|
            #[trigger] out.spans.contains_key(k) && out.spans[k].trace_id == s.trace_id
                && out.spans[k].parent_span_id is None,
    ensures
        out.traces.contains_key(s.trace_id),
        is_complete(out.traces[s.trace_id].trace),
        span_duration(
            out.traces[s.trace_id].trace.start_time,
            out.traces[s.trace_id].trace.end_time,
        ) matches Some(d) ==> out.published == st.published + arrival_events(st, s) + seq![
            TraceEventView::TraceCompleted {
                trace_id: s.trace_id,
                duration_nanos: d,
                span_count: out.traces[s.trace_id].trace.spans.len() as usize,
            },
        ],
{
    let spans = st.spans.insert(s.span_id, s);
    let published = st.published + arrival_events(st, s);
    let ks = choose|ks: Seq<SpanId>|
        #[trigger] lists_trace_spans(ks, spans, s.trace_id) && match assemble(
            spans_listed(ks, spans),
        ) {
            None => out.traces == st.traces && out.published == published,
            Some(t) => out.traces == st.traces.insert(
                s.trace_id,
                StoredTraceView { trace: t, created_at: now },
            ) && out.published == published + completion_events(s.trace_id, t),
        };
    let x = choose|k: SpanId|
        #[trigger] out.spans.contains_key(k) && out.spans[k].trace_id == s.trace_id
            && out.spans[k].parent_span_id is None;
    lemma_listed_assembles(ks, spans, s.trace_id, x);
    let g = spans_listed(ks, spans);
    let t = assemble(g).unwrap();
    assert forall|i: int| 0 <= i < g.len() implies (#[trigger] g[i]).end_time is Some by {
        assert(ks.contains(ks[i]));
    }
    lemma_sort_contents(g);
    lemma_max_end(g);
    assert forall|i: int| 0 <= i < t.spans.len() implies (#[trigger] t.spans[i]).end_time is Some by {
        assert(t.spans.contains(t.spans[i]));
        assert(g.contains(t.spans[i]));
    }
    assert(g.len() > 0);
    assert(g[0].end_time is Some);
    assert(is_complete(t));
}

/// The span map after storing `spans` in order, each under its own id.
pub open spec fn with_spans(m: Map<SpanId, SpanView>, spans: Seq<SpanView>) -> Map<SpanId, SpanView>
    decreases spans.len(),
{
    if spans.len() == 0 {
        m
    } else {
        with_spans(m, spans.drop_last()).insert(spans.last().span_id, spans.last())
    }
}

/// Ingest stores every given span under its id, whatever else happens.
pub proof fn lemma_outcome_spans(st: StoreView, spans: Seq<SpanView>, now: Timestamp, out: StoreView)
    requires
        ingest_outcome(st, spans, now, out),
    ensures
        out.spans == with_spans(st.spans, spans),
    decreases spans.len(),
{
    reveal_with_fuel(ingest_outcome, 1);
    if spans.len() > 0 {
        let mid = choose|mid: StoreView|
            ingest_outcome(st, spans.drop_last(), now, mid) && #[trigger] ingest_step(
                mid,
                spans.last(),
                now,
                out,
            );
        lemma_outcome_spans(st, spans.drop_last(), now, mid);
    }
}

/// Storing spans with distinct ids that are all new adds one entry per span.
pub proof fn lemma_with_spans_count(m: Map<SpanId, SpanView>, spans: Seq<SpanView>)
    requires
        m.dom().finite(),
        forall|i: int, j: int|
            0 <= i < j < spans.len() ==> (#[trigger] spans[i]).span_id != (#[trigger] spans[j]).span_id,
        forall|i: int| 0 <= i < spans.len() ==> !m.contains_key((#[trigger] spans[i]).span_id),
    ensures
        with_spans(m, spans).dom().finite(),
        with_spans(m, spans).dom().len() == m.dom().len() + spans.len(),
        forall|k: SpanId|
            #[trigger] with_spans(m, spans).contains_key(k) <==> (m.contains_key(k) || exists|i: int|
                0 <= i < spans.len() && spans[i].span_id == k),
    decreases spans.len(),
{
    if spans.len() > 0 {
        let init = spans.drop_last();
        lemma_with_spans_count(m, init);
        let last = spans.last();
        let w = with_spans(m, init);
        assert(!w.contains_key(last.span_id)) by {
            if w.contains_key(last.span_id) {
                if !m.contains_key(last.span_id) {
                    let i = choose|i: int| 0 <= i < init.len() && init[i].span_id == last.span_id;
                    assert(spans[i].span_id != spans[spans.len() - 1].span_id);
                }
            }
        }
        assert(w.insert(last.span_id, last).dom() == w.dom().insert(last.span_id));
        assert forall|k: SpanId|
            #[trigger] with_spans(m, spans).contains_key(k) <==> (m.contains_key(k) || exists|i: int|
                0 <= i < spans.len() && spans[i].span_id == k) by {
            if exists|i: int| 0 <= i < spans.len() && spans[i].span_id == k {
                let i = choose|i: int| 0 <= i < spans.len() && spans[i].span_id == k;
                if i < spans.len() - 1 {
                    assert(init[i].span_id == k);
                }
            }
            if exists|i: int| 0 <= i < init.len() && init[i].span_id == k {
                let i = choose|i: int| 0 <= i < init.len() && init[i].span_id == k;
                assert(spans[i].span_id == k);
            }
        }
    }
}

/// Ingesting N spans with distinct ids, none already stored, leaves exactly N more
/// spans in the store: none is lost and none counted twice.
pub proof fn lemma_distinct_spans_all_stored(
    st: StoreView,
    spans: Seq<SpanView>,
    now: Timestamp,
    out: StoreView,
)
    requires
        ingest_outcome(st, spans, now, out),
        st.spans.dom().finite(),
        forall|i: int, j: int|
            0 <= i < j < spans.len() ==> (#[trigger] spans[i]).span_id != (#[trigger] spans[j]).span_id,
        forall|i: int| 0 <= i < spans.len() ==> !st.spans.contains_key((#[trigger] spans[i]).span_id),
    ensures
        out.spans.dom().len() == st.spans.dom().len() + spans.len(),
{
    lemma_outcome_spans(st, spans, now, out);
    lemma_with_spans_count(st.spans, spans);
}

/// Whether every span of the trace has ended.
fn all_ended(t: &Trace) -> (r: bool)
    ensures
        r == forall|i: int| 0 <= i < t@.spans.len() ==> (#[trigger] t@.spans[i]).end_time is Some,
{
    let mut i: usize = 0;
    while i < t.spans.len()
        invariant
            0 <= i <= t.spans@.len(),
            forall|j: int| 0 <= j < i ==> (#[trigger] t@.spans[j]).end_time is Some,
        decreases t.spans@.len() - i,
    {
        if t.spans[i].end_time.is_none() {
            assert(t@.spans[i as int].end_time is None);
            return false;
        }
        i = i + 1;
    }
    true
}

/// A trace assembled at `t0` is gone after any sweep at or after `t0 + ttl`.
pub proof fn lemma_ttl_expiry(st: StoreView, id: TraceId, now: Timestamp)
    requires
        st.traces.contains_key(id),
        now.0 >= st.traces[id].created_at.0 + st.ttl_nanos,
    ensures
        !live_traces(st.traces, now, st.ttl_nanos).contains_key(id),
{
}

} // verus!
