//! Trace listings: filter criteria, per-trace summaries, and the newest-first order.
use vstd::prelude::*;
use crate::ids::{lemma_span_id_eq, SpanId};
use crate::span::{duration_between, span_duration, str_eq, Span, SpanView};
use crate::trace::{classify, is_error, Trace, TraceFilter, TraceSummary, TraceView};

verus! {

/// The first span with id `id`.
pub open spec fn first_with_id(spans: Seq<SpanView>, id: SpanId) -> Option<SpanView>
    decreases spans.len(),
{
    if spans.len() == 0 {
        None
    } else if spans[0].span_id == id {
        Some(spans[0])
    } else {
        first_with_id(spans.drop_first(), id)
    }
}

/// Whether some span reports an error.
pub open spec fn any_error(spans: Seq<SpanView>) -> bool {
    exists|k: int| 0 <= k < spans.len() && is_error(#[trigger] spans[k])
}

/// Whether a trace meets every criterion the filter sets. An unknown duration fails
/// a minimum and passes a maximum.
pub open spec fn passes_filter(t: TraceView, f: TraceFilter) -> bool {
    let d = span_duration(t.start_time, t.end_time);
    &&& f.service matches Some(svc) ==> exists|i: int|
        0 <= i < t.spans.len() && (#[trigger] t.spans[i]).service_name@ == svc@
    &&& f.min_duration_nanos matches Some(lo) ==> (d matches Some(x) && x >= lo)
    &&& f.max_duration_nanos matches Some(hi) ==> !(d matches Some(x) && x > hi)
    &&& f.has_errors matches Some(b) ==> b == any_error(t.spans)
}

/// The listing entry for a trace: none when the filter rejects it or its root span
/// is missing.
pub open spec fn summarize(t: TraceView, f: TraceFilter) -> Option<TraceSummary> {
    if !passes_filter(t, f) {
        None
    } else {
        match first_with_id(t.spans, t.root_span_id) {
            None => None,
            Some(root) => Some(
                TraceSummary {
                    trace_id: t.trace_id,
                    root_span_name: root.name,
                    service_name: root.service_name,
                    start_time: t.start_time,
                    duration_nanos: span_duration(t.start_time, t.end_time),
                    span_count: t.spans.len() as usize,
                    has_errors: any_error(t.spans),
                    trace_type: classify(t.spans),
                },
            ),
        }
    }
}

/// The listing entries of the traces, in order.
pub open spec fn summaries(ts: Seq<TraceView>, f: TraceFilter) -> Seq<TraceSummary>
    decreases ts.len(),
{
    if ts.len() == 0 {
        Seq::empty()
    } else {
        let rest = summaries(ts.drop_last(), f);
        match summarize(ts.last(), f) {
            Some(x) => rest.push(x),
            None => rest,
        }
    }
}

/// `sorted` with `x` placed after every entry that starts no earlier than it.
pub open spec fn insert_newest_first(sorted: Seq<TraceSummary>, x: TraceSummary) -> Seq<
    TraceSummary,
>
    decreases sorted.len(),
{
    if sorted.len() == 0 {
        seq![x]
    } else if sorted.last().start_time.0 >= x.start_time.0 {
        sorted.push(x)
    } else {
        insert_newest_first(sorted.drop_last(), x).push(sorted.last())
    }
}

/// Entries sorted newest first, entries that start together kept in order.
pub open spec fn newest_first(s: Seq<TraceSummary>) -> Seq<TraceSummary>
    decreases s.len(),
{
    if s.len() == 0 {
        s
    } else {
        insert_newest_first(newest_first(s.drop_last()), s.last())
    }
}

/// The limit of a listing: the filter's, or 100.
pub open spec fn listing_limit(f: TraceFilter) -> int {
    match f.limit {
        Some(l) => l as int,
        None => 100,
    }
}

/// The listing of traces `ts` under filter `f`.
pub open spec fn listing(ts: Seq<TraceView>, f: TraceFilter) -> Seq<TraceSummary> {
    let all = newest_first(summaries(ts, f));
    if all.len() <= listing_limit(f) {
        all
    } else {
        all.take(listing_limit(f))
    }
}

/// Entries ordered newest first.
pub open spec fn is_newest_first(s: Seq<TraceSummary>) -> bool {
    forall|i: int, j: int| 0 <= i < j < s.len() ==> s[i].start_time.0 >= s[j].start_time.0
}

proof fn lemma_insert_newest_at(s: Seq<TraceSummary>, x: TraceSummary, p: int)
    requires
        0 <= p <= s.len(),
        forall|j: int| p <= j < s.len() ==> (#[trigger] s[j]).start_time.0 < x.start_time.0,
        p > 0 ==> s[p - 1].start_time.0 >= x.start_time.0,
    ensures
        insert_newest_first(s, x) == s.insert(p, x),
    decreases s.len() - p,
{
    if p == s.len() {
        if s.len() == 0 {
            assert(s.insert(p, x) =~= seq![x]);
        } else {
            assert(s.insert(p, x) =~= s.push(x));
        }
    } else {
        lemma_insert_newest_at(s.drop_last(), x, p);
        assert(s.insert(p, x) =~= s.drop_last().insert(p, x).push(s.last()));
    }
}

proof fn lemma_insert_newest_sorted(s: Seq<TraceSummary>, x: TraceSummary)
    requires
        is_newest_first(s),
    ensures
        is_newest_first(insert_newest_first(s, x)),
        insert_newest_first(s, x).len() == s.len() + 1,
        forall|i: int|
            0 <= i < insert_newest_first(s, x).len() ==> (#[trigger] insert_newest_first(
                s,
                x,
            )[i] == x || s.contains(insert_newest_first(s, x)[i])),
    decreases s.len(),
{
    if s.len() > 0 && s.last().start_time.0 < x.start_time.0 {
        let t = s.drop_last();
        lemma_insert_newest_sorted(t, x);
        let r = insert_newest_first(t, x);
        assert forall|i: int| 0 <= i < r.len() implies (#[trigger] r[i]).start_time.0
            >= s.last().start_time.0 by {
            if r[i] != x {
                assert(t.contains(r[i]));
                let k = choose|k: int| 0 <= k < t.len() && t[k] == r[i];
                assert(s[k] == t[k]);
            }
        }
        assert forall|i: int|
            0 <= i < r.push(s.last()).len() implies (#[trigger] r.push(s.last())[i] == x
            || s.contains(r.push(s.last())[i])) by {
            if i < r.len() && r[i] != x {
                assert(t.contains(r[i]));
                let k = choose|k: int| 0 <= k < t.len() && t[k] == r[i];
                assert(s[k] == r[i]);
            } else if i == r.len() {
                assert(s[s.len() - 1] == s.last());
            }
        }
    } else if s.len() > 0 {
        assert forall|i: int|
            0 <= i < s.push(x).len() implies (#[trigger] s.push(x)[i] == x || s.contains(
            s.push(x)[i],
        )) by {
            if i < s.len() {
                assert(s[i] == s.push(x)[i]);
            }
        }
    }
}

/// Sorting newest first yields entries ordered newest first.
pub proof fn lemma_newest_first_sorted(s: Seq<TraceSummary>)
    ensures
        is_newest_first(newest_first(s)),
        newest_first(s).len() == s.len(),
    decreases s.len(),
{
    if s.len() > 0 {
        lemma_newest_first_sorted(s.drop_last());
        lemma_insert_newest_sorted(newest_first(s.drop_last()), s.last());
    }
}

/// A listing is ordered newest first and holds no more entries than the filter's
/// limit, or 100 when it sets none.
pub proof fn lemma_listing_sorted_and_bounded(ts: Seq<TraceView>, f: TraceFilter)
    ensures
        is_newest_first(listing(ts, f)),
        listing(ts, f).len() <= listing_limit(f),
{
    lemma_newest_first_sorted(summaries(ts, f));
}

/// Sorts entries newest first, keeping entries that start together in order.
pub(crate) fn sort_newest_first(v: Vec<TraceSummary>) -> (r: Vec<TraceSummary>)
    ensures
        r@ == newest_first(v@),
{
    let ghost orig = v@;
    let mut input = v;
    let mut out: Vec<TraceSummary> = Vec::new();
    let ghost mut k: int = 0;
    proof {
        assert(orig.skip(0) =~= orig);
        assert(orig.take(0) =~= Seq::<TraceSummary>::empty());
    }
    while input.len() > 0
        invariant
            0 <= k <= orig.len(),
            input@ == orig.skip(k),
            out@ == newest_first(orig.take(k)),
            k + input@.len() == orig.len(),
        decreases input@.len(),
    {
        let ghost old_in = input@;
        let x = input.remove(0);
        proof {
            assert(orig.skip(k)[0] == orig[k]);
            assert(input@ =~= orig.skip(k + 1));
        }
        let ghost before = out@;
        let mut p = out.len();
        while p > 0 && out[p - 1].start_time.0 < x.start_time.0
            invariant
                p <= out@.len(),
                forall|j: int| p <= j < out@.len() ==> (#[trigger] out@[j]).start_time.0 < x.start_time.0,
            decreases p,
        {
            p = p - 1;
        }
        proof {
            lemma_insert_newest_at(before, x, p as int);
        }
        out.insert(p, x);
        proof {
            assert(orig.take(k + 1).drop_last() =~= orig.take(k));
            assert(orig.take(k + 1).last() == x);
            k = k + 1;
        }
    }
    proof {
        assert(orig.take(k) =~= orig);
    }
    out
}

/// Whether some span of the trace comes from `service`.
fn has_service(t: &Trace, service: &String) -> (r: bool)
    ensures
        r == exists|i: int|
            0 <= i < t@.spans.len() && (#[trigger] t@.spans[i]).service_name@ == service@,
{
    let mut i: usize = 0;
    while i < t.spans.len()
        invariant
            0 <= i <= t.spans@.len(),
            forall|j: int| 0 <= j < i ==> (#[trigger] t@.spans[j]).service_name@ != service@,
        decreases t.spans@.len() - i,
    {
        if str_eq(t.spans[i].service_name.as_str(), service.as_str()) {
            assert(t@.spans[i as int].service_name@ == service@);
            return true;
        }
        i = i + 1;
    }
    false
}

/// The first span of the trace with id `id`.
fn find_span<'a>(t: &'a Trace, id: SpanId) -> (r: Option<&'a Span>)
    ensures
        first_with_id(t@.spans, id) is None ==> r is None,
        first_with_id(t@.spans, id) matches Some(x) ==> (r matches Some(s) && s@ == x),
{
    let ghost v = t@.spans;
    let mut i: usize = 0;
    proof {
        assert(v.skip(0) =~= v);
    }
    while i < t.spans.len()
        invariant
            v == t@.spans,
            0 <= i <= v.len(),
            first_with_id(v, id) == first_with_id(v.skip(i as int), id),
        decreases v.len() - i,
    {
        proof {
            assert(v.skip(i as int)[0] == v[i as int]);
            assert(v.skip(i as int).drop_first() =~= v.skip(i + 1));
            lemma_span_id_eq(t.spans@[i as int].span_id, id);
        }
        if t.spans[i].span_id == id {
            return Some(&t.spans[i]);
        }
        i = i + 1;
    }
    proof {
        assert(v.skip(i as int) =~= Seq::<SpanView>::empty());
    }
    None
}

/// The listing entry for one trace.
pub(crate) fn summarize_trace(t: &Trace, f: &TraceFilter) -> (r: Option<TraceSummary>)
    ensures
        r == summarize(t@, *f),
{
    if let Some(svc) = &f.service {
        if !has_service(t, svc) {
            return None;
        }
    }
    let duration = duration_between(t.start_time, t.end_time);
    if let Some(lo) = f.min_duration_nanos {
        match duration {
            Some(d) => if d < lo {
                return None;
            },
            None => {
                return None;
            },
        }
    }
    if let Some(hi) = f.max_duration_nanos {
        if let Some(d) = duration {
            if d > hi {
                return None;
            }
        }
    }
    let has_errors = t.has_errors();
    if let Some(want) = f.has_errors {
        if has_errors != want {
            return None;
        }
    }
    match find_span(t, t.root_span_id) {
        None => None,
        Some(root) => {
            let trace_type = t.classify_type();
            Some(
                TraceSummary {
                    trace_id: t.trace_id,
                    root_span_name: root.name.clone(),
                    service_name: root.service_name.clone(),
                    start_time: t.start_time,
                    duration_nanos: duration,
                    span_count: t.spans.len(),
                    has_errors,
                    trace_type,
                },
            )
        },
    }
}

} // verus!
