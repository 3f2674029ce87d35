//! Traces: assembly from a span set, children, and framework classification.
use vstd::prelude::*;
use crate::ids::{lemma_span_id_eq, SpanId, TraceId};
use crate::span::{
    attr_get, span_views, AttributeValue, Span, SpanStatus, SpanView, Timestamp, str_eq,
};

verus! {

/// `sorted` with `x` placed after every span that starts no later than it.
pub open spec fn insert_by_start(sorted: Seq<SpanView>, x: SpanView) -> Seq<SpanView>
    decreases sorted.len(),
{
    if sorted.len() == 0 {
        seq![x]
    } else if sorted.last().start_time.0 <= x.start_time.0 {
        sorted.push(x)
    } else {
        insert_by_start(sorted.drop_last(), x).push(sorted.last())
    }
}

/// `s` sorted by start time, spans that start together kept in their input order.
pub open spec fn sort_by_start(s: Seq<SpanView>) -> Seq<SpanView>
    decreases s.len(),
{
    if s.len() == 0 {
        s
    } else {
        insert_by_start(sort_by_start(s.drop_last()), s.last())
    }
}

/// The first span without a parent.
pub open spec fn root_of(s: Seq<SpanView>) -> Option<SpanView>
    decreases s.len(),
{
    if s.len() == 0 {
        None
    } else if s[0].parent_span_id is None {
        Some(s[0])
    } else {
        root_of(s.drop_first())
    }
}

/// The later of two optional end times; an unknown one is ignored.
pub open spec fn later_end(a: Option<Timestamp>, b: Option<Timestamp>) -> Option<Timestamp> {
    match (a, b) {
        (None, _) => b,
        (_, None) => a,
        (Some(x), Some(y)) => if y.0 > x.0 {
            b
        } else {
            a
        },
    }
}

/// The latest end time over the spans, ignoring open ones; none if all are open.
pub open spec fn max_end(s: Seq<SpanView>) -> Option<Timestamp>
    decreases s.len(),
{
    if s.len() == 0 {
        None
    } else {
        later_end(max_end(s.drop_last()), s.last().end_time)
    }
}

/// What a trace holds.
pub struct TraceView {
    pub trace_id: TraceId,
    pub spans: Seq<SpanView>,
    pub root_span_id: SpanId,
    pub start_time: Timestamp,
    pub end_time: Option<Timestamp>,
}

/// The trace assembled from the spans of one trace id, if they have a root.
pub open spec fn assemble(v: Seq<SpanView>) -> Option<TraceView> {
    if v.len() == 0 {
        None
    } else {
        let sorted = sort_by_start(v);
        match root_of(sorted) {
            None => None,
            Some(root) => Some(
                TraceView {
                    trace_id: sorted[0].trace_id,
                    spans: sorted,
                    root_span_id: root.span_id,
                    start_time: root.start_time,
                    end_time: max_end(v),
                },
            ),
        }
    }
}

/// Complete trace: the spans of one trace id.
#[derive(Clone, Debug)]
pub struct Trace {
    pub trace_id: TraceId,
    pub spans: Vec<Span>,
    pub root_span_id: SpanId,
    pub start_time: Timestamp,
    pub end_time: Option<Timestamp>,
}

impl View for Trace {
    type V = TraceView;

    open spec fn view(&self) -> TraceView {
        TraceView {
            trace_id: self.trace_id,
            spans: span_views(self.spans@),
            root_span_id: self.root_span_id,
            start_time: self.start_time,
            end_time: self.end_time,
        }
    }
}

proof fn lemma_insert_at(s: Seq<SpanView>, x: SpanView, p: int)
    requires
        0 <= p <= s.len(),
        forall|j: int| p <= j < s.len() ==> (#[trigger] s[j]).start_time.0 > x.start_time.0,
        p > 0 ==> s[p - 1].start_time.0 <= x.start_time.0,
    ensures
        insert_by_start(s, x) == s.insert(p, x),
    decreases s.len() - p,
{
    if p == s.len() {
        if s.len() == 0 {
            assert(s.insert(p, x) =~= seq![x]);
        } else {
            assert(s.insert(p, x) =~= s.push(x));
        }
    } else {
        lemma_insert_at(s.drop_last(), x, p);
        assert(s.insert(p, x) =~= s.drop_last().insert(p, x).push(s.last()));
    }
}

proof fn lemma_insert_contents(s: Seq<SpanView>, x: SpanView)
    ensures
        insert_by_start(s, x).len() == s.len() + 1,
        forall|y: SpanView| #[trigger]
            insert_by_start(s, x).contains(y) <==> (s.contains(y) || y == x),
    decreases s.len(),
{
    if s.len() > 0 && s.last().start_time.0 > x.start_time.0 {
        let t = s.drop_last();
        lemma_insert_contents(t, x);
        assert forall|y: SpanView| #[trigger]
            insert_by_start(s, x).contains(y) <==> (s.contains(y) || y == x) by {
            let r = insert_by_start(t, x);
            if r.push(s.last()).contains(y) {
                if y != s.last() {
                    let k = choose|k: int| 0 <= k < r.push(s.last()).len() && r.push(s.last())[k] == y;
                    assert(r.contains(y)) by {
                        assert(r[k] == y);
                    }
                    if y != x {
                        let m = choose|m: int| 0 <= m < t.len() && t[m] == y;
                        assert(s[m] == y);
                    }
                } else {
                    assert(s[s.len() - 1] == y);
                }
            }
            if s.contains(y) {
                let m = choose|m: int| 0 <= m < s.len() && s[m] == y;
                if m < s.len() - 1 {
                    assert(t[m] == y);
                    assert(r.contains(y));
                    let k = choose|k: int| 0 <= k < r.len() && r[k] == y;
                    assert(r.push(s.last())[k] == y);
                } else {
                    assert(r.push(s.last())[r.len() as int] == y);
                }
            }
            if y == x {
                assert(r.contains(x));
                let k = choose|k: int| 0 <= k < r.len() && r[k] == x;
                assert(r.push(s.last())[k] == x);
            }
        }
    } else if s.len() == 0 {
        assert forall|y: SpanView| #[trigger]
            insert_by_start(s, x).contains(y) <==> (s.contains(y) || y == x) by {
            if y == x {
                assert(seq![x][0] == x);
            }
        }
    } else {
        assert forall|y: SpanView| #[trigger]
            insert_by_start(s, x).contains(y) <==> (s.contains(y) || y == x) by {
            if s.push(x).contains(y) {
                let k = choose|k: int| 0 <= k < s.push(x).len() && s.push(x)[k] == y;
                if k < s.len() {
                    assert(s[k] == y);
                }
            }
            if s.contains(y) {
                let m = choose|m: int| 0 <= m < s.len() && s[m] == y;
                assert(s.push(x)[m] == y);
            }
            if y == x {
                assert(s.push(x)[s.len() as int] == x);
            }
        }
    }
}

/// Sorting keeps exactly the spans it was given.
pub(crate) proof fn lemma_sort_contents(s: Seq<SpanView>)
    ensures
        sort_by_start(s).len() == s.len(),
        forall|y: SpanView| #[trigger] sort_by_start(s).contains(y) <==> s.contains(y),
    decreases s.len(),
{
    if s.len() > 0 {
        let t = s.drop_last();
        lemma_sort_contents(t);
        lemma_insert_contents(sort_by_start(t), s.last());
        assert forall|y: SpanView| #[trigger] sort_by_start(s).contains(y) <==> s.contains(y) by {
            if t.contains(y) {
                let m = choose|m: int| 0 <= m < t.len() && t[m] == y;
                assert(s[m] == y);
            }
            if s.contains(y) {
                let m = choose|m: int| 0 <= m < s.len() && s[m] == y;
                if m < s.len() - 1 {
                    assert(t[m] == y);
                }
            }
            if y == s.last() {
                assert(s[s.len() - 1] == y);
            }
        }
    }
}

/// The root found is a parentless member of the sequence, and one is found whenever
/// the sequence holds a parentless span.
pub(crate) proof fn lemma_root_of(t: Seq<SpanView>)
    ensures
        root_of(t) matches Some(r) ==> t.contains(r) && r.parent_span_id is None,
        (exists|k: int| 0 <= k < t.len() && (#[trigger] t[k]).parent_span_id is None) ==> root_of(
            t,
        ) is Some,
    decreases t.len(),
{
    if t.len() > 0 {
        let u = t.drop_first();
        lemma_root_of(u);
        if let Some(r) = root_of(t) {
            if t[0].parent_span_id is Some {
                let k = choose|k: int| 0 <= k < u.len() && u[k] == r;
                assert(t[k + 1] == r);
            } else {
                assert(t[0] == r);
            }
        }
        if exists|k: int| 0 <= k < t.len() && (#[trigger] t[k]).parent_span_id is None {
            let k = choose|k: int| 0 <= k < t.len() && (#[trigger] t[k]).parent_span_id is None;
            if k > 0 {
                assert(u[k - 1] == t[k]);
            }
        }
    }
}

/// The latest end time is the end of some span, no span ends later, and it is unknown
/// exactly when every span is open.
pub proof fn lemma_max_end(s: Seq<SpanView>)
    ensures
        max_end(s) is None <==> forall|j: int| 0 <= j < s.len() ==> (#[trigger] s[j]).end_time is None,
        max_end(s) matches Some(e) ==> exists|j: int|
            0 <= j < s.len() && (#[trigger] s[j]).end_time == Some(e),
        forall|j: int|
            0 <= j < s.len() && (#[trigger] s[j]).end_time is Some ==> s[j].end_time.unwrap().0
                <= max_end(s).unwrap().0,
    decreases s.len(),
{
    if s.len() > 0 {
        let t = s.drop_last();
        lemma_max_end(t);
        assert forall|j: int| 0 <= j < t.len() implies #[trigger] t[j] == s[j] by {}
        let last = s[s.len() - 1];
        assert(max_end(s) == later_end(max_end(t), last.end_time));
        assert forall|j: int|
            0 <= j < s.len() && (#[trigger] s[j]).end_time is Some implies s[j].end_time.unwrap().0
                <= max_end(s).unwrap().0 by {
            if j < s.len() - 1 {
                assert(t[j] == s[j]);
            }
        }
        if forall|j: int| 0 <= j < s.len() ==> (#[trigger] s[j]).end_time is None {
            assert(forall|j: int| 0 <= j < t.len() ==> (#[trigger] t[j]).end_time is None) by {
                assert forall|j: int| 0 <= j < t.len() implies (#[trigger] t[j]).end_time is None by {
                    assert(t[j] == s[j]);
                }
            }
            assert(last.end_time is None);
        }
        if max_end(s) is None {
            assert forall|j: int| 0 <= j < s.len() implies (#[trigger] s[j]).end_time is None by {
                if j < s.len() - 1 {
                    assert(t[j] == s[j]);
                }
            }
        }
        if let Some(e) = max_end(s) {
            if max_end(t) == Some(e) {
                let j = choose|j: int| 0 <= j < t.len() && (#[trigger] t[j]).end_time == Some(e);
                assert(s[j].end_time == Some(e));
            } else {
                assert(s[s.len() - 1].end_time == Some(e));
            }
        }
    }
}

/// For a span set with exactly one span without a parent, the assembled trace is
/// rooted at that span, starts when it starts, and ends at the latest end time of
/// the set (none when every span is open).
pub proof fn lemma_single_root_assembly(s: Seq<SpanView>, i: int)
    requires
        0 <= i < s.len(),
        s[i].parent_span_id is None,
        forall|j: int| 0 <= j < s.len() && j != i ==> (#[trigger] s[j]).parent_span_id is Some,
    ensures
        assemble(s) matches Some(t) && t.root_span_id == s[i].span_id && t.start_time
            == s[i].start_time && t.end_time == max_end(s),
        max_end(s) is None <==> forall|j: int| 0 <= j < s.len() ==> (#[trigger] s[j]).end_time is None,
        forall|j: int|
            0 <= j < s.len() && (#[trigger] s[j]).end_time is Some ==> s[j].end_time.unwrap().0
                <= max_end(s).unwrap().0,
        max_end(s) matches Some(e) ==> exists|j: int|
            0 <= j < s.len() && (#[trigger] s[j]).end_time == Some(e),
{
    lemma_max_end(s);
    lemma_sort_contents(s);
    let sorted = sort_by_start(s);
    assert(s.contains(s[i]));
    assert(sorted.contains(s[i]));
    let k = choose|k: int| 0 <= k < sorted.len() && sorted[k] == s[i];
    assert(sorted[k].parent_span_id is None);
    lemma_root_of(sorted);
    let r = root_of(sorted).unwrap();
    assert(s.contains(r));
    let m = choose|m: int| 0 <= m < s.len() && s[m] == r;
    assert(m == i);
}

/// Spans ordered by start time.
pub open spec fn starts_in_order(s: Seq<SpanView>) -> bool {
    forall|i: int, j: int| 0 <= i < j < s.len() ==> s[i].start_time.0 <= s[j].start_time.0
}

proof fn lemma_insert_by_start_ordered(s: Seq<SpanView>, x: SpanView)
    requires
        starts_in_order(s),
    ensures
        starts_in_order(insert_by_start(s, x)),
    decreases s.len(),
{
    lemma_insert_contents(s, x);
    if s.len() > 0 && s.last().start_time.0 > x.start_time.0 {
        let t = s.drop_last();
        lemma_insert_by_start_ordered(t, x);
        lemma_insert_contents(t, x);
        let r = insert_by_start(t, x);
        assert forall|i: int| 0 <= i < r.len() implies (#[trigger] r[i]).start_time.0
            <= s.last().start_time.0 by {
            assert(r.contains(r[i]));
            if r[i] != x {
                assert(t.contains(r[i]));
                let k = choose|k: int| 0 <= k < t.len() && t[k] == r[i];
                assert(s[k] == t[k]);
            }
        }
        assert forall|i: int, j: int|
            0 <= i < j < r.push(s.last()).len() implies r.push(s.last())[i].start_time.0 <= r.push(
            s.last(),
        )[j].start_time.0 by {
            if j == r.len() {
                assert(r.push(s.last())[i] == r[i]);
            }
        }
    } else if s.len() > 0 {
        assert forall|i: int, j: int| 0 <= i < j < s.push(x).len() implies s.push(x)[i].start_time.0
            <= s.push(x)[j].start_time.0 by {
            if j == s.len() && i < s.len() - 1 {
                assert(s[i].start_time.0 <= s[s.len() - 1].start_time.0);
            }
        }
    }
}

/// Sorting by start time yields spans ordered by start time.
pub proof fn lemma_sort_ordered(s: Seq<SpanView>)
    ensures
        starts_in_order(sort_by_start(s)),
    decreases s.len(),
{
    if s.len() > 0 {
        lemma_sort_ordered(s.drop_last());
        lemma_insert_by_start_ordered(sort_by_start(s.drop_last()), s.last());
    }
}

/// Sorts spans by start time, keeping spans that start together in input order.
fn sort_spans_by_start(spans: Vec<Span>) -> (r: Vec<Span>)
    ensures
        span_views(r@) == sort_by_start(span_views(spans@)),
{
    let ghost orig = span_views(spans@);
    let mut input = spans;
    let mut out: Vec<Span> = Vec::new();
    let ghost mut k: int = 0;
    proof {
        assert(orig.skip(0) =~= orig);
        assert(orig.take(0) =~= Seq::<SpanView>::empty());
        assert(span_views(out@) =~= Seq::<SpanView>::empty());
    }
    while input.len() > 0
        invariant
            0 <= k <= orig.len(),
            span_views(input@) == orig.skip(k),
            span_views(out@) == sort_by_start(orig.take(k)),
            k + input@.len() == orig.len(),
        decreases input@.len(),
    {
        let ghost old_in = input@;
        let x = input.remove(0);
        proof {
            assert(span_views(old_in)[0] == x@);
            assert(orig.skip(k)[0] == orig[k]);
            assert(orig[k] == x@);
            assert(span_views(input@) =~= span_views(old_in).skip(1));
            assert(orig.skip(k).skip(1) =~= orig.skip(k + 1));
        }
        let ghost before = span_views(out@);
        let mut p = out.len();
        while p > 0 && out[p - 1].start_time.0 > x.start_time.0
            invariant
                p <= out@.len(),
                forall|j: int| p <= j < out@.len() ==> (#[trigger] out@[j]).start_time.0 > x.start_time.0,
            decreases p,
        {
            p = p - 1;
        }
        proof {
            lemma_insert_at(before, x@, p as int);
        }
        out.insert(p, x);
        proof {
            assert(span_views(out@) =~= before.insert(p as int, x@));
            assert(orig.take(k + 1).drop_last() =~= orig.take(k));
            assert(orig.take(k + 1).last() == x@);
            assert(span_views(input@) =~= orig.skip(k + 1));
            k = k + 1;
        }
    }
    proof {
        assert(orig.take(k) =~= orig);
    }
    out
}

/// Type of trace based on framework detection.
#[derive(Clone, Copy, Debug, PartialEq, Eq, Structural)]
pub enum TraceType {
    /// No framework attributes.
    Generic,
    /// Picante query execution.
    Picante,
    /// Rapace RPC.
    Rapace,
    /// Dodeca build.
    Dodeca,
    /// More than one framework.
    Mixed,
}

impl Default for TraceType {
    fn default() -> (r: TraceType)
        ensures
            r == TraceType::Generic,
    {
        TraceType::Generic
    }
}

/// The span carries a `picante.query` attribute.
pub open spec fn marks_picante(s: SpanView) -> bool {
    attr_get(s.attributes, "picante.query"@) is Some
}

/// The span carries `rpc.system` with the string value `rapace`.
pub open spec fn marks_rapace(s: SpanView) -> bool {
    match attr_get(s.attributes, "rpc.system"@) {
        Some(AttributeValue::String(v)) => v@ == "rapace"@,
        _ => false,
    }
}

/// The span carries a `dodeca.build` attribute.
pub open spec fn marks_dodeca(s: SpanView) -> bool {
    attr_get(s.attributes, "dodeca.build"@) is Some
}

/// The trace type for the set of frameworks found.
pub open spec fn trace_type_for(picante: bool, rapace: bool, dodeca: bool) -> TraceType {
    let n = (if picante {
        1int
    } else {
        0int
    }) + (if rapace {
        1int
    } else {
        0int
    }) + (if dodeca {
        1int
    } else {
        0int
    });
    if n == 0 {
        TraceType::Generic
    } else if n >= 2 {
        TraceType::Mixed
    } else if picante {
        TraceType::Picante
    } else if rapace {
        TraceType::Rapace
    } else {
        TraceType::Dodeca
    }
}

/// Classification of a span set by the frameworks whose attributes occur in it.
pub open spec fn classify(spans: Seq<SpanView>) -> TraceType {
    trace_type_for(
        exists|i: int| 0 <= i < spans.len() && marks_picante(#[trigger] spans[i]),
        exists|i: int| 0 <= i < spans.len() && marks_rapace(#[trigger] spans[i]),
        exists|i: int| 0 <= i < spans.len() && marks_dodeca(#[trigger] spans[i]),
    )
}

/// The children of `parent`, in trace order.
pub open spec fn children_of(spans: Seq<SpanView>, parent: SpanId) -> Seq<SpanView> {
    spans.filter(|s: SpanView| s.parent_span_id == Some(parent))
}

/// Whether the span reports an error.
pub open spec fn is_error(s: SpanView) -> bool {
    s.status is Error
}

/// Spans marked for Picante and for Rapace classify as mixed; spans marked for
/// Picante alone classify as Picante; spans with no framework marks classify as generic.
pub proof fn lemma_classification(s: Seq<SpanView>)
    ensures
        (exists|i: int| 0 <= i < s.len() && marks_picante(#[trigger] s[i])) && (exists|i: int|
            0 <= i < s.len() && marks_rapace(#[trigger] s[i])) ==> classify(s) == TraceType::Mixed,
        (exists|i: int| 0 <= i < s.len() && marks_picante(#[trigger] s[i])) && !(exists|i: int|
            0 <= i < s.len() && marks_rapace(#[trigger] s[i])) && !(exists|i: int|
            0 <= i < s.len() && marks_dodeca(#[trigger] s[i])) ==> classify(s)
            == TraceType::Picante,
        !(exists|i: int| 0 <= i < s.len() && marks_picante(#[trigger] s[i])) && !(exists|i: int|
            0 <= i < s.len() && marks_rapace(#[trigger] s[i])) && !(exists|i: int|
            0 <= i < s.len() && marks_dodeca(#[trigger] s[i])) ==> classify(s)
            == TraceType::Generic,
{
}

/// Summary of a trace, for listing.
#[derive(Clone, Debug)]
pub struct TraceSummary {
    pub trace_id: TraceId,
    pub root_span_name: String,
    pub service_name: String,
    pub start_time: Timestamp,
    pub duration_nanos: Option<u64>,
    pub span_count: usize,
    pub has_errors: bool,
    pub trace_type: TraceType,
}

/// Filter for querying traces; every criterion that is set must hold.
#[derive(Clone, Debug)]
pub struct TraceFilter {
    pub service: Option<String>,
    pub min_duration_nanos: Option<u64>,
    pub max_duration_nanos: Option<u64>,
    pub has_errors: Option<bool>,
    pub limit: Option<usize>,
}

impl Default for TraceFilter {
    fn default() -> (r: TraceFilter)
        ensures
            r.service is None,
            r.min_duration_nanos is None,
            r.max_duration_nanos is None,
            r.has_errors is None,
            r.limit is None,
    {
        TraceFilter {
            service: None,
            min_duration_nanos: None,
            max_duration_nanos: None,
            has_errors: None,
            limit: None,
        }
    }
}

impl Trace {
    /// Builds a trace from the spans of one trace id: sorted by start time (stable),
    /// rooted at the first span without a parent, ending at the latest end time.
    /// Nothing when there are no spans or no root.
    pub fn from_spans(spans: Vec<Span>) -> (r: Option<Trace>)
        ensures
            match r {
                Some(t) => assemble(span_views(spans@)) == Some(t@),
                None => assemble(span_views(spans@)) is None,
            },
    {
        let ghost v = span_views(spans@);
        if spans.len() == 0 {
            return None;
        }
        let mut end_time: Option<Timestamp> = None;
        let mut i: usize = 0;
        while i < spans.len()
            invariant
                v == span_views(spans@),
                0 <= i <= spans@.len(),
                end_time == max_end(v.take(i as int)),
            decreases spans@.len() - i,
        {
            let e = spans[i].end_time;
            proof {
                assert(v.take(i + 1).drop_last() =~= v.take(i as int));
                assert(v.take(i + 1).last() == spans@[i as int]@);
            }
            end_time = match (end_time, e) {
                (None, _) => e,
                (_, None) => end_time,
                (Some(x), Some(y)) => if y.0 > x.0 {
                    e
                } else {
                    end_time
                },
            };
            i = i + 1;
        }
        proof {
            assert(v.take(i as int) =~= v);
            lemma_sort_contents(v);
        }
        let sorted = sort_spans_by_start(spans);
        let ghost sv = span_views(sorted@);
        let trace_id = sorted[0].trace_id;
        let mut j: usize = 0;
        assert(sv[0] == sorted@[0]@);
        proof {
            assert(sv.skip(0) =~= sv);
        }
        while j < sorted.len()
            invariant
                sv == span_views(sorted@),
                sv == sort_by_start(v),
                v == span_views(spans@),
                v.len() > 0,
                sorted@.len() == v.len(),
                end_time == max_end(v),
                trace_id == sv[0].trace_id,
                0 <= j <= sorted@.len(),
                root_of(sv) == root_of(sv.skip(j as int)),
            decreases sorted@.len() - j,
        {
            proof {
                assert(sv.skip(j as int)[0] == sv[j as int]);
                assert(sv.skip(j as int).drop_first() =~= sv.skip(j + 1));
            }
            if sorted[j].parent_span_id.is_none() {
                let root_span_id = sorted[j].span_id;
                let start_time = sorted[j].start_time;
                proof {
                    assert(sv[j as int] == sorted@[j as int]@);
                    assert(root_of(sv.skip(j as int)) == Some(sv[j as int]));
                    assert(sv[0] == sorted@[0]@);
                }
                let t = Trace { trace_id, spans: sorted, root_span_id, start_time, end_time };
                proof {
                    assert(root_of(sort_by_start(v)) == Some(sv[j as int]));
                    assert(t@.spans == sv);
                    assert(t@.trace_id == sv[0].trace_id);
                    assert(t@.root_span_id == sv[j as int].span_id);
                    assert(t@.start_time == sv[j as int].start_time);
                    assert(t@.end_time == max_end(v));
                }
                return Some(t);
            }
            j = j + 1;
        }
        proof {
            assert(sv.skip(j as int) =~= Seq::<SpanView>::empty());
        }
        None
    }

    /// The spans whose parent is `span_id`, in trace order.
    pub fn children(&self, span_id: SpanId) -> (r: Vec<&Span>)
        ensures
            r@.map_values(|x: &Span| x@) == children_of(self@.spans, span_id),
    {
        let ghost v = self@.spans;
        let ghost pred = |s: SpanView| s.parent_span_id == Some(span_id);
        let mut out: Vec<&Span> = Vec::new();
        let mut i: usize = 0;
        proof {
            reveal(Seq::filter);
            assert(v.take(0) =~= Seq::<SpanView>::empty());
            assert(out@.map_values(|x: &Span| x@) =~= Seq::<SpanView>::empty());
        }
        while i < self.spans.len()
            invariant
                v == span_views(self.spans@),
                pred == (|s: SpanView| s.parent_span_id == Some(span_id)),
                0 <= i <= self.spans@.len(),
                out@.map_values(|x: &Span| x@) == v.take(i as int).filter(pred),
            decreases self.spans@.len() - i,
        {
            let s = &self.spans[i];
            let ghost before = out@;
            proof {
                reveal(Seq::filter);
                assert(v.take(i + 1).drop_last() =~= v.take(i as int));
                assert(v.take(i + 1).last() == s@);
            }
            let is_child = match s.parent_span_id {
                Some(p) => {
                    proof {
                        lemma_span_id_eq(p, span_id);
                    }
                    p == span_id
                },
                None => false,
            };
            assert(is_child == pred(s@));
            if is_child {
                out.push(s);
                proof {
                    assert(out@.map_values(|x: &Span| x@) =~= before.map_values(|x: &Span| x@).push(
                        s@,
                    ));
                }
            }
            i = i + 1;
        }
        proof {
            assert(v.take(i as int) =~= v);
        }
        out
    }

    /// Classifies the trace by the framework attributes among its spans.
    pub fn classify_type(&self) -> (r: TraceType)
        ensures
            r == classify(self@.spans),
    {
        let ghost v = self@.spans;
        let mut has_picante = false;
        let mut has_rapace = false;
        let mut has_dodeca = false;
        let mut i: usize = 0;
        while i < self.spans.len()
            invariant
                v == span_views(self.spans@),
                0 <= i <= self.spans@.len(),
                has_picante == exists|k: int| 0 <= k < i && marks_picante(#[trigger] v[k]),
                has_rapace == exists|k: int| 0 <= k < i && marks_rapace(#[trigger] v[k]),
                has_dodeca == exists|k: int| 0 <= k < i && marks_dodeca(#[trigger] v[k]),
            decreases self.spans@.len() - i,
        {
            let span = &self.spans[i];
            proof {
                assert(v[i as int] == span@);
            }
            if span.attributes.contains_key("picante.query") {
                has_picante = true;
            }
            match span.attributes.get("rpc.system") {
                Some(AttributeValue::String(s)) => {
                    if str_eq(s.as_str(), "rapace") {
                        has_rapace = true;
                    }
                },
                _ => {},
            }
            if span.attributes.contains_key("dodeca.build") {
                has_dodeca = true;
            }
            i = i + 1;
        }
        if !has_picante && !has_rapace && !has_dodeca {
            TraceType::Generic
        } else if (has_picante && has_rapace) || (has_picante && has_dodeca) || (has_rapace
            && has_dodeca) {
            TraceType::Mixed
        } else if has_picante {
            TraceType::Picante
        } else if has_rapace {
            TraceType::Rapace
        } else {
            TraceType::Dodeca
        }
    }

    /// Whether any span reports an error.
    pub fn has_errors(&self) -> (r: bool)
        ensures
            r == exists|k: int| 0 <= k < self@.spans.len() && is_error(#[trigger] self@.spans[k]),
    {
        let ghost v = self@.spans;
        let mut i: usize = 0;
        while i < self.spans.len()
            invariant
                v == span_views(self.spans@),
                0 <= i <= self.spans@.len(),
                forall|k: int| 0 <= k < i ==> !is_error(#[trigger] v[k]),
            decreases self.spans@.len() - i,
        {
            proof {
                assert(v[i as int] == self.spans@[i as int]@);
            }
            if let SpanStatus::Error { .. } = self.spans[i].status {
                assert(is_error(self@.spans[i as int]));
                return true;
            }
            i = i + 1;
        }
        false
    }
}

} // verus!
