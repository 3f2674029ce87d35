//! Spans, their attributes and events, and the traces assembled from them.
use vstd::prelude::*;
use vstd::string::{StrSliceExecFns, StringExecFns};
use crate::ids::{SpanId, TraceId};

verus! {

/// Relies on SystemTime::elapsed, measured from UNIX_EPOCH: how far the wall clock
/// reads past the epoch in nanoseconds, or nothing when it reads earlier.
#[verifier::external_body]
fn nanos_since_epoch() -> (r: Option<u128>) {
    match std::time::UNIX_EPOCH.elapsed() {
        Ok(d) => Some(d.as_nanos()),
        Err(_) => None,
    }
}

/// Timestamp in nanoseconds since the UNIX epoch.
#[derive(Clone, Copy, Debug, PartialEq, Eq, Structural)]
pub struct Timestamp(pub u64);

impl Timestamp {
    /// The wall clock now. A clock that reads before the epoch gives zero; the
    /// count of nanoseconds is kept modulo 2^64.
    pub fn now() -> (r: Timestamp) {
        match nanos_since_epoch() {
            Some(n) => Timestamp(n as u64),
            None => Timestamp(0),
        }
    }
}

/// Whether two strings hold the same characters.
pub fn str_eq(a: &str, b: &str) -> (r: bool)
    ensures
        r == (a@ == b@),
{
    let n = a.unicode_len();
    if n != b.unicode_len() {
        return false;
    }
    let mut i: usize = 0;
    while i < n
        invariant
            n == a@.len(),
            n == b@.len(),
            0 <= i <= n,
            forall|j: int| 0 <= j < i ==> a@[j] == b@[j],
        decreases n - i,
    {
        if a.get_char(i) != b.get_char(i) {
            return false;
        }
        i = i + 1;
    }
    assert(a@ =~= b@);
    true
}

/// Attribute value. A floating-point value is held as its IEEE-754 bit pattern.
#[derive(Clone, Debug)]
pub enum AttributeValue {
    String(String),
    Int(i64),
    Float(u64),
    Bool(bool),
}

impl AttributeValue {
    /// An equal copy.
    pub fn duplicate(&self) -> (r: AttributeValue)
        ensures
            r == *self,
    {
        match self {
            AttributeValue::String(s) => AttributeValue::String(s.clone()),
            AttributeValue::Int(i) => AttributeValue::Int(*i),
            AttributeValue::Float(f) => AttributeValue::Float(*f),
            AttributeValue::Bool(b) => AttributeValue::Bool(*b),
        }
    }
}

/// Position of the entry with key `k`, or -1.
pub open spec fn attr_index(s: Seq<(String, AttributeValue)>, k: Seq<char>) -> int
    decreases s.len(),
{
    if s.len() == 0 {
        -1
    } else if s[0].0@ == k {
        0
    } else {
        let j = attr_index(s.drop_first(), k);
        if j < 0 {
            -1
        } else {
            j + 1
        }
    }
}

/// The value stored under key `k`.
pub open spec fn attr_get(s: Seq<(String, AttributeValue)>, k: Seq<char>) -> Option<AttributeValue> {
    let i = attr_index(s, k);
    if i >= 0 {
        Some(s[i].1)
    } else {
        None
    }
}

/// Key order: lexicographic by character, which is the byte order of their UTF-8
/// encodings, a proper prefix first.
pub open spec fn key_lt(a: Seq<char>, b: Seq<char>) -> bool
    decreases a.len(),
{
    if a.len() == 0 {
        b.len() > 0
    } else if b.len() == 0 {
        false
    } else if a[0] != b[0] {
        (a[0] as u32) < (b[0] as u32)
    } else {
        key_lt(a.drop_first(), b.drop_first())
    }
}

/// Entries in strictly increasing key order (so no key occurs twice).
pub open spec fn keys_sorted(s: Seq<(String, AttributeValue)>) -> bool {
    forall|i: int, j: int| 0 <= i < j < s.len() ==> key_lt(s[i].0@, s[j].0@)
}

/// How many leading entries have keys before `k`: where `k` goes in key order.
pub open spec fn insert_pos(s: Seq<(String, AttributeValue)>, k: Seq<char>) -> int
    decreases s.len(),
{
    if s.len() == 0 {
        0
    } else if key_lt(s[0].0@, k) {
        1 + insert_pos(s.drop_first(), k)
    } else {
        0
    }
}

/// The entries after storing `v` under key `k`: an existing entry keeps its place,
/// a new one goes where its key belongs in key order.
pub open spec fn attr_insert(
    s: Seq<(String, AttributeValue)>,
    k: String,
    v: AttributeValue,
) -> Seq<(String, AttributeValue)> {
    let i = attr_index(s, k@);
    if i >= 0 {
        s.update(i, (s[i].0, v))
    } else {
        s.insert(insert_pos(s, k@), (k, v))
    }
}

proof fn lemma_key_lt_irreflexive(a: Seq<char>)
    ensures
        !key_lt(a, a),
    decreases a.len(),
{
    if a.len() > 0 {
        lemma_key_lt_irreflexive(a.drop_first());
    }
}

proof fn lemma_key_lt_total(a: Seq<char>, b: Seq<char>)
    ensures
        a != b ==> key_lt(a, b) || key_lt(b, a),
        !(key_lt(a, b) && key_lt(b, a)),
    decreases a.len(),
{
    if a.len() > 0 && b.len() > 0 {
        lemma_key_lt_total(a.drop_first(), b.drop_first());
        if a[0] != b[0] {
            vstd::utf8::char_u32_cast(a[0], a[0] as u32);
            vstd::utf8::char_u32_cast(b[0], b[0] as u32);
            assert((a[0] as u32) != (b[0] as u32));
        }
        if a[0] == b[0] && a != b {
            assert(a =~= seq![a[0]] + a.drop_first());
            assert(b =~= seq![b[0]] + b.drop_first());
        }
    } else if a.len() == 0 && b.len() == 0 {
        assert(a =~= b);
    }
}

proof fn lemma_key_lt_transitive(a: Seq<char>, b: Seq<char>, c: Seq<char>)
    requires
        key_lt(a, b),
        key_lt(b, c),
    ensures
        key_lt(a, c),
    decreases a.len(),
{
    if a.len() > 0 && b.len() > 0 && c.len() > 0 && a[0] == b[0] && b[0] == c[0] {
        lemma_key_lt_transitive(a.drop_first(), b.drop_first(), c.drop_first());
    }
}

/// After a common prefix of length `i`, the order is decided by what follows.
proof fn lemma_key_lt_skip(a: Seq<char>, b: Seq<char>, i: int)
    requires
        0 <= i <= a.len(),
        i <= b.len(),
        a.take(i) == b.take(i),
    ensures
        key_lt(a, b) == key_lt(a.skip(i), b.skip(i)),
    decreases i,
{
    if i > 0 {
        assert(a[0] == a.take(i)[0]);
        assert(b[0] == b.take(i)[0]);
        assert(a.drop_first().take(i - 1) =~= a.take(i).drop_first());
        assert(b.drop_first().take(i - 1) =~= b.take(i).drop_first());
        assert(a.drop_first().skip(i - 1) =~= a.skip(i));
        assert(b.drop_first().skip(i - 1) =~= b.skip(i));
        lemma_key_lt_skip(a.drop_first(), b.drop_first(), i - 1);
    } else {
        assert(a.skip(0) =~= a);
        assert(b.skip(0) =~= b);
    }
}

proof fn lemma_insert_pos(s: Seq<(String, AttributeValue)>, k: Seq<char>)
    ensures
        0 <= insert_pos(s, k) <= s.len(),
        forall|j: int| 0 <= j < insert_pos(s, k) ==> key_lt((#[trigger] s[j]).0@, k),
        insert_pos(s, k) < s.len() ==> !key_lt(s[insert_pos(s, k)].0@, k),
    decreases s.len(),
{
    if s.len() > 0 && key_lt(s[0].0@, k) {
        lemma_insert_pos(s.drop_first(), k);
        assert forall|j: int| 0 <= j < insert_pos(s, k) implies key_lt((#[trigger] s[j]).0@, k) by {
            if j > 0 {
                assert(s[j] == s.drop_first()[j - 1]);
            }
        }
    }
}

/// Storing a key keeps the entries in key order.
proof fn lemma_attr_insert_sorted(s: Seq<(String, AttributeValue)>, k: String, v: AttributeValue)
    requires
        keys_sorted(s),
    ensures
        keys_sorted(attr_insert(s, k, v)),
{
    lemma_attr_index_bounds(s, k@);
    let i = attr_index(s, k@);
    if i < 0 {
        lemma_insert_pos(s, k@);
        let p = insert_pos(s, k@);
        let t = attr_insert(s, k, v);
        assert forall|a: int, b: int| 0 <= a < b < t.len() implies key_lt(t[a].0@, t[b].0@) by {
            if p < s.len() {
                lemma_key_lt_total(s[p].0@, k@);
            }
            if a < p && b == p {
            } else if a == p && b > p {
                assert(t[b] == s[b - 1]);
                if b - 1 > p {
                    lemma_key_lt_transitive(k@, s[p].0@, s[b - 1].0@);
                }
            } else if a < p && b > p {
                assert(t[b] == s[b - 1]);
            } else if b < p {
            } else {
                assert(t[a] == s[a - 1] && t[b] == s[b - 1]);
            }
        }
    } else {
        let t = attr_insert(s, k, v);
        assert forall|a: int, b: int| 0 <= a < b < t.len() implies key_lt(t[a].0@, t[b].0@) by {
            assert(t[a].0 == s[a].0 && t[b].0 == s[b].0);
        }
    }
}

/// Whether `a` comes before `b` in key order.
pub fn str_lt(a: &str, b: &str) -> (r: bool)
    ensures
        r == key_lt(a@, b@),
{
    let n = a.unicode_len();
    let m = b.unicode_len();
    let mut i: usize = 0;
    while i < n && i < m && a.get_char(i) == b.get_char(i)
        invariant
            n == a@.len(),
            m == b@.len(),
            0 <= i <= n,
            i <= m,
            a@.take(i as int) == b@.take(i as int),
        decreases n - i,
    {
        proof {
            assert(a@.take(i + 1) =~= a@.take(i as int).push(a@[i as int]));
            assert(b@.take(i + 1) =~= b@.take(i as int).push(b@[i as int]));
        }
        i = i + 1;
    }
    proof {
        lemma_key_lt_skip(a@, b@, i as int);
        let x = a@.skip(i as int);
        let y = b@.skip(i as int);
        if i < n && i < m {
            assert(x[0] == a@[i as int] && y[0] == b@[i as int]);
        }
    }
    if i == n {
        i < m
    } else if i == m {
        false
    } else {
        (a.get_char(i) as u32) < (b.get_char(i) as u32)
    }
}

proof fn lemma_attr_index_bounds(s: Seq<(String, AttributeValue)>, k: Seq<char>)
    ensures
        -1 <= attr_index(s, k) < s.len(),
        attr_index(s, k) >= 0 ==> s[attr_index(s, k)].0@ == k,
        attr_index(s, k) < 0 ==> forall|j: int| 0 <= j < s.len() ==> (#[trigger] s[j]).0@ != k,
    decreases s.len(),
{
    if s.len() > 0 {
        lemma_attr_index_bounds(s.drop_first(), k);
        if attr_index(s, k) < 0 {
            assert forall|j: int| 0 <= j < s.len() implies (#[trigger] s[j]).0@ != k by {
                if j > 0 {
                    assert(s[j] == s.drop_first()[j - 1]);
                }
            }
        }
    }
}

/// The first `i` entries hold no key `k` when the scan has passed them.
proof fn lemma_attr_index_prefix(s: Seq<(String, AttributeValue)>, k: Seq<char>, i: int)
    requires
        0 <= i <= s.len(),
        forall|j: int| 0 <= j < i ==> (#[trigger] s[j]).0@ != k,
    ensures
        attr_index(s, k) == (if attr_index(s.skip(i), k) < 0 {
            -1
        } else {
            attr_index(s.skip(i), k) + i
        }),
    decreases i,
{
    if i > 0 {
        assert(s.skip(i) =~= s.drop_first().skip(i - 1));
        assert forall|j: int| 0 <= j < i - 1 implies (#[trigger] s.drop_first()[j]).0@ != k by {
            assert(s.drop_first()[j] == s[j + 1]);
        }
        lemma_attr_index_prefix(s.drop_first(), k, i - 1);
    } else {
        assert(s.skip(0) =~= s);
    }
}

/// Span attributes: a map from string keys to values, kept in key order.
#[derive(Debug)]
pub struct Attributes {
    entries: Vec<(String, AttributeValue)>,
}

impl Attributes {
    #[verifier::type_invariant]
    spec fn in_key_order(&self) -> bool {
        keys_sorted(self.entries@)
    }
}

impl View for Attributes {
    type V = Seq<(String, AttributeValue)>;

    closed spec fn view(&self) -> Seq<(String, AttributeValue)> {
        self.entries@
    }
}

impl Attributes {
    /// No attributes.
    pub fn new() -> (r: Attributes)
        ensures
            r@ == Seq::<(String, AttributeValue)>::empty(),
            keys_sorted(r@),
    {
        Attributes { entries: Vec::new() }
    }

    /// Number of keys.
    pub fn len(&self) -> (r: usize)
        ensures
            r == self@.len(),
            keys_sorted(self@),
    {
        proof {
            use_type_invariant(self);
        }
        self.entries.len()
    }

    /// Position of `key`, if present.
    fn find(&self, key: &str) -> (r: Option<usize>)
        ensures
            attr_index(self@, key@) < 0 ==> r is None,
            attr_index(self@, key@) >= 0 ==> r == Some(attr_index(self@, key@) as usize),
            r matches Some(i) ==> i < self@.len() && i == attr_index(self@, key@),
    {
        proof {
            lemma_attr_index_bounds(self@, key@);
        }
        let mut i: usize = 0;
        while i < self.entries.len()
            invariant
                0 <= i <= self@.len(),
                forall|j: int| 0 <= j < i ==> (#[trigger] self@[j]).0@ != key@,
            decreases self@.len() - i,
        {
            if str_eq(self.entries[i].0.as_str(), key) {
                proof {
                    lemma_attr_index_prefix(self@, key@, i as int);
                    assert(self@.skip(i as int)[0] == self@[i as int]);
                }
                return Some(i);
            }
            i = i + 1;
        }
        proof {
            lemma_attr_index_prefix(self@, key@, i as int);
            assert(self@.skip(i as int) =~= Seq::<(String, AttributeValue)>::empty());
        }
        None
    }

    /// Where `key` belongs in key order.
    fn position(&self, key: &str) -> (r: usize)
        ensures
            r == insert_pos(self@, key@),
    {
        let mut i: usize = 0;
        proof {
            assert(self@.skip(0) =~= self@);
        }
        while i < self.entries.len() && str_lt(self.entries[i].0.as_str(), key)
            invariant
                0 <= i <= self@.len(),
                insert_pos(self@, key@) == i + insert_pos(self@.skip(i as int), key@),
            decreases self@.len() - i,
        {
            proof {
                let t = self@.skip(i as int);
                assert(t[0] == self@[i as int]);
                assert(t.drop_first() =~= self@.skip(i + 1));
            }
            i = i + 1;
        }
        proof {
            let t = self@.skip(i as int);
            if i < self@.len() {
                assert(t[0] == self@[i as int]);
            }
        }
        i
    }

    /// The value stored under `key`.
    pub fn get(&self, key: &str) -> (r: Option<&AttributeValue>)
        ensures
            attr_get(self@, key@) is None ==> r is None,
            attr_get(self@, key@) matches Some(v) ==> (r matches Some(x) && *x == v),
    {
        match self.find(key) {
            Some(i) => {
                assert(attr_get(self@, key@) == Some(self@[i as int].1));
                Some(&self.entries[i].1)
            },
            None => None,
        }
    }

    /// Whether `key` is present.
    pub fn contains_key(&self, key: &str) -> (r: bool)
        ensures
            r == (attr_get(self@, key@) is Some),
    {
        self.find(key).is_some()
    }

    /// Stores `value` under `key`, replacing an earlier value; a new key goes where
    /// it belongs in key order.
    pub fn insert(&mut self, key: String, value: AttributeValue)
        ensures
            final(self)@ == attr_insert(old(self)@, key, value),
            keys_sorted(final(self)@),
    {
        proof {
            use_type_invariant(&*self);
            lemma_attr_insert_sorted(self@, key, value);
            lemma_insert_pos(self@, key@);
        }
        let found = self.find(key.as_str());
        let p = self.position(key.as_str());
        let mut taken = Attributes::new();
        std::mem::swap(self, &mut taken);
        let Attributes { entries: mut entries } = taken;
        match found {
            Some(i) => {
                let k = entries[i].0.clone();
                entries.set(i, (k, value));
            },
            None => {
                entries.insert(p, (key, value));
            },
        }
        assert(entries@ =~= attr_insert(old(self)@, key, value));
        *self = Attributes { entries };
    }

    /// The entry at position `i`, in key order.
    pub fn entry(&self, i: usize) -> (r: (&String, &AttributeValue))
        requires
            i < self@.len(),
        ensures
            *r.0 == self@[i as int].0,
            *r.1 == self@[i as int].1,
    {
        (&self.entries[i].0, &self.entries[i].1)
    }

    /// An equal copy.
    pub fn duplicate(&self) -> (r: Attributes)
        ensures
            r@ == self@,
    {
        let mut out: Vec<(String, AttributeValue)> = Vec::new();
        let mut i: usize = 0;
        while i < self.entries.len()
            invariant
                0 <= i <= self@.len(),
                out@ == self@.take(i as int),
            decreases self@.len() - i,
        {
            let k = self.entries[i].0.clone();
            let v = self.entries[i].1.duplicate();
            out.push((k, v));
            proof {
                assert(self@.take(i + 1) =~= self@.take(i as int).push(self@[i as int]));
            }
            i = i + 1;
        }
        assert(self@.take(i as int) =~= self@);
        proof {
            use_type_invariant(self);
        }
        Attributes { entries: out }
    }
}

impl Clone for Attributes {
    fn clone(&self) -> (r: Attributes) {
        self.duplicate()
    }
}

/// Event within a span.
#[derive(Clone, Debug)]
pub struct SpanEvent {
    pub name: String,
    pub timestamp: Timestamp,
    pub attributes: Attributes,
}

/// What a span event holds.
pub struct SpanEventView {
    pub name: String,
    pub timestamp: Timestamp,
    pub attributes: Seq<(String, AttributeValue)>,
}

impl View for SpanEvent {
    type V = SpanEventView;

    open spec fn view(&self) -> SpanEventView {
        SpanEventView { name: self.name, timestamp: self.timestamp, attributes: self.attributes@ }
    }
}

impl SpanEvent {
    /// An equal copy.
    pub fn duplicate(&self) -> (r: SpanEvent)
        ensures
            r@ == self@,
    {
        SpanEvent {
            name: self.name.clone(),
            timestamp: self.timestamp,
            attributes: self.attributes.duplicate(),
        }
    }
}

/// Span completion status.
#[derive(Clone, Debug)]
pub enum SpanStatus {
    Success,
    Error { message: String },
}

impl SpanStatus {
    /// An equal copy.
    pub fn duplicate(&self) -> (r: SpanStatus)
        ensures
            r == *self,
    {
        match self {
            SpanStatus::Success => SpanStatus::Success,
            SpanStatus::Error { message } => SpanStatus::Error { message: message.clone() },
        }
    }
}

/// A single timed operation in a trace.
#[derive(Clone, Debug)]
pub struct Span {
    pub trace_id: TraceId,
    pub span_id: SpanId,
    pub parent_span_id: Option<SpanId>,
    pub name: String,
    pub start_time: Timestamp,
    pub end_time: Option<Timestamp>,
    pub attributes: Attributes,
    pub events: Vec<SpanEvent>,
    pub status: SpanStatus,
    pub service_name: String,
}

/// What a span holds.
pub struct SpanView {
    pub trace_id: TraceId,
    pub span_id: SpanId,
    pub parent_span_id: Option<SpanId>,
    pub name: String,
    pub start_time: Timestamp,
    pub end_time: Option<Timestamp>,
    pub attributes: Seq<(String, AttributeValue)>,
    pub events: Seq<SpanEventView>,
    pub status: SpanStatus,
    pub service_name: String,
}

/// The views of a sequence of spans.
pub open spec fn span_views(s: Seq<Span>) -> Seq<SpanView> {
    s.map_values(|x: Span| x@)
}

/// The views of a sequence of span events.
pub open spec fn event_views(s: Seq<SpanEvent>) -> Seq<SpanEventView> {
    s.map_values(|x: SpanEvent| x@)
}

impl View for Span {
    type V = SpanView;

    open spec fn view(&self) -> SpanView {
        SpanView {
            trace_id: self.trace_id,
            span_id: self.span_id,
            parent_span_id: self.parent_span_id,
            name: self.name,
            start_time: self.start_time,
            end_time: self.end_time,
            attributes: self.attributes@,
            events: event_views(self.events@),
            status: self.status,
            service_name: self.service_name,
        }
    }
}

/// `end - start` in nanoseconds when the span has ended no earlier than it started;
/// unknown otherwise.
pub open spec fn span_duration(start: Timestamp, end: Option<Timestamp>) -> Option<u64> {
    match end {
        Some(e) => if e.0 >= start.0 {
            Some((e.0 - start.0) as u64)
        } else {
            None
        },
        None => None,
    }
}

/// `end - start`, or nothing when the end is unknown or earlier than the start.
pub fn duration_between(start: Timestamp, end: Option<Timestamp>) -> (r: Option<u64>)
    ensures
        r == span_duration(start, end),
{
    match end {
        Some(e) => if e.0 >= start.0 {
            Some(e.0 - start.0)
        } else {
            None
        },
        None => None,
    }
}

impl Span {
    /// Span duration in nanoseconds; unknown while the span is open, or when the
    /// clock ran backwards between its start and end.
    pub fn duration_nanos(&self) -> (r: Option<u64>)
        ensures
            r == span_duration(self.start_time, self.end_time),
    {
        duration_between(self.start_time, self.end_time)
    }

    /// An equal copy.
    pub fn duplicate(&self) -> (r: Span)
        ensures
            r@ == self@,
    {
        let mut events: Vec<SpanEvent> = Vec::new();
        let mut i: usize = 0;
        while i < self.events.len()
            invariant
                0 <= i <= self.events@.len(),
                event_views(events@) == event_views(self.events@.take(i as int)),
            decreases self.events@.len() - i,
        {
            events.push(self.events[i].duplicate());
            proof {
                assert(event_views(self.events@.take(i + 1)) =~= event_views(
                    self.events@.take(i as int),
                ).push(self.events@[i as int]@));
            }
            i = i + 1;
        }
        proof {
            assert(self.events@.take(i as int) =~= self.events@);
        }
        Span {
            trace_id: self.trace_id,
            span_id: self.span_id,
            parent_span_id: self.parent_span_id,
            name: self.name.clone(),
            start_time: self.start_time,
            end_time: self.end_time,
            attributes: self.attributes.duplicate(),
            events,
            status: self.status.duplicate(),
            service_name: self.service_name.clone(),
        }
    }
}

} // verus!
