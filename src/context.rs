//! W3C trace context: root and child contexts, and the `traceparent` header.
use vstd::prelude::*;
use vstd::string::{StrSliceExecFns, StringExecFns};
use vstd::utf8::{encode_utf8, is_ascii_chars, is_ascii_chars_encode_utf8};
use crate::ids::{
    parse_fixed_hex, bytes_of_hex, hex_of, is_hex_char, is_hex_text, SpanId, TraceContextError, TraceId,
};

verus! {

/// The fields of `s` between the `sep` separators (one more field than separators).
#[verifier::opaque]
pub open spec fn split_fields(s: Seq<char>, sep: char) -> Seq<Seq<char>>
    decreases s.len(),
{
    if s.len() == 0 {
        seq![Seq::<char>::empty()]
    } else {
        let init = split_fields(s.drop_last(), sep);
        if s.last() == sep {
            init.push(Seq::<char>::empty())
        } else {
            init.update(init.len() - 1, init.last().push(s.last()))
        }
    }
}

/// What parsing an identifier field of `n` hex digits reports, if it fails.
pub open spec fn hex_field_error(t: Seq<char>, n: nat) -> Option<TraceContextError> {
    if encode_utf8(t).len() != n {
        Some(TraceContextError::InvalidLength)
    } else if !is_hex_text(t, n) {
        Some(TraceContextError::InvalidHex)
    } else {
        None
    }
}

/// What a `traceparent` header holds: trace id bytes, span id bytes and flags.
pub open spec fn traceparent_result(h: Seq<char>) -> Result<
    (Seq<u8>, Seq<u8>, u8),
    TraceContextError,
> {
    let f = split_fields(h, '-');
    if f.len() != 4 {
        Err(TraceContextError::InvalidFormat)
    } else if f[0] != seq!['0', '0'] {
        Err(TraceContextError::UnsupportedVersion)
    } else if hex_field_error(f[1], 32) is Some {
        Err(hex_field_error(f[1], 32).unwrap())
    } else if hex_field_error(f[2], 16) is Some {
        Err(hex_field_error(f[2], 16).unwrap())
    } else if !is_hex_text(f[3], 2) {
        Err(TraceContextError::InvalidHex)
    } else {
        Ok((bytes_of_hex(f[1]), bytes_of_hex(f[2]), bytes_of_hex(f[3])[0]))
    }
}

/// The `traceparent` header of a context: `00-<trace hex>-<span hex>-<flags hex>`.
pub open spec fn traceparent_text(c: TraceContext) -> Seq<char> {
    seq!['0', '0', '-'] + hex_of(c.trace_id.0@) + seq!['-'] + hex_of(c.span_id.0@) + seq!['-']
        + hex_of(seq![c.flags])
}

/// `split_fields` always yields at least one field.
proof fn lemma_split_nonempty(s: Seq<char>, sep: char)
    ensures
        split_fields(s, sep).len() >= 1,
    decreases s.len(),
{
    reveal(split_fields);
    if s.len() > 0 {
        lemma_split_nonempty(s.drop_last(), sep);
    }
}

/// Appending text without separators extends the last field.
proof fn lemma_split_append_plain(s: Seq<char>, y: Seq<char>)
    requires
        forall|i: int| 0 <= i < y.len() ==> y[i] != '-',
    ensures
        split_fields(s + y, '-') == split_fields(s, '-').update(
            split_fields(s, '-').len() - 1,
            split_fields(s, '-').last() + y,
        ),
    decreases y.len(),
{
    reveal(split_fields);
    lemma_split_nonempty(s, '-');
    if y.len() == 0 {
        assert(s + y =~= s);
        assert(split_fields(s, '-').last() + y =~= split_fields(s, '-').last());
        assert(split_fields(s, '-').update(split_fields(s, '-').len() - 1, split_fields(s, '-').last())
            =~= split_fields(s, '-'));
    } else {
        let y0 = y.drop_last();
        lemma_split_append_plain(s, y0);
        assert((s + y).drop_last() =~= s + y0);
        assert((s + y).last() == y.last());
        assert(split_fields(s, '-').last() + y0 + seq![y.last()] =~= split_fields(s, '-').last() + y);
        lemma_split_nonempty(s + y0, '-');
        let sf = split_fields(s, '-');
        let l = sf.len() - 1;
        let init = split_fields(s + y0, '-');
        assert(init.len() == sf.len());
        assert(init.last() == sf.last() + y0);
        assert(split_fields(s + y, '-') == init.update(l, init.last().push(y.last())));
        assert(init.last().push(y.last()) =~= sf.last() + y);
        assert(split_fields(s + y, '-') =~= split_fields(s, '-').update(
            split_fields(s, '-').len() - 1,
            split_fields(s, '-').last() + y,
        ));
    }
}

/// A separator followed by text without separators adds that text as a new field.
proof fn lemma_split_new_field(s: Seq<char>, y: Seq<char>)
    requires
        forall|i: int| 0 <= i < y.len() ==> y[i] != '-',
    ensures
        split_fields(s + seq!['-'] + y, '-') == split_fields(s, '-').push(y),
{
    reveal(split_fields);
    let t = s + seq!['-'];
    assert(t.drop_last() =~= s);
    assert(split_fields(t, '-') == split_fields(s, '-').push(Seq::<char>::empty()));
    lemma_split_append_plain(t, y);
    assert(Seq::<char>::empty() + y =~= y);
    assert(split_fields(t + y, '-') =~= split_fields(s, '-').push(y));
}

/// Hex text holds hex digits only, all of them ASCII.
proof fn lemma_hex_of_digits(b: Seq<u8>)
    ensures
        is_hex_text(hex_of(b), 2 * b.len()),
        forall|i: int| 0 <= i < hex_of(b).len() ==> #[trigger] hex_of(b)[i] != '-',
        is_ascii_chars(hex_of(b)),
        encode_utf8(hex_of(b)).len() == 2 * b.len(),
        bytes_of_hex(hex_of(b)) == b,
{
    let h = hex_of(b);
    assert forall|i: int| 0 <= i < h.len() implies is_hex_char(#[trigger] h[i]) && h[i] != '-'
        && '\0' <= h[i] <= '\u{7f}' by {
        let v = b[i / 2] as int;
        assert(0 <= v / 16 < 16 && 0 <= v % 16 < 16);
    }
    is_ascii_chars_encode_utf8(h);
    assert forall|k: int| 0 <= k < b.len() implies #[trigger] bytes_of_hex(h)[k] == b[k] by {
        let v = b[k] as int;
        assert(h[2 * k] == crate::ids::hex_digit(v / 16));
        assert(h[2 * k + 1] == crate::ids::hex_digit(v % 16));
        assert((v / 16) * 16 + v % 16 == v);
    }
    assert(bytes_of_hex(h) =~= b);
}

/// Formatting a context as a `traceparent` header and parsing the header gives back
/// its trace id, span id and flags.
#[verifier::rlimit(40)]
pub proof fn lemma_traceparent_round_trip(c: TraceContext)
    ensures
        traceparent_result(traceparent_text(c)) == Ok::<_, TraceContextError>(
            (c.trace_id.0@, c.span_id.0@, c.flags),
        ),
{
    let a = seq!['0', '0'];
    let b = hex_of(c.trace_id.0@);
    let d = hex_of(c.span_id.0@);
    let f = hex_of(seq![c.flags]);
    lemma_hex_of_digits(c.trace_id.0@);
    lemma_hex_of_digits(c.span_id.0@);
    lemma_hex_of_digits(seq![c.flags]);
    assert(Seq::<char>::empty() + a =~= a);
    assert(split_fields(Seq::<char>::empty(), '-') == seq![Seq::<char>::empty()]) by {
        reveal(split_fields);
    }
    lemma_split_append_plain(Seq::<char>::empty(), a);
    assert(split_fields(a, '-') =~= seq![a]);
    lemma_split_new_field(a, b);
    let ab = a + seq!['-'] + b;
    lemma_split_new_field(ab, d);
    let abd = ab + seq!['-'] + d;
    lemma_split_new_field(abd, f);
    let t = abd + seq!['-'] + f;
    assert(t =~= traceparent_text(c));
    let fields = split_fields(t, '-');
    assert(fields =~= seq![a, b, d, f]);
    assert(fields.len() == 4);
    assert(fields[0] == seq!['0', '0']);
    assert(hex_field_error(fields[1], 32) is None);
    assert(hex_field_error(fields[2], 16) is None);
    assert(is_hex_text(fields[3], 2));
    assert(bytes_of_hex(f)[0] == c.flags);
}

/// Splits `s` at every `sep`.
pub fn split_on(s: &str, sep: char) -> (r: Vec<&str>)
    ensures
        r@.len() == split_fields(s@, sep).len(),
        forall|j: int| 0 <= j < r@.len() ==> (#[trigger] r@[j])@ == split_fields(s@, sep)[j],
{
    proof {
        reveal(split_fields);
    }
    let n = s.unicode_len();
    let mut parts: Vec<&str> = Vec::new();
    let mut start: usize = 0;
    let mut i: usize = 0;
    proof {
        assert(s@.take(0) =~= Seq::<char>::empty());
    }
    while i < n
        invariant
            n == s@.len(),
            0 <= start <= i <= n,
            parts@.len() + 1 == split_fields(s@.take(i as int), sep).len(),
            forall|j: int|
                0 <= j < parts@.len() ==> (#[trigger] parts@[j])@ == split_fields(
                    s@.take(i as int),
                    sep,
                )[j],
            split_fields(s@.take(i as int), sep).last() == s@.subrange(start as int, i as int),
        decreases n - i,
    {
        let c = s.get_char(i);
        proof {
            reveal(split_fields);
            let t = s@.take(i + 1);
            assert(t.drop_last() =~= s@.take(i as int));
            assert(t.last() == c);
            lemma_split_nonempty(s@.take(i as int), sep);
        }
        if c == sep {
            parts.push(s.substring_char(start, i));
            start = i + 1;
            proof {
                assert(s@.subrange(start as int, (i + 1) as int) =~= Seq::<char>::empty());
            }
        } else {
            proof {
                assert(s@.subrange(start as int, (i + 1) as int) =~= s@.subrange(
                    start as int,
                    i as int,
                ).push(c));
            }
        }
        i = i + 1;
    }
    proof {
        assert(s@.take(n as int) =~= s@);
    }
    parts.push(s.substring_char(start, n));
    parts
}

/// Whether `s` is exactly `00`.
fn is_version_00(s: &str) -> (r: bool)
    ensures
        r == (s@ == seq!['0', '0']),
{
    if s.unicode_len() != 2 {
        return false;
    }
    let a = s.get_char(0);
    let b = s.get_char(1);
    if a == '0' && b == '0' {
        assert(s@ =~= seq!['0', '0']);
        true
    } else {
        false
    }
}

/// Trace context propagated across process boundaries.
#[derive(Clone, Copy, Debug)]
pub struct TraceContext {
    pub trace_id: TraceId,
    pub span_id: SpanId,
    pub parent_span_id: Option<SpanId>,
    pub flags: u8,
}

impl TraceContext {
    /// A root context with the given identifiers: no parent, sampled.
    pub fn root_with(trace_id: TraceId, span_id: SpanId) -> (r: TraceContext)
        ensures
            r.trace_id == trace_id,
            r.span_id == span_id,
            r.parent_span_id is None,
            r.flags == 1,
    {
        TraceContext { trace_id, span_id, parent_span_id: None, flags: 0x01 }
    }

    /// A new root context with random identifiers.
    pub fn new_root() -> (r: Result<TraceContext, TraceContextError>)
        ensures
            r is Err ==> r == Err::<TraceContext, _>(TraceContextError::RandomUnavailable),
            r matches Ok(c) ==> c.parent_span_id is None && c.flags == 1,
    {
        let trace_id = match TraceId::new() {
            Ok(t) => t,
            Err(e) => return Err(e),
        };
        let span_id = match SpanId::new() {
            Ok(s) => s,
            Err(e) => return Err(e),
        };
        Ok(TraceContext::root_with(trace_id, span_id))
    }

    /// The context of a child span with the given span id, in the same trace.
    pub fn child_with(&self, span_id: SpanId) -> (r: TraceContext)
        ensures
            r.trace_id == self.trace_id,
            r.span_id == span_id,
            r.parent_span_id == Some(self.span_id),
            r.flags == self.flags,
    {
        TraceContext {
            trace_id: self.trace_id,
            span_id,
            parent_span_id: Some(self.span_id),
            flags: self.flags,
        }
    }

    /// The context of a child span with a random span id, in the same trace.
    pub fn child(&self) -> (r: Result<TraceContext, TraceContextError>)
        ensures
            r is Err ==> r == Err::<TraceContext, _>(TraceContextError::RandomUnavailable),
            r matches Ok(c) ==> c.trace_id == self.trace_id && c.parent_span_id == Some(
                self.span_id,
            ) && c.flags == self.flags,
    {
        match SpanId::new() {
            Ok(s) => Ok(self.child_with(s)),
            Err(e) => Err(e),
        }
    }

    /// Parses a `traceparent` header: `00-<32 hex>-<16 hex>-<2 hex>`.
    /// The parent slot of the result is always empty.
    pub fn from_traceparent(header: &str) -> (r: Result<TraceContext, TraceContextError>)
        ensures
            match traceparent_result(header@) {
                Ok((t, sp, f)) => r matches Ok(c) && c.trace_id.0@ == t && c.span_id.0@ == sp
                    && c.flags == f && c.parent_span_id is None,
                Err(e) => r == Err::<TraceContext, _>(e),
            },
    {
        let parts = split_on(header, '-');
        if parts.len() != 4 {
            return Err(TraceContextError::InvalidFormat);
        }
        if !is_version_00(parts[0]) {
            return Err(TraceContextError::UnsupportedVersion);
        }
        let trace_id = match TraceId::from_hex(parts[1]) {
            Ok(t) => t,
            Err(e) => return Err(e),
        };
        let span_id = match SpanId::from_hex(parts[2]) {
            Ok(s) => s,
            Err(e) => return Err(e),
        };
        let flags = match parse_fixed_hex::<1>(parts[3]) {
            Ok(b) => b[0],
            Err(_) => return Err(TraceContextError::InvalidHex),
        };
        Ok(TraceContext { trace_id, span_id, parent_span_id: None, flags })
    }

    /// Formats the `traceparent` header of this context.
    pub fn to_traceparent(&self) -> (r: String)
        ensures
            r@ == traceparent_text(*self),
    {
        let flag_bytes: [u8; 1] = [self.flags];
        let flags = crate::ids::encode_hex(flag_bytes.as_slice());
        let mut out = String::from_str("00-");
        out.append(self.trace_id.to_hex().as_str());
        out.append("-");
        out.append(self.span_id.to_hex().as_str());
        out.append("-");
        out.append(flags.as_str());
        proof {
            reveal_strlit("00-");
            reveal_strlit("-");
            assert(flag_bytes@ =~= seq![self.flags]);
            assert(out@ =~= traceparent_text(*self));
        }
        out
    }
}

} // verus!
