//! Trace and span identifiers, their lowercase hex codec, and random generation.
use vstd::prelude::*;
use vstd::string::{StrSliceExecFns, StringExecFns, StringSliceAdditionalSpecFns};

verus! {

/// An ASCII hex digit, either case.
pub open spec fn is_hex_char(c: char) -> bool {
    ('0' <= c && c <= '9') || ('a' <= c && c <= 'f') || ('A' <= c && c <= 'F')
}

/// The value of a hex digit.
pub open spec fn hex_char_value(c: char) -> int {
    let u = c as u32;
    if 48 <= u && u <= 57 {
        u - 48
    } else if 97 <= u && u <= 102 {
        u - 87
    } else {
        u - 55
    }
}

/// The lowercase hex digit for a value below 16.
pub open spec fn hex_digit(v: int) -> char {
    if v < 10 {
        (v + 48) as char
    } else {
        (v + 87) as char
    }
}

/// Lowercases the letters `A`..`F` and leaves every other character alone.
pub open spec fn lower_hex_char(c: char) -> char {
    let u = c as u32;
    if 65 <= u && u <= 70 {
        (u + 32) as char
    } else {
        c
    }
}

/// `t` with its hex letters lowercased.
pub open spec fn lower_hex_text(t: Seq<char>) -> Seq<char> {
    t.map_values(|c: char| lower_hex_char(c))
}

/// `t` is exactly `n` hex digits.
pub open spec fn is_hex_text(t: Seq<char>, n: nat) -> bool {
    t.len() == n && forall|i: int| 0 <= i < t.len() ==> is_hex_char(#[trigger] t[i])
}

/// Lowercase, zero-padded hex of a byte string: two digits per byte, high digit first.
pub open spec fn hex_of(b: Seq<u8>) -> Seq<char> {
    Seq::new(
        2 * b.len(),
        |i: int|
            if i % 2 == 0 {
                hex_digit(b[i / 2] as int / 16)
            } else {
                hex_digit(b[i / 2] as int % 16)
            },
    )
}

/// The bytes that a string of hex digits spells, one per pair of digits.
pub open spec fn bytes_of_hex(t: Seq<char>) -> Seq<u8> {
    Seq::new(
        t.len() / 2,
        |i: int| (hex_char_value(t[2 * i]) * 16 + hex_char_value(t[2 * i + 1])) as u8,
    )
}

/// Errors of the identifier and trace-context codecs.
#[derive(Clone, Copy, Debug, PartialEq, Eq, Structural)]
pub enum TraceContextError {
    InvalidFormat,
    UnsupportedVersion,
    InvalidHex,
    InvalidLength,
    /// The operating system's random source could not be read.
    RandomUnavailable,
}

impl TraceContextError {
    /// A short human-readable description of the error.
    pub fn message(&self) -> (r: String)
        ensures
            r@ == match self {
                TraceContextError::InvalidFormat => "invalid traceparent format"@,
                TraceContextError::UnsupportedVersion => "unsupported trace context version"@,
                TraceContextError::InvalidHex => "invalid hex encoding"@,
                TraceContextError::InvalidLength => "invalid length"@,
                TraceContextError::RandomUnavailable => "random source unavailable"@,
            },
    {
        let s = match self {
            TraceContextError::InvalidFormat => "invalid traceparent format",
            TraceContextError::UnsupportedVersion => "unsupported trace context version",
            TraceContextError::InvalidHex => "invalid hex encoding",
            TraceContextError::InvalidLength => "invalid length",
            TraceContextError::RandomUnavailable => "random source unavailable",
        };
        String::from_str(s)
    }
}

/// Relies on hex::encode: two lowercase digits per byte, high digit first.
#[verifier::external_body]
pub(crate) fn encode_hex(b: &[u8]) -> (r: String)
    ensures
        r@ == hex_of(b@),
{
    hex::encode(b)
}

/// Relies on hex::decode: on ASCII text, an even number of hex digits (either case)
/// decodes to one byte per pair, high digit first; any other text is refused.
#[verifier::external_body]
fn decode_hex(s: &str) -> (r: Option<Vec<u8>>)
    requires
        s.is_ascii(),
    ensures
        r is Some <==> (s@.len() % 2 == 0 && forall|i: int|
            0 <= i < s@.len() ==> is_hex_char(#[trigger] s@[i])),
        r is Some ==> r.unwrap()@ == bytes_of_hex(s@),
{
    hex::decode(s).ok()
}

/// Relies on getrandom::getrandom: fills a buffer of `n` bytes from the operating
/// system's random source, or reports that the source could not be read.
#[verifier::external_body]
fn random_bytes(n: usize) -> (r: Option<Vec<u8>>)
    ensures
        r is Some ==> r.unwrap()@.len() == n,
{
    let mut buf = vec![0u8; n];
    match getrandom::getrandom(&mut buf) {
        Ok(()) => Some(buf),
        Err(_) => None,
    }
}

/// Copies a vector of exactly `N` bytes into an array.
fn array_from_vec<const N: usize>(v: &Vec<u8>) -> (r: [u8; N])
    requires
        v@.len() == N,
    ensures
        r@ == v@,
{
    let mut out = [0u8; N];
    let mut i: usize = 0;
    while i < N
        invariant
            v@.len() == N,
            0 <= i <= N,
            forall|j: int| 0 <= j < i ==> out@[j] == v@[j],
        decreases N - i,
    {
        out[i] = v[i];
        i = i + 1;
    }
    assert(out@ =~= v@);
    out
}

/// Draws `N` random bytes.
fn random_array<const N: usize>() -> (r: Result<[u8; N], TraceContextError>)
    ensures
        r is Err ==> r == Err::<[u8; N], _>(TraceContextError::RandomUnavailable),
{
    match random_bytes(N) {
        Some(v) => Ok(array_from_vec(&v)),
        None => Err(TraceContextError::RandomUnavailable),
    }
}

/// Compares two byte arrays element by element.
fn same_bytes<const N: usize>(a: &[u8; N], b: &[u8; N]) -> (r: bool)
    ensures
        r == (a@ == b@),
{
    let mut i: usize = 0;
    while i < N
        invariant
            0 <= i <= N,
            a@.len() == N,
            b@.len() == N,
            forall|j: int| 0 <= j < i ==> a@[j] == b@[j],
        decreases N - i,
    {
        if a[i] != b[i] {
            return false;
        }
        i = i + 1;
    }
    assert(a@ =~= b@);
    true
}

/// Parses exactly `N` bytes written as `2 * N` hex digits.
pub(crate) fn parse_fixed_hex<const N: usize>(s: &str) -> (r: Result<[u8; N], TraceContextError>)
    requires
        N <= 64,
    ensures
        s.spec_bytes().len() != 2 * N ==> r == Err::<[u8; N], _>(TraceContextError::InvalidLength),
        s.spec_bytes().len() == 2 * N && !is_hex_text(s@, (2 * N) as nat) ==> r == Err::<
            [u8; N],
            _,
        >(TraceContextError::InvalidHex),
        is_hex_text(s@, (2 * N) as nat) ==> (r matches Ok(b) && b@ == bytes_of_hex(s@)),
{
    proof {
        if is_hex_text(s@, (2 * N) as nat) {
            assert forall|i: int| 0 <= i < s@.len() implies '\0' <= #[trigger] s@[i] <= '\u{7f}' by {
                assert(is_hex_char(s@[i]));
            }
            assert(vstd::string::is_ascii(s));
            vstd::utf8::is_ascii_chars_encode_utf8(s@);
        }
    }
    if s.as_bytes().len() != 2 * N {
        return Err(TraceContextError::InvalidLength);
    }
    if !s.is_ascii() {
        return Err(TraceContextError::InvalidHex);
    }
    proof {
        vstd::utf8::is_ascii_chars_encode_utf8(s@);
        assert(s@.len() == 2 * N);
        assert((2 * N) / 2 == N as int);
    }
    match decode_hex(s) {
        None => Err(TraceContextError::InvalidHex),
        Some(v) => Ok(array_from_vec(&v)),
    }
}

/// 16-byte trace identifier (128 bits).
#[derive(Clone, Copy, Debug, Eq, Hash)]
pub struct TraceId(pub [u8; 16]);

impl PartialEq for TraceId {
    fn eq(&self, other: &TraceId) -> (r: bool) {
        same_bytes(&self.0, &other.0)
    }
}

impl vstd::std_specs::cmp::PartialEqSpecImpl for TraceId {
    open spec fn obeys_eq_spec() -> bool {
        true
    }

    open spec fn eq_spec(&self, other: &TraceId) -> bool {
        self.0@ == other.0@
    }
}

impl TraceId {
    /// A fresh identifier drawn from the operating system's random source.
    pub fn new() -> (r: Result<TraceId, TraceContextError>)
        ensures
            r is Err ==> r == Err::<TraceId, _>(TraceContextError::RandomUnavailable),
    {
        match random_array::<16>() {
            Ok(b) => Ok(TraceId(b)),
            Err(e) => Err(e),
        }
    }

    /// Parses 32 hex digits (either case).
    pub fn from_hex(s: &str) -> (r: Result<TraceId, TraceContextError>)
        ensures
            s.spec_bytes().len() != 32 ==> r == Err::<TraceId, _>(TraceContextError::InvalidLength),
            s.spec_bytes().len() == 32 && !is_hex_text(s@, 32) ==> r == Err::<TraceId, _>(
                TraceContextError::InvalidHex,
            ),
            is_hex_text(s@, 32) ==> (r matches Ok(id) && id.0@ == bytes_of_hex(s@)),
    {
        match parse_fixed_hex::<16>(s) {
            Ok(b) => Ok(TraceId(b)),
            Err(e) => Err(e),
        }
    }

    /// Lowercase, zero-padded hex: 32 digits.
    pub fn to_hex(&self) -> (r: String)
        ensures
            r@ == hex_of(self.0@),
            r@.len() == 32,
    {
        encode_hex(self.0.as_slice())
    }
}

/// 8-byte span identifier (64 bits).
#[derive(Clone, Copy, Debug, Eq, Hash)]
pub struct SpanId(pub [u8; 8]);

impl PartialEq for SpanId {
    fn eq(&self, other: &SpanId) -> (r: bool) {
        same_bytes(&self.0, &other.0)
    }
}

impl vstd::std_specs::cmp::PartialEqSpecImpl for SpanId {
    open spec fn obeys_eq_spec() -> bool {
        true
    }

    open spec fn eq_spec(&self, other: &SpanId) -> bool {
        self.0@ == other.0@
    }
}

impl SpanId {
    /// A fresh identifier drawn from the operating system's random source.
    pub fn new() -> (r: Result<SpanId, TraceContextError>)
        ensures
            r is Err ==> r == Err::<SpanId, _>(TraceContextError::RandomUnavailable),
    {
        match random_array::<8>() {
            Ok(b) => Ok(SpanId(b)),
            Err(e) => Err(e),
        }
    }

    /// Parses 16 hex digits (either case).
    pub fn from_hex(s: &str) -> (r: Result<SpanId, TraceContextError>)
        ensures
            s.spec_bytes().len() != 16 ==> r == Err::<SpanId, _>(TraceContextError::InvalidLength),
            s.spec_bytes().len() == 16 && !is_hex_text(s@, 16) ==> r == Err::<SpanId, _>(
                TraceContextError::InvalidHex,
            ),
            is_hex_text(s@, 16) ==> (r matches Ok(id) && id.0@ == bytes_of_hex(s@)),
    {
        match parse_fixed_hex::<8>(s) {
            Ok(b) => Ok(SpanId(b)),
            Err(e) => Err(e),
        }
    }

    /// Lowercase, zero-padded hex: 16 digits.
    pub fn to_hex(&self) -> (r: String)
        ensures
            r@ == hex_of(self.0@),
            r@.len() == 16,
    {
        encode_hex(self.0.as_slice())
    }
}

/// Trace ids are equal exactly when their bytes are.
pub proof fn lemma_trace_id_eq(a: TraceId, b: TraceId)
    ensures
        (a.0@ == b.0@) == (a == b),
{
    if a.0@ == b.0@ {
        assert(a.0 =~= b.0);
    }
}

/// Span ids are equal exactly when their bytes are.
pub proof fn lemma_span_id_eq(a: SpanId, b: SpanId)
    ensures
        (a.0@ == b.0@) == (a == b),
{
    if a.0@ == b.0@ {
        assert(a.0 =~= b.0);
    }
}

/// One hex digit, re-encoded from its value, is the digit lowercased.
proof fn lemma_hex_digit_of_value(c: char)
    requires
        is_hex_char(c),
    ensures
        hex_digit(hex_char_value(c)) == lower_hex_char(c),
        0 <= hex_char_value(c) < 16,
{
}

/// Decoding a string of hex digits and encoding the bytes again gives back the
/// digits, lowercased: for 32 digits this is a trace id, for 16 a span id.
pub proof fn lemma_hex_round_trip(t: Seq<char>)
    requires
        t.len() % 2 == 0,
        forall|i: int| 0 <= i < t.len() ==> is_hex_char(#[trigger] t[i]),
    ensures
        hex_of(bytes_of_hex(t)) == lower_hex_text(t),
{
    let b = bytes_of_hex(t);
    assert forall|i: int| 0 <= i < t.len() implies #[trigger] hex_of(b)[i] == lower_hex_text(t)[i] by {
        let k = i / 2;
        let hi = hex_char_value(t[2 * k]);
        let lo = hex_char_value(t[2 * k + 1]);
        lemma_hex_digit_of_value(t[2 * k]);
        lemma_hex_digit_of_value(t[2 * k + 1]);
        assert(b[k] as int == hi * 16 + lo);
        assert((hi * 16 + lo) / 16 == hi && (hi * 16 + lo) % 16 == lo) by (nonlinear_arith)
            requires
                0 <= hi < 16,
                0 <= lo < 16,
        ;
    }
    assert(hex_of(b) =~= lower_hex_text(t));
}

} // verus!
