use hindsight::context::TraceContext;
use hindsight::ids::{SpanId, TraceContextError, TraceId};

#[test]
fn trace_id_hex_round_trip_lowercases() {
    let id = TraceId::from_hex("0AF7651916CD43DD8448EB211C80319C").unwrap();
    assert_eq!(id.to_hex(), "0af7651916cd43dd8448eb211c80319c");
    assert_eq!(id.0[0], 0x0a);
    assert_eq!(id.0[15], 0x9c);
}

#[test]
fn span_id_hex_round_trip() {
    let id = SpanId::from_hex("b7ad6b7169203331").unwrap();
    assert_eq!(id.0, [0xb7, 0xad, 0x6b, 0x71, 0x69, 0x20, 0x33, 0x31]);
    assert_eq!(id.to_hex(), "b7ad6b7169203331");
}

#[test]
fn hex_is_zero_padded() {
    let id = SpanId([0, 1, 2, 3, 4, 5, 6, 15]);
    assert_eq!(id.to_hex(), "000102030405060f");
    let t = TraceId([0u8; 16]);
    assert_eq!(t.to_hex(), "00000000000000000000000000000000");
}

#[test]
fn from_hex_rejects_wrong_length() {
    assert_eq!(TraceId::from_hex("abc"), Err(TraceContextError::InvalidLength));
    assert_eq!(SpanId::from_hex("0af7651916cd43dd8448eb211c80319c"), Err(TraceContextError::InvalidLength));
    assert_eq!(SpanId::from_hex(""), Err(TraceContextError::InvalidLength));
}

#[test]
fn from_hex_rejects_non_hex() {
    assert_eq!(SpanId::from_hex("b7ad6b716920333g"), Err(TraceContextError::InvalidHex));
    assert_eq!(TraceId::from_hex("0af7651916cd43dd8448eb211c80319-"), Err(TraceContextError::InvalidHex));
}

#[test]
fn from_hex_counts_bytes_not_chars() {
    // 15 two-byte characters plus two ASCII digits: 32 bytes, not hex.
    let s = "éééééééééééééééab";
    assert_eq!(s.len(), 32);
    assert_eq!(TraceId::from_hex(s), Err(TraceContextError::InvalidHex));
}

#[test]
fn random_ids_differ() {
    let a = TraceId::new().unwrap();
    let b = TraceId::new().unwrap();
    assert_ne!(a, b);
    let c = SpanId::new().unwrap();
    let d = SpanId::new().unwrap();
    assert_ne!(c, d);
}

#[test]
fn traceparent_format() {
    let c = TraceContext::root_with(
        TraceId::from_hex("0af7651916cd43dd8448eb211c80319c").unwrap(),
        SpanId::from_hex("b7ad6b7169203331").unwrap(),
    );
    assert_eq!(c.flags, 1);
    assert!(c.parent_span_id.is_none());
    assert_eq!(c.to_traceparent(), "00-0af7651916cd43dd8448eb211c80319c-b7ad6b7169203331-01");
}

#[test]
fn traceparent_round_trip() {
    let root = TraceContext::new_root().unwrap();
    let child = root.child().unwrap();
    let header = child.to_traceparent();
    let parsed = TraceContext::from_traceparent(&header).unwrap();
    assert_eq!(parsed.trace_id, child.trace_id);
    assert_eq!(parsed.span_id, child.span_id);
    assert_eq!(parsed.flags, child.flags);
    assert!(parsed.parent_span_id.is_none());
}

#[test]
fn traceparent_flags_two_digits() {
    let mut c = TraceContext::root_with(TraceId([7u8; 16]), SpanId([9u8; 8]));
    c.flags = 0xab;
    let h = c.to_traceparent();
    assert!(h.ends_with("-ab"));
    let p = TraceContext::from_traceparent(&h).unwrap();
    assert_eq!(p.flags, 0xab);
    let upper = TraceContext::from_traceparent("00-0AF7651916CD43DD8448EB211C80319C-B7AD6B7169203331-0F").unwrap();
    assert_eq!(upper.flags, 0x0f);
    assert_eq!(upper.trace_id.to_hex(), "0af7651916cd43dd8448eb211c80319c");
}

#[test]
fn traceparent_errors() {
    assert_eq!(TraceContext::from_traceparent("00-abc").unwrap_err(), TraceContextError::InvalidFormat);
    assert_eq!(
        TraceContext::from_traceparent("00-0af7651916cd43dd8448eb211c80319c-b7ad6b7169203331-01-02").unwrap_err(),
        TraceContextError::InvalidFormat
    );
    assert_eq!(
        TraceContext::from_traceparent("01-0af7651916cd43dd8448eb211c80319c-b7ad6b7169203331-01").unwrap_err(),
        TraceContextError::UnsupportedVersion
    );
    assert_eq!(
        TraceContext::from_traceparent("00-0af7651916cd43dd-b7ad6b7169203331-01").unwrap_err(),
        TraceContextError::InvalidLength
    );
    assert_eq!(
        TraceContext::from_traceparent("00-0af7651916cd43dd8448eb211c80319c-b7ad6b716920333z-01").unwrap_err(),
        TraceContextError::InvalidHex
    );
    assert_eq!(
        TraceContext::from_traceparent("00-0af7651916cd43dd8448eb211c80319c-b7ad6b7169203331-1").unwrap_err(),
        TraceContextError::InvalidHex
    );
    assert_eq!(
        TraceContext::from_traceparent("00-0af7651916cd43dd8448eb211c80319c-b7ad6b7169203331-xy").unwrap_err(),
        TraceContextError::InvalidHex
    );
}

#[test]
fn child_context_keeps_trace() {
    let mut root = TraceContext::root_with(TraceId([1u8; 16]), SpanId([2u8; 8]));
    root.flags = 0;
    let child = root.child_with(SpanId([3u8; 8]));
    assert_eq!(child.trace_id, root.trace_id);
    assert_eq!(child.parent_span_id, Some(root.span_id));
    assert_eq!(child.span_id, SpanId([3u8; 8]));
    assert_eq!(child.flags, 0);
}

#[test]
fn error_messages() {
    assert_eq!(TraceContextError::InvalidHex.message(), "invalid hex encoding");
    assert_eq!(TraceContextError::InvalidFormat.message(), "invalid traceparent format");
}
