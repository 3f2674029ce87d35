use hindsight::ids::TraceId;
use hindsight::navigation::{HindsightLink, TabId};
use hindsight::routing::Route;

#[test]
fn tab_labels_and_routes() {
    assert_eq!(TabId::Traces.label(), "Traces");
    assert_eq!(TabId::Services.label(), "Services");
    assert_eq!(TabId::Rapace.default_route(), Route::RapaceTopology);
    assert_eq!(TabId::Picante.default_route(), Route::TraceList);
    let t = TraceId([3u8; 16]);
    assert_eq!(TabId::from_route(&Route::TraceDetail { trace_id: t }), TabId::Traces);
    assert_eq!(TabId::from_route(&Route::PicanteGraph { trace_id: t }), TabId::Picante);
    assert_eq!(TabId::from_route(&Route::Services), TabId::Services);
}

#[test]
fn link_hashes() {
    let t = TraceId::from_hex("0123456789abcdef0123456789abcdef").unwrap();
    let node = HindsightLink::PicanteNode { trace_id: t, node_span_id: "n1".to_string() };
    assert_eq!(node.to_hash(), "#traces/0123456789abcdef0123456789abcdef/spans/n1");
    assert_eq!(HindsightLink::RapaceSession { session_id: 7 }.to_hash(), "#rapace");
    assert_eq!(HindsightLink::Trace { trace_id: t }.to_hash(), "#traces/0123456789abcdef0123456789abcdef");
    assert_eq!(HindsightLink::Services.to_hash(), "#services");
}
