use hindsight::ids::TraceId;
use hindsight::routing::Route;

#[test]
fn test_route_to_hash() {
    let trace_id = TraceId::from_hex("0123456789abcdef0123456789abcdef").unwrap();

    assert_eq!(Route::TraceList.to_hash(), "");
    assert_eq!(
        Route::TraceDetail {
            trace_id: trace_id.clone()
        }
        .to_hash(),
        "traces/0123456789abcdef0123456789abcdef"
    );
    assert_eq!(
        Route::TraceDetailSpan {
            trace_id: trace_id.clone(),
            span_id: "span123".to_string()
        }
        .to_hash(),
        "traces/0123456789abcdef0123456789abcdef/spans/span123"
    );
    assert_eq!(
        Route::PicanteGraph {
            trace_id: trace_id.clone()
        }
        .to_hash(),
        "picante/0123456789abcdef0123456789abcdef"
    );
    assert_eq!(Route::RapaceTopology.to_hash(), "rapace");
    assert_eq!(Route::Services.to_hash(), "services");
}

#[test]
fn test_route_from_hash() {
    let trace_id = TraceId::from_hex("0123456789abcdef0123456789abcdef").unwrap();

    assert_eq!(Route::from_hash(""), Route::TraceList);
    assert_eq!(Route::from_hash("#"), Route::TraceList);
    assert_eq!(Route::from_hash("traces"), Route::TraceList);
    assert_eq!(
        Route::from_hash("traces/0123456789abcdef0123456789abcdef"),
        Route::TraceDetail {
            trace_id: trace_id.clone()
        }
    );
    assert_eq!(
        Route::from_hash("traces/0123456789abcdef0123456789abcdef/spans/span123"),
        Route::TraceDetailSpan {
            trace_id: trace_id.clone(),
            span_id: "span123".to_string()
        }
    );
    assert_eq!(
        Route::from_hash("picante/0123456789abcdef0123456789abcdef"),
        Route::PicanteGraph {
            trace_id: trace_id.clone()
        }
    );
    assert_eq!(Route::from_hash("rapace"), Route::RapaceTopology);
    assert_eq!(Route::from_hash("services"), Route::Services);

    // Invalid cases should fall back to TraceList
    assert_eq!(Route::from_hash("invalid"), Route::TraceList);
    assert_eq!(Route::from_hash("traces/invalid-id"), Route::TraceList);
}

#[test]
fn test_roundtrip() {
    let trace_id = TraceId::from_hex("0123456789abcdef0123456789abcdef").unwrap();

    let routes = vec![
        Route::TraceList,
        Route::TraceDetail {
            trace_id: trace_id.clone(),
        },
        Route::TraceDetailSpan {
            trace_id: trace_id.clone(),
            span_id: "span123".to_string(),
        },
        Route::PicanteGraph {
            trace_id: trace_id.clone(),
        },
        Route::RapaceTopology,
        Route::Services,
    ];

    for route in routes {
        let hash = route.to_hash();
        let parsed = Route::from_hash(&hash);
        assert_eq!(route, parsed, "Roundtrip failed for route: {:?}", route);
    }
}

#[test]
fn route_hash_with_leading_hash_and_uppercase_id() {
    let parsed = Route::from_hash("#picante/0123456789ABCDEF0123456789ABCDEF");
    match parsed {
        Route::PicanteGraph { trace_id } => {
            assert_eq!(trace_id.to_hex(), "0123456789abcdef0123456789abcdef")
        }
        other => panic!("unexpected {:?}", other),
    }
    assert_eq!(Route::from_hash("traces/0123456789abcdef0123456789abcdef/other/x"), Route::TraceList);
}
