//! Tabs of the trace viewer and cross-reference links between its views.
use vstd::prelude::*;
use vstd::string::StringExecFns;
use crate::ids::TraceId;
use crate::routing::{route_hash, Route};

verus! {

/// Which tab is active.
#[derive(Clone, Copy, Debug, PartialEq, Eq, Structural)]
pub enum TabId {
    Traces,
    Picante,
    Rapace,
    Services,
}

impl TabId {
    /// The display label of the tab.
    pub fn label(&self) -> (r: &'static str)
        ensures
            r@ == match self {
                TabId::Traces => "Traces"@,
                TabId::Picante => "Picante"@,
                TabId::Rapace => "Rapace"@,
                TabId::Services => "Services"@,
            },
    {
        match self {
            TabId::Traces => "Traces",
            TabId::Picante => "Picante",
            TabId::Rapace => "Rapace",
            TabId::Services => "Services",
        }
    }

    /// The route of the tab's default view.
    pub fn default_route(&self) -> (r: Route)
        ensures
            match self {
                TabId::Traces => r is TraceList,
                TabId::Picante => r is TraceList,
                TabId::Rapace => r is RapaceTopology,
                TabId::Services => r is Services,
            },
    {
        match self {
            TabId::Traces => Route::TraceList,
            TabId::Picante => Route::TraceList,
            TabId::Rapace => Route::RapaceTopology,
            TabId::Services => Route::Services,
        }
    }

    /// The tab that is active while `route` is shown.
    pub fn from_route(route: &Route) -> (r: TabId)
        ensures
            r == match route {
                Route::TraceList | Route::TraceDetail { .. } | Route::TraceDetailSpan {
                    ..
                } => TabId::Traces,
                Route::PicanteGraph { .. } => TabId::Picante,
                Route::RapaceTopology => TabId::Rapace,
                Route::Services => TabId::Services,
            },
    {
        match route {
            Route::TraceList | Route::TraceDetail { .. } | Route::TraceDetailSpan { .. } => {
                TabId::Traces
            },
            Route::PicanteGraph { .. } => TabId::Picante,
            Route::RapaceTopology => TabId::Rapace,
            Route::Services => TabId::Services,
        }
    }
}

/// Cross-reference link between views.
#[derive(Clone, Debug)]
pub enum HindsightLink {
    /// A trace.
    Trace { trace_id: TraceId },
    /// A span within a trace.
    TraceSpan { trace_id: TraceId, span_id: String },
    /// The Picante graph of a trace.
    PicanteGraph { trace_id: TraceId },
    /// A node of a Picante graph: the trace, focused on the node's span.
    PicanteNode { trace_id: TraceId, node_span_id: String },
    /// The Rapace topology.
    RapaceTopology,
    /// A Rapace session; shown as the topology.
    RapaceSession { session_id: u64 },
    /// The services overview.
    Services,
}

/// The route a link leads to.
pub open spec fn link_route(l: HindsightLink) -> Route {
    match l {
        HindsightLink::Trace { trace_id } => Route::TraceDetail { trace_id },
        HindsightLink::TraceSpan { trace_id, span_id } => Route::TraceDetailSpan { trace_id, span_id },
        HindsightLink::PicanteGraph { trace_id } => Route::PicanteGraph { trace_id },
        HindsightLink::PicanteNode { trace_id, node_span_id } => Route::TraceDetailSpan {
            trace_id,
            span_id: node_span_id,
        },
        HindsightLink::RapaceTopology => Route::RapaceTopology,
        HindsightLink::RapaceSession { .. } => Route::RapaceTopology,
        HindsightLink::Services => Route::Services,
    }
}

impl HindsightLink {
    /// The route this link leads to.
    pub fn route(&self) -> (r: Route)
        ensures
            r == link_route(*self),
    {
        match self {
            HindsightLink::Trace { trace_id } => Route::TraceDetail { trace_id: *trace_id },
            HindsightLink::TraceSpan { trace_id, span_id } => Route::TraceDetailSpan {
                trace_id: *trace_id,
                span_id: span_id.clone(),
            },
            HindsightLink::PicanteGraph { trace_id } => Route::PicanteGraph { trace_id: *trace_id },
            HindsightLink::PicanteNode { trace_id, node_span_id } => Route::TraceDetailSpan {
                trace_id: *trace_id,
                span_id: node_span_id.clone(),
            },
            HindsightLink::RapaceTopology => Route::RapaceTopology,
            HindsightLink::RapaceSession { .. } => Route::RapaceTopology,
            HindsightLink::Services => Route::Services,
        }
    }

    /// The URL hash of the link, with its leading `#`.
    pub fn to_hash(&self) -> (r: String)
        ensures
            r@ == seq!['#'] + route_hash(link_route(*self)),
    {
        let mut out = String::from_str("#");
        let h = self.route().to_hash();
        out.append(h.as_str());
        proof {
            reveal_strlit("#");
        }
        out
    }
}

} // verus!
