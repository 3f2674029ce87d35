//! Hash routes of the trace viewer: formatting and parsing of URL hash fragments.
use vstd::prelude::*;
use vstd::string::{StrSliceExecFns, StringExecFns};
use crate::context::{split_fields, split_on};
use crate::ids::{bytes_of_hex, hex_of, is_hex_text, TraceId};
use crate::span::str_eq;

verus! {

/// Views of the application.
#[derive(Clone, Debug)]
pub enum Route {
    /// Trace list.
    TraceList,
    /// One trace, with its waterfall.
    TraceDetail { trace_id: TraceId },
    /// One trace, focused on one of its spans.
    TraceDetailSpan { trace_id: TraceId, span_id: String },
    /// Picante query graph of a trace.
    PicanteGraph { trace_id: TraceId },
    /// Rapace topology.
    RapaceTopology,
    /// Services overview.
    Services,
}

/// Two routes name the same view.
pub open spec fn same_route(a: Route, b: Route) -> bool {
    match (a, b) {
        (Route::TraceList, Route::TraceList) => true,
        (Route::TraceDetail { trace_id: x }, Route::TraceDetail { trace_id: y }) => x.0@ == y.0@,
        (
            Route::TraceDetailSpan { trace_id: x, span_id: s },
            Route::TraceDetailSpan { trace_id: y, span_id: t },
        ) => x.0@ == y.0@ && s@ == t@,
        (Route::PicanteGraph { trace_id: x }, Route::PicanteGraph { trace_id: y }) => x.0@ == y.0@,
        (Route::RapaceTopology, Route::RapaceTopology) => true,
        (Route::Services, Route::Services) => true,
        _ => false,
    }
}

impl PartialEq for Route {
    fn eq(&self, other: &Route) -> (r: bool) {
        match (self, other) {
            (Route::TraceList, Route::TraceList) => true,
            (Route::TraceDetail { trace_id: x }, Route::TraceDetail { trace_id: y }) => x == y,
            (
                Route::TraceDetailSpan { trace_id: x, span_id: s },
                Route::TraceDetailSpan { trace_id: y, span_id: t },
            ) => x == y && str_eq(s.as_str(), t.as_str()),
            (Route::PicanteGraph { trace_id: x }, Route::PicanteGraph { trace_id: y }) => x == y,
            (Route::RapaceTopology, Route::RapaceTopology) => true,
            (Route::Services, Route::Services) => true,
            _ => false,
        }
    }
}

impl vstd::std_specs::cmp::PartialEqSpecImpl for Route {
    open spec fn obeys_eq_spec() -> bool {
        true
    }

    open spec fn eq_spec(&self, other: &Route) -> bool {
        same_route(*self, *other)
    }
}

/// The hash fragment of a route, without the leading `#`.
pub open spec fn route_hash(r: Route) -> Seq<char> {
    match r {
        Route::TraceList => Seq::empty(),
        Route::TraceDetail { trace_id } => "traces/"@ + hex_of(trace_id.0@),
        Route::TraceDetailSpan { trace_id, span_id } => "traces/"@ + hex_of(trace_id.0@)
            + "/spans/"@ + span_id@,
        Route::PicanteGraph { trace_id } => "picante/"@ + hex_of(trace_id.0@),
        Route::RapaceTopology => "rapace"@,
        Route::Services => "services"@,
    }
}

/// A trace id field of a hash: 32 hex digits.
pub open spec fn is_trace_field(t: Seq<char>) -> bool {
    is_hex_text(t, 32)
}

/// Whether `r` is the route that hash `h` names: one leading `#` is ignored, an
/// empty hash or anything unrecognised (an unknown path, an invalid trace id)
/// names the trace list.
pub open spec fn names_route(h: Seq<char>, r: Route) -> bool {
    let b = if h.len() > 0 && h[0] == '#' {
        h.drop_first()
    } else {
        h
    };
    let f = split_fields(b, '/');
    if b.len() == 0 {
        r is TraceList
    } else if f.len() == 2 && f[0] == "traces"@ && is_trace_field(f[1]) {
        r matches Route::TraceDetail { trace_id } && trace_id.0@ == bytes_of_hex(f[1])
    } else if f.len() == 4 && f[0] == "traces"@ && f[2] == "spans"@ && is_trace_field(f[1]) {
        r matches Route::TraceDetailSpan { trace_id, span_id } && trace_id.0@ == bytes_of_hex(f[1])
            && span_id@ == f[3]
    } else if f.len() == 2 && f[0] == "picante"@ && is_trace_field(f[1]) {
        r matches Route::PicanteGraph { trace_id } && trace_id.0@ == bytes_of_hex(f[1])
    } else if f.len() == 1 && f[0] == "rapace"@ {
        r is RapaceTopology
    } else if f.len() == 1 && f[0] == "services"@ {
        r is Services
    } else {
        r is TraceList
    }
}

/// A trace id parsed from a hash field, if it is one.
fn trace_field(s: &str) -> (r: Option<TraceId>)
    ensures
        r is Some == is_trace_field(s@),
        r matches Some(id) ==> id.0@ == bytes_of_hex(s@),
{
    match TraceId::from_hex(s) {
        Ok(id) => Some(id),
        Err(_) => None,
    }
}

impl Route {
    /// The URL hash fragment of this route, without the leading `#`.
    pub fn to_hash(&self) -> (r: String)
        ensures
            r@ == route_hash(*self),
    {
        match self {
            Route::TraceList => String::new(),
            Route::TraceDetail { trace_id } => {
                let mut out = String::from_str("traces/");
                out.append(trace_id.to_hex().as_str());
                out
            },
            Route::TraceDetailSpan { trace_id, span_id } => {
                let mut out = String::from_str("traces/");
                out.append(trace_id.to_hex().as_str());
                out.append("/spans/");
                out.append(span_id.as_str());
                out
            },
            Route::PicanteGraph { trace_id } => {
                let mut out = String::from_str("picante/");
                out.append(trace_id.to_hex().as_str());
                out
            },
            Route::RapaceTopology => String::from_str("rapace"),
            Route::Services => String::from_str("services"),
        }
    }

    /// Parses a URL hash fragment (a leading `#` is ignored). Anything that names
    /// no view gives the trace list.
    pub fn from_hash(hash: &str) -> (r: Route)
        ensures
            names_route(hash@, r),
    {
        let n = hash.unicode_len();
        let body = if n > 0 && hash.get_char(0) == '#' {
            hash.substring_char(1, n)
        } else {
            hash.substring_char(0, n)
        };
        proof {
            if n > 0 && hash@[0] == '#' {
                assert(body@ =~= hash@.drop_first());
            } else {
                assert(body@ =~= hash@);
            }
        }
        if body.unicode_len() == 0 {
            return Route::TraceList;
        }
        let f = split_on(body, '/');
        if f.len() == 2 && str_eq(f[0], "traces") {
            if let Some(trace_id) = trace_field(f[1]) {
                return Route::TraceDetail { trace_id };
            }
            return Route::TraceList;
        }
        if f.len() == 4 && str_eq(f[0], "traces") && str_eq(f[2], "spans") {
            if let Some(trace_id) = trace_field(f[1]) {
                return Route::TraceDetailSpan { trace_id, span_id: String::from_str(f[3]) };
            }
            return Route::TraceList;
        }
        if f.len() == 2 && str_eq(f[0], "picante") {
            if let Some(trace_id) = trace_field(f[1]) {
                return Route::PicanteGraph { trace_id };
            }
            return Route::TraceList;
        }
        if f.len() == 1 && str_eq(f[0], "rapace") {
            return Route::RapaceTopology;
        }
        if f.len() == 1 && str_eq(f[0], "services") {
            return Route::Services;
        }
        Route::TraceList
    }
}

} // verus!
