//! The hop protocol: the state machine a proxy hop runs on request and
//! response header events, keyed by traffic direction and phase. The host
//! reads and writes headers and the local keyed store; the decisions here
//! take the header and store values as plain data and say exactly what to
//! write back, so a hop never blocks traffic on its own bookkeeping.

use vstd::prelude::*;
use vstd::string::*;

use crate::attrs::AttrMap;
use crate::codec::{encode_ferried_data, spec_decode, spec_encode};
use crate::direction::TrafficDirection;
use crate::extract::{get_value_for_storage, spec_extract};
use crate::ferry::{FdModel, FerriedData};
use crate::graph::{assign_all, pending_after, root_edges, spec_roots};
use crate::matcher::{find_mapping_centralized, valid_mapping, valid_pairs};
use crate::property::{props_contain, Property};
use crate::target::TargetGraph;

verus! {

/// The phase of an HTTP transaction a header event belongs to.
#[derive(Debug, Clone, Copy, PartialEq, Eq, Structural)]
pub enum HttpType {
    Unspecified,
    Request,
    Response,
}

/// What can go wrong inside one hop's phase. Each is handled locally: the
/// phase's remaining work is abandoned and the underlying traffic proceeds.
#[derive(Debug, Clone, Copy, PartialEq, Eq, Structural)]
pub enum HopError {
    /// The `x-request-id` header was absent at some phase.
    MissingTraceId,
    /// The listener direction code named neither inbound nor outbound.
    UnknownDirection,
    /// The host could not resolve a node attribute.
    PropertyUnavailable,
    /// Ferried text did not decode; the hop proceeds as if first in the
    /// trace.
    DecodeFailed,
    /// A matched query's answering attribute was never collected.
    AttributeNotCollected,
    /// The outbound call persisting the answer failed.
    StoreDispatchFailed,
}

/// What a request phase leaves behind for the response phase: the text to
/// put in the local keyed store under the trace id.
#[derive(Debug)]
pub struct RequestOutcome {
    pub stored: String,
    pub decode_failed: bool,
}

/// What the response phase at a hop produces: the text to ferry onward in
/// the response header, and — at the root hop on a successful match — the
/// answer to persist.
#[derive(Debug)]
pub struct ResponseOutcome {
    pub ferried: String,
    pub store_value: Option<String>,
    pub decode_failed: bool,
}

/// What the host should do after a phase.
#[derive(Debug)]
pub enum HopAction {
    /// Write the text into the local keyed store under the trace id.
    StoreLocal(RequestOutcome),
    /// Set the ferried response header; dispatch the store call when an
    /// answer is present.
    SetResponseHeader(ResponseOutcome),
    /// Nothing to do for this phase.
    Pass,
}

/// The view of an optional header or store value.
pub open spec fn opt_view(o: Option<&String>) -> Option<Seq<char>> {
    match o {
        Some(s) => Some(s@),
        None => None,
    }
}

/// The empty ferried state: no vertices, no edges, nothing pending.
pub open spec fn empty_fd_model() -> FdModel {
    (
        (Seq::<crate::graph::VertexModel>::empty(), Seq::<crate::graph::Edge>::empty()),
        Seq::<crate::property::PropModel>::empty(),
    )
}

/// What arriving ferried text means: absent text means no prior state;
/// malformed text also means no prior state, but flags the failure.
pub open spec fn spec_fetch(text: Option<Seq<char>>) -> (FdModel, bool) {
    match text {
        None => (empty_fd_model(), false),
        Some(s) => match spec_decode(s) {
            Some(m) => (m, false),
            None => (empty_fd_model(), true),
        },
    }
}

/// Collecting one property: the pending set gains it unless already there.
pub open spec fn collected_model(m: FdModel, workload: Seq<char>, value: Seq<char>) -> FdModel {
    if props_contain(m.1, (workload, 0u64, value)) {
        m
    } else {
        (m.0, m.1.push((workload, 0u64, value)))
    }
}

/// Merging this hop into the ferried state: a new vertex carrying the
/// workload name (attribute 0), edges from it to every prior root, then
/// every pending property whose owner now exists is attached. (A graph too
/// large for a vertex index is left as it is; no machine can hold one.)
pub open spec fn merged_model(m: FdModel, workload: Seq<char>) -> FdModel {
    if m.0.0.len() >= usize::MAX {
        m
    } else {
        let attrs0 = seq![(0u64, workload)];
        let g1 = (
            m.0.0.push((workload, attrs0)),
            m.0.1 + root_edges(spec_roots(m.0), m.0.0.len() as usize),
        );
        (assign_all(g1, m.1), pending_after(g1.0, m.1))
    }
}

/// Reads the ferried state out of header or store text, or starts fresh:
/// absent text is a first hop; malformed text is reported and likewise
/// treated as a first hop, so one corrupted hop only costs completeness.
pub fn fetch_data_from_headers(text: Option<&String>) -> (r: (FerriedData, bool))
    ensures
        r.0.wf(),
        (r.0.model(), r.1) == spec_fetch(opt_view(text)),
{
    match text {
        None => (FerriedData::default(), false),
        Some(s) => {
            match crate::codec::decode_ferried_data(s.as_str()) {
                Some(fd) => (fd, false),
                None => (FerriedData::default(), true),
            }
        },
    }
}

/// Collects this hop's node attribute (the workload name the compiled query
/// asks for) into the pending set; the vertex it belongs to may not exist
/// yet. The pending set is a set: collecting twice is collecting once.
pub fn collect_envoy_properties(
    workload_name: &String,
    property_value: &String,
    fd: &mut FerriedData,
)
    requires
        old(fd).wf(),
    ensures
        final(fd).wf(),
        final(fd).model() == collected_model(
            old(fd).model(),
            workload_name@,
            property_value@,
        ),
{
    let p = Property::new(workload_name.clone(), 0, property_value.clone());
    crate::property::props_insert(&mut fd.unassigned_properties, p);
}

/// The compiled query's trace-level predicate. This query asks nothing of
/// the whole trace, so every trace satisfies it.
pub fn execute_udfs_and_check_trace_lvl_prop(workload_name: &String, fd: &FerriedData) -> (r: bool)
    ensures
        r == true,
{
    true
}

/// What a correct request-inbound outcome is: the ferried state from the
/// request header (or fresh), this hop's property collected, re-encoded for
/// the local store.
pub open spec fn request_inbound_ok(
    ferried_header: Option<Seq<char>>,
    workload: Seq<char>,
    value: Seq<char>,
    out: RequestOutcome,
) -> bool {
    let (m0, failed) = spec_fetch(ferried_header);
    &&& out.decode_failed == failed
    &&& out.stored@ == spec_encode(collected_model(m0, workload, value))
}

/// What a correct response-outbound outcome is: the ferried state from the
/// response header (or fresh), re-encoded for the local store.
pub open spec fn response_outbound_ok(
    ferried_header: Option<Seq<char>>,
    out: RequestOutcome,
) -> bool {
    let (m0, failed) = spec_fetch(ferried_header);
    &&& out.decode_failed == failed
    &&& out.stored@ == spec_encode(m0)
}

/// Whether this hop is the one that answers the query.
pub open spec fn at_root(h: &HttpHeaders, trace_pred: bool) -> bool {
    h.match_enabled && h.workload_name@ == h.root_name@ && trace_pred
}

/// Whether the pattern embeds into the trace graph at all.
pub open spec fn has_embedding(t: crate::target::TargetModel, g: crate::graph::GraphModel) -> bool {
    exists|mm: Seq<int>| valid_mapping(mm, t, g)
}

/// Whether some embedding of the pattern answers the query with `v`.
pub open spec fn answer_witnessed(
    t: crate::target::TargetModel,
    g: crate::graph::GraphModel,
    v: Seq<char>,
) -> bool {
    exists|pairs: Seq<(usize, usize)>|
        valid_pairs(pairs, t, g) && spec_extract(t, pairs, g, "a"@, 0) == Some(v)
}

/// What a correct response-inbound outcome is: the stored state (or fresh),
/// this hop merged in when merging is on, re-encoded for the response
/// header; and, at the root hop only, the answer of a successful match and
/// extraction.
pub open spec fn response_inbound_ok(
    h: &HttpHeaders,
    stored_text: Option<Seq<char>>,
    trace_pred: bool,
    out: ResponseOutcome,
) -> bool {
    let m0 = spec_fetch(stored_text).0;
    let failed = spec_fetch(stored_text).1;
    let m1 = if h.merge_enabled {
        merged_model(m0, h.workload_name@)
    } else {
        m0
    };
    &&& out.decode_failed == failed
    &&& out.ferried@ == spec_encode(m1)
    &&& (!at_root(h, trace_pred) ==> out.store_value is None)
    &&& (out.store_value is Some ==> at_root(h, trace_pred) && answer_witnessed(
        h.target_graph.model(),
        m1.0,
        (out.store_value->Some_0)@,
    ))
    &&& (at_root(h, trace_pred) && !has_embedding(h.target_graph.model(), m1.0)
        ==> out.store_value is None)
}

/// One hop's filter state: who this workload is, the compiled pattern, which
/// workload answers the query, and the policy knobs that tell the
/// near-identical filter variants apart.
pub struct HttpHeaders {
    pub context_id: u32,
    pub workload_name: String,
    pub target_graph: TargetGraph,
    pub root_name: String,
    pub merge_enabled: bool,
    pub match_enabled: bool,
}

impl HttpHeaders {
    pub open spec fn wf(&self) -> bool {
        self.target_graph.wf()
    }

    /// Request inbound: require the trace id, take the ferried state off the
    /// request header, collect this hop's property, and hand back what to
    /// store locally for the response phase.
    pub fn on_http_request_headers_inbound(
        &self,
        trace_id: Option<&String>,
        ferried_header: Option<&String>,
        property_value: &String,
    ) -> (r: Result<RequestOutcome, HopError>)
        ensures
            match r {
                Ok(out) => trace_id is Some && request_inbound_ok(
                    opt_view(ferried_header),
                    self.workload_name@,
                    property_value@,
                    out,
                ),
                Err(e) => trace_id is None && e == HopError::MissingTraceId,
            },
    {
        if trace_id.is_none() {
            return Err(HopError::MissingTraceId);
        }
        let (mut fd, decode_failed) = fetch_data_from_headers(ferried_header);
        collect_envoy_properties(&self.workload_name, property_value, &mut fd);
        let stored = encode_ferried_data(&fd);
        Ok(RequestOutcome { stored, decode_failed })
    }

    /// Request outbound: nothing to compute; only the trace id is required.
    pub fn on_http_request_headers_outbound(&self, trace_id: Option<&String>) -> (r: Result<
        (),
        HopError,
    >)
        ensures
            match r {
                Ok(_) => trace_id is Some,
                Err(e) => trace_id is None && e == HopError::MissingTraceId,
            },
    {
        if trace_id.is_none() {
            return Err(HopError::MissingTraceId);
        }
        Ok(())
    }

    /// Response inbound: require the trace id, take the state stored at the
    /// request phase, merge this hop in, attach pending properties, and — at
    /// the root hop with the trace predicate satisfied — match the pattern
    /// and extract the answer. The ferried text keeps propagating whatever
    /// the match outcome.
    pub fn on_http_response_headers_inbound(
        &self,
        trace_id: Option<&String>,
        stored_text: Option<&String>,
        trace_pred: bool,
    ) -> (r: Result<ResponseOutcome, HopError>)
        requires
            self.wf(),
        ensures
            match r {
                Ok(out) => trace_id is Some && response_inbound_ok(
                    self,
                    opt_view(stored_text),
                    trace_pred,
                    out,
                ),
                Err(e) => trace_id is None && e == HopError::MissingTraceId,
            },
    {
        if trace_id.is_none() {
            return Err(HopError::MissingTraceId);
        }
        let ghost st = opt_view(stored_text);
        let (mut fd, decode_failed) = fetch_data_from_headers(stored_text);
        let ghost m0 = fd.model();
        if self.merge_enabled && fd.trace_graph.node_count() < usize::MAX {
            let mut attrs = AttrMap::new();
            attrs.insert(0, self.workload_name.clone());
            proof {
                assert(attrs.model() =~= seq![(0u64, self.workload_name@)]);
            }
            fd.trace_graph.add_self(self.workload_name.clone(), attrs);
            fd.assign_pending();
            proof {
                assert(fd.model() == merged_model(m0, self.workload_name@));
            }
        }
        let ghost m1 = fd.model();
        proof {
            if self.merge_enabled {
                assert(m1 == merged_model(m0, self.workload_name@));
            } else {
                assert(m1 == m0);
            }
        }
        let mut store_value: Option<String> = None;
        let ghost t = self.target_graph.model();
        if self.match_enabled && self.workload_name == self.root_name && trace_pred {
            proof {
                assert(at_root(self, trace_pred));
            }
            match find_mapping_centralized(&fd.trace_graph, &self.target_graph) {
                Some(mapping) => {
                    store_value = get_value_for_storage(&self.target_graph, &mapping, &fd);
                    proof {
                        assert(valid_pairs(mapping@, t, m1.0));
                        assert(has_embedding(t, m1.0)) by {
                            assert(valid_mapping(crate::matcher::pairs_model(mapping@), t, m1.0));
                        }
                        if store_value is Some {
                            let v = store_value->Some_0;
                            assert(spec_extract(t, mapping@, m1.0, "a"@, 0) == Some(v@));
                            assert(answer_witnessed(t, m1.0, v@));
                        }
                    }
                },
                None => {},
            }
        } else {
            proof {
                assert(!at_root(self, trace_pred));
            }
        }
        let ferried = encode_ferried_data(&fd);
        let out = ResponseOutcome { ferried, store_value, decode_failed };
        proof {
            assert(m1 == (if self.merge_enabled {
                merged_model(spec_fetch(st).0, self.workload_name@)
            } else {
                spec_fetch(st).0
            }));
            assert(response_inbound_ok(self, st, trace_pred, out));
        }
        Ok(out)
    }

    /// Response outbound: require the trace id, take the ferried state off
    /// the response header, and hand back what to store locally.
    pub fn on_http_response_headers_outbound(
        &self,
        trace_id: Option<&String>,
        ferried_header: Option<&String>,
    ) -> (r: Result<RequestOutcome, HopError>)
        ensures
            match r {
                Ok(out) => trace_id is Some && response_outbound_ok(opt_view(ferried_header), out),
                Err(e) => trace_id is None && e == HopError::MissingTraceId,
            },
    {
        if trace_id.is_none() {
            return Err(HopError::MissingTraceId);
        }
        let (fd, decode_failed) = fetch_data_from_headers(ferried_header);
        let stored = encode_ferried_data(&fd);
        Ok(RequestOutcome { stored, decode_failed })
    }

    /// Request-headers event: dispatch on the traffic direction. An unknown
    /// direction is a terminal no-op, reported as an error; the proxy passes
    /// the request through regardless.
    pub fn on_http_request_headers(
        &self,
        direction: TrafficDirection,
        trace_id: Option<&String>,
        ferried_header: Option<&String>,
        property_value: &String,
    ) -> (r: Result<HopAction, HopError>)
        ensures
            match direction {
                TrafficDirection::Inbound => match r {
                    Ok(a) => trace_id is Some && (a matches HopAction::StoreLocal(out)
                        && request_inbound_ok(
                        opt_view(ferried_header),
                        self.workload_name@,
                        property_value@,
                        out,
                    )),
                    Err(e) => trace_id is None && e == HopError::MissingTraceId,
                },
                TrafficDirection::Outbound => match r {
                    Ok(a) => trace_id is Some && a is Pass,
                    Err(e) => trace_id is None && e == HopError::MissingTraceId,
                },
                TrafficDirection::Unspecified => r == Err::<HopAction, HopError>(
                    HopError::UnknownDirection,
                ),
            },
    {
        match direction {
            TrafficDirection::Inbound => {
                match self.on_http_request_headers_inbound(
                    trace_id,
                    ferried_header,
                    property_value,
                ) {
                    Ok(out) => Ok(HopAction::StoreLocal(out)),
                    Err(e) => Err(e),
                }
            },
            TrafficDirection::Outbound => {
                match self.on_http_request_headers_outbound(trace_id) {
                    Ok(_) => Ok(HopAction::Pass),
                    Err(e) => Err(e),
                }
            },
            TrafficDirection::Unspecified => Err(HopError::UnknownDirection),
        }
    }

    /// Response-headers event: dispatch on the traffic direction. Inbound
    /// merges and (at the root) matches; outbound re-ferries into the local
    /// store; an unknown direction is a terminal no-op reported as an error.
    pub fn on_http_response_headers(
        &self,
        direction: TrafficDirection,
        trace_id: Option<&String>,
        stored_text: Option<&String>,
        ferried_header: Option<&String>,
        trace_pred: bool,
    ) -> (r: Result<HopAction, HopError>)
        requires
            self.wf(),
        ensures
            match direction {
                TrafficDirection::Inbound => match r {
                    Ok(a) => trace_id is Some && (a matches HopAction::SetResponseHeader(out)
                        && response_inbound_ok(self, opt_view(stored_text), trace_pred, out)),
                    Err(e) => trace_id is None && e == HopError::MissingTraceId,
                },
                TrafficDirection::Outbound => match r {
                    Ok(a) => trace_id is Some && (a matches HopAction::StoreLocal(out)
                        && response_outbound_ok(opt_view(ferried_header), out)),
                    Err(e) => trace_id is None && e == HopError::MissingTraceId,
                },
                TrafficDirection::Unspecified => r == Err::<HopAction, HopError>(
                    HopError::UnknownDirection,
                ),
            },
    {
        match direction {
            TrafficDirection::Inbound => {
                match self.on_http_response_headers_inbound(trace_id, stored_text, trace_pred) {
                    Ok(out) => Ok(HopAction::SetResponseHeader(out)),
                    Err(e) => Err(e),
                }
            },
            TrafficDirection::Outbound => {
                match self.on_http_response_headers_outbound(trace_id, ferried_header) {
                    Ok(out) => Ok(HopAction::StoreLocal(out)),
                    Err(e) => Err(e),
                }
            },
            TrafficDirection::Unspecified => Err(HopError::UnknownDirection),
        }
    }
}

/// The headers of the outbound call that persists a query answer: a GET of
/// `/store` at the storage upstream, carrying the trace id as the key, the
/// extracted value, and the trace id again for request correlation.
pub fn store_call_headers(trace_id: &String, value: &String) -> (r: Vec<(String, String)>)
    ensures
        r@.len() == 6,
        r@[0].0@ == ":method"@ && r@[0].1@ == "GET"@,
        r@[1].0@ == ":path"@ && r@[1].1@ == "/store"@,
        r@[2].0@ == ":authority"@ && r@[2].1@ == "storage-upstream"@,
        r@[3].0@ == "key"@ && r@[3].1@ == trace_id@,
        r@[4].0@ == "value"@ && r@[4].1@ == value@,
        r@[5].0@ == "x-request-id"@ && r@[5].1@ == trace_id@,
{
    let mut r: Vec<(String, String)> = Vec::new();
    r.push((String::from_str(":method"), String::from_str("GET")));
    r.push((String::from_str(":path"), String::from_str("/store")));
    r.push((String::from_str(":authority"), String::from_str("storage-upstream")));
    r.push((String::from_str("key"), trace_id.clone()));
    r.push((String::from_str("value"), value.clone()));
    r.push((String::from_str("x-request-id"), trace_id.clone()));
    r
}

/// The joined form of a dotted attribute path.
pub open spec fn spec_join(parts: Seq<Seq<char>>) -> Seq<char>
    decreases parts.len(),
{
    if parts.len() == 0 {
        Seq::empty()
    } else if parts.len() == 1 {
        parts[0]
    } else {
        spec_join(parts.drop_last()) + seq!['.'] + parts.last()
    }
}

/// Joins attribute path segments with dots, the shape the host expects for
/// a node attribute path.
pub fn join_str(str_vec: &Vec<&str>) -> (r: String)
    ensures
        r@ == spec_join(str_vec@.map_values(|s: &str| s@)),
{
    let ghost parts = str_vec@.map_values(|s: &str| s@);
    let mut out = String::new();
    let mut i: usize = 0;
    proof {
        reveal_strlit(".");
        assert(out@ =~= spec_join(parts.take(0)));
    }
    while i < str_vec.len()
        invariant
            i <= str_vec.len(),
            parts == str_vec@.map_values(|s: &str| s@),
            out@ == spec_join(parts.take(i as int)),
        decreases str_vec.len() - i,
    {
        if i > 0 {
            out.append(".");
        }
        out.append(str_vec[i]);
        proof {
            reveal_strlit(".");
            assert("."@ =~= seq!['.']);
            assert(parts.take(i as int + 1).drop_last() =~= parts.take(i as int));
            assert(parts.take(i as int + 1).last() == parts[i as int]);
            if i == 0 {
                assert(out@ =~= spec_join(parts.take(1)));
            } else {
                assert(out@ =~= spec_join(parts.take(i as int + 1)));
            }
        }
        i += 1;
    }
    proof {
        assert(parts.take(parts.len() as int) =~= parts);
    }
    out
}

} // verus!
