use snicket_core::direction::{decode_direction, direction_from_code, TrafficDirection};
use snicket_core::hop::{
    collect_envoy_properties, execute_udfs_and_check_trace_lvl_prop, fetch_data_from_headers,
    join_str, HopAction, HopError, HttpHeaders,
};
use snicket_core::ferry::FerriedData;
use snicket_core::target::{create_target_graph, TargetGraph, TargetVertex};

fn wildcard_pattern() -> TargetGraph {
    let mut t = TargetGraph::new();
    t.vertices.push(TargetVertex { name: String::from("a"), label: None });
    t
}

fn filter_at(workload: &str, target: TargetGraph) -> HttpHeaders {
    HttpHeaders {
        context_id: 1,
        workload_name: String::from(workload),
        target_graph: target,
        root_name: String::from("productpage-v1"),
        merge_enabled: true,
        match_enabled: true,
    }
}

#[test]
fn single_hop_end_to_end_extracts_the_workload_name() {
    let filter = filter_at("productpage-v1", wildcard_pattern());
    let trace_id = String::from("req-1");
    let value = String::from("productpage-v1");
    // Request phase: collect the property, store it for the response phase.
    let req = filter
        .on_http_request_headers_inbound(Some(&trace_id), None, &value)
        .expect("trace id present");
    assert!(!req.decode_failed);
    // Response phase: merge this hop in, match the one-vertex wildcard
    // pattern, extract the collected value.
    let pred = execute_udfs_and_check_trace_lvl_prop(&filter.workload_name, &FerriedData::default());
    assert!(pred);
    let resp = filter
        .on_http_response_headers_inbound(Some(&trace_id), Some(&req.stored), pred)
        .expect("trace id present");
    assert_eq!(resp.store_value, Some(String::from("productpage-v1")));
    // The ferried text keeps propagating and still decodes.
    let (fd, failed) = fetch_data_from_headers(Some(&resp.ferried));
    assert!(!failed);
    assert_eq!(fd.trace_graph.nodes.len(), 1);
    assert_eq!(fd.trace_graph.nodes[0].label, "productpage-v1");
}

#[test]
fn three_hop_trace_answers_the_compiled_query() {
    // ratings answers first, then reviews, then the entry hop productpage,
    // each ferrying the graph onward in the response header.
    let labels = ["ratings-v1", "reviews-v1", "productpage-v1"];
    let trace_id = String::from("req-2");
    let mut ferried: Option<String> = None;
    let mut answer: Option<String> = None;
    for label in labels.iter() {
        let filter = filter_at(label, create_target_graph());
        let value = String::from(*label);
        let req = filter
            .on_http_request_headers_inbound(Some(&trace_id), ferried.as_ref(), &value)
            .expect("trace id present");
        let resp = filter
            .on_http_response_headers_inbound(Some(&trace_id), Some(&req.stored), true)
            .expect("trace id present");
        if resp.store_value.is_some() {
            answer = resp.store_value.clone();
        }
        ferried = Some(resp.ferried);
    }
    // Only the root hop answers, with the entry workload's name.
    assert_eq!(answer, Some(String::from("productpage-v1")));
}

#[test]
fn non_root_hops_never_answer() {
    let filter = filter_at("reviews-v1", create_target_graph());
    let trace_id = String::from("req-3");
    let value = String::from("reviews-v1");
    let req = filter
        .on_http_request_headers_inbound(Some(&trace_id), None, &value)
        .expect("trace id present");
    let resp = filter
        .on_http_response_headers_inbound(Some(&trace_id), Some(&req.stored), true)
        .expect("trace id present");
    assert!(resp.store_value.is_none());
}

#[test]
fn missing_trace_id_aborts_each_phase() {
    let filter = filter_at("productpage-v1", wildcard_pattern());
    let value = String::from("productpage-v1");
    assert_eq!(
        filter
            .on_http_request_headers_inbound(None, None, &value)
            .unwrap_err(),
        HopError::MissingTraceId
    );
    assert_eq!(
        filter.on_http_request_headers_outbound(None).unwrap_err(),
        HopError::MissingTraceId
    );
    assert_eq!(
        filter
            .on_http_response_headers_inbound(None, None, true)
            .unwrap_err(),
        HopError::MissingTraceId
    );
    assert_eq!(
        filter
            .on_http_response_headers_outbound(None, None)
            .unwrap_err(),
        HopError::MissingTraceId
    );
}

#[test]
fn unknown_direction_is_a_terminal_error() {
    let filter = filter_at("productpage-v1", wildcard_pattern());
    let trace_id = String::from("req-4");
    let value = String::from("productpage-v1");
    let r = filter.on_http_request_headers(
        TrafficDirection::Unspecified,
        Some(&trace_id),
        None,
        &value,
    );
    assert_eq!(r.unwrap_err(), HopError::UnknownDirection);
    let r2 = filter.on_http_response_headers(
        TrafficDirection::Unspecified,
        Some(&trace_id),
        None,
        None,
        true,
    );
    assert_eq!(r2.unwrap_err(), HopError::UnknownDirection);
}

#[test]
fn request_dispatch_follows_the_direction() {
    let filter = filter_at("productpage-v1", wildcard_pattern());
    let trace_id = String::from("req-5");
    let value = String::from("productpage-v1");
    match filter
        .on_http_request_headers(TrafficDirection::Inbound, Some(&trace_id), None, &value)
        .expect("trace id present")
    {
        HopAction::StoreLocal(out) => assert!(!out.decode_failed),
        _ => panic!("inbound request headers store the collected state"),
    }
    match filter
        .on_http_request_headers(TrafficDirection::Outbound, Some(&trace_id), None, &value)
        .expect("trace id present")
    {
        HopAction::Pass => {},
        _ => panic!("outbound request headers do nothing"),
    }
}

#[test]
fn response_outbound_re_ferries_the_header_state() {
    let filter = filter_at("reviews-v1", wildcard_pattern());
    let trace_id = String::from("req-6");
    let mut fd = FerriedData::default();
    collect_envoy_properties(
        &String::from("reviews-v1"),
        &String::from("reviews-v1"),
        &mut fd,
    );
    let text = snicket_core::codec::encode_ferried_data(&fd);
    let out = filter
        .on_http_response_headers_outbound(Some(&trace_id), Some(&text))
        .expect("trace id present");
    assert!(!out.decode_failed);
    assert_eq!(out.stored, text);
}

#[test]
fn collecting_the_same_property_twice_is_collecting_once() {
    let mut fd = FerriedData::default();
    let owner = String::from("productpage-v1");
    let value = String::from("productpage-v1");
    collect_envoy_properties(&owner, &value, &mut fd);
    collect_envoy_properties(&owner, &value, &mut fd);
    assert_eq!(fd.unassigned_properties.len(), 1);
}

#[test]
fn merge_disabled_leaves_the_graph_alone() {
    let mut filter = filter_at("productpage-v1", wildcard_pattern());
    filter.merge_enabled = false;
    filter.match_enabled = false;
    let trace_id = String::from("req-7");
    let resp = filter
        .on_http_response_headers_inbound(Some(&trace_id), None, true)
        .expect("trace id present");
    assert!(resp.store_value.is_none());
    let (fd, _) = fetch_data_from_headers(Some(&resp.ferried));
    assert_eq!(fd.trace_graph.nodes.len(), 0);
}

#[test]
fn direction_conversion_and_labels() {
    assert_eq!(TrafficDirection::from(1i64), TrafficDirection::Inbound);
    assert_eq!(TrafficDirection::from(2i64), TrafficDirection::Outbound);
    assert_eq!(TrafficDirection::from(-1i64), TrafficDirection::Unspecified);
    assert_eq!(TrafficDirection::Inbound.label(), "inbound");
    assert_eq!(TrafficDirection::Outbound.label(), "outbound");
    assert_eq!(TrafficDirection::Unspecified.label(), "unspecified");
}

#[test]
fn direction_decoding_follows_the_listener_code() {
    assert_eq!(direction_from_code(1), TrafficDirection::Inbound);
    assert_eq!(direction_from_code(2), TrafficDirection::Outbound);
    assert_eq!(direction_from_code(0), TrafficDirection::Unspecified);
    assert_eq!(direction_from_code(-5), TrafficDirection::Unspecified);
    let outbound = 2i64.to_ne_bytes().to_vec();
    assert_eq!(decode_direction(&outbound), TrafficDirection::Outbound);
    let inbound = 1i64.to_ne_bytes().to_vec();
    assert_eq!(decode_direction(&inbound), TrafficDirection::Inbound);
    let other = 9i64.to_ne_bytes().to_vec();
    assert_eq!(decode_direction(&other), TrafficDirection::Unspecified);
    // Any byte string not exactly eight bytes long is unspecified, never an
    // error.
    assert_eq!(decode_direction(&vec![2u8; 7]), TrafficDirection::Unspecified);
    assert_eq!(decode_direction(&vec![2u8; 9]), TrafficDirection::Unspecified);
    assert_eq!(decode_direction(&Vec::new()), TrafficDirection::Unspecified);
}

#[test]
fn store_call_headers_have_the_expected_shape() {
    let trace_id = String::from("trace-9");
    let value = String::from("productpage-v1");
    let headers = snicket_core::hop::store_call_headers(&trace_id, &value);
    assert_eq!(
        headers,
        vec![
            (String::from(":method"), String::from("GET")),
            (String::from(":path"), String::from("/store")),
            (String::from(":authority"), String::from("storage-upstream")),
            (String::from("key"), String::from("trace-9")),
            (String::from("value"), String::from("productpage-v1")),
            (String::from("x-request-id"), String::from("trace-9")),
        ]
    );
}

#[test]
fn join_str_builds_dotted_attribute_paths() {
    let parts = vec!["node", "metadata", "WORKLOAD_NAME"];
    assert_eq!(join_str(&parts), "node.metadata.WORKLOAD_NAME");
    let single = vec!["listener_direction"];
    assert_eq!(join_str(&single), "listener_direction");
    let empty: Vec<&str> = Vec::new();
    assert_eq!(join_str(&empty), "");
}
