use snicket_core::attrs::AttrMap;
use snicket_core::extract::{extract_value, get_value_for_storage};
use snicket_core::ferry::FerriedData;
use snicket_core::graph::{Edge, TraceGraph};
use snicket_core::matcher::{find_mapping_centralized, find_mapping_decentralized, MatchOutcome};
use snicket_core::target::{create_target_graph, TargetGraph, TargetVertex};

fn hop(g: &mut TraceGraph, label: &str) -> usize {
    let mut attrs = AttrMap::new();
    attrs.insert(0, String::from(label));
    g.add_self(String::from(label), attrs)
}

fn single_vertex_pattern(label: Option<&str>) -> TargetGraph {
    let mut t = TargetGraph::new();
    t.vertices.push(TargetVertex {
        name: String::from("a"),
        label: label.map(String::from),
    });
    t
}

#[test]
fn single_labeled_vertex_matches_iff_label_present() {
    let pattern = single_vertex_pattern(Some("ratings-v1"));
    let mut g = TraceGraph::new();
    hop(&mut g, "productpage-v1");
    hop(&mut g, "reviews-v1");
    assert!(find_mapping_centralized(&g, &pattern).is_none());
    hop(&mut g, "ratings-v1");
    let mapping = find_mapping_centralized(&g, &pattern).expect("label present, must match");
    assert_eq!(mapping.len(), 1);
    assert_eq!(mapping[0], (0, 2));
}

#[test]
fn path_pattern_matches_response_order_trace_and_extracts_ratings() {
    // The deepest callee answers first, so its vertex is created first and
    // the entry hop, created last, points down the chain: the trace holds
    // the path productpage-v1 -> reviews-v1 -> ratings-v1.
    let target = create_target_graph();
    let mut fd = FerriedData::default();
    let mut g = TraceGraph::new();
    hop(&mut g, "ratings-v1");
    hop(&mut g, "reviews-v1");
    hop(&mut g, "productpage-v1");
    fd.trace_graph = g;
    let mapping =
        find_mapping_centralized(&fd.trace_graph, &target).expect("path must embed");
    assert_eq!(mapping, vec![(0, 2), (1, 1), (2, 0)]);
    // The attribute populated at the vertex matched by "c" is the ratings
    // workload name.
    let c = String::from("c");
    let value = extract_value(&target, &mapping, &fd, &c, 0).expect("attribute collected");
    assert_eq!(value, "ratings-v1");
    // The compiled query's own return vertex is "a", the entry hop.
    let entry = get_value_for_storage(&target, &mapping, &fd).expect("attribute collected");
    assert_eq!(entry, "productpage-v1");
}

#[test]
fn path_pattern_does_not_match_request_order_insertion() {
    // Inserting in request order reverses every edge: the labeled end of
    // the pattern then sits where no edge arrives, so no embedding exists.
    let target = create_target_graph();
    let mut g = TraceGraph::new();
    hop(&mut g, "productpage-v1");
    hop(&mut g, "reviews-v1");
    hop(&mut g, "ratings-v1");
    assert!(find_mapping_centralized(&g, &target).is_none());
}

#[test]
fn pattern_edges_must_be_present_in_direction() {
    let mut target = TargetGraph::new();
    target.vertices.push(TargetVertex { name: String::from("a"), label: None });
    target.vertices.push(TargetVertex { name: String::from("b"), label: None });
    target.edges.push(Edge { src: 0, dst: 1 });
    let mut g = TraceGraph::new();
    hop(&mut g, "x");
    hop(&mut g, "y");
    // The trace edge runs y -> x (index 1 -> 0); the pattern a -> b embeds
    // as a=y, b=x.
    let mapping = find_mapping_centralized(&g, &target).expect("edge present");
    assert_eq!(mapping, vec![(0, 1), (1, 0)]);
}

#[test]
fn mapping_is_injective() {
    // Two pattern vertices cannot share the single trace vertex.
    let mut target = TargetGraph::new();
    target.vertices.push(TargetVertex { name: String::from("a"), label: None });
    target.vertices.push(TargetVertex { name: String::from("b"), label: None });
    let mut g = TraceGraph::new();
    hop(&mut g, "only");
    assert!(find_mapping_centralized(&g, &target).is_none());
}

#[test]
fn decentralized_mode_reports_no_match_yet() {
    let target = create_target_graph();
    let mut g = TraceGraph::new();
    hop(&mut g, "ratings-v1");
    match find_mapping_decentralized(&g, &target) {
        MatchOutcome::NoMatchYet => {},
        MatchOutcome::Found(_) => panic!("one hop cannot embed a three-vertex path"),
    }
    hop(&mut g, "reviews-v1");
    hop(&mut g, "productpage-v1");
    match find_mapping_decentralized(&g, &target) {
        MatchOutcome::Found(mapping) => assert_eq!(mapping.len(), 3),
        MatchOutcome::NoMatchYet => panic!("the full path has arrived"),
    }
}

#[test]
fn extraction_fails_only_when_attribute_missing() {
    let pattern = single_vertex_pattern(None);
    let mut fd = FerriedData::default();
    // A vertex with no attributes: match succeeds, extraction reports the
    // attribute as never collected.
    fd.trace_graph.add_self(String::from("reviews-v1"), AttrMap::new());
    let mapping = find_mapping_centralized(&fd.trace_graph, &pattern).expect("wildcard matches");
    assert!(get_value_for_storage(&pattern, &mapping, &fd).is_none());
    // A pattern vertex name that does not exist extracts nothing.
    let missing = String::from("zz");
    assert!(extract_value(&pattern, &mapping, &fd, &missing, 0).is_none());
}
