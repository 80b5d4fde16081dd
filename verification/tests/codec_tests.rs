use snicket_core::attrs::AttrMap;
use snicket_core::codec::{data_to_str, decode_ferried_data, encode_ferried_data};
use snicket_core::ferry::FerriedData;
use snicket_core::graph::TraceGraph;
use snicket_core::hop::fetch_data_from_headers;
use snicket_core::property::Property;

fn sample_data() -> FerriedData {
    let mut fd = FerriedData::default();
    let mut attrs = AttrMap::new();
    attrs.insert(0, String::from("productpage-v1"));
    attrs.insert(3, String::from("green"));
    fd.trace_graph.add_self(String::from("productpage-v1"), attrs);
    let mut attrs2 = AttrMap::new();
    attrs2.insert(0, String::from("reviews-v1"));
    fd.trace_graph.add_self(String::from("reviews-v1"), attrs2);
    fd.unassigned_properties.push(Property::new(
        String::from("ratings-v1"),
        0,
        String::from("ratings-v1"),
    ));
    fd
}

fn assert_same_data(a: &FerriedData, b: &FerriedData) {
    assert_eq!(a.trace_graph.nodes.len(), b.trace_graph.nodes.len());
    for i in 0..a.trace_graph.nodes.len() {
        assert_eq!(a.trace_graph.nodes[i].label, b.trace_graph.nodes[i].label);
        assert_eq!(
            a.trace_graph.nodes[i].attrs.entries,
            b.trace_graph.nodes[i].attrs.entries
        );
    }
    assert_eq!(a.trace_graph.edges, b.trace_graph.edges);
    assert_eq!(
        a.unassigned_properties.len(),
        b.unassigned_properties.len()
    );
    for i in 0..a.unassigned_properties.len() {
        assert_eq!(a.unassigned_properties[i].owner, b.unassigned_properties[i].owner);
        assert_eq!(a.unassigned_properties[i].id, b.unassigned_properties[i].id);
        assert_eq!(a.unassigned_properties[i].value, b.unassigned_properties[i].value);
    }
}

#[test]
fn ferried_data_round_trips_through_the_codec() {
    let fd = sample_data();
    let text = encode_ferried_data(&fd);
    let back = decode_ferried_data(text.as_str()).expect("encoded data must decode");
    assert_same_data(&fd, &back);
}

#[test]
fn empty_data_round_trips_and_has_the_expected_form() {
    let fd = FerriedData::default();
    let text = encode_ferried_data(&fd);
    // Three counts of twenty digits each, all zero.
    assert_eq!(text, "0".repeat(60));
    let back = decode_ferried_data(text.as_str()).expect("empty data must decode");
    assert_same_data(&fd, &back);
}

#[test]
fn data_to_str_always_serializes() {
    let fd = sample_data();
    let s = data_to_str(&fd).expect("serialization always succeeds");
    assert_eq!(s, encode_ferried_data(&fd));
}

#[test]
fn number_fields_are_fixed_width_decimal() {
    let mut fd = FerriedData::default();
    fd.trace_graph.add_self(String::from("x"), AttrMap::new());
    let text = encode_ferried_data(&fd);
    // One vertex: count 1, label "x" of length 1, zero attributes, then no
    // edges and no pending properties.
    let expected = format!(
        "{}1{}1x{}{}{}",
        "0".repeat(19),
        "0".repeat(19),
        "0".repeat(20),
        "0".repeat(20),
        "0".repeat(20)
    );
    assert_eq!(text, expected);
}

#[test]
fn malformed_text_decodes_to_nothing() {
    assert!(decode_ferried_data("").is_none());
    assert!(decode_ferried_data("not ferried data").is_none());
    assert!(decode_ferried_data(&"9".repeat(60)).is_none());
    // Trailing garbage after a well-formed value is malformed.
    let mut text = encode_ferried_data(&sample_data());
    text.push('!');
    assert!(decode_ferried_data(&text).is_none());
    // An edge pointing at a vertex that does not exist is malformed.
    let mut fd = sample_data();
    fd.trace_graph.edges[0].dst = 9;
    let bad = encode_ferried_data(&fd);
    assert!(decode_ferried_data(&bad).is_none());
}

#[test]
fn malformed_ferry_text_yields_default_data_and_merge_proceeds() {
    let text = String::from("corrupted beyond recognition");
    let (mut fd, decode_failed) = fetch_data_from_headers(Some(&text));
    assert!(decode_failed);
    assert_eq!(fd.trace_graph.nodes.len(), 0);
    assert_eq!(fd.trace_graph.edges.len(), 0);
    assert_eq!(fd.unassigned_properties.len(), 0);
    // The hop proceeds as if it were first in the trace.
    let idx = fd.trace_graph.add_self(String::from("reviews-v1"), AttrMap::new());
    assert_eq!(idx, 0);
    assert_eq!(fd.trace_graph.roots(), vec![0]);
}

#[test]
fn absent_ferry_text_is_no_prior_state_without_failure() {
    let (fd, decode_failed) = fetch_data_from_headers(None);
    assert!(!decode_failed);
    assert_eq!(fd.trace_graph.nodes.len(), 0);
}
