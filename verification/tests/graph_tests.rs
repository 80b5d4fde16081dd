use snicket_core::attrs::AttrMap;
use snicket_core::ferry::FerriedData;
use snicket_core::graph::TraceGraph;
use snicket_core::property::Property;

fn labeled(g: &mut TraceGraph, label: &str) -> usize {
    g.add_self(String::from(label), AttrMap::new())
}

#[test]
fn add_self_to_empty_graph_is_sole_root() {
    let mut g = TraceGraph::new();
    let idx = labeled(&mut g, "productpage-v1");
    assert_eq!(idx, 0);
    assert_eq!(g.roots(), vec![0]);
    assert_eq!(g.edge_count(), 0);
}

#[test]
fn add_self_captures_all_prior_roots() {
    let mut g = TraceGraph::new();
    let a = labeled(&mut g, "ratings-v1");
    let b = labeled(&mut g, "reviews-v1");
    assert_eq!(g.roots(), vec![b]);
    assert_eq!(g.edge_count(), 1);
    assert_eq!(g.edges[0].src, b);
    assert_eq!(g.edges[0].dst, a);
    let c = labeled(&mut g, "productpage-v1");
    // The new vertex is always the sole root; all prior roots became its
    // ancestors.
    assert_eq!(g.roots(), vec![c]);
    assert_eq!(g.edge_count(), 2);
}

#[test]
fn add_self_points_at_every_root_of_a_forest() {
    // Two decoded fragments could leave two roots; the next hop must point
    // at both.
    let mut g = TraceGraph::new();
    let a = labeled(&mut g, "details-v1");
    let _b = labeled(&mut g, "ratings-v1");
    // Manually add a second rootless vertex the way a decoded graph could
    // hold one.
    g.nodes.push(snicket_core::graph::Vertex {
        label: String::from("reviews-v1"),
        attrs: AttrMap::new(),
    });
    let roots = g.roots();
    assert_eq!(roots.len(), 2);
    let d = labeled(&mut g, "productpage-v1");
    assert_eq!(g.roots(), vec![d]);
    assert_eq!(g.edge_count(), 3);
    assert!(a < d);
}

#[test]
fn assign_attaches_to_first_matching_vertex_only() {
    let mut g = TraceGraph::new();
    labeled(&mut g, "reviews-v1");
    labeled(&mut g, "ratings-v1");
    let p = Property::new(String::from("ratings-v1"), 7, String::from("v"));
    assert!(g.assign(&p));
    assert!(g.nodes[1].attrs.get(7).is_some());
    assert_eq!(g.nodes[1].attrs.get(7).unwrap(), "v");
    assert!(g.nodes[0].attrs.get(7).is_none());
    let q = Property::new(String::from("details-v1"), 7, String::from("w"));
    assert!(!g.assign(&q));
}

#[test]
fn assign_pending_is_idempotent_on_the_attribute_maps() {
    let mut fd = FerriedData::default();
    fd.trace_graph.add_self(String::from("reviews-v1"), AttrMap::new());
    fd.unassigned_properties.push(Property::new(
        String::from("reviews-v1"),
        0,
        String::from("reviews-v1"),
    ));
    fd.unassigned_properties.push(Property::new(
        String::from("ratings-v1"),
        0,
        String::from("ratings-v1"),
    ));
    fd.assign_pending();
    let entries_once = fd.trace_graph.nodes[0].attrs.entries.clone();
    let pending_once: Vec<(String, u64, String)> = fd
        .unassigned_properties
        .iter()
        .map(|p| (p.owner.clone(), p.id, p.value.clone()))
        .collect();
    // The property whose owner existed was attached and left the pending
    // set; the other stays pending.
    assert_eq!(entries_once, vec![(0u64, String::from("reviews-v1"))]);
    assert_eq!(
        pending_once,
        vec![(String::from("ratings-v1"), 0u64, String::from("ratings-v1"))]
    );
    // Applying the same pending set again changes nothing.
    fd.unassigned_properties.push(Property::new(
        String::from("reviews-v1"),
        0,
        String::from("reviews-v1"),
    ));
    fd.assign_pending();
    assert_eq!(fd.trace_graph.nodes[0].attrs.entries, entries_once);
    let pending_twice: Vec<(String, u64, String)> = fd
        .unassigned_properties
        .iter()
        .map(|p| (p.owner.clone(), p.id, p.value.clone()))
        .collect();
    assert_eq!(pending_twice, pending_once);
}

#[test]
fn attr_map_insert_replaces_in_place() {
    let mut m = AttrMap::new();
    m.insert(1, String::from("x"));
    m.insert(2, String::from("y"));
    m.insert(1, String::from("z"));
    assert_eq!(m.len(), 2);
    assert_eq!(m.entries[0], (1u64, String::from("z")));
    assert_eq!(m.entries[1], (2u64, String::from("y")));
}

#[test]
fn property_set_insert_deduplicates() {
    let mut v: Vec<Property> = Vec::new();
    snicket_core::property::props_insert(
        &mut v,
        Property::new(String::from("a"), 0, String::from("x")),
    );
    snicket_core::property::props_insert(
        &mut v,
        Property::new(String::from("a"), 0, String::from("x")),
    );
    snicket_core::property::props_insert(
        &mut v,
        Property::new(String::from("a"), 0, String::from("y")),
    );
    assert_eq!(v.len(), 2);
}
