//! The pattern matcher: exact subgraph isomorphism between the accumulated
//! trace graph and the compile-time target pattern. A mapping sends each
//! pattern vertex to a distinct trace vertex with a compatible label, and
//! every pattern edge to a trace edge. The search is a backtracking search
//! over the pattern vertices in order; it returns the first embedding found,
//! and "no mapping" exactly when none exists.

use vstd::prelude::*;

use crate::graph::{GraphModel, TraceGraph};
use crate::target::{TargetGraph, TargetModel};

verus! {

/// The mapping a candidate vector stands for.
pub open spec fn map_model(s: Seq<usize>) -> Seq<int> {
    s.map_values(|x: usize| x as int)
}

/// Whether the trace graph has an edge from `a` to `b`.
pub open spec fn spec_has_edge(g: GraphModel, a: int, b: int) -> bool {
    exists|k: int| 0 <= k < g.1.len() && g.1[k].src == a && g.1[k].dst == b
}

/// Every mapped vertex names a trace vertex.
pub open spec fn mapping_in_range(m: Seq<int>, g: GraphModel) -> bool {
    forall|i: int| 0 <= i < m.len() ==> 0 <= #[trigger] m[i] < g.0.len()
}

/// No two pattern vertices share a trace vertex.
pub open spec fn mapping_injective(m: Seq<int>) -> bool {
    forall|i: int, j: int| 0 <= i < j < m.len() ==> m[i] != m[j]
}

/// A pattern vertex with a fixed label maps to a trace vertex with that
/// label; a pattern vertex without one is a wildcard.
pub open spec fn labels_compatible(m: Seq<int>, t: TargetModel, g: GraphModel) -> bool {
    forall|i: int|
        0 <= i < m.len() ==> match (#[trigger] t.0[i]).1 {
            Some(l) => g.0[m[i]].0 == l,
            None => true,
        }
}

/// Every pattern edge whose endpoints are both mapped already has its image
/// present in the trace graph.
pub open spec fn edges_mapped(m: Seq<int>, t: TargetModel, g: GraphModel) -> bool {
    forall|k: int|
        0 <= k < t.1.len() && (#[trigger] t.1[k]).src < m.len() && t.1[k].dst < m.len()
            ==> spec_has_edge(g, m[t.1[k].src as int], m[t.1[k].dst as int])
}

/// A partial mapping of the first `m.len()` pattern vertices that no
/// constraint among them refutes.
pub open spec fn partial_ok(m: Seq<int>, t: TargetModel, g: GraphModel) -> bool {
    &&& m.len() <= t.0.len()
    &&& mapping_in_range(m, g)
    &&& mapping_injective(m)
    &&& labels_compatible(m, t, g)
    &&& edges_mapped(m, t, g)
}

/// A full embedding of the pattern into the trace graph.
pub open spec fn valid_mapping(m: Seq<int>, t: TargetModel, g: GraphModel) -> bool {
    m.len() == t.0.len() && partial_ok(m, t, g)
}

/// The mapping a pair list stands for: each pair's trace vertex, in order.
pub open spec fn pairs_model(pairs: Seq<(usize, usize)>) -> Seq<int> {
    pairs.map_values(|p: (usize, usize)| p.1 as int)
}

/// A full embedding presented as pairs: the pair at position `i` maps
/// pattern vertex `i` to its trace vertex.
pub open spec fn valid_pairs(pairs: Seq<(usize, usize)>, t: TargetModel, g: GraphModel) -> bool {
    &&& pairs.len() == t.0.len()
    &&& forall|i: int| 0 <= i < pairs.len() ==> (#[trigger] pairs[i]).0 == i
    &&& valid_mapping(pairs_model(pairs), t, g)
}

/// Every prefix of an unrefuted mapping is unrefuted.
pub proof fn lemma_prefix_ok(m: Seq<int>, t: TargetModel, g: GraphModel, k: int)
    requires
        partial_ok(m, t, g),
        0 <= k <= m.len(),
    ensures
        partial_ok(m.take(k), t, g),
{
    let p = m.take(k);
    assert(forall|i: int| 0 <= i < p.len() ==> p[i] == m[i]);
    assert forall|j: int|
        0 <= j < t.1.len() && (#[trigger] t.1[j]).src < p.len() && t.1[j].dst
            < p.len() implies spec_has_edge(g, p[t.1[j].src as int], p[t.1[j].dst as int]) by {
        assert(spec_has_edge(g, m[t.1[j].src as int], m[t.1[j].dst as int]));
    }
}

/// Whether the trace graph has an edge from `a` to `b`.
fn has_edge(trace: &TraceGraph, a: usize, b: usize) -> (r: bool)
    ensures
        r == spec_has_edge(trace.model(), a as int, b as int),
{
    let mut k: usize = 0;
    while k < trace.edges.len()
        invariant
            k <= trace.edges.len(),
            forall|j: int|
                0 <= j < k ==> !((#[trigger] trace.model().1[j]).src == a && trace.model().1[j].dst
                    == b),
        decreases trace.edges.len() - k,
    {
        if trace.edges[k].src == a && trace.edges[k].dst == b {
            proof {
                assert(trace.model().1[k as int].src == a && trace.model().1[k as int].dst == b);
            }
            return true;
        }
        k += 1;
    }
    false
}

/// Whether mapping the next pattern vertex to trace vertex `c` keeps the
/// partial mapping unrefuted: `c` fresh, its label compatible, and every
/// pattern edge this placement completes present in the trace graph.
fn check_candidate(trace: &TraceGraph, target: &TargetGraph, partial: &Vec<usize>, c: usize) -> (ok:
    bool)
    requires
        trace.wf(),
        target.wf(),
        partial_ok(map_model(partial@), target.model(), trace.model()),
        partial@.len() < target.model().0.len(),
        c < trace.model().0.len(),
    ensures
        ok == partial_ok(
            map_model(partial@).push(c as int),
            target.model(),
            trace.model(),
        ),
{
    let ghost t = target.model();
    let ghost g = trace.model();
    let ghost pm = map_model(partial@);
    let ghost ext = pm.push(c as int);
    let i = partial.len();
    // Injectivity: `c` must not be used yet.
    let mut j: usize = 0;
    while j < partial.len()
        invariant
            j <= partial.len(),
            i == partial@.len(),
            pm == map_model(partial@),
            ext == pm.push(c as int),
            forall|x: int| 0 <= x < j ==> map_model(partial@)[x] != c,
        decreases partial.len() - j,
    {
        if partial[j] == c {
            proof {
                assert(pm.len() == partial@.len());
                assert(pm[j as int] == partial@[j as int] as int);
                assert(ext[j as int] == c as int && ext[i as int] == c as int);
                assert(!mapping_injective(ext));
            }
            return false;
        }
        proof {
            assert(map_model(partial@)[j as int] == partial@[j as int] as int);
        }
        j += 1;
    }
    // Label compatibility of the new vertex.
    match &target.vertices[i].label {
        Some(l) => {
            if !(trace.nodes[c].label == *l) {
                proof {
                    assert(t.0[i as int] == target.vertices@[i as int].model());
                    assert(g.0[c as int] == trace.nodes@[c as int].model());
                    assert(!labels_compatible(ext, t, g));
                }
                return false;
            }
        },
        None => {},
    }
    proof {
        assert(t.0[i as int] == target.vertices@[i as int].model());
        assert(g.0[c as int] == trace.nodes@[c as int].model());
    }
    // Every pattern edge both of whose endpoints are now placed, and which
    // the earlier prefix did not already cover, must be present.
    let mut k: usize = 0;
    while k < target.edges.len()
        invariant
            k <= target.edges.len(),
            trace.wf(),
            target.wf(),
            i == partial@.len(),
            c < trace.model().0.len(),
            t == target.model(),
            g == trace.model(),
            pm == map_model(partial@),
            ext == pm.push(c as int),
            partial_ok(pm, t, g),
            mapping_in_range(ext, g),
            forall|x: int, y: int| 0 <= x < y < ext.len() ==> ext[x] != ext[y],
            labels_compatible(ext, t, g),
            forall|j2: int|
                0 <= j2 < k && (#[trigger] t.1[j2]).src < ext.len() && t.1[j2].dst < ext.len()
                    ==> spec_has_edge(g, ext[t.1[j2].src as int], ext[t.1[j2].dst as int]),
        decreases target.edges.len() - k,
    {
        let e = target.edges[k];
        proof {
            assert(t.1[k as int] == e);
        }
        if e.src <= i && e.dst <= i && (e.src == i || e.dst == i) {
            let a = if e.src == i {
                c
            } else {
                partial[e.src]
            };
            let b = if e.dst == i {
                c
            } else {
                partial[e.dst]
            };
            proof {
                assert(a as int == ext[e.src as int]);
                assert(b as int == ext[e.dst as int]);
            }
            if !has_edge(trace, a, b) {
                proof {
                    assert(!edges_mapped(ext, t, g));
                }
                return false;
            }
        } else {
            proof {
                if e.src < ext.len() && e.dst < ext.len() {
                    assert(e.src < i && e.dst < i);
                    assert(spec_has_edge(g, pm[e.src as int], pm[e.dst as int]));
                    assert(ext[e.src as int] == pm[e.src as int]);
                    assert(ext[e.dst as int] == pm[e.dst as int]);
                }
            }
        }
        k += 1;
    }
    true
}

/// The backtracking search: extends `partial` to a full embedding when one
/// exists; reports that no full embedding extends `partial` otherwise.
fn search(trace: &TraceGraph, target: &TargetGraph, partial: Vec<usize>) -> (r: Option<Vec<usize>>)
    requires
        trace.wf(),
        target.wf(),
        partial_ok(map_model(partial@), target.model(), trace.model()),
    ensures
        match r {
            Some(m) => valid_mapping(map_model(m@), target.model(), trace.model()) && map_model(
                m@,
            ).take(partial@.len() as int) == map_model(partial@),
            None => forall|m: Seq<int>|
                !(#[trigger] valid_mapping(m, target.model(), trace.model()) && m.take(
                    partial@.len() as int,
                ) == map_model(partial@)),
        },
    decreases target.vertices.len() - partial.len(),
{
    let ghost t = target.model();
    let ghost g = trace.model();
    let ghost pm = map_model(partial@);
    if partial.len() == target.vertices.len() {
        proof {
            assert(pm.take(partial@.len() as int) =~= pm);
        }
        return Some(partial);
    }
    let i = partial.len();
    let mut c: usize = 0;
    while c < trace.nodes.len()
        invariant
            trace.wf(),
            target.wf(),
            t == target.model(),
            g == trace.model(),
            pm == map_model(partial@),
            i == partial@.len(),
            i < target.vertices.len(),
            partial_ok(pm, t, g),
            c <= trace.nodes.len(),
            forall|m: Seq<int>|
                (#[trigger] valid_mapping(m, t, g) && m.take(i as int) == pm) ==> m[i as int]
                    >= c,
        decreases trace.nodes.len() - c,
    {
        if check_candidate(trace, target, &partial, c) {
            let mut next = partial.clone();
            next.push(c);
            proof {
                assert(next@ =~= partial@.push(c));
                assert(map_model(next@) =~= pm.push(c as int));
            }
            let found = search(trace, target, next);
            match found {
                Some(m) => {
                    proof {
                        let fm = map_model(m@);
                        assert(fm.take(i as int + 1) == pm.push(c as int));
                        assert forall|x: int| 0 <= x < i implies #[trigger] fm.take(i as int)[x]
                            == pm[x] by {
                            assert(fm.take(i as int + 1)[x] == fm[x]);
                            assert(pm.push(c as int)[x] == pm[x]);
                        }
                        assert(fm.take(i as int) =~= pm);
                    }
                    return Some(m);
                },
                None => {
                    proof {
                        assert forall|m: Seq<int>|
                            (#[trigger] valid_mapping(m, t, g) && m.take(i as int) == pm) implies m[i as int] >= c + 1 by {
                            if m[i as int] == c {
                                assert(m.take(i as int + 1) =~= pm.push(c as int));
                                assert(valid_mapping(m, t, g) && m.take(i as int + 1)
                                    == map_model(partial@.push(c)));
                            }
                        }
                    }
                },
            }
        } else {
            proof {
                assert forall|m: Seq<int>|
                    (#[trigger] valid_mapping(m, t, g) && m.take(i as int) == pm) implies m[i as int] >= c + 1 by {
                    if m[i as int] == c {
                        lemma_prefix_ok(m, t, g, i as int + 1);
                        assert(m.take(i as int + 1) =~= pm.push(c as int));
                    }
                }
            }
        }
        c += 1;
    }
    proof {
        assert forall|m: Seq<int>|
            !(#[trigger] valid_mapping(m, t, g) && m.take(i as int) == pm) by {
            if valid_mapping(m, t, g) && m.take(i as int) == pm {
                assert(0 <= m[i as int] < g.0.len());
            }
        }
    }
    None
}

/// Centralized matching: searches the whole locally merged trace graph for
/// an embedding of the pattern. Returns the pairs (pattern vertex, trace
/// vertex) of the first embedding found, or nothing exactly when no
/// embedding exists.
pub fn find_mapping_centralized(trace: &TraceGraph, target: &TargetGraph) -> (r: Option<
    Vec<(usize, usize)>,
>)
    requires
        trace.wf(),
        target.wf(),
    ensures
        match r {
            Some(pairs) => valid_pairs(pairs@, target.model(), trace.model()),
            None => forall|m: Seq<int>|
                !valid_mapping(m, target.model(), trace.model()),
        },
{
    let ghost t = target.model();
    let ghost g = trace.model();
    let empty: Vec<usize> = Vec::new();
    proof {
        assert(map_model(empty@) =~= Seq::<int>::empty());
    }
    match search(trace, target, empty) {
        None => {
            proof {
                assert forall|m: Seq<int>| !valid_mapping(m, t, g) by {
                    if valid_mapping(m, t, g) {
                        assert(m.take(0) =~= map_model(empty@));
                    }
                }
            }
            None
        },
        Some(m) => {
            let mut pairs: Vec<(usize, usize)> = Vec::new();
            let mut i: usize = 0;
            while i < m.len()
                invariant
                    i <= m.len(),
                    pairs@.len() == i,
                    forall|j: int| 0 <= j < i ==> (#[trigger] pairs@[j]).0 == j,
                    forall|j: int| 0 <= j < i ==> (#[trigger] pairs@[j]).1 == m@[j],
                decreases m.len() - i,
            {
                pairs.push((i, m[i]));
                i += 1;
            }
            proof {
                assert(pairs_model(pairs@) =~= map_model(m@));
            }
            Some(pairs)
        },
    }
}

/// The decentralized matcher's answer: either an embedding of the whole
/// pattern, or "no match yet" — the pattern does not embed into the graph
/// seen so far, though hops still to come may complete it.
pub enum MatchOutcome {
    Found(Vec<(usize, usize)>),
    NoMatchYet,
}

/// Decentralized matching: the same search against a possibly partial view
/// of the trace. It never rules the query out: absence of an embedding in
/// the graph seen so far is answered with "no match yet".
pub fn find_mapping_decentralized(trace: &TraceGraph, target: &TargetGraph) -> (r: MatchOutcome)
    requires
        trace.wf(),
        target.wf(),
    ensures
        match r {
            MatchOutcome::Found(pairs) => valid_pairs(pairs@, target.model(), trace.model()),
            MatchOutcome::NoMatchYet => forall|m: Seq<int>|
                !valid_mapping(m, target.model(), trace.model()),
        },
{
    match find_mapping_centralized(trace, target) {
        Some(pairs) => MatchOutcome::Found(pairs),
        None => MatchOutcome::NoMatchYet,
    }
}

/// For a pattern of one labeled vertex and no edges, an embedding exists
/// exactly when the trace graph holds a vertex with that label.
pub proof fn lemma_single_vertex_pattern(t: TargetModel, g: GraphModel, l: Seq<char>)
    requires
        t.0.len() == 1,
        t.1.len() == 0,
        t.0[0].1 == Some(l),
    ensures
        (exists|m: Seq<int>| valid_mapping(m, t, g)) <==> (exists|v: int|
            0 <= v < g.0.len() && (#[trigger] g.0[v]).0 == l),
{
    if exists|m: Seq<int>| valid_mapping(m, t, g) {
        let m = choose|m: Seq<int>| valid_mapping(m, t, g);
        assert(0 <= m[0] < g.0.len());
        assert(g.0[m[0]].0 == l);
    }
    if exists|v: int| 0 <= v < g.0.len() && (#[trigger] g.0[v]).0 == l {
        let v = choose|v: int| 0 <= v < g.0.len() && (#[trigger] g.0[v]).0 == l;
        let m = seq![v];
        assert(valid_mapping(m, t, g)) by {
            assert(m[0] == v);
            assert(mapping_in_range(m, g));
            assert(mapping_injective(m));
            assert(labels_compatible(m, t, g));
            assert(edges_mapped(m, t, g));
        }
    }
}

} // verus!
