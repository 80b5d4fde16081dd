//! The trace graph: a directed graph of (label, attribute-map) vertices,
//! grown hop by hop. Edges point from a newer vertex to the vertices that
//! were roots when it joined (child to ancestor), so the graph is a DAG by
//! construction.

use vstd::prelude::*;

use crate::attrs::{attrs_insert, attrs_wf, AttrMap, AttrsModel};
use crate::property::{PropModel, Property};

verus! {

/// An edge from a child vertex to one of its ancestors, by vertex index.
#[derive(Debug, Clone, Copy, PartialEq, Eq, Structural)]
pub struct Edge {
    pub src: usize,
    pub dst: usize,
}

/// A trace-graph vertex: the label of the hop that created it and the
/// attributes collected for it.
pub struct Vertex {
    pub label: String,
    pub attrs: AttrMap,
}

/// The mathematical content of a vertex.
pub type VertexModel = (Seq<char>, AttrsModel);

/// The mathematical content of a graph: vertices in insertion order, edges
/// in insertion order.
pub type GraphModel = (Seq<VertexModel>, Seq<Edge>);

impl Vertex {
    pub open spec fn model(&self) -> VertexModel {
        (self.label@, self.attrs.model())
    }
}

/// Every edge endpoint names a vertex, and every attribute map has unique
/// keys.
pub open spec fn graph_wf(g: GraphModel) -> bool {
    &&& forall|i: int|
        0 <= i < g.1.len() ==> g.1[i].src < g.0.len() && g.1[i].dst < g.0.len()
    &&& forall|i: int| 0 <= i < g.0.len() ==> attrs_wf(#[trigger] g.0[i].1)
}

/// Whether some edge points at vertex `v`.
pub open spec fn has_incoming(g: GraphModel, v: int) -> bool {
    exists|i: int| 0 <= i < g.1.len() && g.1[i].dst == v
}

/// A root: a vertex without incoming edges — a most causally advanced point
/// of the trace so far.
pub open spec fn is_root(g: GraphModel, v: int) -> bool {
    0 <= v < g.0.len() && !has_incoming(g, v)
}

/// The roots among the vertices `0 .. n`, in ascending order.
pub open spec fn roots_upto(g: GraphModel, n: int) -> Seq<usize>
    decreases n,
{
    if n <= 0 {
        Seq::empty()
    } else if is_root(g, n - 1) {
        roots_upto(g, n - 1).push((n - 1) as usize)
    } else {
        roots_upto(g, n - 1)
    }
}

/// All roots of the graph, in ascending order.
pub open spec fn spec_roots(g: GraphModel) -> Seq<usize> {
    roots_upto(g, g.0.len() as int)
}

pub proof fn lemma_roots_upto_contains(g: GraphModel, n: int, v: usize)
    requires
        0 <= n <= g.0.len(),
        n <= usize::MAX,
    ensures
        roots_upto(g, n).contains(v) <==> (is_root(g, v as int) && (v as int) < n),
    decreases n,
{
    if n > 0 {
        lemma_roots_upto_contains(g, n - 1, v);
        if is_root(g, n - 1) {
            let s = roots_upto(g, n - 1).push((n - 1) as usize);
            assert(roots_upto(g, n) == s);
            if is_root(g, v as int) && (v as int) < n {
                if v as int == n - 1 {
                    assert(s[s.len() - 1] == v);
                    assert(s.contains(v));
                } else {
                    let prev = roots_upto(g, n - 1);
                    assert(prev.contains(v));
                    let i = choose|i: int| 0 <= i < prev.len() && prev[i] == v;
                    assert(s[i] == v);
                }
            }
            if s.contains(v) {
                let i = choose|i: int| 0 <= i < s.len() && s[i] == v;
                if i < s.len() - 1 {
                    assert(roots_upto(g, n - 1)[i] == v);
                }
            }
        }
    }
}

/// The roots up to `n` are listed in strictly ascending order below `n`.
pub proof fn lemma_roots_upto_increasing(g: GraphModel, n: int)
    requires
        0 <= n <= usize::MAX,
    ensures
        forall|k: int|
            0 <= k < roots_upto(g, n).len() ==> #[trigger] roots_upto(g, n)[k] < n,
        forall|i: int, j: int|
            0 <= i < j < roots_upto(g, n).len() ==> roots_upto(g, n)[i] < roots_upto(g, n)[j],
    decreases n,
{
    if n > 0 {
        lemma_roots_upto_increasing(g, n - 1);
        let prev = roots_upto(g, n - 1);
        let s = roots_upto(g, n);
        if is_root(g, n - 1) {
            assert(s == prev.push((n - 1) as usize));
            assert forall|k: int| 0 <= k < s.len() implies #[trigger] s[k] < n by {
                if k < prev.len() {
                    assert(s[k] == prev[k]);
                } else {
                    assert(s[k] == (n - 1) as usize);
                }
            }
            assert forall|i: int, j: int| 0 <= i < j < s.len() implies s[i] < s[j] by {
                if j == s.len() - 1 {
                    assert(s[i] == prev[i]);
                    assert(prev[i] < n - 1);
                } else {
                    assert(s[i] == prev[i] && s[j] == prev[j]);
                }
            }
        }
    }
}

/// A graph whose sole root is `idx` has exactly the root list `[idx]`.
pub proof fn lemma_sole_root(g: GraphModel, idx: usize)
    requires
        forall|v: int| is_root(g, v) <==> v == idx,
        g.0.len() <= usize::MAX,
    ensures
        spec_roots(g) == seq![idx],
{
    let s = spec_roots(g);
    let n = g.0.len() as int;
    lemma_roots_upto_increasing(g, n);
    assert(is_root(g, idx as int));
    assert(idx < g.0.len());
    lemma_roots_upto_contains(g, n, idx);
    assert(s.contains(idx));
    let i = choose|i: int| 0 <= i < s.len() && s[i] == idx;
    assert forall|k: int| 0 <= k < s.len() implies s[k] == idx by {
        assert(s.contains(s[k]));
        lemma_roots_upto_contains(g, n, s[k]);
        assert(is_root(g, s[k] as int));
    }
    assert(s.len() == 1) by {
        if s.len() >= 2 {
            assert(s[0] == idx && s[1] == idx);
        }
    }
    assert(s =~= seq![idx]);
}

/// Every edge points from a newer vertex to an older one. Graphs grown only
/// by `add_self` keep this, which is why they are acyclic by construction; a
/// decoded graph need not satisfy it.
pub open spec fn edges_descend(g: GraphModel) -> bool {
    forall|i: int| 0 <= i < g.1.len() ==> (#[trigger] g.1[i]).dst < g.1[i].src
}

/// Edges from a fresh vertex `src` to each of the roots `rs`.
pub open spec fn root_edges(rs: Seq<usize>, src: usize) -> Seq<Edge> {
    rs.map_values(|r: usize| (Edge { src, dst: r }))
}

/// The index of the first vertex whose label is `l`, or -1 when there is
/// none.
pub open spec fn label_index(ns: Seq<VertexModel>, l: Seq<char>) -> int
    decreases ns.len(),
{
    if ns.len() == 0 {
        -1
    } else if ns[0].0 == l {
        0
    } else {
        let r = label_index(ns.drop_first(), l);
        if r < 0 {
            -1
        } else {
            r + 1
        }
    }
}

/// Whether some vertex carries label `l`.
pub open spec fn has_label(ns: Seq<VertexModel>, l: Seq<char>) -> bool {
    exists|i: int| 0 <= i < ns.len() && ns[i].0 == l
}

pub proof fn lemma_label_index(ns: Seq<VertexModel>, l: Seq<char>)
    ensures
        has_label(ns, l) ==> {
            let i = label_index(ns, l);
            &&& 0 <= i < ns.len()
            &&& ns[i].0 == l
            &&& forall|j: int| 0 <= j < i ==> ns[j].0 != l
        },
        !has_label(ns, l) ==> label_index(ns, l) == -1,
    decreases ns.len(),
{
    if ns.len() > 0 {
        if ns[0].0 == l {
        } else {
            let tail = ns.drop_first();
            lemma_label_index(tail, l);
            assert forall|i: int| 0 <= i < ns.len() && ns[i].0 == l implies i >= 1 && tail[i - 1].0
                == l by {}
            if has_label(ns, l) {
                let i = choose|i: int| 0 <= i < ns.len() && ns[i].0 == l;
                assert(tail[i - 1].0 == l);
                assert(has_label(tail, l));
            }
            if has_label(tail, l) {
                let i = choose|i: int| 0 <= i < tail.len() && tail[i].0 == l;
                assert(ns[i + 1].0 == l);
                assert(has_label(ns, l));
            }
        }
    }
}

/// Attaching one property: the attribute map of the first vertex labeled
/// with the property's owner gains the entry; a property without an owner
/// vertex changes nothing.
pub open spec fn graph_assign(g: GraphModel, p: PropModel) -> GraphModel {
    if has_label(g.0, p.0) {
        let i = label_index(g.0, p.0);
        (g.0.update(i, (g.0[i].0, attrs_insert(g.0[i].1, p.1, p.2))), g.1)
    } else {
        g
    }
}

/// Attaching a list of properties, first to last.
pub open spec fn assign_all(g: GraphModel, ps: Seq<PropModel>) -> GraphModel
    decreases ps.len(),
{
    if ps.len() == 0 {
        g
    } else {
        graph_assign(assign_all(g, ps.drop_last()), ps.last())
    }
}

/// The properties among `ps` whose owner has no vertex among `ns`: these
/// stay pending (and are dropped, not erred, if the vertex never appears).
pub open spec fn pending_after(ns: Seq<VertexModel>, ps: Seq<PropModel>) -> Seq<PropModel>
    decreases ps.len(),
{
    if ps.len() == 0 {
        Seq::empty()
    } else if has_label(ns, ps.last().0) {
        pending_after(ns, ps.drop_last())
    } else {
        pending_after(ns, ps.drop_last()).push(ps.last())
    }
}

/// The key-value pairs among `ps` that land on vertex `i`: the entries of
/// the properties whose owner label first occurs at vertex `i`.
pub open spec fn props_for(ns: Seq<VertexModel>, ps: Seq<PropModel>, i: int) -> Seq<
    (u64, Seq<char>),
>
    decreases ps.len(),
{
    if ps.len() == 0 {
        Seq::empty()
    } else {
        let rest = props_for(ns, ps.drop_last(), i);
        if has_label(ns, ps.last().0) && label_index(ns, ps.last().0) == i {
            rest.push((ps.last().1, ps.last().2))
        } else {
            rest
        }
    }
}

/// `has_label` and `label_index` read only the labels.
pub proof fn lemma_label_funcs_on_labels(ns1: Seq<VertexModel>, ns2: Seq<VertexModel>, l: Seq<char>)
    requires
        ns1.len() == ns2.len(),
        forall|i: int| 0 <= i < ns1.len() ==> ns1[i].0 == ns2[i].0,
    ensures
        has_label(ns1, l) == has_label(ns2, l),
        label_index(ns1, l) == label_index(ns2, l),
    decreases ns1.len(),
{
    if ns1.len() > 0 {
        if ns1[0].0 == l {
        } else {
            let t1 = ns1.drop_first();
            let t2 = ns2.drop_first();
            assert(forall|i: int| 0 <= i < t1.len() ==> t1[i].0 == ns1[i + 1].0);
            assert(forall|i: int| 0 <= i < t2.len() ==> t2[i].0 == ns2[i + 1].0);
            lemma_label_funcs_on_labels(t1, t2, l);
            if has_label(ns1, l) {
                let i = choose|i: int| 0 <= i < ns1.len() && ns1[i].0 == l;
                assert(t1[i - 1].0 == l);
                assert(has_label(t1, l));
            }
            if has_label(ns2, l) {
                let i = choose|i: int| 0 <= i < ns2.len() && ns2[i].0 == l;
                assert(t2[i - 1].0 == l);
                assert(has_label(t2, l));
            }
        }
    }
}

/// `props_for` reads only the labels.
pub proof fn lemma_props_for_on_labels(
    ns1: Seq<VertexModel>,
    ns2: Seq<VertexModel>,
    ps: Seq<PropModel>,
    i: int,
)
    requires
        ns1.len() == ns2.len(),
        forall|j: int| 0 <= j < ns1.len() ==> ns1[j].0 == ns2[j].0,
    ensures
        props_for(ns1, ps, i) == props_for(ns2, ps, i),
    decreases ps.len(),
{
    if ps.len() > 0 {
        lemma_props_for_on_labels(ns1, ns2, ps.drop_last(), i);
        lemma_label_funcs_on_labels(ns1, ns2, ps.last().0);
    }
}

/// Assignment changes no vertex count, label, or edge, and keeps the graph
/// well formed.
pub proof fn lemma_assign_all_shape(g: GraphModel, ps: Seq<PropModel>)
    requires
        graph_wf(g),
    ensures
        graph_wf(assign_all(g, ps)),
        assign_all(g, ps).0.len() == g.0.len(),
        forall|i: int| 0 <= i < g.0.len() ==> assign_all(g, ps).0[i].0 == g.0[i].0,
        assign_all(g, ps).1 == g.1,
    decreases ps.len(),
{
    if ps.len() > 0 {
        lemma_assign_all_shape(g, ps.drop_last());
        let p = assign_all(g, ps.drop_last());
        let last = ps.last();
        if has_label(p.0, last.0) {
            lemma_label_index(p.0, last.0);
            let t = label_index(p.0, last.0);
            crate::attrs::lemma_attrs_insert_wf(p.0[t].1, last.1, last.2);
        }
    }
}

/// Factoring assignment per vertex: after assigning `ps`, vertex `i` holds
/// its old attributes with exactly the entries destined for it folded in.
pub proof fn lemma_assign_all_factor(g: GraphModel, ps: Seq<PropModel>, i: int)
    requires
        graph_wf(g),
        0 <= i < g.0.len(),
    ensures
        assign_all(g, ps).0[i].1 == crate::attrs::kvs_insert_all(g.0[i].1, props_for(g.0, ps, i)),
    decreases ps.len(),
{
    if ps.len() > 0 {
        lemma_assign_all_factor(g, ps.drop_last(), i);
        lemma_assign_all_shape(g, ps.drop_last());
        let p = assign_all(g, ps.drop_last());
        let last = ps.last();
        lemma_label_funcs_on_labels(p.0, g.0, last.0);
        let pf_rest = props_for(g.0, ps.drop_last(), i);
        if has_label(g.0, last.0) && label_index(g.0, last.0) == i {
            assert(props_for(g.0, ps, i) == pf_rest.push((last.1, last.2)));
            assert(props_for(g.0, ps, i).drop_last() =~= pf_rest);
            assert(assign_all(g, ps).0[i].1 == attrs_insert(p.0[i].1, last.1, last.2));
        } else {
            assert(props_for(g.0, ps, i) == pf_rest);
            if has_label(g.0, last.0) {
                let t = label_index(g.0, last.0);
                lemma_label_index(g.0, last.0);
                assert(t != i);
                assert(assign_all(g, ps).0[i] == p.0[i]);
            } else {
                assert(assign_all(g, ps) == p);
            }
        }
    }
}

/// Assigning the same property list twice yields the same graph — the same
/// vertices, attribute maps, and edges — as assigning it once.
pub proof fn lemma_assign_all_idempotent(g: GraphModel, ps: Seq<PropModel>)
    requires
        graph_wf(g),
    ensures
        assign_all(assign_all(g, ps), ps) == assign_all(g, ps),
{
    let mid = assign_all(g, ps);
    let twice = assign_all(mid, ps);
    lemma_assign_all_shape(g, ps);
    lemma_assign_all_shape(mid, ps);
    assert forall|i: int| 0 <= i < mid.0.len() implies twice.0[i] == mid.0[i] by {
        lemma_assign_all_factor(g, ps, i);
        lemma_assign_all_factor(mid, ps, i);
        lemma_props_for_on_labels(mid.0, g.0, ps, i);
        crate::attrs::lemma_insert_all_idempotent(g.0[i].1, props_for(g.0, ps, i));
        assert(twice.0[i].1 == mid.0[i].1);
        assert(twice.0[i].0 == mid.0[i].0);
    }
    assert(twice.0 =~= mid.0);
    assert(twice.1 == mid.1);
}

/// A directed graph of (label, attribute-map) vertices, owned by one
/// in-flight request.
pub struct TraceGraph {
    pub nodes: Vec<Vertex>,
    pub edges: Vec<Edge>,
}

impl TraceGraph {
    pub open spec fn model(&self) -> GraphModel {
        (self.nodes@.map_values(|v: Vertex| v.model()), self.edges@)
    }

    pub open spec fn wf(&self) -> bool {
        graph_wf(self.model())
    }

    pub fn new() -> (r: TraceGraph)
        ensures
            r.model().0 == Seq::<VertexModel>::empty(),
            r.model().1 == Seq::<Edge>::empty(),
            r.wf(),
    {
        let r = TraceGraph { nodes: Vec::new(), edges: Vec::new() };
        proof {
            assert(r.model().0 =~= Seq::<VertexModel>::empty());
        }
        r
    }

    pub fn node_count(&self) -> (n: usize)
        ensures
            n == self.model().0.len(),
    {
        self.nodes.len()
    }

    pub fn edge_count(&self) -> (n: usize)
        ensures
            n == self.model().1.len(),
    {
        self.edges.len()
    }

    /// Whether some edge points at vertex `v`.
    fn has_incoming_edge(&self, v: usize) -> (r: bool)
        ensures
            r == has_incoming(self.model(), v as int),
    {
        let mut i: usize = 0;
        while i < self.edges.len()
            invariant
                i <= self.edges.len(),
                forall|j: int| 0 <= j < i ==> self.model().1[j].dst != v,
            decreases self.edges.len() - i,
        {
            if self.edges[i].dst == v {
                proof {
                    assert(self.model().1[i as int].dst == v);
                }
                return true;
            }
            i += 1;
        }
        false
    }

    /// The vertices without incoming edges, in ascending order.
    pub fn roots(&self) -> (r: Vec<usize>)
        ensures
            r@ == spec_roots(self.model()),
            forall|v: usize|
                r@.contains(v) <==> is_root(self.model(), v as int),
            forall|i: int, j: int| 0 <= i < j < r@.len() ==> r@[i] < r@[j],
    {
        let mut r: Vec<usize> = Vec::new();
        let mut v: usize = 0;
        proof {
            assert(r@ =~= roots_upto(self.model(), 0));
        }
        while v < self.nodes.len()
            invariant
                v <= self.nodes.len(),
                r@ == roots_upto(self.model(), v as int),
                forall|k: int| 0 <= k < r@.len() ==> #[trigger] r@[k] < v,
                forall|i: int, j: int| 0 <= i < j < r@.len() ==> r@[i] < r@[j],
            decreases self.nodes.len() - v,
        {
            if !self.has_incoming_edge(v) {
                r.push(v);
            }
            v += 1;
        }
        proof {
            assert forall|w: usize| r@.contains(w) <==> is_root(self.model(), w as int) by {
                lemma_roots_upto_contains(self.model(), self.model().0.len() as int, w);
            }
        }
        r
    }

    /// Registers this hop as a vertex: appends the vertex and adds an edge
    /// from it to every current root, which makes it the sole root.
    pub fn add_self(&mut self, label: String, attrs: AttrMap) -> (idx: usize)
        requires
            old(self).wf(),
            attrs.wf(),
            old(self).model().0.len() < usize::MAX,
        ensures
            idx == old(self).model().0.len(),
            final(self).wf(),
            final(self).model().0 == old(self).model().0.push((label@, attrs.model())),
            final(self).model().1 == old(self).model().1 + root_edges(
                spec_roots(old(self).model()),
                idx,
            ),
            forall|v: int| is_root(final(self).model(), v) <==> v == idx,
            spec_roots(final(self).model()) == seq![idx],
            edges_descend(old(self).model()) ==> edges_descend(final(self).model()),
    {
        let ghost g0 = self.model();
        let rs = self.roots();
        let idx = self.nodes.len();
        self.nodes.push(Vertex { label, attrs });
        let mut i: usize = 0;
        proof {
            assert(self.model().0 =~= g0.0.push((label@, attrs.model())));
            assert(self.model().1 =~= g0.1 + root_edges(rs@.take(0), idx));
        }
        while i < rs.len()
            invariant
                i <= rs.len(),
                rs@ == spec_roots(g0),
                forall|v: usize| rs@.contains(v) <==> is_root(g0, v as int),
                idx == g0.0.len(),
                self.model().0 == g0.0.push((label@, attrs.model())),
                self.model().1 == g0.1 + root_edges(rs@.take(i as int), idx),
            decreases rs.len() - i,
        {
            self.edges.push(Edge { src: idx, dst: rs[i] });
            proof {
                assert(root_edges(rs@.take(i as int + 1), idx) =~= root_edges(
                    rs@.take(i as int),
                    idx,
                ).push((Edge { src: idx, dst: rs@[i as int] })));
                assert(self.model().1 =~= g0.1 + root_edges(rs@.take(i as int + 1), idx));
            }
            i += 1;
        }
        proof {
            let g1 = self.model();
            assert(rs@.take(rs@.len() as int) =~= rs@);
            assert(g1.1 == g0.1 + root_edges(rs@, idx));
            // Well-formedness: old edges stay in range, new edges point from
            // idx to old roots, which are old vertices.
            assert forall|j: int|
                0 <= j < g1.1.len() implies g1.1[j].src < g1.0.len() && g1.1[j].dst
                < g1.0.len() by {
                if j < g0.1.len() {
                    assert(g1.1[j] == g0.1[j]);
                } else {
                    let k = j - g0.1.len();
                    assert(g1.1[j] == (Edge { src: idx, dst: rs@[k] }));
                    assert(rs@.contains(rs@[k]));
                    assert(is_root(g0, rs@[k] as int));
                }
            }
            assert forall|j: int| 0 <= j < g1.0.len() implies attrs_wf(#[trigger] g1.0[j].1) by {
                if j < g0.0.len() {
                    assert(g1.0[j] == g0.0[j]);
                }
            }
            // New edges descend: they point from the new vertex at old ones.
            if edges_descend(g0) {
                assert forall|j: int|
                    0 <= j < g1.1.len() implies (#[trigger] g1.1[j]).dst < g1.1[j].src by {
                    if j < g0.1.len() {
                        assert(g1.1[j] == g0.1[j]);
                    } else {
                        let k = j - g0.1.len();
                        assert(g1.1[j] == (Edge { src: idx, dst: rs@[k] }));
                        assert(rs@.contains(rs@[k]));
                        assert(is_root(g0, rs@[k] as int));
                    }
                }
            }
            // The new vertex is the sole root.
            assert forall|v: int| is_root(g1, v) <==> v == idx by {
                if v == idx {
                    assert forall|j: int| 0 <= j < g1.1.len() implies g1.1[j].dst != idx by {
                        if j < g0.1.len() {
                            assert(g0.1[j].dst < g0.0.len());
                        } else {
                            let k = j - g0.1.len();
                            assert(g1.1[j] == (Edge { src: idx, dst: rs@[k] }));
                            assert(rs@.contains(rs@[k]));
                            assert(is_root(g0, rs@[k] as int));
                        }
                    }
                    assert(is_root(g1, idx as int));
                } else {
                    if 0 <= v < g1.0.len() as int {
                        if v < g0.0.len() {
                            if is_root(g0, v) {
                                assert(rs@.contains(v as usize));
                                let k = choose|k: int| 0 <= k < rs@.len() && rs@[k] == v as usize;
                                assert(g1.1[g0.1.len() + k] == (Edge {
                                    src: idx,
                                    dst: rs@[k],
                                }));
                                assert(has_incoming(g1, v));
                            } else {
                                let j = choose|j: int|
                                    0 <= j < g0.1.len() && g0.1[j].dst == v;
                                assert(g1.1[j].dst == v);
                                assert(has_incoming(g1, v));
                            }
                        }
                    }
                }
            }
            lemma_sole_root(g1, idx);
        }
        idx
    }

    /// The first vertex whose label is `l`, scanning from the front.
    pub fn find_label(&self, l: &String) -> (r: Option<usize>)
        ensures
            match r {
                Some(i) => i < self.model().0.len() && self.model().0[i as int].0 == l@ && forall|
                    j: int,
                |
                    0 <= j < i ==> self.model().0[j].0 != l@,
                None => !has_label(self.model().0, l@),
            },
    {
        let mut i: usize = 0;
        while i < self.nodes.len()
            invariant
                i <= self.nodes.len(),
                forall|j: int| 0 <= j < i ==> self.model().0[j].0 != l@,
            decreases self.nodes.len() - i,
        {
            if self.nodes[i].label == *l {
                proof {
                    assert(self.model().0[i as int] == self.nodes@[i as int].model());
                }
                return Some(i);
            }
            proof {
                assert(self.model().0[i as int] == self.nodes@[i as int].model());
            }
            i += 1;
        }
        None
    }

    /// Attaches a property to the first vertex whose label equals its owner;
    /// reports whether such a vertex existed. Assignment never creates
    /// vertices, and assigning an entry that is already there changes
    /// nothing.
    pub fn assign(&mut self, p: &Property) -> (found: bool)
        requires
            old(self).wf(),
        ensures
            final(self).wf(),
            found == has_label(old(self).model().0, p.owner@),
            final(self).model() == graph_assign(old(self).model(), p.model()),
    {
        let ghost g0 = self.model();
        proof {
            lemma_label_index(g0.0, p.owner@);
        }
        match self.find_label(&p.owner) {
            Some(i) => {
                proof {
                    assert(has_label(g0.0, p.owner@));
                    assert(label_index(g0.0, p.owner@) == i);
                    crate::attrs::lemma_attrs_insert_wf(g0.0[i as int].1, p.id, p.value@);
                }
                let node = &mut self.nodes[i];
                let value = p.value.clone();
                node.attrs.insert(p.id, value);
                proof {
                    assert(self.model().0 =~= g0.0.update(
                        i as int,
                        (g0.0[i as int].0, attrs_insert(g0.0[i as int].1, p.id, p.value@)),
                    ));
                    assert(self.model().1 =~= g0.1);
                    assert(self.model() == graph_assign(g0, p.model()));
                }
                true
            },
            None => {
                proof {
                    assert(!has_label(g0.0, p.owner@));
                }
                false
            },
        }
    }
}

} // verus!
