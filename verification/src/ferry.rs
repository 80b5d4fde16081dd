//! Ferried data: the unit of transport between hops — the trace graph so
//! far, together with the properties collected but not yet attached to a
//! vertex.

use vstd::prelude::*;

use crate::graph::{
    assign_all, graph_assign, graph_wf, has_label, pending_after, GraphModel, TraceGraph,
    VertexModel,
};
use crate::property::{props_model, props_unique, PropModel, Property};

verus! {

/// The mathematical content of a ferried-data value.
pub type FdModel = (GraphModel, Seq<PropModel>);

/// The state carried across hops in a header, or across the request and
/// response phases of one hop in the local keyed store.
pub struct FerriedData {
    pub trace_graph: TraceGraph,
    pub unassigned_properties: Vec<Property>,
}

impl FerriedData {
    pub open spec fn model(&self) -> FdModel {
        (self.trace_graph.model(), props_model(self.unassigned_properties@))
    }

    pub open spec fn wf(&self) -> bool {
        &&& self.trace_graph.wf()
        &&& props_unique(self.model().1)
    }

    /// Whether the value is the default: empty graph, nothing pending.
    pub open spec fn is_empty_model(&self) -> bool {
        &&& self.model().0.0 == Seq::<VertexModel>::empty()
        &&& self.model().0.1 == Seq::<crate::graph::Edge>::empty()
        &&& self.model().1 == Seq::<PropModel>::empty()
    }

    /// Attaches every pending property whose owner vertex exists; the rest
    /// stay pending, to be dropped (not erred) if their vertex never appears.
    pub fn assign_pending(&mut self)
        requires
            old(self).wf(),
        ensures
            final(self).wf(),
            final(self).model().0 == assign_all(old(self).model().0, old(self).model().1),
            final(self).model().1 == pending_after(
                old(self).model().0.0,
                old(self).model().1,
            ),
    {
        let ghost g0 = self.trace_graph.model();
        let ghost ps0 = props_model(self.unassigned_properties@);
        let mut leftover: Vec<Property> = Vec::new();
        let mut i: usize = 0;
        proof {
            assert(ps0.take(0) =~= Seq::<PropModel>::empty());
            assert(props_model(leftover@) =~= Seq::<PropModel>::empty());
        }
        while i < self.unassigned_properties.len()
            invariant
                i <= self.unassigned_properties.len(),
                self.unassigned_properties == old(self).unassigned_properties,
                ps0 == props_model(self.unassigned_properties@),
                graph_wf(g0),
                self.trace_graph.wf(),
                self.trace_graph.model() == assign_all(g0, ps0.take(i as int)),
                props_model(leftover@) == pending_after(g0.0, ps0.take(i as int)),
                self.trace_graph.model().0.len() == g0.0.len(),
                forall|j: int|
                    0 <= j < g0.0.len() ==> self.trace_graph.model().0[j].0 == g0.0[j].0,
            decreases self.unassigned_properties.len() - i,
        {
            let ghost before = self.trace_graph.model();
            let ghost pm = ps0[i as int];
            proof {
                assert(props_model(self.unassigned_properties@)[i as int]
                    == self.unassigned_properties@[i as int].model());
            }
            let found = self.trace_graph.assign(&self.unassigned_properties[i]);
            proof {
                assert(ps0.take(i as int + 1).drop_last() =~= ps0.take(i as int));
                assert(ps0.take(i as int + 1).last() == pm);
                assert(assign_all(g0, ps0.take(i as int + 1)) == graph_assign(before, pm));
                crate::graph::lemma_label_funcs_on_labels(before.0, g0.0, pm.0);
                assert(found == has_label(g0.0, pm.0));
                // Assignment keeps vertex count and labels.
                let now = self.trace_graph.model();
                if has_label(before.0, pm.0) {
                    crate::graph::lemma_label_index(before.0, pm.0);
                    let t = crate::graph::label_index(before.0, pm.0);
                    assert(now.0 == before.0.update(
                        t,
                        (before.0[t].0, crate::attrs::attrs_insert(before.0[t].1, pm.1, pm.2)),
                    ));
                    assert(now.0.len() == before.0.len());
                    assert forall|j: int| 0 <= j < g0.0.len() implies now.0[j].0 == g0.0[j].0 by {
                        if j != t {
                            assert(now.0[j] == before.0[j]);
                        }
                    }
                }
            }
            if !found {
                let p = self.unassigned_properties[i].clone();
                let ghost lm = props_model(leftover@);
                leftover.push(p);
                proof {
                    assert(props_model(leftover@) =~= lm.push(pm));
                    assert(props_model(leftover@) =~= pending_after(
                        g0.0,
                        ps0.take(i as int + 1),
                    ));
                }
            } else {
                proof {
                    assert(props_model(leftover@) == pending_after(g0.0, ps0.take(i as int + 1)));
                }
            }
            i += 1;
        }
        proof {
            assert(ps0.take(ps0.len() as int) =~= ps0);
            lemma_pending_after_sub(g0.0, ps0);
        }
        self.unassigned_properties = leftover;
    }
}

impl Default for FerriedData {
    /// The default: empty graph, no pending properties — the state of a
    /// request before any hop has contributed.
    fn default() -> (r: FerriedData)
        ensures
            r.wf(),
            r.is_empty_model(),
    {
        let r = FerriedData { trace_graph: TraceGraph::new(), unassigned_properties: Vec::new() };
        proof {
            assert(props_model(r.unassigned_properties@) =~= Seq::<PropModel>::empty());
        }
        r
    }
}

/// What stays pending is drawn from what was pending, so a unique pending
/// set stays unique; and none of it has an owner vertex.
pub proof fn lemma_pending_after_sub(ns: Seq<VertexModel>, ps: Seq<PropModel>)
    ensures
        forall|j: int|
            0 <= j < pending_after(ns, ps).len() ==> crate::property::props_contain(
                ps,
                #[trigger] pending_after(ns, ps)[j],
            ) && !has_label(ns, pending_after(ns, ps)[j].0),
        props_unique(ps) ==> props_unique(pending_after(ns, ps)),
    decreases ps.len(),
{
    if ps.len() > 0 {
        let rest = ps.drop_last();
        lemma_pending_after_sub(ns, rest);
        assert(forall|j: int| 0 <= j < rest.len() ==> rest[j] == ps[j]);
        let pa = pending_after(ns, ps);
        let pa_rest = pending_after(ns, rest);
        assert forall|j: int|
            0 <= j < pa.len() implies crate::property::props_contain(ps, #[trigger] pa[j])
            && !has_label(ns, pa[j].0) by {
            if has_label(ns, ps.last().0) || j < pa.len() - 1 {
                assert(pa[j] == pa_rest[j]);
                assert(crate::property::props_contain(rest, pa_rest[j]));
                let j2 = choose|j2: int| 0 <= j2 < rest.len() && rest[j2] == pa_rest[j];
                assert(ps[j2] == pa[j]);
            } else {
                assert(pa[j] == ps.last());
                assert(ps[ps.len() - 1] == pa[j]);
            }
        }
        if props_unique(ps) {
            assert(props_unique(rest));
            if !has_label(ns, ps.last().0) {
                assert forall|i: int, j: int| 0 <= i < j < pa.len() implies pa[i] != pa[j] by {
                    if j == pa.len() - 1 {
                        assert(pa[i] == pa_rest[i]);
                        assert(crate::property::props_contain(rest, pa_rest[i]));
                        let j2 = choose|j2: int| 0 <= j2 < rest.len() && rest[j2] == pa_rest[i];
                        assert(ps[j2] == pa[i]);
                        assert(ps[j2] != ps.last());
                    }
                }
            }
        }
    }
}

/// Once pending properties have been attached, attaching the leftover again
/// changes nothing: the leftover owners have no vertex, each such assignment
/// is a no-op, and the leftover stays pending as it is.
pub proof fn lemma_assign_pending_stable(g: GraphModel, ps: Seq<PropModel>)
    requires
        graph_wf(g),
    ensures
        assign_all(assign_all(g, ps), pending_after(g.0, ps)) == assign_all(g, ps),
        pending_after(assign_all(g, ps).0, pending_after(g.0, ps)) == pending_after(g.0, ps),
{
    let mid = assign_all(g, ps);
    let left = pending_after(g.0, ps);
    crate::graph::lemma_assign_all_shape(g, ps);
    lemma_pending_after_sub(g.0, ps);
    assert forall|j: int| 0 <= j < left.len() implies !has_label(mid.0, (#[trigger] left[j]).0) by {
        assert(!has_label(g.0, left[j].0));
        crate::graph::lemma_label_funcs_on_labels(mid.0, g.0, left[j].0);
    }
    lemma_assign_absent_noop(mid, left);
    lemma_pending_absent_id(mid.0, left);
}

/// Assigning properties none of whose owners has a vertex changes nothing.
proof fn lemma_assign_absent_noop(g: GraphModel, ps: Seq<PropModel>)
    requires
        forall|j: int| 0 <= j < ps.len() ==> !has_label(g.0, (#[trigger] ps[j]).0),
    ensures
        assign_all(g, ps) == g,
    decreases ps.len(),
{
    if ps.len() > 0 {
        let rest = ps.drop_last();
        assert(forall|j: int| 0 <= j < rest.len() ==> rest[j] == ps[j]);
        lemma_assign_absent_noop(g, rest);
    }
}

/// Properties none of whose owners has a vertex all stay pending.
proof fn lemma_pending_absent_id(ns: Seq<VertexModel>, ps: Seq<PropModel>)
    requires
        forall|j: int| 0 <= j < ps.len() ==> !has_label(ns, (#[trigger] ps[j]).0),
    ensures
        pending_after(ns, ps) == ps,
    decreases ps.len(),
{
    if ps.len() == 0 {
        assert(pending_after(ns, ps) =~= ps);
    } else {
        let rest = ps.drop_last();
        assert(forall|j: int| 0 <= j < rest.len() ==> rest[j] == ps[j]);
        lemma_pending_absent_id(ns, rest);
        assert(pending_after(ns, ps) =~= ps);
    }
}

} // verus!
