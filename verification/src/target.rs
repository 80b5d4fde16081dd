//! The target pattern graph: the compile-time query shape matched against a
//! trace graph. A pattern vertex has a name (the query's variable) and, when
//! the query fixes one, a required label; a vertex without one is a wildcard.

use vstd::prelude::*;

use crate::graph::Edge;

verus! {

/// A pattern vertex: its query-variable name and its required label, if any.
pub struct TargetVertex {
    pub name: String,
    pub label: Option<String>,
}

/// The mathematical content of a pattern vertex.
pub type TargetVertexModel = (Seq<char>, Option<Seq<char>>);

impl TargetVertex {
    pub open spec fn model(&self) -> TargetVertexModel {
        (
            self.name@,
            match self.label {
                Some(l) => Some(l@),
                None => None,
            },
        )
    }
}

/// The mathematical content of a pattern graph.
pub type TargetModel = (Seq<TargetVertexModel>, Seq<Edge>);

/// The compile-time pattern graph, with the same edge shape as the trace
/// graph: an edge points from the child vertex to its ancestor.
pub struct TargetGraph {
    pub vertices: Vec<TargetVertex>,
    pub edges: Vec<Edge>,
}

impl TargetGraph {
    pub open spec fn model(&self) -> TargetModel {
        (self.vertices@.map_values(|v: TargetVertex| v.model()), self.edges@)
    }

    /// Every edge endpoint names a pattern vertex.
    pub open spec fn wf(&self) -> bool {
        forall|k: int|
            0 <= k < self.model().1.len() ==> (#[trigger] self.model().1[k]).src
                < self.model().0.len() && self.model().1[k].dst < self.model().0.len()
    }

    pub fn new() -> (r: TargetGraph)
        ensures
            r.model().0 == Seq::<TargetVertexModel>::empty(),
            r.model().1 == Seq::<Edge>::empty(),
            r.wf(),
    {
        let r = TargetGraph { vertices: Vec::new(), edges: Vec::new() };
        proof {
            assert(r.model().0 =~= Seq::<TargetVertexModel>::empty());
        }
        r
    }

    /// The first pattern vertex with the given query-variable name.
    pub fn find_name(&self, name: &String) -> (r: Option<usize>)
        ensures
            match r {
                Some(i) => i < self.model().0.len() && self.model().0[i as int].0 == name@,
                None => forall|i: int|
                    0 <= i < self.model().0.len() ==> (#[trigger] self.model().0[i]).0 != name@,
            },
    {
        let mut i: usize = 0;
        while i < self.vertices.len()
            invariant
                i <= self.vertices.len(),
                forall|j: int| 0 <= j < i ==> (#[trigger] self.model().0[j]).0 != name@,
            decreases self.vertices.len() - i,
        {
            if self.vertices[i].name == *name {
                proof {
                    assert(self.model().0[i as int] == self.vertices@[i as int].model());
                }
                return Some(i);
            }
            proof {
                assert(self.model().0[i as int] == self.vertices@[i as int].model());
            }
            i += 1;
        }
        None
    }
}

/// The pattern graph generated for the running query: the three-vertex path
/// whose entry variable is "a" and whose deepest callee "c" must be the
/// workload labeled "ratings-v1"; "a" and "b" are wildcards.
pub fn create_target_graph() -> (r: TargetGraph)
    ensures
        r.wf(),
        r.model().0.len() == 3,
        r.model().0[0] == (("a"@, Option::<Seq<char>>::None)),
        r.model().0[1] == (("b"@, Option::<Seq<char>>::None)),
        r.model().0[2] == (("c"@, Option::<Seq<char>>::Some("ratings-v1"@))),
        r.model().1 == seq![(Edge { src: 0, dst: 1 }), (Edge { src: 1, dst: 2 })],
{
    let mut vertices: Vec<TargetVertex> = Vec::new();
    vertices.push(TargetVertex { name: String::from_str("a"), label: None });
    vertices.push(TargetVertex { name: String::from_str("b"), label: None });
    vertices.push(
        TargetVertex {
            name: String::from_str("c"),
            label: Some(String::from_str("ratings-v1")),
        },
    );
    let mut edges: Vec<Edge> = Vec::new();
    edges.push(Edge { src: 0, dst: 1 });
    edges.push(Edge { src: 1, dst: 2 });
    let r = TargetGraph { vertices, edges };
    proof {
        assert(r.model().1 =~= seq![(Edge { src: 0, dst: 1 }), (Edge { src: 1, dst: 2 })]);
        assert(r.model().0[0] == (("a"@, Option::<Seq<char>>::None)));
        assert(r.model().0[1] == (("b"@, Option::<Seq<char>>::None)));
        assert(r.model().0[2] == (("c"@, Option::<Seq<char>>::Some("ratings-v1"@))));
    }
    r
}

} // verus!
