//! The value extractor: given a successful match, follows the mapping from
//! the pattern's designated return vertex to its trace vertex and reads the
//! attribute that answers the query.

use vstd::prelude::*;
use vstd::string::*;

use crate::attrs::{attrs_has_key, attrs_value};
use crate::ferry::FerriedData;
use crate::graph::GraphModel;
use crate::target::{TargetGraph, TargetModel};

verus! {

/// Whether some pattern vertex carries the query-variable name.
pub open spec fn has_name(t: TargetModel, name: Seq<char>) -> bool {
    exists|i: int| 0 <= i < t.0.len() && t.0[i].0 == name
}

/// The trace vertex of the first mapping pair whose pattern vertex carries
/// the name.
pub open spec fn find_pair(t: TargetModel, pairs: Seq<(usize, usize)>, name: Seq<char>) -> Option<
    usize,
>
    decreases pairs.len(),
{
    if pairs.len() == 0 {
        None
    } else if pairs[0].0 < t.0.len() && t.0[pairs[0].0 as int].0 == name {
        Some(pairs[0].1)
    } else {
        find_pair(t, pairs.drop_first(), name)
    }
}

/// What extraction answers: nothing when the pattern has no vertex of that
/// name, none is mapped, the mapped trace vertex does not exist, or the
/// attribute was never collected there; otherwise the collected value.
pub open spec fn spec_extract(
    t: TargetModel,
    pairs: Seq<(usize, usize)>,
    g: GraphModel,
    name: Seq<char>,
    attr: u64,
) -> Option<Seq<char>> {
    if has_name(t, name) {
        match find_pair(t, pairs, name) {
            None => None,
            Some(v) => if v < g.0.len() && attrs_has_key(g.0[v as int].1, attr) {
                Some(attrs_value(g.0[v as int].1, attr))
            } else {
                None
            },
        }
    } else {
        None
    }
}

/// Follows the mapping from the pattern vertex named `return_name` to its
/// trace vertex and reads attribute `attr_id` there. Nothing is returned
/// when that attribute was never collected — the store dispatch is then
/// suppressed, not retried.
pub fn extract_value(
    target: &TargetGraph,
    mapping: &Vec<(usize, usize)>,
    data: &FerriedData,
    return_name: &String,
    attr_id: u64,
) -> (r: Option<String>)
    requires
        data.wf(),
    ensures
        match r {
            Some(s) => spec_extract(
                target.model(),
                mapping@,
                data.trace_graph.model(),
                return_name@,
                attr_id,
            ) == Some(s@),
            None => spec_extract(
                target.model(),
                mapping@,
                data.trace_graph.model(),
                return_name@,
                attr_id,
            ) is None,
        },
{
    let ghost t = target.model();
    let ghost g = data.trace_graph.model();
    if target.find_name(return_name).is_none() {
        proof {
            assert(!has_name(t, return_name@));
        }
        return None;
    }
    let mut i: usize = 0;
    proof {
        assert(mapping@.skip(0) =~= mapping@);
    }
    while i < mapping.len()
        invariant
            i <= mapping.len(),
            t == target.model(),
            g == data.trace_graph.model(),
            data.wf(),
            has_name(t, return_name@),
            find_pair(t, mapping@, return_name@) == find_pair(
                t,
                mapping@.skip(i as int),
                return_name@,
            ),
        decreases mapping.len() - i,
    {
        let pair = mapping[i];
        proof {
            assert(mapping@.skip(i as int)[0] == pair);
            assert(mapping@.skip(i as int).drop_first() =~= mapping@.skip(i as int + 1));
        }
        if pair.0 < target.vertices.len() {
            let named = &target.vertices[pair.0];
            if named.name == *return_name {
                proof {
                    assert(t.0[pair.0 as int] == target.vertices@[pair.0 as int].model());
                    assert(find_pair(t, mapping@.skip(i as int), return_name@) == Some(pair.1));
                }
                let v = pair.1;
                if v >= data.trace_graph.nodes.len() {
                    return None;
                }
                proof {
                    assert(g.0[v as int] == data.trace_graph.nodes@[v as int].model());
                }
                return match data.trace_graph.nodes[v].attrs.get(attr_id) {
                    None => None,
                    Some(value) => Some(value.clone()),
                };
            }
            proof {
                assert(t.0[pair.0 as int] == target.vertices@[pair.0 as int].model());
            }
        }
        i += 1;
    }
    proof {
        assert(mapping@.skip(mapping@.len() as int) =~= Seq::<(usize, usize)>::empty());
    }
    None
}

/// The extraction the compiled query asks for: the attribute collected at
/// the trace vertex matched by the pattern's entry vertex "a".
pub fn get_value_for_storage(
    target: &TargetGraph,
    mapping: &Vec<(usize, usize)>,
    stored_data: &FerriedData,
) -> (r: Option<String>)
    requires
        stored_data.wf(),
    ensures
        match r {
            Some(s) => spec_extract(
                target.model(),
                mapping@,
                stored_data.trace_graph.model(),
                "a"@,
                0,
            ) == Some(s@),
            None => spec_extract(
                target.model(),
                mapping@,
                stored_data.trace_graph.model(),
                "a"@,
                0,
            ) is None,
        },
{
    let name = String::from_str("a");
    extract_value(target, mapping, stored_data, &name, 0)
}

} // verus!
