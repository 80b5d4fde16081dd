//! Properties: node attributes collected at a hop that are not yet attached
//! to a trace-graph vertex (the vertex may not exist yet when the value is
//! read on the request path).

use vstd::prelude::*;

verus! {

/// The mathematical content of a property: owner label, attribute id, value.
pub type PropModel = (Seq<char>, u64, Seq<char>);

/// An attribute value collected at some hop, waiting to be attached to the
/// vertex whose label equals `owner`.
pub struct Property {
    pub owner: String,
    pub id: u64,
    pub value: String,
}

impl Property {
    pub open spec fn model(&self) -> PropModel {
        (self.owner@, self.id, self.value@)
    }

    pub fn new(owner: String, id: u64, value: String) -> (r: Property)
        ensures
            r.model() == (owner@, id, value@),
    {
        Property { owner, id, value }
    }
}

impl Clone for Property {
    fn clone(&self) -> (r: Self)
        ensures
            r.model() == self.model(),
    {
        Property { owner: self.owner.clone(), id: self.id, value: self.value.clone() }
    }
}

/// The models of a sequence of properties.
pub open spec fn props_model(s: Seq<Property>) -> Seq<PropModel> {
    s.map_values(|p: Property| p.model())
}

/// Whether `ps` holds an entry equal to `p`.
pub open spec fn props_contain(ps: Seq<PropModel>, p: PropModel) -> bool {
    exists|i: int| 0 <= i < ps.len() && ps[i] == p
}

/// No two entries are equal: the pending list is a set.
pub open spec fn props_unique(ps: Seq<PropModel>) -> bool {
    forall|i: int, j: int| 0 <= i < j < ps.len() ==> ps[i] != ps[j]
}

/// Whether the pending list `v` holds a property equal to `p`.
pub fn props_contains(v: &Vec<Property>, p: &Property) -> (r: bool)
    ensures
        r == props_contain(props_model(v@), p.model()),
{
    let mut i: usize = 0;
    while i < v.len()
        invariant
            i <= v.len(),
            forall|j: int| 0 <= j < i ==> props_model(v@)[j] != p.model(),
        decreases v.len() - i,
    {
        let q = &v[i];
        if q.id == p.id && q.owner == p.owner && q.value == p.value {
            proof {
                assert(props_model(v@)[i as int] == p.model());
            }
            return true;
        }
        i += 1;
    }
    false
}

/// Set insertion: appends `p` unless an equal property is already there.
pub fn props_insert(v: &mut Vec<Property>, p: Property)
    ensures
        props_model(final(v)@) == (if props_contain(props_model(old(v)@), p.model()) {
            props_model(old(v)@)
        } else {
            props_model(old(v)@).push(p.model())
        }),
        props_unique(props_model(old(v)@)) ==> props_unique(props_model(final(v)@)),
{
    if !props_contains(v, &p) {
        let ghost oldm = props_model(v@);
        let ghost pm = p.model();
        v.push(p);
        proof {
            assert(props_model(v@) =~= oldm.push(pm));
            if props_unique(oldm) {
                assert forall|i: int, j: int|
                    0 <= i < j < props_model(v@).len() implies props_model(v@)[i] != props_model(
                    v@,
                )[j] by {
                    if j == oldm.len() {
                        assert(props_model(v@)[i] == oldm[i]);
                        assert(!props_contain(oldm, pm));
                    }
                }
            }
        }
    }
}

} // verus!
