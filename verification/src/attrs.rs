//! Attribute maps: insertion-ordered maps from an attribute id to a string
//! value, with unique keys. One such map hangs off every trace-graph vertex.

use vstd::prelude::*;

verus! {

/// The mathematical content of an attribute map: the entries in order, with
/// string values as character sequences.
pub type AttrsModel = Seq<(u64, Seq<char>)>;

/// Whether some entry of `m` has key `k`.
pub open spec fn attrs_has_key(m: AttrsModel, k: u64) -> bool {
    exists|i: int| 0 <= i < m.len() && m[i].0 == k
}

/// The index of the entry with key `k` (meaningful only when one exists;
/// well-formedness makes it unique).
pub open spec fn attrs_key_index(m: AttrsModel, k: u64) -> int {
    choose|i: int| 0 <= i < m.len() && m[i].0 == k
}

/// The value stored under key `k` (meaningful only when the key is there).
pub open spec fn attrs_value(m: AttrsModel, k: u64) -> Seq<char> {
    m[attrs_key_index(m, k)].1
}

/// Keys are unique.
pub open spec fn attrs_wf(m: AttrsModel) -> bool {
    forall|i: int, j: int|
        0 <= i < m.len() && 0 <= j < m.len() && i != j ==> m[i].0 != m[j].0
}

/// Insertion: an existing key has its value replaced in place (order kept),
/// a new key is appended last.
pub open spec fn attrs_insert(m: AttrsModel, k: u64, v: Seq<char>) -> AttrsModel {
    if attrs_has_key(m, k) {
        m.update(attrs_key_index(m, k), (k, v))
    } else {
        m.push((k, v))
    }
}

pub proof fn lemma_attrs_insert_wf(m: AttrsModel, k: u64, v: Seq<char>)
    requires
        attrs_wf(m),
    ensures
        attrs_wf(attrs_insert(m, k, v)),
        attrs_has_key(attrs_insert(m, k, v), k),
        attrs_value(attrs_insert(m, k, v), k) == v,
        forall|k2: u64|
            k2 != k ==> attrs_has_key(attrs_insert(m, k, v), k2) == attrs_has_key(m, k2),
        forall|k2: u64|
            k2 != k && attrs_has_key(m, k2) ==> attrs_value(
                attrs_insert(m, k, v),
                k2,
            ) == attrs_value(m, k2),
{
    let m2 = attrs_insert(m, k, v);
    if attrs_has_key(m, k) {
        let i = attrs_key_index(m, k);
        assert(0 <= i < m.len() && m[i].0 == k);
        assert(forall|j: int| 0 <= j < m2.len() && m2[j].0 == k ==> j == i);
        assert(m2[i].0 == k);
        assert(attrs_key_index(m2, k) == i);
    } else {
        let i = m.len() as int;
        assert(m2[i].0 == k);
        assert(forall|j: int| 0 <= j < m2.len() && m2[j].0 == k ==> j == i);
        assert(attrs_key_index(m2, k) == i);
    }
    assert forall|k2: u64| k2 != k && attrs_has_key(m, k2) implies attrs_has_key(m2, k2)
        && attrs_value(m2, k2) == attrs_value(m, k2) by {
        let j = attrs_key_index(m, k2);
        assert(0 <= j < m.len() && m[j].0 == k2);
        assert(m2[j].0 == k2);
        assert(attrs_has_key(m2, k2));
        let j2 = attrs_key_index(m2, k2);
        assert(0 <= j2 < m2.len() && m2[j2].0 == k2);
        if j2 < m.len() {
            assert(m2[j2] == m[j2] || (attrs_has_key(m, k) && j2 == attrs_key_index(m, k)));
        }
        assert(j2 == j);
    }
    assert forall|k2: u64| k2 != k && attrs_has_key(m2, k2) implies attrs_has_key(m, k2) by {
        let j = attrs_key_index(m2, k2);
        assert(0 <= j < m2.len() && m2[j].0 == k2);
        assert(j < m.len() && m[j].0 == k2);
    }
}

/// The keys of a map, in order.
pub open spec fn attrs_keys(m: AttrsModel) -> Seq<u64> {
    m.map_values(|e: (u64, Seq<char>)| e.0)
}

/// Folding a list of key-value pairs into a map, first to last.
pub open spec fn kvs_insert_all(m: AttrsModel, kvs: Seq<(u64, Seq<char>)>) -> AttrsModel
    decreases kvs.len(),
{
    if kvs.len() == 0 {
        m
    } else {
        attrs_insert(kvs_insert_all(m, kvs.drop_last()), kvs.last().0, kvs.last().1)
    }
}

/// Whether the pair list mentions key `k`.
pub open spec fn kvs_has(kvs: Seq<(u64, Seq<char>)>, k: u64) -> bool {
    exists|i: int| 0 <= i < kvs.len() && kvs[i].0 == k
}

/// The last value the pair list gives key `k` (meaningful only when the key
/// is mentioned).
pub open spec fn kvs_lastval(kvs: Seq<(u64, Seq<char>)>, k: u64) -> Seq<char>
    decreases kvs.len(),
{
    if kvs.len() == 0 {
        Seq::empty()
    } else if kvs.last().0 == k {
        kvs.last().1
    } else {
        kvs_lastval(kvs.drop_last(), k)
    }
}

/// One insertion keeps the key order, appending exactly when the key is new.
pub proof fn lemma_insert_keys(m: AttrsModel, k: u64, v: Seq<char>)
    ensures
        attrs_keys(attrs_insert(m, k, v)) == (if attrs_has_key(m, k) {
            attrs_keys(m)
        } else {
            attrs_keys(m).push(k)
        }),
{
    if attrs_has_key(m, k) {
        let i = attrs_key_index(m, k);
        assert(0 <= i < m.len() && m[i].0 == k);
        assert(attrs_keys(attrs_insert(m, k, v)) =~= attrs_keys(m));
    } else {
        assert(attrs_keys(attrs_insert(m, k, v)) =~= attrs_keys(m).push(k));
    }
}

/// Folding key-value pairs keeps well-formedness, makes every listed key
/// present, keeps the keys that were present, and gives each key its last
/// listed value (other keys keep their old value).
pub proof fn lemma_insert_all_val(m: AttrsModel, kvs: Seq<(u64, Seq<char>)>, k: u64)
    requires
        attrs_wf(m),
    ensures
        attrs_wf(kvs_insert_all(m, kvs)),
        attrs_has_key(kvs_insert_all(m, kvs), k) == (attrs_has_key(m, k) || kvs_has(kvs, k)),
        kvs_has(kvs, k) ==> attrs_value(kvs_insert_all(m, kvs), k) == kvs_lastval(kvs, k),
        !kvs_has(kvs, k) && attrs_has_key(m, k) ==> attrs_value(kvs_insert_all(m, kvs), k)
            == attrs_value(m, k),
    decreases kvs.len(),
{
    if kvs.len() == 0 {
        assert(!kvs_has(kvs, k));
    } else {
        let rest = kvs.drop_last();
        let last = kvs.last();
        lemma_insert_all_val(m, rest, k);
        let p = kvs_insert_all(m, rest);
        lemma_attrs_insert_wf(p, last.0, last.1);
        assert(kvs_has(kvs, k) == (kvs_has(rest, k) || last.0 == k)) by {
            if kvs_has(rest, k) {
                let i = choose|i: int| 0 <= i < rest.len() && rest[i].0 == k;
                assert(kvs[i].0 == k);
            }
            if kvs_has(kvs, k) {
                let i = choose|i: int| 0 <= i < kvs.len() && kvs[i].0 == k;
                if i < kvs.len() - 1 {
                    assert(rest[i].0 == k);
                }
            }
        }
    }
}

/// Folding the same key-value pairs twice gives the same map as folding them
/// once.
pub proof fn lemma_insert_all_idempotent(m: AttrsModel, kvs: Seq<(u64, Seq<char>)>)
    requires
        attrs_wf(m),
    ensures
        kvs_insert_all(kvs_insert_all(m, kvs), kvs) == kvs_insert_all(m, kvs),
{
    let mid = kvs_insert_all(m, kvs);
    let twice = kvs_insert_all(mid, kvs);
    lemma_insert_all_val(m, kvs, 0);
    assert(attrs_wf(mid));
    lemma_insert_all_val(mid, kvs, 0);
    assert(attrs_wf(twice));
    // Keys are stable: every listed key is already present in `mid`, so the
    // second fold only updates in place.
    assert forall|i: int| 0 <= i < kvs.len() implies attrs_has_key(mid, (#[trigger] kvs[i]).0) by {
        lemma_insert_all_val(m, kvs, kvs[i].0);
        assert(kvs_has(kvs, kvs[i].0));
    }
    lemma_keys_stable(mid, kvs);
    assert(attrs_keys(twice) == attrs_keys(mid));
    assert(twice.len() == mid.len()) by {
        assert(attrs_keys(twice).len() == twice.len());
        assert(attrs_keys(mid).len() == mid.len());
    }
    assert forall|i: int| 0 <= i < mid.len() implies twice[i] == mid[i] by {
        let k = mid[i].0;
        assert(attrs_keys(mid)[i] == k);
        assert(twice[i].0 == attrs_keys(twice)[i]);
        lemma_insert_all_val(m, kvs, k);
        lemma_insert_all_val(mid, kvs, k);
        assert(attrs_has_key(mid, k));
        assert(forall|j: int| 0 <= j < mid.len() && mid[j].0 == k ==> j == i);
        assert(attrs_key_index(mid, k) == i);
        assert(attrs_value(mid, k) == mid[i].1);
        assert(attrs_has_key(twice, k));
        assert(forall|j: int| 0 <= j < twice.len() && twice[j].0 == k ==> j == i) by {
            assert(forall|j: int| 0 <= j < twice.len() ==> twice[j].0 == attrs_keys(twice)[j]);
        }
        assert(attrs_key_index(twice, k) == i);
        assert(attrs_value(twice, k) == twice[i].1);
        if kvs_has(kvs, k) {
            assert(attrs_value(twice, k) == kvs_lastval(kvs, k));
            assert(attrs_value(mid, k) == kvs_lastval(kvs, k));
        } else {
            assert(attrs_value(twice, k) == attrs_value(mid, k));
        }
    }
    assert(twice =~= mid);
}

/// When every listed key is already present, folding the pairs keeps the key
/// order unchanged.
proof fn lemma_keys_stable(m: AttrsModel, kvs: Seq<(u64, Seq<char>)>)
    requires
        attrs_wf(m),
        forall|i: int| 0 <= i < kvs.len() ==> attrs_has_key(m, (#[trigger] kvs[i]).0),
    ensures
        attrs_keys(kvs_insert_all(m, kvs)) == attrs_keys(m),
    decreases kvs.len(),
{
    if kvs.len() > 0 {
        let rest = kvs.drop_last();
        let last = kvs.last();
        assert(forall|i: int| 0 <= i < rest.len() ==> rest[i] == kvs[i]);
        lemma_keys_stable(m, rest);
        let p = kvs_insert_all(m, rest);
        lemma_insert_all_val(m, rest, last.0);
        assert(attrs_has_key(m, last.0));
        assert(attrs_has_key(p, last.0));
        lemma_insert_keys(p, last.0, last.1);
    }
}

/// Insertion-ordered map from attribute id to value; keys unique.
pub struct AttrMap {
    pub entries: Vec<(u64, String)>,
}

impl AttrMap {
    /// The entries with string values as character sequences.
    pub open spec fn model(&self) -> AttrsModel {
        self.entries@.map_values(|e: (u64, String)| (e.0, e.1@))
    }

    /// Keys are unique.
    pub open spec fn wf(&self) -> bool {
        attrs_wf(self.model())
    }

    pub fn new() -> (r: AttrMap)
        ensures
            r.model() == Seq::<(u64, Seq<char>)>::empty(),
            r.wf(),
    {
        let r = AttrMap { entries: Vec::new() };
        proof {
            assert(r.model() =~= Seq::<(u64, Seq<char>)>::empty());
        }
        r
    }

    pub fn len(&self) -> (n: usize)
        ensures
            n == self.model().len(),
    {
        self.entries.len()
    }

    /// The index of the entry with key `k`, scanning from the front.
    pub fn index_of(&self, k: u64) -> (r: Option<usize>)
        ensures
            match r {
                Some(i) => i < self.model().len() && self.model()[i as int].0 == k,
                None => !attrs_has_key(self.model(), k),
            },
    {
        let mut i: usize = 0;
        while i < self.entries.len()
            invariant
                i <= self.entries.len(),
                forall|j: int| 0 <= j < i ==> self.model()[j].0 != k,
            decreases self.entries.len() - i,
        {
            if self.entries[i].0 == k {
                return Some(i);
            }
            i += 1;
        }
        None
    }

    pub fn contains_key(&self, k: u64) -> (r: bool)
        ensures
            r == attrs_has_key(self.model(), k),
    {
        self.index_of(k).is_some()
    }

    pub fn get(&self, k: u64) -> (r: Option<&String>)
        requires
            self.wf(),
        ensures
            match r {
                Some(v) => attrs_has_key(self.model(), k) && v@ == attrs_value(self.model(), k),
                None => !attrs_has_key(self.model(), k),
            },
    {
        match self.index_of(k) {
            Some(i) => {
                proof {
                    assert(attrs_has_key(self.model(), k));
                    let j = attrs_key_index(self.model(), k);
                    assert(0 <= j < self.model().len() && self.model()[j].0 == k);
                    assert(j == i);
                }
                Some(&self.entries[i].1)
            },
            None => None,
        }
    }

    /// Inserts `value` under `key`: replaces in place when the key is there,
    /// appends last when it is new.
    pub fn insert(&mut self, key: u64, value: String)
        requires
            old(self).wf(),
        ensures
            final(self).wf(),
            final(self).model() == attrs_insert(old(self).model(), key, value@),
    {
        proof {
            lemma_attrs_insert_wf(self.model(), key, value@);
        }
        match self.index_of(key) {
            Some(i) => {
                proof {
                    assert(attrs_has_key(self.model(), key));
                    let j = attrs_key_index(self.model(), key);
                    assert(0 <= j < self.model().len() && self.model()[j].0 == key);
                    assert(j == i);
                }
                self.entries[i] = (key, value);
                proof {
                    assert(self.model() =~= attrs_insert(old(self).model(), key, value@));
                }
            },
            None => {
                self.entries.push((key, value));
                proof {
                    assert(self.model() =~= attrs_insert(old(self).model(), key, value@));
                }
            },
        }
    }
}

} // verus!
