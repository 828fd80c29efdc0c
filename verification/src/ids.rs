//! Vertex identifiers of the planner graph and small sets of them.
//!
//! The graph is bipartite: variable vertices and pattern vertices live in
//! separate arenas, each addressed by a dense index. `VertexId` is the tagged
//! union of the two, used in plan orderings that interleave both kinds.

use vstd::prelude::*;

verus! {

/// Index of a variable vertex in the planner graph.
#[derive(Clone, Copy, Debug, PartialEq, Eq, Hash, Structural)]
pub struct VariableVertexId(pub usize);

/// Index of a pattern vertex in the planner graph.
#[derive(Clone, Copy, Debug, PartialEq, Eq, Hash, Structural)]
pub struct PatternVertexId(pub usize);

/// Either kind of vertex, as it appears in a plan ordering.
#[derive(Clone, Copy, Debug, PartialEq, Eq, Hash, Structural)]
pub enum VertexId {
    Variable(VariableVertexId),
    Pattern(PatternVertexId),
}

impl VertexId {
    pub fn as_variable_id(&self) -> (r: Option<VariableVertexId>)
        ensures
            r == (match *self {
                VertexId::Variable(v) => Some(v),
                VertexId::Pattern(_) => None::<VariableVertexId>,
            }),
    {
        match *self {
            VertexId::Variable(v) => Some(v),
            VertexId::Pattern(_) => None,
        }
    }

    pub fn as_pattern_id(&self) -> (r: Option<PatternVertexId>)
        ensures
            r == (match *self {
                VertexId::Pattern(p) => Some(p),
                VertexId::Variable(_) => None::<PatternVertexId>,
            }),
    {
        match *self {
            VertexId::Pattern(p) => Some(p),
            VertexId::Variable(_) => None,
        }
    }
}

/// True when `s` holds no element twice.
pub open spec fn seq_no_dups<T>(s: Seq<T>) -> bool {
    forall|i: int, j: int| 0 <= i < j < s.len() ==> s[i] != s[j]
}

/// A fresh vector with the same elements as `v`.
pub fn copy_vec<T: Copy>(v: &Vec<T>) -> (r: Vec<T>)
    ensures
        r@ == v@,
{
    let mut r: Vec<T> = Vec::new();
    let mut i: usize = 0;
    while i < v.len()
        invariant
            0 <= i <= v@.len(),
            r@ == v@.subrange(0, i as int),
        decreases v@.len() - i,
    {
        r.push(v[i]);
        i += 1;
    }
    assert(r@ =~= v@);
    r
}

/// A set of variable vertex ids, kept as a duplicate-free vector so that
/// iteration order is the insertion order.
#[derive(Clone, Debug, PartialEq, Eq)]
pub struct VariableVertexIdSet {
    items: Vec<VariableVertexId>,
}

impl VariableVertexIdSet {
    /// The members in insertion order.
    pub closed spec fn view(&self) -> Seq<VariableVertexId> {
        self.items@
    }

    pub open spec fn spec_contains(&self, v: VariableVertexId) -> bool {
        self@.contains(v)
    }

    /// Membership is recorded at most once.
    pub closed spec fn wf(&self) -> bool {
        seq_no_dups(self.items@)
    }

    pub fn new() -> (r: Self)
        ensures
            r@ =~= Seq::<VariableVertexId>::empty(),
            r.wf(),
    {
        VariableVertexIdSet { items: Vec::new() }
    }

    pub fn len(&self) -> (r: usize)
        ensures
            r == self@.len(),
    {
        self.items.len()
    }

    pub fn contains(&self, value: &VariableVertexId) -> (r: bool)
        ensures
            r == self.spec_contains(*value),
    {
        let mut i: usize = 0;
        while i < self.items.len()
            invariant
                0 <= i <= self.items@.len(),
                forall|k: int| 0 <= k < i ==> self.items@[k] != *value,
            decreases self.items@.len() - i,
        {
            if self.items[i] == *value {
                return true;
            }
            i += 1;
        }
        false
    }

    /// Adds `value` unless already present; reports whether it was added.
    pub fn insert(&mut self, value: VariableVertexId) -> (added: bool)
        requires
            old(self).wf(),
        ensures
            final(self).wf(),
            added == !old(self).spec_contains(value),
            added ==> final(self)@ == old(self)@.push(value),
            !added ==> final(self)@ == old(self)@,
            final(self).spec_contains(value),
    {
        if self.contains(&value) {
            false
        } else {
            self.items.push(value);
            proof {
                let s = self.items@;
                assert(s == old(self)@.push(value));
                assert(s[s.len() - 1] == value);
                assert(s.contains(value));
                assert forall|i: int, j: int| 0 <= i < j < s.len() implies s[i] != s[j] by {
                    if j < s.len() - 1 {
                        assert(old(self)@[i] != old(self)@[j]);
                    } else {
                        assert(s[j] == value);
                        assert(s[i] == old(self)@[i]);
                        assert(!old(self)@.contains(value));
                    }
                }
            }
            true
        }
    }

    /// The members in insertion order, as a fresh vector.
    pub fn iter(&self) -> (r: Vec<VariableVertexId>)
        ensures
            r@ == self@,
    {
        copy_vec(&self.items)
    }

    /// A fresh set with the same members.
    pub fn duplicate(&self) -> (r: Self)
        ensures
            r@ == self@,
            self.wf() ==> r.wf(),
    {
        VariableVertexIdSet { items: copy_vec(&self.items) }
    }

    pub fn get(&self, i: usize) -> (r: VariableVertexId)
        requires
            i < self@.len(),
        ensures
            r == self@[i as int],
    {
        self.items[i]
    }
}

/// A set of pattern vertex ids, kept as a duplicate-free vector so that
/// iteration order is the insertion order.
#[derive(Clone, Debug, PartialEq, Eq)]
pub struct PatternVertexIdSet {
    items: Vec<PatternVertexId>,
}

impl PatternVertexIdSet {
    /// The members in insertion order.
    pub closed spec fn view(&self) -> Seq<PatternVertexId> {
        self.items@
    }

    pub open spec fn spec_contains(&self, v: PatternVertexId) -> bool {
        self@.contains(v)
    }

    /// Membership is recorded at most once.
    pub closed spec fn wf(&self) -> bool {
        seq_no_dups(self.items@)
    }

    pub fn new() -> (r: Self)
        ensures
            r@ =~= Seq::<PatternVertexId>::empty(),
            r.wf(),
    {
        PatternVertexIdSet { items: Vec::new() }
    }

    pub fn len(&self) -> (r: usize)
        ensures
            r == self@.len(),
    {
        self.items.len()
    }

    pub fn contains(&self, value: &PatternVertexId) -> (r: bool)
        ensures
            r == self.spec_contains(*value),
    {
        let mut i: usize = 0;
        while i < self.items.len()
            invariant
                0 <= i <= self.items@.len(),
                forall|k: int| 0 <= k < i ==> self.items@[k] != *value,
            decreases self.items@.len() - i,
        {
            if self.items[i] == *value {
                return true;
            }
            i += 1;
        }
        false
    }

    /// Adds `value` unless already present; reports whether it was added.
    pub fn insert(&mut self, value: PatternVertexId) -> (added: bool)
        requires
            old(self).wf(),
        ensures
            final(self).wf(),
            added == !old(self).spec_contains(value),
            added ==> final(self)@ == old(self)@.push(value),
            !added ==> final(self)@ == old(self)@,
            final(self).spec_contains(value),
    {
        if self.contains(&value) {
            false
        } else {
            self.items.push(value);
            proof {
                let s = self.items@;
                assert(s == old(self)@.push(value));
                assert(s[s.len() - 1] == value);
                assert(s.contains(value));
                assert forall|i: int, j: int| 0 <= i < j < s.len() implies s[i] != s[j] by {
                    if j < s.len() - 1 {
                        assert(old(self)@[i] != old(self)@[j]);
                    } else {
                        assert(s[j] == value);
                        assert(s[i] == old(self)@[i]);
                        assert(!old(self)@.contains(value));
                    }
                }
            }
            true
        }
    }

    /// Removes `value` if present, keeping the order of the rest; reports
    /// whether it was present.
    pub fn remove(&mut self, value: &PatternVertexId) -> (removed: bool)
        requires
            old(self).wf(),
        ensures
            final(self).wf(),
            removed == old(self).spec_contains(*value),
            !final(self).spec_contains(*value),
            forall|v: PatternVertexId| v != *value ==>
                (final(self).spec_contains(v) == old(self).spec_contains(v)),
            removed ==> final(self)@.len() == old(self)@.len() - 1,
            !removed ==> final(self)@ == old(self)@,
    {
        let ghost orig = self.items@;
        let mut i: usize = 0;
        while i < self.items.len()
            invariant
                0 <= i <= self.items@.len(),
                self.items@ == orig,
                orig == old(self)@,
                seq_no_dups(orig),
                forall|k: int| 0 <= k < i ==> self.items@[k] != *value,
            decreases self.items@.len() - i,
        {
            if self.items[i] == *value {
                assert(orig[i as int] == *value);
                assert(orig.contains(*value));
                self.items.remove(i);
                proof {
                    assert(self.items@ =~= orig.subrange(0, i as int)
                        + orig.subrange(i as int + 1, orig.len() as int));
                    assert forall|v: PatternVertexId| v != *value implies
                        (self.items@.contains(v) == orig.contains(v)) by {
                        if orig.contains(v) {
                            let k = choose|k: int| 0 <= k < orig.len() && orig[k] == v;
                            if k < i {
                                assert(self.items@[k] == v);
                            } else {
                                assert(k > i);
                                assert(self.items@[k - 1] == v);
                            }
                        }
                        if self.items@.contains(v) {
                            let k = choose|k: int|
                                0 <= k < self.items@.len() && self.items@[k] == v;
                            if k < i {
                                assert(orig[k] == v);
                            } else {
                                assert(orig[k + 1] == v);
                            }
                        }
                    }
                    assert forall|p: int, q: int|
                        0 <= p < q < self.items@.len() implies
                        self.items@[p] != self.items@[q] by {
                        let op: int = if p < i { p } else { p + 1 };
                        let oq: int = if q < i { q } else { q + 1 };
                        assert(orig[op] == self.items@[p]);
                        assert(orig[oq] == self.items@[q]);
                    }
                    assert(!self.items@.contains(*value)) by {
                        if self.items@.contains(*value) {
                            let k = choose|k: int|
                                0 <= k < self.items@.len() && self.items@[k] == *value;
                            if k < i {
                                assert(orig[k] == *value);
                            } else {
                                assert(orig[k + 1] == *value);
                                assert(orig[i as int] == *value);
                            }
                        }
                    }
                }
                return true;
            }
            i += 1;
        }
        false
    }

    /// The members in insertion order, as a fresh vector.
    pub fn iter(&self) -> (r: Vec<PatternVertexId>)
        ensures
            r@ == self@,
    {
        copy_vec(&self.items)
    }

    pub fn get(&self, i: usize) -> (r: PatternVertexId)
        requires
            i < self@.len(),
        ensures
            r == self@[i as int],
    {
        self.items[i]
    }

    pub fn is_empty(&self) -> (r: bool)
        ensures
            r == (self@.len() == 0),
    {
        self.items.len() == 0
    }
}

} // verus!
