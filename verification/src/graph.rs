//! The constraint graph: the arena of planner vertices and their adjacency.
//!
//! Variable and pattern vertices live in two dense arenas. The adjacency is
//! kept in both directions and mirrors exactly: a pattern lists a variable
//! if and only if the variable lists the pattern. The graph is built once
//! by registration and is immutable during search and lowering.

use vstd::prelude::*;

use crate::cost::CombinedCost;
use crate::ids::{copy_vec, seq_no_dups, PatternVertexId, VariableVertexId};
use crate::ir::Variable;
use crate::vertex::{
    spec_dedup_first, spec_input_vars, ConstraintVertex, Input, PatternVertex, VariableVertex,
};

verus! {

/// The planner graph.
#[derive(Clone, Debug, PartialEq, Eq)]
pub struct Graph {
    pub variables: Vec<VariableVertex>,
    pub patterns: Vec<PatternVertex>,
    /// For each pattern, its distinct variables in canonical order.
    pub pattern_to_variable: Vec<Vec<VariableVertexId>>,
    /// For each variable, the patterns adjacent to it, in registration order.
    pub variable_to_pattern: Vec<Vec<PatternVertexId>>,
    /// External variable to planner vertex id.
    pub variable_index: Vec<(Variable, VariableVertexId)>,
}

/// The id of the planner vertex registered for external variable `v`.
pub open spec fn spec_index_of(
    entries: Seq<(Variable, VariableVertexId)>,
    v: Variable,
) -> Option<VariableVertexId>
    decreases entries.len(),
{
    if entries.len() == 0 {
        None
    } else if entries[0].0 == v {
        Some(entries[0].1)
    } else {
        spec_index_of(entries.drop_first(), v)
    }
}

impl Graph {
    /// Adjacency from patterns to variables matches the vertices and stays
    /// in range.
    pub open spec fn patterns_wf(&self) -> bool {
        &&& self.pattern_to_variable@.len() == self.patterns@.len()
        &&& forall|p: int| 0 <= p < self.patterns@.len()
            ==> (#[trigger] self.pattern_to_variable@[p])@
                == self.patterns@[p].spec_variables()
        &&& forall|p: int, k: int|
            0 <= p < self.patterns@.len() && 0 <= k < self.pattern_to_variable@[p]@.len()
            ==> (#[trigger] self.pattern_to_variable@[p]@[k]).0 < self.variables@.len()
        &&& forall|p: int| 0 <= p < self.patterns@.len()
            ==> seq_no_dups((#[trigger] self.pattern_to_variable@[p])@)
    }

    /// Adjacency from variables to patterns is duplicate-free and in range.
    pub open spec fn variables_wf(&self) -> bool {
        &&& self.variable_to_pattern@.len() == self.variables@.len()
        &&& forall|v: int| 0 <= v < self.variables@.len()
            ==> seq_no_dups((#[trigger] self.variable_to_pattern@[v])@)
        &&& forall|v: int, k: int|
            0 <= v < self.variables@.len() && 0 <= k < self.variable_to_pattern@[v]@.len()
            ==> (#[trigger] self.variable_to_pattern@[v]@[k]).0 < self.patterns@.len()
    }

    /// The two adjacency directions mirror each other exactly.
    pub open spec fn mirror_wf(&self) -> bool {
        forall|p: int, v: int|
            0 <= p < self.patterns@.len() && 0 <= v < self.variables@.len()
            ==> ((#[trigger] self.pattern_to_variable@[p])@.contains(VariableVertexId(v as usize))
                == (#[trigger] self.variable_to_pattern@[v])@.contains(
                    PatternVertexId(p as usize),
                ))
    }

    /// The variable index maps into the variable arena.
    pub open spec fn index_wf(&self) -> bool {
        forall|k: int| 0 <= k < self.variable_index@.len()
            ==> (#[trigger] self.variable_index@[k]).1.0 < self.variables@.len()
    }

    pub open spec fn wf(&self) -> bool {
        &&& self.patterns_wf()
        &&& self.variables_wf()
        &&& self.mirror_wf()
        &&& self.index_wf()
    }

    pub fn new() -> (r: Self)
        ensures
            r.wf(),
            r.variables@.len() == 0,
            r.patterns@.len() == 0,
            r.variable_index@.len() == 0,
    {
        Graph {
            variables: Vec::new(),
            patterns: Vec::new(),
            pattern_to_variable: Vec::new(),
            variable_to_pattern: Vec::new(),
            variable_index: Vec::new(),
        }
    }

    /// The number of vertices of either kind.
    pub fn element_count(&self) -> (r: usize)
        requires
            self.variables@.len() + self.patterns@.len() <= usize::MAX,
        ensures
            r == self.variables@.len() + self.patterns@.len(),
    {
        self.variables.len() + self.patterns.len()
    }

    pub fn variable_count(&self) -> (r: usize)
        ensures
            r == self.variables@.len(),
    {
        self.variables.len()
    }

    pub fn pattern_count(&self) -> (r: usize)
        ensures
            r == self.patterns@.len(),
    {
        self.patterns.len()
    }

    /// Looks up the planner vertex registered for external variable `v`.
    pub fn variable_id_of(&self, v: Variable) -> (r: Option<VariableVertexId>)
        ensures
            r == spec_index_of(self.variable_index@, v),
    {
        let mut i: usize = 0;
        proof {
            assert(self.variable_index@.skip(0) =~= self.variable_index@);
        }
        while i < self.variable_index.len()
            invariant
                0 <= i <= self.variable_index@.len(),
                spec_index_of(self.variable_index@, v)
                    == spec_index_of(self.variable_index@.skip(i as int), v),
            decreases self.variable_index@.len() - i,
        {
            proof {
                assert(self.variable_index@.skip(i as int).drop_first()
                    =~= self.variable_index@.skip(i as int + 1));
            }
            if self.variable_index[i].0 == v {
                return Some(self.variable_index[i].1);
            }
            i += 1;
        }
        None
    }

    /// Whether an external variable is already registered.
    pub fn has_variable(&self, v: Variable) -> (r: bool)
        ensures
            r == (spec_index_of(self.variable_index@, v) is Some),
    {
        match self.variable_id_of(v) {
            Some(_) => true,
            None => false,
        }
    }

    /// A registered id is in range of the variable arena.
    pub proof fn lemma_index_in_range(&self, v: Variable)
        requires
            self.index_wf(),
            spec_index_of(self.variable_index@, v) is Some,
        ensures
            spec_index_of(self.variable_index@, v) matches Some(id)
                && id.0 < self.variables@.len(),
    {
        self.lemma_index_in_range_rec(self.variable_index@, v);
    }

    proof fn lemma_index_in_range_rec(
        &self,
        entries: Seq<(Variable, VariableVertexId)>,
        v: Variable,
    )
        requires
            forall|k: int| 0 <= k < entries.len()
                ==> (#[trigger] entries[k]).1.0 < self.variables@.len(),
            spec_index_of(entries, v) is Some,
        ensures
            spec_index_of(entries, v) matches Some(id) && id.0 < self.variables@.len(),
        decreases entries.len(),
    {
        if entries.len() > 0 && entries[0].0 != v {
            self.lemma_index_in_range_rec(entries.drop_first(), v);
        }
    }

    /// Registers a variable vertex; returns its new id.
    pub fn push_variable(&mut self, variable: Variable, vertex: VariableVertex) -> (r:
        VariableVertexId)
        requires
            old(self).wf(),
            old(self).variables@.len() < usize::MAX,
        ensures
            final(self).wf(),
            r.0 == old(self).variables@.len(),
            final(self).variables@ == old(self).variables@.push(vertex),
            final(self).patterns@ == old(self).patterns@,
            final(self).pattern_to_variable@ == old(self).pattern_to_variable@,
            final(self).variable_to_pattern@.len() == old(self).variable_to_pattern@.len() + 1,
            final(self).variable_to_pattern@[r.0 as int]@.len() == 0,
            forall|k: int| 0 <= k < old(self).variable_to_pattern@.len()
                ==> final(self).variable_to_pattern@[k] == old(self).variable_to_pattern@[k],
            final(self).variable_index@ == old(self).variable_index@.push((variable, r)),
    {
        let id = VariableVertexId(self.variables.len());
        self.variables.push(vertex);
        self.variable_to_pattern.push(Vec::new());
        self.variable_index.push((variable, id));
        proof {
            assert forall|p: int, v: int|
                0 <= p < self.patterns@.len() && 0 <= v < self.variables@.len() implies
                ((#[trigger] self.pattern_to_variable@[p])@.contains(VariableVertexId(v as usize))
                    == (#[trigger] self.variable_to_pattern@[v])@.contains(
                        PatternVertexId(p as usize),
                    )) by {
                if v < old(self).variables@.len() {
                    assert(old(self).pattern_to_variable@[p]@.contains(
                        VariableVertexId(v as usize),
                    ) == old(self).variable_to_pattern@[v]@.contains(PatternVertexId(p as usize)));
                    assert(self.variable_to_pattern@[v] == old(self).variable_to_pattern@[v]);
                } else {
                    assert(self.variable_to_pattern@[v]@.len() == 0);
                    if self.pattern_to_variable@[p]@.contains(VariableVertexId(v as usize)) {
                        let k = choose|k: int|
                            0 <= k < self.pattern_to_variable@[p]@.len()
                                && self.pattern_to_variable@[p]@[k] == VariableVertexId(
                                v as usize,
                            );
                        assert(old(self).pattern_to_variable@[p]@[k].0
                            < old(self).variables@.len());
                    }
                }
            }
        }
        id
    }

    /// Registers a pattern vertex and indexes it against its variables;
    /// returns its new id.
    pub fn push_pattern(&mut self, vertex: PatternVertex) -> (r: PatternVertexId)
        requires
            old(self).wf(),
            old(self).patterns@.len() < usize::MAX,
            forall|k: int| 0 <= k < vertex.spec_variables().len()
                ==> (#[trigger] vertex.spec_variables()[k]).0 < old(self).variables@.len(),
        ensures
            final(self).wf(),
            r.0 == old(self).patterns@.len(),
            final(self).patterns@ == old(self).patterns@.push(vertex),
            final(self).variables@ == old(self).variables@,
            final(self).variable_index@ == old(self).variable_index@,
            final(self).pattern_to_variable@.len() == old(self).pattern_to_variable@.len() + 1,
            final(self).pattern_to_variable@[r.0 as int]@ == vertex.spec_variables(),
            forall|k: int| 0 <= k < old(self).pattern_to_variable@.len()
                ==> final(self).pattern_to_variable@[k] == old(self).pattern_to_variable@[k],
            forall|v: int| 0 <= v < old(self).variables@.len()
                ==> ((#[trigger] final(self).variable_to_pattern@[v])@
                    == (if vertex.spec_variables().contains(VariableVertexId(v as usize)) {
                        old(self).variable_to_pattern@[v]@.push(r)
                    } else {
                        old(self).variable_to_pattern@[v]@
                    })),
    {
        let ghost gvertex = vertex;
        let ghost svars = vertex.spec_variables();
        proof {
            crate::vertex::lemma_dedup_first(vertex.spec_raw_variables());
        }
        let id = PatternVertexId(self.patterns.len());
        let vars = vertex.variables();
        self.patterns.push(vertex);
        self.pattern_to_variable.push(vars);

        let n = self.pattern_to_variable[self.patterns.len() - 1].len();
        let var_count = self.variables.len();
        let mut i: usize = 0;
        while i < n
            invariant
                0 <= i <= n,
                self.variables@.len() == var_count,
                self.patterns@.len() == old(self).patterns@.len() + 1,
                id.0 == old(self).patterns@.len(),
                n == svars.len(),
                self.patterns@ == old(self).patterns@.push(gvertex),
                gvertex.spec_variables() == svars,
                seq_no_dups(svars),
                forall|k: int| 0 <= k < svars.len()
                    ==> (#[trigger] svars[k]).0 < old(self).variables@.len(),
                self.variables@ == old(self).variables@,
                self.variable_index@ == old(self).variable_index@,
                self.pattern_to_variable@.len() == old(self).pattern_to_variable@.len() + 1,
                self.pattern_to_variable@[id.0 as int]@ == svars,
                forall|k: int| 0 <= k < old(self).pattern_to_variable@.len()
                    ==> self.pattern_to_variable@[k] == old(self).pattern_to_variable@[k],
                self.variable_to_pattern@.len() == old(self).variable_to_pattern@.len(),
                forall|v: int| 0 <= v < old(self).variables@.len()
                    ==> ((#[trigger] self.variable_to_pattern@[v])@
                        == (if svars.take(i as int).contains(VariableVertexId(v as usize)) {
                            old(self).variable_to_pattern@[v]@.push(id)
                        } else {
                            old(self).variable_to_pattern@[v]@
                        })),
                old(self).wf(),
            decreases n - i,
        {
            let vid = self.pattern_to_variable[self.patterns.len() - 1][i];
            proof {
                assert(svars[i as int] == vid);
                assert(vid.0 < old(self).variables@.len());
                assert(!svars.take(i as int).contains(vid)) by {
                    if svars.take(i as int).contains(vid) {
                        let k = choose|k: int|
                            0 <= k < i && svars.take(i as int)[k] == vid;
                        assert(svars[k] == svars[i as int]);
                    }
                }
            }
            let mut updated = copy_vec(&self.variable_to_pattern[vid.0]);
            updated.push(id);
            self.variable_to_pattern.set(vid.0, updated);
            proof {
                assert(svars.take(i as int + 1).drop_last() =~= svars.take(i as int));
                assert(svars.take(i as int + 1).last() == svars[i as int]);
                assert forall|v: int| 0 <= v < old(self).variables@.len() implies
                    ((#[trigger] self.variable_to_pattern@[v])@
                        == (if svars.take(i as int + 1).contains(VariableVertexId(v as usize)) {
                            old(self).variable_to_pattern@[v]@.push(id)
                        } else {
                            old(self).variable_to_pattern@[v]@
                        })) by {
                    if v == vid.0 as int {
                        assert(svars.take(i as int + 1).contains(VariableVertexId(v as usize)));
                    } else {
                        assert(svars.take(i as int + 1).contains(VariableVertexId(v as usize))
                            == svars.take(i as int).contains(VariableVertexId(v as usize))) by {
                            if svars.take(i as int + 1).contains(VariableVertexId(v as usize)) {
                                let k = choose|k: int|
                                    0 <= k < i + 1 && #[trigger] svars.take(i as int + 1)[k]
                                        == VariableVertexId(v as usize);
                                if k < i {
                                    assert(svars.take(i as int)[k] == VariableVertexId(
                                        v as usize,
                                    ));
                                } else {
                                    assert(svars.take(i as int + 1)[k] == svars[k]);
                                    assert(k == i);
                                    assert(svars[i as int] == VariableVertexId(v as usize));
                                    assert(v < var_count);
                                    assert(vid == VariableVertexId(v as usize));
                                    assert(vid.0 as int == v);
                                }
                            } else {
                                if svars.take(i as int).contains(VariableVertexId(v as usize)) {
                                    let k = choose|k: int|
                                        0 <= k < i && #[trigger] svars.take(i as int)[k]
                                            == VariableVertexId(v as usize);
                                    assert(svars.take(i as int + 1)[k] == VariableVertexId(
                                        v as usize,
                                    ));
                                }
                            }
                        }
                    }
                }
            }
            i += 1;
        }
        proof {
            assert(svars.take(n as int) =~= svars);
            self.lemma_push_pattern_wf(*old(self), gvertex, id);
        }
        id
    }

    /// Re-establishes well-formedness after a pattern push whose reverse
    /// adjacency has been updated for every variable of the pattern.
    proof fn lemma_push_pattern_wf(&self, prev: Graph, vertex: PatternVertex, id: PatternVertexId)
        requires
            prev.wf(),
            id.0 == prev.patterns@.len(),
            self.patterns@ == prev.patterns@.push(vertex),
            self.variables@ == prev.variables@,
            self.variable_index@ == prev.variable_index@,
            self.pattern_to_variable@.len() == prev.pattern_to_variable@.len() + 1,
            self.pattern_to_variable@[id.0 as int]@ == vertex.spec_variables(),
            forall|k: int| 0 <= k < prev.pattern_to_variable@.len()
                ==> self.pattern_to_variable@[k] == prev.pattern_to_variable@[k],
            self.variable_to_pattern@.len() == prev.variable_to_pattern@.len(),
            forall|v: int| 0 <= v < prev.variables@.len()
                ==> ((#[trigger] self.variable_to_pattern@[v])@
                    == (if vertex.spec_variables().contains(VariableVertexId(v as usize)) {
                        prev.variable_to_pattern@[v]@.push(id)
                    } else {
                        prev.variable_to_pattern@[v]@
                    })),
            seq_no_dups(vertex.spec_variables()),
            forall|k: int| 0 <= k < vertex.spec_variables().len()
                ==> (#[trigger] vertex.spec_variables()[k]).0 < prev.variables@.len(),
        ensures
            self.wf(),
    {
        let svars = vertex.spec_variables();
        assert(self.patterns_wf()) by {
            assert forall|p: int| 0 <= p < self.patterns@.len() implies
                (#[trigger] self.pattern_to_variable@[p])@ == self.patterns@[p].spec_variables()
                    && seq_no_dups(self.pattern_to_variable@[p]@) by {
                if p < prev.patterns@.len() {
                    assert(prev.pattern_to_variable@[p]@
                        == prev.patterns@[p].spec_variables());
                    assert(seq_no_dups(prev.pattern_to_variable@[p]@));
                }
            }
            assert forall|p: int, k: int|
                0 <= p < self.patterns@.len() && 0 <= k < self.pattern_to_variable@[p]@.len()
                implies (#[trigger] self.pattern_to_variable@[p]@[k]).0
                    < self.variables@.len() by {
                if p < prev.patterns@.len() {
                    assert(prev.pattern_to_variable@[p]@[k].0 < prev.variables@.len());
                }
            }
        }
        assert(self.variables_wf()) by {
            assert forall|v: int| 0 <= v < self.variables@.len() implies
                seq_no_dups((#[trigger] self.variable_to_pattern@[v])@) by {
                assert(seq_no_dups(prev.variable_to_pattern@[v]@));
                if svars.contains(VariableVertexId(v as usize)) {
                    let s = prev.variable_to_pattern@[v]@;
                    assert forall|x: int, y: int|
                        0 <= x < y < s.push(id).len() implies s.push(id)[x] != s.push(id)[y] by {
                        if y < s.len() {
                            assert(s[x] != s[y]);
                        } else {
                            assert(s.push(id)[y] == id);
                            assert(s[x].0 < prev.patterns@.len());
                        }
                    }
                }
            }
            assert forall|v: int, k: int|
                0 <= v < self.variables@.len() && 0 <= k < self.variable_to_pattern@[v]@.len()
                implies (#[trigger] self.variable_to_pattern@[v]@[k]).0
                    < self.patterns@.len() by {
                if svars.contains(VariableVertexId(v as usize)) {
                    if k < prev.variable_to_pattern@[v]@.len() {
                        assert(prev.variable_to_pattern@[v]@[k].0 < prev.patterns@.len());
                    }
                } else {
                    assert(prev.variable_to_pattern@[v]@[k].0 < prev.patterns@.len());
                }
            }
        }
        assert(self.mirror_wf()) by {
            assert forall|p: int, v: int|
                0 <= p < self.patterns@.len() && 0 <= v < self.variables@.len() implies
                ((#[trigger] self.pattern_to_variable@[p])@.contains(VariableVertexId(v as usize))
                    == (#[trigger] self.variable_to_pattern@[v])@.contains(
                        PatternVertexId(p as usize),
                    )) by {
                let vv = VariableVertexId(v as usize);
                let pp = PatternVertexId(p as usize);
                if p < prev.patterns@.len() {
                    assert(prev.pattern_to_variable@[p]@.contains(vv)
                        == prev.variable_to_pattern@[v]@.contains(pp));
                    assert(self.pattern_to_variable@[p] == prev.pattern_to_variable@[p]);
                    if svars.contains(vv) {
                        let s = prev.variable_to_pattern@[v]@;
                        assert(self.variable_to_pattern@[v]@ == s.push(id));
                        assert(s.push(id).contains(pp) == s.contains(pp)) by {
                            if s.push(id).contains(pp) {
                                let k = choose|k: int|
                                    0 <= k < s.push(id).len() && s.push(id)[k] == pp;
                                if k < s.len() {
                                    assert(s[k] == pp);
                                } else {
                                    assert(id == pp);
                                }
                            } else {
                                if s.contains(pp) {
                                    let k = choose|k: int| 0 <= k < s.len() && s[k] == pp;
                                    assert(s.push(id)[k] == pp);
                                }
                            }
                        }
                    }
                } else {
                    assert(pp == id);
                    assert(self.pattern_to_variable@[p]@ == svars);
                    if svars.contains(vv) {
                        let s = prev.variable_to_pattern@[v]@;
                        assert(self.variable_to_pattern@[v]@ == s.push(id));
                        assert(s.push(id)[s.len() as int] == id);
                        assert(s.push(id).contains(pp));
                    } else {
                        assert(self.variable_to_pattern@[v]@
                            == prev.variable_to_pattern@[v]@);
                        if self.variable_to_pattern@[v]@.contains(pp) {
                            let k = choose|k: int|
                                0 <= k < prev.variable_to_pattern@[v]@.len()
                                    && prev.variable_to_pattern@[v]@[k] == pp;
                            assert(prev.variable_to_pattern@[v]@[k].0 < prev.patterns@.len());
                        }
                    }
                }
            }
        }
        assert(self.index_wf());
    }
    /// Marks variable `v` as a pre-bound input.
    pub fn set_variable_kind(
        &mut self,
        v: VariableVertexId,
        kind: crate::vertex::VariableVertexKind,
    )
        requires
            old(self).wf(),
            v.0 < old(self).variables@.len(),
        ensures
            final(self).wf(),
            final(self).variables@ == old(self).variables@.update(
                v.0 as int,
                VariableVertex { kind, ..old(self).variables@[v.0 as int] },
            ),
            final(self).patterns@ == old(self).patterns@,
            final(self).pattern_to_variable@ == old(self).pattern_to_variable@,
            final(self).variable_to_pattern@ == old(self).variable_to_pattern@,
            final(self).variable_index@ == old(self).variable_index@,
    {
        let vertex = &mut self.variables[v.0];
        vertex.kind = kind;
    }

    /// Mirrors an equality bound onto variable `v`; idempotent.
    pub fn add_equal(&mut self, v: VariableVertexId, other: crate::vertex::Input)
        requires
            old(self).wf(),
            v.0 < old(self).variables@.len(),
        ensures
            final(self).wf(),
            final(self).variables@ == old(self).variables@.update(
                v.0 as int,
                VariableVertex {
                    equals: final(self).variables@[v.0 as int].equals,
                    ..old(self).variables@[v.0 as int]
                },
            ),
            final(self).variables@[v.0 as int].equals@ == crate::vertex::push_if_absent(
                old(self).variables@[v.0 as int].equals@,
                other,
            ),
            final(self).patterns@ == old(self).patterns@,
            final(self).pattern_to_variable@ == old(self).pattern_to_variable@,
            final(self).variable_to_pattern@ == old(self).variable_to_pattern@,
            final(self).variable_index@ == old(self).variable_index@,
    {
        let vertex = &mut self.variables[v.0];
        vertex.add_equal(other);
    }

    /// Mirrors an upper bound onto variable `v`; idempotent.
    pub fn add_upper_bound(&mut self, v: VariableVertexId, other: crate::vertex::Input)
        requires
            old(self).wf(),
            v.0 < old(self).variables@.len(),
        ensures
            final(self).wf(),
            final(self).variables@ == old(self).variables@.update(
                v.0 as int,
                VariableVertex {
                    uppers: final(self).variables@[v.0 as int].uppers,
                    ..old(self).variables@[v.0 as int]
                },
            ),
            final(self).variables@[v.0 as int].uppers@ == crate::vertex::push_if_absent(
                old(self).variables@[v.0 as int].uppers@,
                other,
            ),
            final(self).patterns@ == old(self).patterns@,
            final(self).pattern_to_variable@ == old(self).pattern_to_variable@,
            final(self).variable_to_pattern@ == old(self).variable_to_pattern@,
            final(self).variable_index@ == old(self).variable_index@,
    {
        let vertex = &mut self.variables[v.0];
        vertex.add_upper_bound(other);
    }

    /// Mirrors a lower bound onto variable `v`; idempotent.
    pub fn add_lower_bound(&mut self, v: VariableVertexId, other: crate::vertex::Input)
        requires
            old(self).wf(),
            v.0 < old(self).variables@.len(),
        ensures
            final(self).wf(),
            final(self).variables@ == old(self).variables@.update(
                v.0 as int,
                VariableVertex {
                    lowers: final(self).variables@[v.0 as int].lowers,
                    ..old(self).variables@[v.0 as int]
                },
            ),
            final(self).variables@[v.0 as int].lowers@ == crate::vertex::push_if_absent(
                old(self).variables@[v.0 as int].lowers@,
                other,
            ),
            final(self).patterns@ == old(self).patterns@,
            final(self).pattern_to_variable@ == old(self).pattern_to_variable@,
            final(self).variable_to_pattern@ == old(self).variable_to_pattern@,
            final(self).variable_index@ == old(self).variable_index@,
    {
        let vertex = &mut self.variables[v.0];
        vertex.add_lower_bound(other);
    }

    /// Records `pattern` as the producer of variable `v`.
    pub fn set_producer(&mut self, v: VariableVertexId, pattern: PatternVertexId)
        requires
            old(self).wf(),
            v.0 < old(self).variables@.len(),
        ensures
            final(self).wf(),
            final(self).variables@ == old(self).variables@.update(
                v.0 as int,
                VariableVertex { producer: Some(pattern), ..old(self).variables@[v.0 as int] },
            ),
            final(self).patterns@ == old(self).patterns@,
            final(self).pattern_to_variable@ == old(self).pattern_to_variable@,
            final(self).variable_to_pattern@ == old(self).variable_to_pattern@,
            final(self).variable_index@ == old(self).variable_index@,
    {
        let vertex = &mut self.variables[v.0];
        vertex.set_producer(pattern);
    }
    /// Registers a constraint pattern, indexing it against its variables.
    pub fn push_constraint(&mut self, c: ConstraintVertex) -> (r: PatternVertexId)
        requires
            old(self).wf(),
            old(self).patterns@.len() < usize::MAX,
            spec_input_in_range(c.lhs, old(self).variables@.len()),
            spec_input_in_range(c.rhs, old(self).variables@.len()),
            spec_input_in_range(c.role, old(self).variables@.len()),
        ensures
            push_pattern_ensures(*old(self), *final(self), PatternVertex::Constraint(c), r),
    {
        let ghost vertex = PatternVertex::Constraint(c);
        proof {
            lemma_constraint_vars_in_range(c, old(self).variables@.len());
        }
        let id = self.push_pattern(PatternVertex::Constraint(c));
        id
    }

    /// Registers an `is` pattern between two variables.
    pub fn push_is(&mut self, lhs: VariableVertexId, rhs: VariableVertexId) -> (r:
        PatternVertexId)
        requires
            old(self).wf(),
            old(self).patterns@.len() < usize::MAX,
            lhs.0 < old(self).variables@.len(),
            rhs.0 < old(self).variables@.len(),
        ensures
            push_pattern_ensures(
                *old(self),
                *final(self),
                PatternVertex::Is { lhs, rhs },
                r,
            ),
    {
        let ghost vertex = PatternVertex::Is { lhs, rhs };
        proof {
            crate::vertex::lemma_dedup_first(vertex.spec_raw_variables());
            assert forall|k: int| 0 <= k < vertex.spec_variables().len() implies
                (#[trigger] vertex.spec_variables()[k]).0 < old(self).variables@.len() by {
                let x = vertex.spec_variables()[k];
                assert(vertex.spec_raw_variables().contains(x));
                let j = choose|j: int|
                    0 <= j < vertex.spec_raw_variables().len()
                        && vertex.spec_raw_variables()[j] == x;
                assert(j == 0 || j == 1);
            }
        }
        self.push_pattern(PatternVertex::Is { lhs, rhs })
    }

    /// Registers a comparison pattern.
    pub fn push_comparison(&mut self, lhs: Input, rhs: Input) -> (r: PatternVertexId)
        requires
            old(self).wf(),
            old(self).patterns@.len() < usize::MAX,
            spec_input_in_range(lhs, old(self).variables@.len()),
            spec_input_in_range(rhs, old(self).variables@.len()),
        ensures
            push_pattern_ensures(
                *old(self),
                *final(self),
                PatternVertex::Comparison { lhs, rhs },
                r,
            ),
    {
        let ghost vertex = PatternVertex::Comparison { lhs, rhs };
        proof {
            crate::vertex::lemma_dedup_first(vertex.spec_raw_variables());
            lemma_input_vars_membership(seq![lhs, rhs]);
            assert forall|k: int| 0 <= k < vertex.spec_variables().len() implies
                (#[trigger] vertex.spec_variables()[k]).0 < old(self).variables@.len() by {
                let x = vertex.spec_variables()[k];
                assert(vertex.spec_raw_variables().contains(x));
                assert(seq![lhs, rhs].contains(Input::Variable(x)));
                let j = choose|j: int|
                    0 <= j < 2 && seq![lhs, rhs][j] == Input::Variable(x);
                assert(j == 0 || j == 1);
            }
        }
        self.push_pattern(PatternVertex::Comparison { lhs, rhs })
    }

    /// Registers an expression pattern and records the output variable's
    /// producer.
    pub fn push_expression(
        &mut self,
        inputs: Vec<VariableVertexId>,
        output: VariableVertexId,
    ) -> (r: PatternVertexId)
        requires
            old(self).wf(),
            old(self).patterns@.len() < usize::MAX,
            forall|k: int| 0 <= k < inputs@.len()
                ==> (#[trigger] inputs@[k]).0 < old(self).variables@.len(),
            output.0 < old(self).variables@.len(),
        ensures
            final(self).wf(),
            r.0 == old(self).patterns@.len(),
            final(self).patterns@ == old(self).patterns@.push(
                PatternVertex::Expression { inputs, output },
            ),
            final(self).variables@.len() == old(self).variables@.len(),
            final(self).variables@[output.0 as int].producer == Some(r),
            final(self).variable_index@ == old(self).variable_index@,
            forall|v: int| 0 <= v < old(self).variables@.len()
                ==> (#[trigger] final(self).variables@[v] == old(self).variables@[v]
                    || final(self).variables@[v] == (VariableVertex {
                        producer: Some(r),
                        ..old(self).variables@[v]
                    })),
    {
        let ghost ginputs = inputs@;
        let ghost vertex = PatternVertex::Expression { inputs, output };
        proof {
            crate::vertex::lemma_dedup_first(vertex.spec_raw_variables());
            assert forall|k: int| 0 <= k < vertex.spec_variables().len() implies
                (#[trigger] vertex.spec_variables()[k]).0 < old(self).variables@.len() by {
                let x = vertex.spec_variables()[k];
                assert(vertex.spec_raw_variables().contains(x));
                let j = choose|j: int|
                    0 <= j < ginputs.push(output).len() && ginputs.push(output)[j] == x;
                if j < ginputs.len() {
                    assert(ginputs[j] == x);
                }
            }
        }
        let id = self.push_pattern(PatternVertex::Expression { inputs, output });
        self.set_producer(output, id);
        id
    }

    /// Registers a function-call pattern and records every assigned
    /// variable's producer.
    pub fn push_function_call(
        &mut self,
        function_id: u64,
        arguments: Vec<VariableVertexId>,
        assigned: Vec<VariableVertexId>,
    ) -> (r: PatternVertexId)
        requires
            old(self).wf(),
            old(self).patterns@.len() < usize::MAX,
            forall|k: int| 0 <= k < arguments@.len()
                ==> (#[trigger] arguments@[k]).0 < old(self).variables@.len(),
            forall|k: int| 0 <= k < assigned@.len()
                ==> (#[trigger] assigned@[k]).0 < old(self).variables@.len(),
        ensures
            final(self).wf(),
            r.0 == old(self).patterns@.len(),
            final(self).patterns@ == old(self).patterns@.push(
                PatternVertex::FunctionCall { function_id, arguments, assigned },
            ),
            final(self).variables@.len() == old(self).variables@.len(),
            final(self).variable_index@ == old(self).variable_index@,
            forall|k: int| 0 <= k < assigned@.len()
                ==> final(self).variables@[(#[trigger] assigned@[k]).0 as int].producer
                    == Some(r),
            forall|v: int| 0 <= v < old(self).variables@.len()
                ==> (#[trigger] final(self).variables@[v] == old(self).variables@[v]
                    || final(self).variables@[v] == (VariableVertex {
                        producer: Some(r),
                        ..old(self).variables@[v]
                    })),
    {
        let ghost gargs = arguments@;
        let ghost gassigned = assigned@;
        let assigned_copy = copy_vec(&assigned);
        let ghost vertex = PatternVertex::FunctionCall { function_id, arguments, assigned };
        proof {
            crate::vertex::lemma_dedup_first(vertex.spec_raw_variables());
            assert forall|k: int| 0 <= k < vertex.spec_variables().len() implies
                (#[trigger] vertex.spec_variables()[k]).0 < old(self).variables@.len() by {
                let x = vertex.spec_variables()[k];
                assert(vertex.spec_raw_variables().contains(x));
                let j = choose|j: int|
                    0 <= j < (gargs + gassigned).len() && (gargs + gassigned)[j] == x;
                if j < gargs.len() {
                    assert(gargs[j] == x);
                } else {
                    assert(gassigned[j - gargs.len()] == x);
                }
            }
        }
        let id = self.push_pattern(PatternVertex::FunctionCall { function_id, arguments, assigned });
        let mut i: usize = 0;
        while i < assigned_copy.len()
            invariant
                0 <= i <= gassigned.len(),
                assigned_copy@ == gassigned,
                self.wf(),
                id.0 < self.patterns@.len(),
                self.patterns@ == old(self).patterns@.push(vertex),
                self.variables@.len() == old(self).variables@.len(),
                self.variable_index@ == old(self).variable_index@,
                forall|k: int| 0 <= k < gassigned.len()
                    ==> (#[trigger] gassigned[k]).0 < self.variables@.len(),
                forall|k: int| 0 <= k < i
                    ==> self.variables@[(#[trigger] gassigned[k]).0 as int].producer == Some(id),
                forall|v: int| 0 <= v < old(self).variables@.len()
                    ==> (#[trigger] self.variables@[v] == old(self).variables@[v]
                        || self.variables@[v] == (VariableVertex {
                            producer: Some(id),
                            ..old(self).variables@[v]
                        })),
            decreases gassigned.len() - i,
        {
            self.set_producer(assigned_copy[i], id);
            i += 1;
        }
        id
    }

    /// Registers a pre-planned negation pattern.
    pub fn push_negation(&mut self, shared: Vec<VariableVertexId>, cost: CombinedCost) -> (r:
        PatternVertexId)
        requires
            old(self).wf(),
            old(self).patterns@.len() < usize::MAX,
            forall|k: int| 0 <= k < shared@.len()
                ==> (#[trigger] shared@[k]).0 < old(self).variables@.len(),
        ensures
            push_pattern_ensures(
                *old(self),
                *final(self),
                PatternVertex::Negation { shared, cost },
                r,
            ),
    {
        let ghost gshared = shared@;
        let ghost vertex = PatternVertex::Negation { shared, cost };
        proof {
            crate::vertex::lemma_dedup_first(vertex.spec_raw_variables());
            assert forall|k: int| 0 <= k < vertex.spec_variables().len() implies
                (#[trigger] vertex.spec_variables()[k]).0 < old(self).variables@.len() by {
                let x = vertex.spec_variables()[k];
                assert(vertex.spec_raw_variables().contains(x));
                let j = choose|j: int| 0 <= j < gshared.len() && gshared[j] == x;
            }
        }
        self.push_pattern(PatternVertex::Negation { shared, cost })
    }

    /// Registers a disjunction pattern over branch conjunctions.
    pub fn push_disjunction(
        &mut self,
        shared: Vec<VariableVertexId>,
        branches: Vec<usize>,
        cost: CombinedCost,
    ) -> (r: PatternVertexId)
        requires
            old(self).wf(),
            old(self).patterns@.len() < usize::MAX,
            forall|k: int| 0 <= k < shared@.len()
                ==> (#[trigger] shared@[k]).0 < old(self).variables@.len(),
        ensures
            push_pattern_ensures(
                *old(self),
                *final(self),
                PatternVertex::Disjunction { shared, branches, cost },
                r,
            ),
    {
        let ghost gshared = shared@;
        let ghost vertex = PatternVertex::Disjunction { shared, branches, cost };
        proof {
            crate::vertex::lemma_dedup_first(vertex.spec_raw_variables());
            assert forall|k: int| 0 <= k < vertex.spec_variables().len() implies
                (#[trigger] vertex.spec_variables()[k]).0 < old(self).variables@.len() by {
                let x = vertex.spec_variables()[k];
                assert(vertex.spec_raw_variables().contains(x));
                let j = choose|j: int| 0 <= j < gshared.len() && gshared[j] == x;
            }
        }
        self.push_pattern(PatternVertex::Disjunction { shared, branches, cost })
    }
}

/// An operand's variable, if any, lies in the arena of `n` variables.
pub open spec fn spec_input_in_range(i: Input, n: nat) -> bool {
    match i {
        Input::Variable(v) => v.0 < n,
        Input::Fixed => true,
    }
}

/// What a pattern push guarantees: the pattern is appended, adjacency is
/// extended for exactly its variables, and everything else is untouched.
pub open spec fn push_pattern_ensures(
    prev: Graph,
    next: Graph,
    vertex: PatternVertex,
    r: PatternVertexId,
) -> bool {
    &&& next.wf()
    &&& r.0 == prev.patterns@.len()
    &&& next.patterns@ == prev.patterns@.push(vertex)
    &&& next.variables@ == prev.variables@
    &&& next.variable_index@ == prev.variable_index@
    &&& next.pattern_to_variable@.len() == prev.pattern_to_variable@.len() + 1
    &&& next.pattern_to_variable@[r.0 as int]@ == vertex.spec_variables()
    &&& forall|k: int| 0 <= k < prev.pattern_to_variable@.len()
        ==> next.pattern_to_variable@[k] == prev.pattern_to_variable@[k]
}

/// Variables listed by an operand sequence come from its variable operands.
proof fn lemma_input_vars_membership(s: Seq<Input>)
    ensures
        forall|x: VariableVertexId| spec_input_vars(s).contains(x)
            ==> s.contains(Input::Variable(x)),
    decreases s.len(),
{
    if s.len() > 0 {
        lemma_input_vars_membership(s.drop_last());
        assert forall|x: VariableVertexId| spec_input_vars(s).contains(x) implies
            s.contains(Input::Variable(x)) by {
            let prev = spec_input_vars(s.drop_last());
            if prev.contains(x) {
                assert(s.drop_last().contains(Input::Variable(x)));
                let j = choose|j: int|
                    0 <= j < s.drop_last().len() && s.drop_last()[j] == Input::Variable(x);
                assert(s[j] == Input::Variable(x));
            } else {
                let k = choose|k: int|
                    0 <= k < spec_input_vars(s).len() && spec_input_vars(s)[k] == x;
                match s.last() {
                    Input::Variable(v) => {
                        assert(spec_input_vars(s) == prev.push(v));
                        if k < prev.len() {
                            assert(prev[k] == x);
                        } else {
                            assert(x == v);
                            assert(s[s.len() - 1] == Input::Variable(x));
                        }
                    },
                    Input::Fixed => {
                        assert(spec_input_vars(s) == prev);
                    },
                }
            }
        }
    }
}

/// A constraint's distinct variables lie in the arena when its operands do.
proof fn lemma_constraint_vars_in_range(c: ConstraintVertex, n: nat)
    requires
        spec_input_in_range(c.lhs, n),
        spec_input_in_range(c.rhs, n),
        spec_input_in_range(c.role, n),
    ensures
        forall|k: int|
            0 <= k < PatternVertex::Constraint(c).spec_variables().len()
            ==> (#[trigger] PatternVertex::Constraint(c).spec_variables()[k]).0 < n,
{
    let vertex = PatternVertex::Constraint(c);
    crate::vertex::lemma_dedup_first(vertex.spec_raw_variables());
    lemma_input_vars_membership(seq![c.lhs, c.rhs, c.role]);
    assert forall|k: int|
        0 <= k < vertex.spec_variables().len() implies
        (#[trigger] vertex.spec_variables()[k]).0 < n by {
        let x = vertex.spec_variables()[k];
        assert(vertex.spec_raw_variables().contains(x));
        assert(seq![c.lhs, c.rhs, c.role].contains(Input::Variable(x)));
        let j = choose|j: int|
            0 <= j < 3 && seq![c.lhs, c.rhs, c.role][j] == Input::Variable(x);
        assert(j == 0 || j == 1 || j == 2);
    }
}

} // verus!
