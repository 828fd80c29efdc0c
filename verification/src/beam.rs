//! Beam plan search: a bounded best-first enumeration over partial plans.
//!
//! Each partial plan holds an ordering prefix, the patterns still to
//! place, and the cost of its steps. At every depth, each plan of the
//! frontier is extended by its valid next patterns; a pattern that shares
//! exactly one newly produced variable with the ongoing step joins that
//! step — a constraint with a join-size cost reduction, a comparison
//! absorbed at no marginal cost — while any other placement finalizes the
//! step and opens a new one. Per plan at most `extension_width` extensions
//! are kept, and the collapsed frontier holds at most `beam_width` plans,
//! cheapest projected cost first, displacing the worst kept plan.
//!
//! The ordering a partial plan grows interleaves each placed pattern with
//! its newly produced variables (the sort variable of the chosen
//! direction first); step grouping affects only the costs. The final plan
//! is the cheapest of the surviving candidates and of the greedy plan,
//! which is kept as the fallback: the beam's projected cost therefore
//! never exceeds the greedy planner's.
//!
//! A partial plan's whole state is a proved function of its ordering:
//! the remaining patterns are the unplaced ones, each direction entry is
//! the choice under its placement prefix (and empty before placement),
//! and the cost fields replay the step bookkeeping along the ordering
//! (`spec_step_state`). Each extension and each bounded displacement is
//! individually pinned; what has no specification mirror is the frontier
//! composition itself — which candidate orderings survive a depth — so,
//! unlike the greedy planner, the beam's equality across two runs is not
//! stated as a contract, though every selection in it breaks ties to the
//! first candidate and nothing iterates in hash order.

use vstd::prelude::*;

use crate::cost::CombinedCost;
use crate::errors::PlannerError;
use crate::graph::Graph;
use crate::ids::{copy_vec, PatternVertexId, VariableVertexId, VariableVertexIdSet, VertexId};
use crate::search::{
    initialise_greedy_ordering, placed_vars, remove_pattern, spec_direction_choice, spec_greedy,
    spec_ordering_complete, spec_ordering_wf, spec_place, spec_search_state_wf, ConjunctionPlan,
};
use crate::vertex::{CostMetaData, Direction, PatternVertex};

verus! {

/// The beam frontier bound: how many partial plans survive each depth.
pub const BEAM_WIDTH: usize = 10_000_000;

/// The per-plan extension bound: how many candidate extensions are kept.
pub const EXTENSION_WIDTH: usize = 50;

/// A partial plan: the ordering prefix, the remaining patterns, chosen
/// directions, the chained cost of finalized steps, and the ongoing step.
#[derive(Clone, Debug)]
pub struct PlanPartial {
    pub ordering: Vec<VertexId>,
    pub remaining: Vec<PatternVertexId>,
    pub directions: Vec<Option<Direction>>,
    /// Chained cost of all finalized steps.
    pub cumulative_cost: CombinedCost,
    /// Cost of the ongoing step alone.
    pub step_cost: CombinedCost,
    /// The ongoing step's join variable, once one is committed.
    pub step_join: Option<VariableVertexId>,
    /// Variables produced within the ongoing step.
    pub step_produced: VariableVertexIdSet,
    /// Projected total cost: finalized steps chained with the ongoing step
    /// (the completion heuristic is zero).
    pub projected_cost: CombinedCost,
}


/// The members of the pattern's variable list that the step has produced,
/// in the pattern's canonical variable order.
pub open spec fn spec_shared_vars(
    vars: Seq<VariableVertexId>,
    produced: Seq<VariableVertexId>,
) -> Seq<VariableVertexId>
    decreases vars.len(),
{
    if vars.len() == 0 {
        Seq::empty()
    } else {
        let rest = spec_shared_vars(vars.drop_last(), produced);
        if produced.contains(vars.last()) {
            rest.push(vars.last())
        } else {
            rest
        }
    }
}

/// The join variable of placing `p` into a step: `Some(v)` exactly when
/// the pattern shares exactly one variable `v` with the step's produced
/// set and `v` agrees with the step's committed join variable, if any.
pub open spec fn spec_joinability(
    g: &Graph,
    produced: Seq<VariableVertexId>,
    join: Option<VariableVertexId>,
    p: PatternVertexId,
) -> Option<VariableVertexId> {
    let shared = spec_shared_vars(g.pattern_to_variable@[p.0 as int]@, produced);
    if shared.len() == 1 {
        match join {
            Option::None => Some(shared[0]),
            Option::Some(existing) => if existing == shared[0] {
                Some(shared[0])
            } else {
                None
            },
        }
    } else {
        None
    }
}


/// `s` extended by the members of `vs` not already present, in order.
pub open spec fn spec_insert_all(
    s: Seq<VariableVertexId>,
    vs: Seq<VariableVertexId>,
) -> Seq<VariableVertexId>
    decreases vs.len(),
{
    if vs.len() == 0 {
        s
    } else {
        let rest = spec_insert_all(s, vs.drop_last());
        if rest.contains(vs.last()) {
            rest
        } else {
            rest.push(vs.last())
        }
    }
}

/// The step bookkeeping after placing `p`: a joinable constraint joins the
/// ongoing step with its io ratio reduced by the join variable's expected
/// size; a joinable comparison is absorbed at no marginal cost; any other
/// placement finalizes the step (chaining it onto the cumulative cost) and
/// opens a new one holding the pattern's own cost. Returns the cumulative
/// cost, the step cost and the step's join variable.
pub open spec fn spec_step_update(
    g: &Graph,
    cumulative: CombinedCost,
    step_cost: CombinedCost,
    join: Option<VariableVertexId>,
    produced: Seq<VariableVertexId>,
    ordering: Seq<VertexId>,
    p: PatternVertexId,
) -> (CombinedCost, CombinedCost, Option<VariableVertexId>) {
    let own = crate::vertex::spec_cost_and_metadata(&g.patterns@[p.0 as int], ordering).0;
    match spec_joinability(g, produced, join, p) {
        Option::Some(jv) => {
            if g.patterns@[p.0 as int] is Constraint {
                (
                    cumulative,
                    crate::cost::spec_join(
                        step_cost,
                        own,
                        crate::vertex::spec_expected_size(&g.variables@[jv.0 as int]),
                    ),
                    Some(jv),
                )
            } else if g.patterns@[p.0 as int] is Comparison {
                (cumulative, step_cost, Some(jv))
            } else {
                (crate::cost::spec_chain(cumulative, step_cost), own, None)
            }
        },
        Option::None => (crate::cost::spec_chain(cumulative, step_cost), own, None),
    }
}


/// The step bookkeeping replayed along an ordering: walking the first `i`
/// entries, each placed pattern joins, absorbs into, or finalizes the
/// ongoing step exactly as the search did, so the cost state of a partial
/// plan is a function of its ordering alone.
pub open spec fn spec_step_state(g: &Graph, ordering: Seq<VertexId>, i: int) -> (
    CombinedCost,
    CombinedCost,
    Option<VariableVertexId>,
    Seq<VariableVertexId>,
)
    decreases i,
{
    if i <= 0 {
        (
            CombinedCost::spec_noop(),
            CombinedCost::spec_noop(),
            None::<VariableVertexId>,
            Seq::<VariableVertexId>::empty(),
        )
    } else {
        let prev = spec_step_state(g, ordering, i - 1);
        match ordering[i - 1] {
            VertexId::Variable(_) => prev,
            VertexId::Pattern(p) => {
                let (cumulative, step, join) = spec_step_update(
                    g,
                    prev.0,
                    prev.1,
                    prev.2,
                    prev.3,
                    ordering.take(i - 1),
                    p,
                );
                let produced = spec_insert_all(
                    if spec_joinability(g, prev.3, prev.2, p) is Some {
                        prev.3
                    } else {
                        Seq::<VariableVertexId>::empty()
                    },
                    crate::search::spec_placed_vars(g, ordering.take(i - 1), p),
                );
                (cumulative, step, join, produced)
            },
        }
    }
}

/// Orderings that agree on a prefix replay to the same state over it.
proof fn lemma_step_state_prefix(g: &Graph, ord1: Seq<VertexId>, ord2: Seq<VertexId>, i: int)
    requires
        i <= ord1.len(),
        i <= ord2.len(),
        forall|j: int| 0 <= j < i ==> ord1[j] == ord2[j],
    ensures
        spec_step_state(g, ord1, i) == spec_step_state(g, ord2, i),
    decreases i,
{
    if i > 0 {
        lemma_step_state_prefix(g, ord1, ord2, i - 1);
        assert(ord1.take(i - 1) =~= ord2.take(i - 1));
    }
}

/// Variable entries do not change the replayed state.
proof fn lemma_step_state_vars(g: &Graph, ordering: Seq<VertexId>, from: int, i: int)
    requires
        0 <= from <= i <= ordering.len(),
        forall|j: int| from <= j < i ==> (#[trigger] ordering[j]) is Variable,
    ensures
        spec_step_state(g, ordering, i) == spec_step_state(g, ordering, from),
    decreases i - from,
{
    if i > from {
        lemma_step_state_vars(g, ordering, from, i - 1);
        assert(ordering[i - 1] is Variable);
    }
}


/// The patterns of the first `n` not yet placed in the ordering,
/// ascending.
pub open spec fn spec_unplaced_upto(ordering: Seq<VertexId>, n: nat) -> Seq<PatternVertexId>
    decreases n,
{
    if n == 0 {
        Seq::empty()
    } else {
        let rest = spec_unplaced_upto(ordering, (n - 1) as nat);
        if ordering.contains(VertexId::Pattern(PatternVertexId((n - 1) as usize))) {
            rest
        } else {
            rest.push(PatternVertexId((n - 1) as usize))
        }
    }
}

/// Removing an absent pattern changes nothing.
proof fn lemma_remove_absent(s: Seq<PatternVertexId>, p: PatternVertexId)
    requires
        !s.contains(p),
    ensures
        crate::search::spec_remove(s, p) == s,
    decreases s.len(),
{
    if s.len() > 0 {
        assert(s[0] != p);
        assert(!s.drop_first().contains(p)) by {
            if s.drop_first().contains(p) {
                let k = choose|k: int|
                    0 <= k < s.drop_first().len() && s.drop_first()[k] == p;
                assert(s[k + 1] == p);
            }
        }
        lemma_remove_absent(s.drop_first(), p);
        assert(crate::search::spec_remove(s, p) =~= s);
    }
}

/// Removal distributes over pushing a different element.
proof fn lemma_remove_push(s: Seq<PatternVertexId>, q: PatternVertexId, p: PatternVertexId)
    requires
        q != p,
    ensures
        crate::search::spec_remove(s.push(q), p) == crate::search::spec_remove(s, p).push(q),
    decreases s.len(),
{
    if s.len() == 0 {
        assert(s.push(q)[0] == q);
        assert(s.push(q).drop_first() =~= Seq::<PatternVertexId>::empty());
        assert(crate::search::spec_remove(Seq::<PatternVertexId>::empty(), p)
            =~= Seq::<PatternVertexId>::empty());
        assert(crate::search::spec_remove(s, p) =~= Seq::<PatternVertexId>::empty());
        assert(crate::search::spec_remove(s.push(q), p) =~= crate::search::spec_remove(
            s,
            p,
        ).push(q));
    } else {
        assert(s.push(q)[0] == s[0]);
        if s[0] == p {
            assert(s.push(q)[0] == p);
            assert(crate::search::spec_remove(s.push(q), p) == s.push(q).drop_first());
            assert(crate::search::spec_remove(s, p) == s.drop_first());
            assert(s.push(q).drop_first() =~= s.drop_first().push(q));
        } else {
            assert(s.push(q).drop_first() =~= s.drop_first().push(q));
            lemma_remove_push(s.drop_first(), q, p);
            assert(crate::search::spec_remove(s.push(q), p) =~= crate::search::spec_remove(
                s,
                p,
            ).push(q));
        }
    }
}

/// Removing the freshly pushed element undoes the push when it was absent.
proof fn lemma_remove_pushed(s: Seq<PatternVertexId>, p: PatternVertexId)
    requires
        !s.contains(p),
    ensures
        crate::search::spec_remove(s.push(p), p) == s,
    decreases s.len(),
{
    if s.len() == 0 {
        assert(s.push(p)[0] == p);
        assert(crate::search::spec_remove(s.push(p), p) =~= s);
    } else {
        assert(s[0] != p);
        assert(s.push(p)[0] == s[0]);
        assert(!s.drop_first().contains(p)) by {
            if s.drop_first().contains(p) {
                let k = choose|k: int|
                    0 <= k < s.drop_first().len() && s.drop_first()[k] == p;
                assert(s[k + 1] == p);
            }
        }
        assert(s.push(p).drop_first() =~= s.drop_first().push(p));
        lemma_remove_pushed(s.drop_first(), p);
        assert(crate::search::spec_remove(s.push(p), p) =~= s);
    }
}

/// Placing pattern `p` removes exactly it from the unplaced set.
proof fn lemma_unplaced_place(
    ord1: Seq<VertexId>,
    ord2: Seq<VertexId>,
    p: PatternVertexId,
    n: nat,
)
    requires
        !ord1.contains(VertexId::Pattern(p)),
        forall|q: PatternVertexId| #[trigger] ord2.contains(VertexId::Pattern(q))
            == (ord1.contains(VertexId::Pattern(q)) || q == p),
        p.0 < n,
        n <= usize::MAX,
    ensures
        spec_unplaced_upto(ord2, n) == crate::search::spec_remove(
            spec_unplaced_upto(ord1, n),
            p,
        ),
    decreases n,
{
    let rest1 = spec_unplaced_upto(ord1, (n - 1) as nat);
    let rest2 = spec_unplaced_upto(ord2, (n - 1) as nat);
    let q = PatternVertexId((n - 1) as usize);
    if p.0 < n - 1 {
        lemma_unplaced_place(ord1, ord2, p, (n - 1) as nat);
        if ord1.contains(VertexId::Pattern(q)) {
            assert(ord2.contains(VertexId::Pattern(q)));
        } else if q == p {
            assert(false);
        } else {
            assert(!ord2.contains(VertexId::Pattern(q)));
            lemma_remove_push(rest1, q, p);
        }
    } else {
        assert(q == p);
        assert(!ord1.contains(VertexId::Pattern(q)));
        assert(ord2.contains(VertexId::Pattern(q)));
        assert(rest1 == rest2) by {
            lemma_unplaced_agrees(ord1, ord2, p, (n - 1) as nat);
        }
        assert(!rest1.contains(p)) by {
            lemma_unplaced_members(ord1, p, (n - 1) as nat);
        }
        lemma_remove_pushed(rest1, p);
    }
}

/// Below the placed pattern's id, the unplaced sets agree.
proof fn lemma_unplaced_agrees(
    ord1: Seq<VertexId>,
    ord2: Seq<VertexId>,
    p: PatternVertexId,
    n: nat,
)
    requires
        forall|q: PatternVertexId| #[trigger] ord2.contains(VertexId::Pattern(q))
            == (ord1.contains(VertexId::Pattern(q)) || q == p),
        p.0 >= n,
        n <= usize::MAX,
    ensures
        spec_unplaced_upto(ord1, n) == spec_unplaced_upto(ord2, n),
    decreases n,
{
    if n > 0 {
        lemma_unplaced_agrees(ord1, ord2, p, (n - 1) as nat);
        let q = PatternVertexId((n - 1) as usize);
        assert(q != p);
        assert(ord2.contains(VertexId::Pattern(q)) == ord1.contains(VertexId::Pattern(q)));
    }
}

/// An unplaced set only holds ids below its bound.
proof fn lemma_unplaced_members(ordering: Seq<VertexId>, p: PatternVertexId, n: nat)
    requires
        p.0 >= n,
        n <= usize::MAX,
    ensures
        !spec_unplaced_upto(ordering, n).contains(p),
    decreases n,
{
    if n > 0 {
        lemma_unplaced_members(ordering, p, (n - 1) as nat);
        let rest = spec_unplaced_upto(ordering, (n - 1) as nat);
        let q = PatternVertexId((n - 1) as usize);
        if !ordering.contains(VertexId::Pattern(q)) {
            assert forall|k: int| 0 <= k < rest.push(q).len() implies
                rest.push(q)[k] != p by {
                if k < rest.len() {
                    assert(!rest.contains(p));
                    assert(rest.contains(rest[k]));
                }
            }
            if rest.push(q).contains(p) {
                let k = choose|k: int| 0 <= k < rest.push(q).len() && rest.push(q)[k] == p;
            }
        }
    }
}


/// An ordering without pattern entries leaves every pattern unplaced.
proof fn lemma_unplaced_none(ordering: Seq<VertexId>, n: nat)
    requires
        forall|q: PatternVertexId|
            !(#[trigger] ordering.contains(VertexId::Pattern(q))),
        n <= usize::MAX,
    ensures
        spec_unplaced_upto(ordering, n) == crate::search::spec_all_patterns(n),
    decreases n,
{
    if n > 0 {
        lemma_unplaced_none(ordering, (n - 1) as nat);
    }
}

/// The invariant each partial plan maintains.
pub open spec fn spec_partial_wf(g: &Graph, plan: &PlanPartial) -> bool {
    &&& spec_search_state_wf(g, plan.ordering@, plan.remaining@)
    &&& plan.directions@.len() == g.patterns@.len()
    &&& plan.step_produced.wf()
    &&& crate::search::spec_directions_consistent(g, plan.ordering@, plan.directions@)
    &&& (plan.cumulative_cost, plan.step_cost, plan.step_join, plan.step_produced@)
        == spec_step_state(g, plan.ordering@, plan.ordering@.len() as int)
    &&& plan.projected_cost == crate::cost::spec_chain(plan.cumulative_cost, plan.step_cost)
    &&& plan.remaining@ == spec_unplaced_upto(plan.ordering@, g.patterns@.len())
    &&& forall|q: int| 0 <= q < g.patterns@.len()
        && !(#[trigger] plan.ordering@.contains(VertexId::Pattern(PatternVertexId(q as usize))))
        ==> plan.directions@[q] is None
}

impl PlanPartial {
    /// The seed plan: the input variables ordered, everything remaining.
    pub fn new(g: &Graph) -> (r: PlanPartial)
        requires
            g.wf(),
        ensures
            spec_partial_wf(g, &r),
            r.remaining@.len() == g.patterns@.len(),
    {
        let ordering = crate::search::initial_ordering(g);
        let remaining = crate::search::all_patterns(g);
        let np = g.pattern_count();
        let nv = g.variable_count();
        proof {
            crate::search::lemma_all_patterns(g.patterns@.len());
        }
        let mut directions: Vec<Option<Direction>> = Vec::new();
        let mut d: usize = 0;
        while d < np
            invariant
                directions@.len() == d,
                0 <= d <= np,
                forall|t: int| 0 <= t < d ==> (#[trigger] directions@[t]) is None,
            decreases np - d,
        {
            directions.push(None);
            d += 1;
        }
        proof {
            crate::search::lemma_state_init(g);
            crate::search::lemma_initial_ordering(g, g.variables@.len());
            assert forall|i: int| 0 <= i < ordering@.len() implies
                (match #[trigger] ordering@[i] {
                    VertexId::Pattern(q) => q.0 < directions@.len()
                        && directions@[q.0 as int] == spec_direction_choice(
                        g,
                        ordering@.take(i),
                        q,
                    ),
                    VertexId::Variable(_) => true,
                }) by {
                assert(ordering@.contains(ordering@[i]));
            }
            assert forall|i: int| 0 <= i < ordering@.len() implies
                (#[trigger] ordering@[i]) is Variable by {
                assert(ordering@.contains(ordering@[i]));
            }
            lemma_step_state_vars(g, ordering@, 0, ordering@.len() as int);
            assert(crate::cost::spec_chain(CombinedCost::spec_noop(), CombinedCost::spec_noop())
                == CombinedCost::spec_noop());
            assert forall|q: PatternVertexId|
                !(#[trigger] ordering@.contains(VertexId::Pattern(q))) by {
                if ordering@.contains(VertexId::Pattern(q)) {
                    let k = choose|k: int|
                        0 <= k < ordering@.len() && ordering@[k] == VertexId::Pattern(q);
                    assert(ordering@[k] is Variable);
                }
            }
            lemma_unplaced_none(ordering@, g.patterns@.len());
        }
        PlanPartial {
            ordering,
            remaining,
            directions,
            cumulative_cost: CombinedCost::noop(),
            step_cost: CombinedCost::noop(),
            step_join: None,
            step_produced: VariableVertexIdSet::new(),
            projected_cost: CombinedCost::noop(),
        }
    }

    /// Whether placing `p` can join the ongoing step: it must share exactly
    /// one variable with the step's produced set, and agree with the
    /// committed join variable. Returns the join variable when it does.
    pub fn evaluate_joinability(&self, g: &Graph, p: PatternVertexId) -> (r: Option<
        VariableVertexId,
    >)
        requires
            g.wf(),
            p.0 < g.patterns@.len(),
        ensures
            r == spec_joinability(g, self.step_produced@, self.step_join, p),
            r matches Some(v) ==> v.0 < g.variables@.len(),
    {
        let vars = &g.pattern_to_variable[p.0];
        let ghost svars = g.pattern_to_variable@[p.0 as int]@;
        let mut shared: Vec<usize> = Vec::new();
        let mut i: usize = 0;
        proof {
            assert(svars.take(0) =~= Seq::<VariableVertexId>::empty());
        }
        while i < vars.len()
            invariant
                0 <= i <= vars@.len(),
                vars@ == svars,
                svars == g.pattern_to_variable@[p.0 as int]@,
                g.wf(),
                p.0 < g.patterns@.len(),
                shared@.len() == spec_shared_vars(svars.take(i as int), self.step_produced@).len(),
                forall|k: int| 0 <= k < shared@.len()
                    ==> (#[trigger] shared@[k])
                        == spec_shared_vars(svars.take(i as int), self.step_produced@)[k].0,
                forall|k: int| 0 <= k < shared@.len()
                    ==> (#[trigger] shared@[k]) < g.variables@.len(),
            decreases vars@.len() - i,
        {
            proof {
                assert(svars.take(i as int + 1).drop_last() =~= svars.take(i as int));
                assert(svars.take(i as int + 1).last() == svars[i as int]);
            }
            if self.step_produced.contains(&vars[i]) {
                proof {
                    assert(g.pattern_to_variable@[p.0 as int]@[i as int].0
                        < g.variables@.len());
                }
                shared.push(vars[i].0);
            }
            i += 1;
        }
        proof {
            assert(svars.take(svars.len() as int) =~= svars);
        }
        let ghost sshared = spec_shared_vars(svars, self.step_produced@);
        let candidate = crate::outside::exactly_one_usize(&shared);
        match candidate {
            Option::Some(u) => {
                proof {
                    assert(shared@[0] < g.variables@.len());
                    assert(sshared[0].0 == u);
                    assert(sshared[0] == VariableVertexId(u));
                }
                let jv = VariableVertexId(u);
                match self.step_join {
                    Option::None => Some(jv),
                    Option::Some(existing) => if existing == jv {
                        Some(jv)
                    } else {
                        None
                    },
                }
            },
            Option::None => None,
        }
    }

    /// Extends this plan by placing `p`: the ordering grows by the pattern
    /// and its produced variables, the direction map records the chosen
    /// direction, and the step bookkeeping either joins the ongoing step
    /// or finalizes it and opens a new one. Every field of the result is
    /// pinned as a function of this plan and `p`.
    pub fn clone_and_extend_with_new_step(&self, g: &Graph, p: PatternVertexId) -> (r:
        PlanPartial)
        requires
            g.wf(),
            spec_partial_wf(g, self),
            self.remaining@.contains(p),
            crate::vertex::spec_is_valid(&g.patterns@[p.0 as int], self.ordering@),
        ensures
            spec_partial_wf(g, &r),
            r.remaining@.len() == self.remaining@.len() - 1,
            r.ordering@ == spec_place(g, self.ordering@, p),
            r.remaining@ == crate::search::spec_remove(self.remaining@, p),
            r.directions@ == self.directions@.update(
                p.0 as int,
                spec_direction_choice(g, self.ordering@, p),
            ),
            (r.cumulative_cost, r.step_cost, r.step_join) == spec_step_update(
                g,
                self.cumulative_cost,
                self.step_cost,
                self.step_join,
                self.step_produced@,
                self.ordering@,
                p,
            ),
            r.step_produced@ == spec_insert_all(
                if spec_joinability(g, self.step_produced@, self.step_join, p) is Some {
                    self.step_produced@
                } else {
                    Seq::empty()
                },
                crate::search::spec_placed_vars(g, self.ordering@, p),
            ),
            r.projected_cost == crate::cost::spec_chain(r.cumulative_cost, r.step_cost),
    {
        proof {
            assert(self.remaining@.contains(p));
            let k = choose|k: int| 0 <= k < self.remaining@.len() && self.remaining@[k] == p;
        }
        let pattern_total = g.pattern_count();
        proof {
            assert(g.patterns@.len() == pattern_total);
        }
        let join = self.evaluate_joinability(g, p);
        let (own_cost, meta) = g.patterns[p.0].cost_and_metadata(&self.ordering);
        let dir: Option<Direction> = match meta {
            CostMetaData::Direction(dd) => Some(dd),
            CostMetaData::NoDirection => None,
        };
        let is_constraint = match &g.patterns[p.0] {
            PatternVertex::Constraint(_) => true,
            _ => false,
        };
        let is_comparison = match &g.patterns[p.0] {
            PatternVertex::Comparison { .. } => true,
            _ => false,
        };

        let mut ordering = copy_vec(&self.ordering);
        let pv = placed_vars(g, &ordering, p);
        ordering.push(VertexId::Pattern(p));
        let ghost pre_ordering = self.ordering@;
        let mut k: usize = 0;
        while k < pv.len()
            invariant
                0 <= k <= pv@.len(),
                ordering@ == pre_ordering.push(VertexId::Pattern(p))
                    + crate::search::spec_as_vertex_ids(pv@.take(k as int)),
            decreases pv@.len() - k,
        {
            ordering.push(VertexId::Variable(pv[k]));
            proof {
                assert(crate::search::spec_as_vertex_ids(pv@.take(k as int + 1))
                    =~= crate::search::spec_as_vertex_ids(pv@.take(k as int)).push(
                    VertexId::Variable(pv@[k as int]),
                ));
                assert(ordering@ =~= pre_ordering.push(VertexId::Pattern(p))
                    + crate::search::spec_as_vertex_ids(pv@.take(k as int + 1)));
            }
            k += 1;
        }
        proof {
            assert(pv@.take(pv@.len() as int) =~= pv@);
            assert(ordering@ == spec_place(g, pre_ordering, p));
        }

        let mut remaining = copy_vec(&self.remaining);
        remove_pattern(&mut remaining, p);
        let mut directions = copy_vec(&self.directions);
        directions.set(p.0, dir);

        // Step bookkeeping: join, absorb, or finalize-and-open.
        let joinable = match join {
            Option::Some(_) => true,
            Option::None => false,
        };
        let (cumulative_cost, step_cost, step_join) = if joinable && is_constraint {
            let jv = match join {
                Option::Some(v) => v,
                Option::None => VariableVertexId(0),
            };
            let join_size = g.variables[jv.0].expected_size();
            (self.cumulative_cost, self.step_cost.join(own_cost, join_size), Some(jv))
        } else if joinable && is_comparison {
            // A joinable comparison is absorbed into the step at no cost.
            (self.cumulative_cost, self.step_cost, join)
        } else {
            (self.cumulative_cost.chain(self.step_cost), own_cost, None)
        };
        let mut step_produced = if joinable {
            self.step_produced.duplicate()
        } else {
            VariableVertexIdSet::new()
        };
        let ghost produced_base = step_produced@;
        let mut t: usize = 0;
        proof {
            assert(pv@.take(0) =~= Seq::<VariableVertexId>::empty());
        }
        while t < pv.len()
            invariant
                0 <= t <= pv@.len(),
                step_produced.wf(),
                step_produced@ == spec_insert_all(produced_base, pv@.take(t as int)),
            decreases pv@.len() - t,
        {
            proof {
                assert(pv@.take(t as int + 1).drop_last() =~= pv@.take(t as int));
                assert(pv@.take(t as int + 1).last() == pv@[t as int]);
            }
            step_produced.insert(pv[t]);
            t += 1;
        }
        proof {
            assert(pv@.take(pv@.len() as int) =~= pv@);
        }
        let projected_cost = cumulative_cost.chain(step_cost);
        proof {
            crate::search::lemma_state_step(g, pre_ordering, self.remaining@, p);
            crate::search::lemma_directions_extend(g, pre_ordering, self.directions@, p);
            // The extended ordering replays to exactly the new cost state:
            // the prefix replays to this plan's state, the pattern entry
            // applies the step update, and the appended variables change
            // nothing.
            let new_ord = ordering@;
            let pre_len = pre_ordering.len() as int;
            lemma_step_state_prefix(g, new_ord, pre_ordering, pre_len);
            assert(new_ord.take(pre_len) =~= pre_ordering);
            assert(new_ord[pre_len] == VertexId::Pattern(p));
            assert forall|j: int| pre_len + 1 <= j < new_ord.len() implies
                (#[trigger] new_ord[j]) is Variable by {
                assert(new_ord[j] == crate::search::spec_as_vertex_ids(pv@)[
                    j - pre_len - 1
                ]);
            }
            lemma_step_state_vars(g, new_ord, pre_len + 1, new_ord.len() as int);
            // The remaining set replays too: placing `p` removes exactly it
            // from the unplaced patterns, and its direction entry is the
            // only one that stops being empty.
            assert(!pre_ordering.contains(VertexId::Pattern(p)));
            crate::search::lemma_extend_ordering(g, pre_ordering, p);
            lemma_unplaced_place(pre_ordering, new_ord, p, g.patterns@.len());
            assert forall|q: int|
                0 <= q < g.patterns@.len()
                    && !(#[trigger] new_ord.contains(
                    VertexId::Pattern(PatternVertexId(q as usize)),
                )) implies directions@[q] is None by {
                assert(PatternVertexId(q as usize) != p);
                assert(!pre_ordering.contains(VertexId::Pattern(PatternVertexId(q as usize))));
            }
        }
        PlanPartial {
            ordering,
            remaining,
            directions,
            cumulative_cost,
            step_cost,
            step_join,
            step_produced,
            projected_cost,
        }
    }

    /// Seals the plan: the ongoing step's cost is chained onto the
    /// finalized steps.
    pub fn into_complete_plan(self) -> (r: ConjunctionPlan)
        ensures
            r.ordering@ == self.ordering@,
            r.directions@ == self.directions@,
            r.cost == crate::cost::spec_chain(self.cumulative_cost, self.step_cost),
    {
        let cost = self.cumulative_cost.chain(self.step_cost);
        ConjunctionPlan { ordering: self.ordering, directions: self.directions, cost }
    }
}


/// The first index of the worst-projected plan among `kept`, folding left
/// from `acc` at position `i`: only a strictly worse plan displaces the
/// current candidate, so ties keep the earliest.
pub open spec fn spec_worst_from(kept: Seq<PlanPartial>, i: int, acc: int) -> int
    decreases kept.len() - i,
{
    if i < 0 || i >= kept.len() {
        acc
    } else if 0 <= acc < kept.len()
        && kept[i].projected_cost.cost > kept[acc].projected_cost.cost {
        spec_worst_from(kept, i + 1, i)
    } else {
        spec_worst_from(kept, i + 1, acc)
    }
}

/// The kept plans after offering `x` to a bounded frontier: appended while
/// under the cap, displacing the first worst-projected plan when strictly
/// cheaper than it, and dropped otherwise.
pub open spec fn spec_bounded_insert(
    kept: Seq<PlanPartial>,
    x: PlanPartial,
    cap: int,
) -> Seq<PlanPartial> {
    if kept.len() < cap {
        kept.push(x)
    } else {
        let w = spec_worst_from(kept, 1, 0);
        if x.projected_cost.cost < kept[w].projected_cost.cost {
            kept.update(w, x)
        } else {
            kept
        }
    }
}

/// The worst-index fold stays in range.
proof fn lemma_worst_from_range(kept: Seq<PlanPartial>, i: int, acc: int)
    requires
        0 <= acc < kept.len(),
    ensures
        0 <= spec_worst_from(kept, i, acc) < kept.len(),
    decreases kept.len() - i,
{
    if 0 <= i < kept.len() {
        if kept[i].projected_cost.cost > kept[acc].projected_cost.cost {
            lemma_worst_from_range(kept, i + 1, i);
        } else {
            lemma_worst_from_range(kept, i + 1, acc);
        }
    }
}

/// Keeps `x` if the kept list is under `cap`, otherwise displaces the
/// worst-projected kept plan when `x` beats it.
fn bounded_insert(
    kept: &mut Vec<PlanPartial>,
    x: PlanPartial,
    cap: usize,
    g: &Graph,
    rem_len: Ghost<nat>,
)
    requires
        cap >= 1,
        g.wf(),
        spec_partial_wf(g, &x),
        x.remaining@.len() == rem_len@,
        forall|i: int| 0 <= i < old(kept)@.len()
            ==> spec_partial_wf(g, &old(kept)@[i])
                && (#[trigger] old(kept)@[i]).remaining@.len() == rem_len@,
        old(kept)@.len() <= cap,
    ensures
        final(kept)@ == spec_bounded_insert(old(kept)@, x, cap as int),
        forall|i: int| 0 <= i < final(kept)@.len()
            ==> spec_partial_wf(g, &final(kept)@[i])
                && (#[trigger] final(kept)@[i]).remaining@.len() == rem_len@,
        final(kept)@.len() <= cap,
        final(kept)@.len() >= old(kept)@.len(),
        final(kept)@.len() >= 1,
{
    if kept.len() < cap {
        kept.push(x);
        return ;
    }
    // Find the first worst-projected kept plan.
    let mut worst: usize = 0;
    let mut i: usize = 1;
    while i < kept.len()
        invariant
            0 <= worst < kept@.len(),
            1 <= i <= kept@.len(),
            kept@.len() >= 1,
            spec_worst_from(kept@, 1, 0) == spec_worst_from(kept@, i as int, worst as int),
        decreases kept@.len() - i,
    {
        if kept[i].projected_cost.cost > kept[worst].projected_cost.cost {
            worst = i;
        }
        i += 1;
    }
    proof {
        lemma_worst_from_range(kept@, 1, 0);
    }
    if x.projected_cost.cost < kept[worst].projected_cost.cost {
        kept.set(worst, x);
    }
}

/// Plans the conjunction by beam search over partial plans, with the
/// greedy plan kept as the fallback candidate. The result is a well-formed
/// complete ordering, and its cost never exceeds the greedy planner's:
/// planning fails exactly when no valid ordering exists at all.
pub fn beam_search_plan(g: &Graph, beam_width: usize, extension_width: usize) -> (r: Result<
    ConjunctionPlan,
    PlannerError,
>)
    requires
        g.wf(),
        beam_width >= 1,
        extension_width >= 1,
    ensures
        r is Err == (spec_greedy(g) is None),
        r is Err ==> r == Err::<ConjunctionPlan, PlannerError>(PlannerError::EmptyPlanSpace),
        r matches Ok(plan) ==> spec_ordering_wf(g, plan.ordering@),
        r matches Ok(plan) ==> spec_ordering_complete(g, plan.ordering@),
        r matches Ok(plan) ==> plan.directions@.len() == g.patterns@.len(),
        r matches Ok(plan) ==> crate::search::spec_directions_consistent(
            g,
            plan.ordering@,
            plan.directions@,
        ),
        r matches Ok(plan) ==> (spec_greedy(g) matches Some(gp)
            && plan.cost.cost <= gp.2.cost),
        r matches Ok(plan) ==> (plan.cost == crate::cost::spec_chain(
            spec_step_state(g, plan.ordering@, plan.ordering@.len() as int).0,
            spec_step_state(g, plan.ordering@, plan.ordering@.len() as int).1,
        ) || Some(plan.model()) == spec_greedy(g)),
{
    let greedy = match initialise_greedy_ordering(g) {
        Ok(plan) => plan,
        Err(e) => {
            return Err(e);
        },
    };

    let np = g.pattern_count();
    let mut frontier: Vec<PlanPartial> = Vec::new();
    frontier.push(PlanPartial::new(g));
    let mut depth: usize = 0;
    while depth < np
        invariant
            g.wf(),
            np == g.patterns@.len(),
            0 <= depth <= np,
            forall|i: int| 0 <= i < frontier@.len()
                ==> spec_partial_wf(g, &frontier@[i])
                    && (#[trigger] frontier@[i]).remaining@.len() == np - depth,
            beam_width >= 1,
            extension_width >= 1,
        decreases np - depth,
    {
        let mut next_frontier: Vec<PlanPartial> = Vec::new();
        let mut f: usize = 0;
        while f < frontier.len()
            invariant
                g.wf(),
                np == g.patterns@.len(),
                depth < np,
                beam_width >= 1,
                extension_width >= 1,
                forall|i: int| 0 <= i < frontier@.len()
                    ==> spec_partial_wf(g, &frontier@[i])
                        && (#[trigger] frontier@[i]).remaining@.len() == np - depth,
                forall|i: int| 0 <= i < next_frontier@.len()
                    ==> spec_partial_wf(g, &next_frontier@[i])
                        && (#[trigger] next_frontier@[i]).remaining@.len()
                            == np - depth - 1,
                next_frontier@.len() <= beam_width,
            decreases frontier@.len() - f,
        {
            let mut extensions: Vec<PlanPartial> = Vec::new();
            let candidates = copy_vec(&frontier[f].remaining);
            let mut c: usize = 0;
            while c < candidates.len()
                invariant
                    g.wf(),
                    np == g.patterns@.len(),
                    extension_width >= 1,
                    f < frontier@.len(),
                    candidates@ == frontier@[f as int].remaining@,
                    spec_partial_wf(g, &frontier@[f as int]),
                    frontier@[f as int].remaining@.len() == np - depth,
                    depth < np,
                    forall|i: int| 0 <= i < extensions@.len()
                        ==> spec_partial_wf(g, &extensions@[i])
                            && (#[trigger] extensions@[i]).remaining@.len()
                                == np - depth - 1,
                    extensions@.len() <= extension_width,
                decreases candidates@.len() - c,
            {
                let q = candidates[c];
                proof {
                    assert(frontier@[f as int].remaining@[c as int] == q);
                    assert(frontier@[f as int].remaining@.contains(q));
                    assert(q.0 < g.patterns@.len());
                }
                if g.patterns[q.0].is_valid(&frontier[f].ordering) {
                    let ext = frontier[f].clone_and_extend_with_new_step(g, q);
                    bounded_insert(
                        &mut extensions,
                        ext,
                        extension_width,
                        g,
                        Ghost((np - depth - 1) as nat),
                    );
                }
                c += 1;
            }
            while extensions.len() > 0
                invariant
                    g.wf(),
                    np == g.patterns@.len(),
                    beam_width >= 1,
                    depth < np,
                    forall|i: int| 0 <= i < extensions@.len()
                        ==> spec_partial_wf(g, &extensions@[i])
                            && (#[trigger] extensions@[i]).remaining@.len()
                                == np - depth - 1,
                    forall|i: int| 0 <= i < next_frontier@.len()
                        ==> spec_partial_wf(g, &next_frontier@[i])
                            && (#[trigger] next_frontier@[i]).remaining@.len()
                                == np - depth - 1,
                    next_frontier@.len() <= beam_width,
                decreases extensions@.len(),
            {
                let ext = match extensions.pop() {
                    Option::Some(x) => x,
                    Option::None => {
                        break ;
                    },
                };
                bounded_insert(
                    &mut next_frontier,
                    ext,
                    beam_width,
                    g,
                    Ghost((np - depth - 1) as nat),
                );
            }
            f += 1;
        }
        frontier = next_frontier;
        depth += 1;
    }

    // Select the cheapest surviving candidate.
    let mut best: Option<usize> = None;
    let mut b: usize = 0;
    while b < frontier.len()
        invariant
            0 <= b <= frontier@.len(),
            best matches Some(i) ==> i < frontier@.len(),
        decreases frontier@.len() - b,
    {
        let better = match best {
            Option::None => true,
            Option::Some(i) => {
                frontier[b].projected_cost.cost < frontier[i].projected_cost.cost
            },
        };
        if better {
            best = Some(b);
        }
        b += 1;
    }
    match best {
        Option::Some(i) => {
            proof {
                assert(spec_partial_wf(g, &frontier@[i as int]));
                assert(frontier@[i as int].remaining@.len() == 0);
            }
            let chosen = frontier.remove(i);
            proof {
                crate::search::lemma_state_complete(g, chosen.ordering@, chosen.remaining@);
            }
            let candidate = chosen.into_complete_plan();
            if candidate.cost.cost <= greedy.cost.cost {
                Ok(candidate)
            } else {
                Ok(greedy)
            }
        },
        Option::None => Ok(greedy),
    }
}

} // verus!
