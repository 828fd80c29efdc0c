//! Greedy plan search: repeatedly place the valid pattern of least
//! marginal cost.
//!
//! The ordering starts with the input variables. Until every pattern is
//! placed, the planner scans the remaining patterns in id order, keeps the
//! first one of minimal cost under the current prefix (ties break towards
//! the lower pattern id), appends it, and then appends its newly produced
//! variables — the sort variable of the chosen direction first. The whole
//! search is a pure function of the graph: the executable planner is
//! proven equal to its specification mirror, so identical inputs yield
//! identical plans.

use vstd::prelude::*;

use crate::cost::CombinedCost;
use crate::errors::PlannerError;
use crate::graph::Graph;
use crate::ids::{PatternVertexId, VariableVertexId, VertexId};
use crate::vertex::{
    spec_cost_and_metadata, spec_is_valid, spec_ordered_var, CostMetaData, Direction,
};

verus! {

/// The input variables of the graph, in ascending id order, as the seed of
/// every ordering.
pub open spec fn spec_initial_ordering(g: &Graph, n: nat) -> Seq<VertexId>
    decreases n,
{
    if n == 0 {
        Seq::empty()
    } else {
        let rest = spec_initial_ordering(g, (n - 1) as nat);
        if g.variables@[n - 1].spec_is_input() {
            rest.push(VertexId::Variable(VariableVertexId((n - 1) as usize)))
        } else {
            rest
        }
    }
}

/// All pattern ids, ascending: the patterns still to place at the start.
pub open spec fn spec_all_patterns(n: nat) -> Seq<PatternVertexId>
    decreases n,
{
    if n == 0 {
        Seq::empty()
    } else {
        spec_all_patterns((n - 1) as nat).push(PatternVertexId((n - 1) as usize))
    }
}

/// The marginal cost of placing `p` after the prefix.
pub open spec fn spec_marginal(g: &Graph, ordering: Seq<VertexId>, p: PatternVertexId) -> u64 {
    spec_cost_and_metadata(&g.patterns@[p.0 as int], ordering).0.cost
}

/// Left fold over the remaining patterns keeping the first valid candidate
/// of minimal marginal cost: the greedy selection rule, ties towards the
/// candidate seen first (the lower pattern id).
pub open spec fn spec_best_from(
    g: &Graph,
    ordering: Seq<VertexId>,
    remaining: Seq<PatternVertexId>,
    acc: Option<PatternVertexId>,
) -> Option<PatternVertexId>
    decreases remaining.len(),
{
    if remaining.len() == 0 {
        acc
    } else {
        let head = remaining[0];
        let better = spec_is_valid(&g.patterns@[head.0 as int], ordering) && (match acc {
            Option::None => true,
            Option::Some(b) => spec_marginal(g, ordering, head) < spec_marginal(g, ordering, b),
        });
        if better {
            spec_best_from(g, ordering, remaining.drop_first(), Some(head))
        } else {
            spec_best_from(g, ordering, remaining.drop_first(), acc)
        }
    }
}

/// The members of `vars` not yet ordered, keeping their order.
pub open spec fn spec_unordered(
    vars: Seq<VariableVertexId>,
    ordering: Seq<VertexId>,
) -> Seq<VariableVertexId>
    decreases vars.len(),
{
    if vars.len() == 0 {
        Seq::empty()
    } else {
        let rest = spec_unordered(vars.drop_last(), ordering);
        if spec_ordered_var(ordering, vars.last()) {
            rest
        } else {
            rest.push(vars.last())
        }
    }
}

/// `vars` with every occurrence of `c` removed, keeping the order.
pub open spec fn spec_without(
    vars: Seq<VariableVertexId>,
    c: VariableVertexId,
) -> Seq<VariableVertexId>
    decreases vars.len(),
{
    if vars.len() == 0 {
        Seq::empty()
    } else {
        let rest = spec_without(vars.drop_last(), c);
        if vars.last() == c {
            rest
        } else {
            rest.push(vars.last())
        }
    }
}

/// The candidate sort variable of a placed pattern: the first variable in
/// canonical direction, the second in reverse, none without a direction.
pub open spec fn spec_sort_candidate(
    vars: Seq<VariableVertexId>,
    meta: CostMetaData,
) -> Option<VariableVertexId> {
    match meta {
        CostMetaData::Direction(Direction::Canonical) => if vars.len() > 0 {
            Some(vars[0])
        } else {
            None
        },
        CostMetaData::Direction(Direction::Reverse) => if vars.len() > 1 {
            Some(vars[1])
        } else if vars.len() > 0 {
            Some(vars[0])
        } else {
            None
        },
        CostMetaData::NoDirection => None,
    }
}

/// The variables appended after placing `p` under prefix `ordering`: its
/// not-yet-ordered variables, the sort variable (when it is newly
/// produced) first.
pub open spec fn spec_placed_vars(
    g: &Graph,
    ordering: Seq<VertexId>,
    p: PatternVertexId,
) -> Seq<VariableVertexId> {
    let vars = g.pattern_to_variable@[p.0 as int]@;
    let un = spec_unordered(vars, ordering);
    let meta = spec_cost_and_metadata(&g.patterns@[p.0 as int], ordering).1;
    match spec_sort_candidate(vars, meta) {
        Some(c) => if un.contains(c) {
            seq![c] + spec_without(un, c)
        } else {
            un
        },
        None => un,
    }
}

/// A sequence of variables as ordering entries.
pub open spec fn spec_as_vertex_ids(vars: Seq<VariableVertexId>) -> Seq<VertexId> {
    vars.map_values(|v: VariableVertexId| VertexId::Variable(v))
}

/// The ordering after placing `p`: the pattern, then its produced
/// variables.
pub open spec fn spec_place(g: &Graph, ordering: Seq<VertexId>, p: PatternVertexId) -> Seq<
    VertexId,
> {
    ordering.push(VertexId::Pattern(p)) + spec_as_vertex_ids(spec_placed_vars(g, ordering, p))
}

/// `remaining` with the first occurrence of `p` removed.
pub open spec fn spec_remove(
    remaining: Seq<PatternVertexId>,
    p: PatternVertexId,
) -> Seq<PatternVertexId>
    decreases remaining.len(),
{
    if remaining.len() == 0 {
        Seq::empty()
    } else if remaining[0] == p {
        remaining.drop_first()
    } else {
        seq![remaining[0]] + spec_remove(remaining.drop_first(), p)
    }
}

/// The greedy search, one selection per unit of fuel: place the best valid
/// candidate, record its direction, and recurse. `None` when some pattern
/// can never be placed.
pub open spec fn spec_greedy_rec(
    g: &Graph,
    ordering: Seq<VertexId>,
    remaining: Seq<PatternVertexId>,
    directions: Seq<Option<Direction>>,
    cost: CombinedCost,
    fuel: nat,
) -> Option<(Seq<VertexId>, Seq<Option<Direction>>, CombinedCost)>
    decreases fuel,
{
    if remaining.len() == 0 {
        Some((ordering, directions, cost))
    } else if fuel == 0 {
        None
    } else {
        match spec_best_from(g, ordering, remaining, None) {
            Option::None => None,
            Option::Some(p) => {
                let (step_cost, meta) = spec_cost_and_metadata(&g.patterns@[p.0 as int], ordering);
                let dir = match meta {
                    CostMetaData::Direction(d) => Some(d),
                    CostMetaData::NoDirection => None,
                };
                spec_greedy_rec(
                    g,
                    spec_place(g, ordering, p),
                    spec_remove(remaining, p),
                    directions.update(p.0 as int, dir),
                    crate::cost::spec_chain(cost, step_cost),
                    (fuel - 1) as nat,
                )
            },
        }
    }
}

/// The greedy plan of a graph: the ordering, the per-pattern chosen
/// directions, and the chained cost, or `None` when no valid ordering
/// exists.
pub open spec fn spec_greedy(g: &Graph) -> Option<(
    Seq<VertexId>,
    Seq<Option<Direction>>,
    CombinedCost,
)> {
    spec_greedy_rec(
        g,
        spec_initial_ordering(g, g.variables@.len()),
        spec_all_patterns(g.patterns@.len()),
        Seq::new(g.patterns@.len(), |i: int| None::<Direction>),
        CombinedCost::spec_noop(),
        g.patterns@.len(),
    )
}


/// An ordering entry produces `v` when it is a pattern adjacent to `v`.
pub open spec fn spec_produces(g: &Graph, entry: VertexId, v: VariableVertexId) -> bool {
    match entry {
        VertexId::Pattern(q) => q.0 < g.patterns@.len()
            && g.pattern_to_variable@[q.0 as int]@.contains(v),
        VertexId::Variable(_) => false,
    }
}

/// Position `i` of the ordering is valid: a pattern satisfies its validity
/// predicate under the prefix before it; a variable is an input or has an
/// adjacent pattern earlier in the ordering.
pub open spec fn spec_valid_at(g: &Graph, ordering: Seq<VertexId>, i: int) -> bool {
    match ordering[i] {
        VertexId::Pattern(p) => p.0 < g.patterns@.len()
            && spec_is_valid(&g.patterns@[p.0 as int], ordering.take(i)),
        VertexId::Variable(v) => v.0 < g.variables@.len()
            && (g.variables@[v.0 as int].spec_is_input()
                || exists|j: int| 0 <= j < i && spec_produces(g, #[trigger] ordering[j], v)),
    }
}

/// The ordering is well-formed: no vertex twice, and every position valid.
pub open spec fn spec_ordering_wf(g: &Graph, ordering: Seq<VertexId>) -> bool {
    &&& crate::ids::seq_no_dups(ordering)
    &&& forall|i: int| 0 <= i < ordering.len() ==> spec_valid_at(g, ordering, i)
}

/// The ordering is complete: every pattern appears, and a variable appears
/// exactly when it is an input or adjacent to some pattern.
pub open spec fn spec_ordering_complete(g: &Graph, ordering: Seq<VertexId>) -> bool {
    &&& forall|p: int| 0 <= p < g.patterns@.len()
        ==> #[trigger] ordering.contains(VertexId::Pattern(PatternVertexId(p as usize)))
    &&& forall|v: int| 0 <= v < g.variables@.len()
        ==> (#[trigger] ordering.contains(VertexId::Variable(VariableVertexId(v as usize)))
            == (g.variables@[v].spec_is_input()
                || exists|p: int| 0 <= p < g.patterns@.len()
                    && (#[trigger] g.pattern_to_variable@[p])@.contains(
                        VariableVertexId(v as usize),
                    )))
}

/// Membership and shape of `spec_unordered`: exactly the unordered members,
/// in order, without duplicates when the input has none.
pub proof fn lemma_unordered(vars: Seq<VariableVertexId>, ordering: Seq<VertexId>)
    ensures
        forall|x: VariableVertexId| spec_unordered(vars, ordering).contains(x)
            == (vars.contains(x) && !spec_ordered_var(ordering, x)),
        crate::ids::seq_no_dups(vars) ==> crate::ids::seq_no_dups(spec_unordered(vars, ordering)),
        spec_unordered(vars, ordering).len() <= vars.len(),
    decreases vars.len(),
{
    if vars.len() > 0 {
        lemma_unordered(vars.drop_last(), ordering);
        let rest = spec_unordered(vars.drop_last(), ordering);
        let whole = spec_unordered(vars, ordering);
        assert forall|x: VariableVertexId| whole.contains(x) implies
            (vars.contains(x) && !spec_ordered_var(ordering, x)) by {
            let k = choose|k: int| 0 <= k < whole.len() && whole[k] == x;
            if k < rest.len() {
                assert(whole[k] == rest[k]);
                assert(rest[k] == x);
                assert(rest.contains(x));
                assert(vars.drop_last().contains(x));
                let j = choose|j: int| 0 <= j < vars.drop_last().len()
                    && vars.drop_last()[j] == x;
                assert(vars.drop_last()[j] == vars[j]);
                assert(vars[j] == x);
            } else {
                assert(!spec_ordered_var(ordering, vars.last()));
                assert(whole == rest.push(vars.last()));
                assert(x == vars.last());
                assert(vars[vars.len() - 1] == x);
            }
        }
        assert forall|x: VariableVertexId|
            vars.contains(x) && !spec_ordered_var(ordering, x) implies whole.contains(x) by {
            let k = choose|k: int| 0 <= k < vars.len() && vars[k] == x;
            if k < vars.len() - 1 {
                assert(vars.drop_last()[k] == x);
                assert(vars.drop_last().contains(x));
                assert(rest.contains(x));
                let j = choose|j: int| 0 <= j < rest.len() && rest[j] == x;
                if spec_ordered_var(ordering, vars.last()) {
                    assert(whole[j] == x);
                } else {
                    assert(whole == rest.push(vars.last()));
                    assert(whole[j] == x);
                }
            } else {
                assert(x == vars.last());
                assert(whole == rest.push(vars.last()));
                assert(whole[whole.len() - 1] == x);
            }
        }
        if crate::ids::seq_no_dups(vars) {
            assert(crate::ids::seq_no_dups(vars.drop_last())) by {
                assert(forall|i: int, j: int|
                    0 <= i < j < vars.drop_last().len()
                        ==> vars.drop_last()[i] == vars[i] && vars.drop_last()[j] == vars[j]);
            }
            if !spec_ordered_var(ordering, vars.last()) {
                assert forall|i: int, j: int| 0 <= i < j < whole.len() implies
                    whole[i] != whole[j] by {
                    if j == whole.len() - 1 {
                        assert(whole[j] == vars.last());
                        assert(rest.contains(whole[i]));
                        assert(vars.drop_last().contains(whole[i]));
                        let t = choose|t: int| 0 <= t < vars.len() - 1
                            && vars.drop_last()[t] == whole[i];
                        assert(vars[t] == whole[i]);
                        assert(vars[t] != vars[vars.len() - 1]);
                    } else {
                        assert(rest[i] != rest[j]);
                    }
                }
            }
        }
    }
}

/// Membership and shape of `spec_without`.
pub proof fn lemma_without(vars: Seq<VariableVertexId>, c: VariableVertexId)
    ensures
        forall|x: VariableVertexId| spec_without(vars, c).contains(x)
            == (vars.contains(x) && x != c),
        crate::ids::seq_no_dups(vars) ==> crate::ids::seq_no_dups(spec_without(vars, c)),
        spec_without(vars, c).len() <= vars.len(),
    decreases vars.len(),
{
    if vars.len() > 0 {
        lemma_without(vars.drop_last(), c);
        let rest = spec_without(vars.drop_last(), c);
        let whole = spec_without(vars, c);
        assert forall|x: VariableVertexId| whole.contains(x) implies
            (vars.contains(x) && x != c) by {
            let k = choose|k: int| 0 <= k < whole.len() && whole[k] == x;
            if k < rest.len() {
                assert(whole[k] == rest[k]);
                assert(rest[k] == x);
                assert(rest.contains(x));
                assert(vars.drop_last().contains(x));
                let j = choose|j: int| 0 <= j < vars.drop_last().len()
                    && vars.drop_last()[j] == x;
                assert(vars.drop_last()[j] == vars[j]);
                assert(vars[j] == x);
            } else {
                assert(vars.last() != c);
                assert(whole == rest.push(vars.last()));
                assert(x == vars.last());
                assert(vars[vars.len() - 1] == x);
            }
        }
        assert forall|x: VariableVertexId| vars.contains(x) && x != c implies
            whole.contains(x) by {
            let k = choose|k: int| 0 <= k < vars.len() && vars[k] == x;
            if k < vars.len() - 1 {
                assert(vars.drop_last()[k] == x);
                assert(vars.drop_last().contains(x));
                assert(rest.contains(x));
                let j = choose|j: int| 0 <= j < rest.len() && rest[j] == x;
                if vars.last() == c {
                    assert(whole[j] == x);
                } else {
                    assert(whole == rest.push(vars.last()));
                    assert(whole[j] == x);
                }
            } else {
                assert(x == vars.last());
                assert(whole == rest.push(vars.last()));
                assert(whole[whole.len() - 1] == x);
            }
        }
        if crate::ids::seq_no_dups(vars) {
            assert(crate::ids::seq_no_dups(vars.drop_last())) by {
                assert(forall|i: int, j: int|
                    0 <= i < j < vars.drop_last().len()
                        ==> vars.drop_last()[i] == vars[i] && vars.drop_last()[j] == vars[j]);
            }
            if vars.last() != c {
                assert forall|i: int, j: int| 0 <= i < j < whole.len() implies
                    whole[i] != whole[j] by {
                    if j == whole.len() - 1 {
                        assert(whole[j] == vars.last());
                        assert(rest.contains(whole[i]));
                        assert(vars.drop_last().contains(whole[i]));
                        let t = choose|t: int| 0 <= t < vars.len() - 1
                            && vars.drop_last()[t] == whole[i];
                        assert(vars[t] != vars[vars.len() - 1]);
                    } else {
                        assert(rest[i] != rest[j]);
                    }
                }
            }
        }
    }
}

/// The produced-variable list of a placement: exactly the pattern's
/// unordered variables, without duplicates.
pub proof fn lemma_placed_vars(g: &Graph, ordering: Seq<VertexId>, p: PatternVertexId)
    requires
        g.wf(),
        p.0 < g.patterns@.len(),
    ensures
        forall|x: VariableVertexId| #[trigger] spec_placed_vars(g, ordering, p).contains(x)
            == (g.pattern_to_variable@[p.0 as int]@.contains(x)
                && !spec_ordered_var(ordering, x)),
        crate::ids::seq_no_dups(spec_placed_vars(g, ordering, p)),
{
    let vars = g.pattern_to_variable@[p.0 as int]@;
    let un = spec_unordered(vars, ordering);
    lemma_unordered(vars, ordering);
    let meta = spec_cost_and_metadata(&g.patterns@[p.0 as int], ordering).1;
    match spec_sort_candidate(vars, meta) {
        Option::Some(c) => {
            if un.contains(c) {
                lemma_without(un, c);
                let out = seq![c] + spec_without(un, c);
                assert(spec_placed_vars(g, ordering, p) == out);
                assert forall|x: VariableVertexId| out.contains(x) implies
                    (vars.contains(x) && !spec_ordered_var(ordering, x)) by {
                    let k = choose|k: int| 0 <= k < out.len() && out[k] == x;
                    if k == 0 {
                        assert(x == c);
                    } else {
                        assert(spec_without(un, c)[k - 1] == x);
                        assert(spec_without(un, c).contains(x));
                    }
                }
                assert forall|x: VariableVertexId|
                    vars.contains(x) && !spec_ordered_var(ordering, x) implies
                    out.contains(x) by {
                    assert(un.contains(x));
                    if x == c {
                        assert(out[0] == x);
                    } else {
                        assert(spec_without(un, c).contains(x));
                        let j = choose|j: int| 0 <= j < spec_without(un, c).len()
                            && spec_without(un, c)[j] == x;
                        assert(out[j + 1] == x);
                    }
                }
                assert forall|i: int, j: int| 0 <= i < j < out.len() implies
                    out[i] != out[j] by {
                    if i == 0 {
                        assert(out[0] == c);
                        assert(spec_without(un, c)[j - 1] == out[j]);
                        assert(spec_without(un, c).contains(out[j]));
                    } else {
                        assert(spec_without(un, c)[i - 1] != spec_without(un, c)[j - 1]);
                    }
                }
            }
        },
        Option::None => {},
    }
}

/// Removal of a present member shortens the list by one and keeps exactly
/// the other members.
pub proof fn lemma_remove(remaining: Seq<PatternVertexId>, p: PatternVertexId)
    requires
        crate::ids::seq_no_dups(remaining),
        remaining.contains(p),
    ensures
        spec_remove(remaining, p).len() == remaining.len() - 1,
        crate::ids::seq_no_dups(spec_remove(remaining, p)),
        forall|q: PatternVertexId| spec_remove(remaining, p).contains(q)
            == (remaining.contains(q) && q != p),
    decreases remaining.len(),
{
    let out = spec_remove(remaining, p);
    if remaining[0] == p {
        assert(out == remaining.drop_first());
        assert forall|q: PatternVertexId| out.contains(q) implies
            (remaining.contains(q) && q != p) by {
            let k = choose|k: int| 0 <= k < out.len() && out[k] == q;
            assert(remaining[k + 1] == q);
        }
        assert forall|q: PatternVertexId| remaining.contains(q) && q != p implies
            out.contains(q) by {
            let k = choose|k: int| 0 <= k < remaining.len() && remaining[k] == q;
            assert(k != 0);
            assert(out[k - 1] == q);
        }
        assert(crate::ids::seq_no_dups(out)) by {
            assert(forall|i: int, j: int| 0 <= i < j < out.len()
                ==> out[i] == remaining[i + 1] && out[j] == remaining[j + 1]);
        }
    } else {
        assert(remaining.drop_first().contains(p)) by {
            let k = choose|k: int| 0 <= k < remaining.len() && remaining[k] == p;
            assert(k != 0);
            assert(remaining.drop_first()[k - 1] == p);
        }
        assert(crate::ids::seq_no_dups(remaining.drop_first())) by {
            assert(forall|i: int, j: int| 0 <= i < j < remaining.drop_first().len()
                ==> remaining.drop_first()[i] == remaining[i + 1]
                    && remaining.drop_first()[j] == remaining[j + 1]);
        }
        lemma_remove(remaining.drop_first(), p);
        let sub = spec_remove(remaining.drop_first(), p);
        assert(out == seq![remaining[0]] + sub);
        assert forall|q: PatternVertexId| out.contains(q) implies
            (remaining.contains(q) && q != p) by {
            let k = choose|k: int| 0 <= k < out.len() && out[k] == q;
            if k == 0 {
                assert(q == remaining[0]);
            } else {
                assert(sub[k - 1] == q);
                assert(sub.contains(q));
                assert(remaining.drop_first().contains(q));
                let t = choose|t: int| 0 <= t < remaining.drop_first().len()
                    && remaining.drop_first()[t] == q;
                assert(remaining[t + 1] == q);
            }
        }
        assert forall|q: PatternVertexId| remaining.contains(q) && q != p implies
            out.contains(q) by {
            let k = choose|k: int| 0 <= k < remaining.len() && remaining[k] == q;
            if k == 0 {
                assert(out[0] == q);
            } else {
                assert(remaining.drop_first()[k - 1] == q);
                assert(remaining.drop_first().contains(q));
                assert(sub.contains(q));
                let t = choose|t: int| 0 <= t < sub.len() && sub[t] == q;
                assert(out[t + 1] == q);
            }
        }
        assert forall|i: int, j: int| 0 <= i < j < out.len() implies out[i] != out[j] by {
            if i == 0 {
                assert(out[j] == sub[j - 1]);
                assert(sub.contains(out[j]));
                assert(remaining.drop_first().contains(out[j]));
                let t = choose|t: int| 0 <= t < remaining.drop_first().len()
                    && remaining.drop_first()[t] == out[j];
                assert(remaining[t + 1] == out[j]);
                assert(remaining[0] != remaining[t + 1]);
            } else {
                assert(sub[i - 1] != sub[j - 1]);
            }
        }
    }
}

/// The greedy selection is sound: the result is a valid member of the
/// remaining set of minimal marginal cost.
pub proof fn lemma_best_from(
    g: &Graph,
    ordering: Seq<VertexId>,
    remaining: Seq<PatternVertexId>,
    acc: Option<PatternVertexId>,
)
    ensures
        spec_best_from(g, ordering, remaining, acc) is None ==> acc is None
            && (forall|k: int| 0 <= k < remaining.len()
                ==> !spec_is_valid(&g.patterns@[(#[trigger] remaining[k]).0 as int], ordering)),
        spec_best_from(g, ordering, remaining, acc) matches Some(p) ==> {
            &&& (remaining.contains(p) || acc == Some(p))
            &&& (acc == Some(p) || spec_is_valid(&g.patterns@[p.0 as int], ordering))
            &&& forall|k: int|
                0 <= k < remaining.len() && spec_is_valid(
                    &g.patterns@[(#[trigger] remaining[k]).0 as int],
                    ordering,
                ) ==> spec_marginal(g, ordering, p) <= spec_marginal(g, ordering, remaining[k])
            &&& (acc matches Some(a)
                ==> spec_marginal(g, ordering, p) <= spec_marginal(g, ordering, a))
        },
    decreases remaining.len(),
{
    if remaining.len() > 0 {
        let head = remaining[0];
        let better = spec_is_valid(&g.patterns@[head.0 as int], ordering) && (match acc {
            Option::None => true,
            Option::Some(b) => spec_marginal(g, ordering, head) < spec_marginal(g, ordering, b),
        });
        if better {
            lemma_best_from(g, ordering, remaining.drop_first(), Some(head));
        } else {
            lemma_best_from(g, ordering, remaining.drop_first(), acc);
        }
        assert(forall|k: int| 1 <= k < remaining.len()
            ==> remaining.drop_first()[k - 1] == remaining[k]);
        match spec_best_from(g, ordering, remaining, acc) {
            Option::Some(p) => {
                if remaining.drop_first().contains(p) {
                    let k = choose|k: int| 0 <= k < remaining.drop_first().len()
                        && remaining.drop_first()[k] == p;
                    assert(remaining[k + 1] == p);
                }
            },
            Option::None => {},
        }
    }
}



/// An ordered, directional plan for one conjunction: the vertex ordering,
/// the chosen direction per pattern, and the chained cost of the whole.
#[derive(Clone, Debug)]
pub struct ConjunctionPlan {
    pub ordering: Vec<VertexId>,
    /// Indexed by pattern id; a direction for every constraint pattern.
    pub directions: Vec<Option<Direction>>,
    pub cost: CombinedCost,
}

impl ConjunctionPlan {
    /// The plan as the mirror specification sees it.
    pub open spec fn model(&self) -> (Seq<VertexId>, Seq<Option<Direction>>, CombinedCost) {
        (self.ordering@, self.directions@, self.cost)
    }
}

/// The input variables of the graph, ascending, as the seed ordering.
pub fn initial_ordering(g: &Graph) -> (r: Vec<VertexId>)
    requires
        g.wf(),
    ensures
        r@ == spec_initial_ordering(g, g.variables@.len()),
{
    let mut r: Vec<VertexId> = Vec::new();
    let mut i: usize = 0;
    while i < g.variables.len()
        invariant
            0 <= i <= g.variables@.len(),
            r@ == spec_initial_ordering(g, i as nat),
        decreases g.variables@.len() - i,
    {
        if g.variables[i].is_input() {
            r.push(VertexId::Variable(VariableVertexId(i)));
        }
        i += 1;
    }
    r
}

/// All pattern ids, ascending.
pub fn all_patterns(g: &Graph) -> (r: Vec<PatternVertexId>)
    ensures
        r@ == spec_all_patterns(g.patterns@.len()),
{
    let mut r: Vec<PatternVertexId> = Vec::new();
    let mut i: usize = 0;
    while i < g.patterns.len()
        invariant
            0 <= i <= g.patterns@.len(),
            r@ == spec_all_patterns(i as nat),
        decreases g.patterns@.len() - i,
    {
        r.push(PatternVertexId(i));
        i += 1;
    }
    r
}

/// Scans the remaining patterns in order for the first valid candidate of
/// minimal marginal cost.
pub fn best_candidate(
    g: &Graph,
    ordering: &Vec<VertexId>,
    remaining: &Vec<PatternVertexId>,
) -> (r: Option<PatternVertexId>)
    requires
        g.wf(),
        forall|k: int| 0 <= k < remaining@.len()
            ==> (#[trigger] remaining@[k]).0 < g.patterns@.len(),
    ensures
        r == spec_best_from(g, ordering@, remaining@, None::<PatternVertexId>),
        r matches Some(p) ==> remaining@.contains(p)
            && spec_is_valid(&g.patterns@[p.0 as int], ordering@)
            && forall|k: int|
                0 <= k < remaining@.len() && spec_is_valid(
                    &g.patterns@[(#[trigger] remaining@[k]).0 as int],
                    ordering@,
                ) ==> spec_marginal(g, ordering@, p)
                    <= spec_marginal(g, ordering@, remaining@[k]),
    {
    let mut best: Option<PatternVertexId> = None;
    let mut best_cost: u64 = 0;
    let mut i: usize = 0;
    proof {
        assert(remaining@.skip(0) =~= remaining@);
    }
    while i < remaining.len()
        invariant
            0 <= i <= remaining@.len(),
            g.wf(),
            forall|k: int| 0 <= k < remaining@.len()
                ==> (#[trigger] remaining@[k]).0 < g.patterns@.len(),
            best matches Some(b) ==> best_cost == spec_marginal(g, ordering@, b),
            spec_best_from(g, ordering@, remaining@, None::<PatternVertexId>)
                == spec_best_from(g, ordering@, remaining@.skip(i as int), best),
        decreases remaining@.len() - i,
    {
        proof {
            assert(remaining@.skip(i as int).drop_first() =~= remaining@.skip(i as int + 1));
            assert(remaining@.skip(i as int)[0] == remaining@[i as int]);
        }
        let p = remaining[i];
        let valid = g.patterns[p.0].is_valid(ordering);
        if valid {
            let (cost, _) = g.patterns[p.0].cost_and_metadata(ordering);
            let take = match best {
                Option::None => true,
                Option::Some(_) => cost.cost < best_cost,
            };
            if take {
                best = Some(p);
                best_cost = cost.cost;
            }
        }
        i += 1;
    }
    proof {
        assert(remaining@.skip(remaining@.len() as int) =~= Seq::<PatternVertexId>::empty());
        lemma_best_from(g, ordering@, remaining@, None::<PatternVertexId>);
    }
    best
}

/// The variables appended after placing `p`: executable mirror of
/// `spec_placed_vars`.
pub fn placed_vars(g: &Graph, ordering: &Vec<VertexId>, p: PatternVertexId) -> (r: Vec<
    VariableVertexId,
>)
    requires
        g.wf(),
        p.0 < g.patterns@.len(),
    ensures
        r@ == spec_placed_vars(g, ordering@, p),
{
    let vars = &g.pattern_to_variable[p.0];
    let mut un: Vec<VariableVertexId> = Vec::new();
    let mut i: usize = 0;
    proof {
        assert(vars@.take(0) =~= Seq::<VariableVertexId>::empty());
    }
    while i < vars.len()
        invariant
            0 <= i <= vars@.len(),
            vars@ == g.pattern_to_variable@[p.0 as int]@,
            un@ == spec_unordered(vars@.take(i as int), ordering@),
        decreases vars@.len() - i,
    {
        proof {
            assert(vars@.take(i as int + 1).drop_last() =~= vars@.take(i as int));
            assert(vars@.take(i as int + 1).last() == vars@[i as int]);
        }
        if !crate::vertex::ordered_var(ordering, vars[i]) {
            un.push(vars[i]);
        }
        i += 1;
    }
    proof {
        assert(vars@.take(vars@.len() as int) =~= vars@);
    }
    let (_, meta) = g.patterns[p.0].cost_and_metadata(ordering);
    let candidate: Option<VariableVertexId> = match meta {
        CostMetaData::Direction(Direction::Canonical) => {
            if vars.len() > 0 {
                Some(vars[0])
            } else {
                None
            }
        },
        CostMetaData::Direction(Direction::Reverse) => {
            if vars.len() > 1 {
                Some(vars[1])
            } else if vars.len() > 0 {
                Some(vars[0])
            } else {
                None
            }
        },
        CostMetaData::NoDirection => None,
    };
    proof {
        assert(candidate == spec_sort_candidate(
            g.pattern_to_variable@[p.0 as int]@,
            spec_cost_and_metadata(&g.patterns@[p.0 as int], ordering@).1,
        ));
    }
    match candidate {
        Option::Some(c) => {
            let mut found = false;
            let mut k: usize = 0;
            while k < un.len()
                invariant
                    0 <= k <= un@.len(),
                    found == exists|j: int| 0 <= j < k && un@[j] == c,
                decreases un@.len() - k,
            {
                if un[k] == c {
                    found = true;
                    assert(un@[k as int] == c);
                }
                k += 1;
            }
            if found {
                let mut out: Vec<VariableVertexId> = Vec::new();
                out.push(c);
                let mut t: usize = 0;
                proof {
                    assert(un@.take(0) =~= Seq::<VariableVertexId>::empty());
                    assert(out@ =~= seq![c] + spec_without(un@.take(0), c));
                }
                while t < un.len()
                    invariant
                        0 <= t <= un@.len(),
                        out@ == seq![c] + spec_without(un@.take(t as int), c),
                    decreases un@.len() - t,
                {
                    proof {
                        assert(un@.take(t as int + 1).drop_last() =~= un@.take(t as int));
                        assert(un@.take(t as int + 1).last() == un@[t as int]);
                    }
                    if un[t] != c {
                        out.push(un[t]);
                        proof {
                            assert(out@ =~= (seq![c] + spec_without(un@.take(t as int), c)).push(
                                un@[t as int],
                            ));
                            assert((seq![c] + spec_without(un@.take(t as int + 1), c))
                                =~= (seq![c] + spec_without(un@.take(t as int), c)).push(
                                un@[t as int],
                            ));
                        }
                    }
                    t += 1;
                }
                proof {
                    assert(un@.take(un@.len() as int) =~= un@);
                }
                out
            } else {
                un
            }
        },
        Option::None => un,
    }
}

/// Removes the first occurrence of `p` from the remaining patterns.
pub fn remove_pattern(remaining: &mut Vec<PatternVertexId>, p: PatternVertexId)
    requires
        old(remaining)@.contains(p),
    ensures
        final(remaining)@ == spec_remove(old(remaining)@, p),
{
    let ghost orig = remaining@;
    let mut i: usize = 0;
    while i < remaining.len()
        invariant
            0 <= i <= remaining@.len(),
            remaining@ == orig,
            orig == old(remaining)@,
            orig.contains(p),
            forall|k: int| 0 <= k < i ==> orig[k] != p,
        decreases remaining@.len() - i,
    {
        if remaining[i] == p {
            remaining.remove(i);
            proof {
                lemma_remove_at(orig, p, i as int);
                assert(remaining@ =~= orig.subrange(0, i as int) + orig.subrange(
                    i as int + 1,
                    orig.len() as int,
                ));
            }
            return ;
        }
        i += 1;
    }
    proof {
        assert(orig.contains(p));
        let k = choose|k: int| 0 <= k < orig.len() && orig[k] == p;
        assert(false);
    }
}

/// Removing a first occurrence splits the sequence around it.
proof fn lemma_remove_at(s: Seq<PatternVertexId>, p: PatternVertexId, j: int)
    requires
        0 <= j < s.len(),
        s[j] == p,
        forall|k: int| 0 <= k < j ==> s[k] != p,
    ensures
        spec_remove(s, p) == s.subrange(0, j) + s.subrange(j + 1, s.len() as int),
    decreases j,
{
    if j == 0 {
        assert(spec_remove(s, p) == s.drop_first());
        assert(s.drop_first() =~= s.subrange(0, 0) + s.subrange(1, s.len() as int));
    } else {
        assert(s[0] != p);
        assert(forall|k: int| 0 <= k < j - 1 ==> s.drop_first()[k] == s[k + 1]);
        lemma_remove_at(s.drop_first(), p, j - 1);
        assert(spec_remove(s, p) == seq![s[0]] + spec_remove(s.drop_first(), p));
        assert(seq![s[0]] + (s.drop_first().subrange(0, j - 1) + s.drop_first().subrange(
            j,
            s.len() - 1,
        )) =~= s.subrange(0, j) + s.subrange(j + 1, s.len() as int));
    }
}



/// The initial ordering contains exactly the input variables and is
/// well-formed.
pub proof fn lemma_initial_ordering(g: &Graph, n: nat)
    requires
        n <= g.variables@.len(),
        g.variables@.len() <= usize::MAX,
    ensures
        forall|v: int| 0 <= v < n && g.variables@[v].spec_is_input()
            ==> #[trigger] spec_initial_ordering(g, n).contains(
                VertexId::Variable(VariableVertexId(v as usize)),
            ),
        forall|x: VertexId| #[trigger] spec_initial_ordering(g, n).contains(x)
            ==> (x matches VertexId::Variable(v) && v.0 < n
                && g.variables@[v.0 as int].spec_is_input()),
        crate::ids::seq_no_dups(spec_initial_ordering(g, n)),
        forall|i: int| 0 <= i < spec_initial_ordering(g, n).len()
            ==> spec_valid_at(g, spec_initial_ordering(g, n), i),
    decreases n,
{
    let whole = spec_initial_ordering(g, n);
    if n > 0 {
        lemma_initial_ordering(g, (n - 1) as nat);
        let rest = spec_initial_ordering(g, (n - 1) as nat);
        let last = VertexId::Variable(VariableVertexId((n - 1) as usize));
        let pushed = g.variables@[n - 1].spec_is_input();
        assert(whole == if pushed {
            rest.push(last)
        } else {
            rest
        });
        assert forall|v: int| 0 <= v < n && g.variables@[v].spec_is_input() implies
            #[trigger] whole.contains(VertexId::Variable(VariableVertexId(v as usize))) by {
            if v < n - 1 {
                assert(rest.contains(VertexId::Variable(VariableVertexId(v as usize))));
                let k = choose|k: int| 0 <= k < rest.len()
                    && rest[k] == VertexId::Variable(VariableVertexId(v as usize));
                assert(whole[k] == VertexId::Variable(VariableVertexId(v as usize)));
            } else {
                assert(pushed);
                assert(whole[whole.len() - 1] == last);
            }
        }
        assert forall|x: VertexId| #[trigger] whole.contains(x) implies
            (x matches VertexId::Variable(v) && v.0 < n
                && g.variables@[v.0 as int].spec_is_input()) by {
            let k = choose|k: int| 0 <= k < whole.len() && whole[k] == x;
            if k < rest.len() {
                assert(rest[k] == x);
                assert(rest.contains(x));
            } else {
                assert(pushed);
                assert(x == last);
            }
        }
        assert forall|i: int, j: int| 0 <= i < j < whole.len() implies
            whole[i] != whole[j] by {
            if j < rest.len() {
                assert(rest[i] != rest[j]);
            } else {
                assert(pushed);
                assert(whole[j] == last);
                assert(rest[i] == whole[i]);
                assert(rest.contains(whole[i]));
            }
        }
        assert forall|i: int| 0 <= i < whole.len() implies spec_valid_at(g, whole, i) by {
            if i < rest.len() {
                assert(spec_valid_at(g, rest, i));
                assert(whole.take(i) =~= rest.take(i));
                assert(whole[i] == rest[i]);
                assert(rest.contains(rest[i]));
                match rest[i] {
                    VertexId::Variable(v) => {
                        assert(g.variables@[v.0 as int].spec_is_input());
                    },
                    VertexId::Pattern(_) => {},
                }
            } else {
                assert(pushed);
                assert(whole[i] == last);
            }
        }
    } else {
        assert(whole =~= Seq::<VertexId>::empty());
        assert forall|x: VertexId| #[trigger] whole.contains(x) implies
            (x matches VertexId::Variable(v) && v.0 < n
                && g.variables@[v.0 as int].spec_is_input()) by {
            let k = choose|k: int| 0 <= k < whole.len() && whole[k] == x;
        }
    }
}

/// All-pattern id lists hold exactly the ids below `n`, without
/// duplicates.
pub proof fn lemma_all_patterns(n: nat)
    requires
        n <= usize::MAX,
    ensures
        spec_all_patterns(n).len() == n,
        forall|k: int| 0 <= k < n ==> (#[trigger] spec_all_patterns(n)[k]).0 == k,
        forall|q: PatternVertexId| #[trigger] spec_all_patterns(n).contains(q) == (q.0 < n),
        crate::ids::seq_no_dups(spec_all_patterns(n)),
    decreases n,
{
    let whole = spec_all_patterns(n);
    if n > 0 {
        lemma_all_patterns((n - 1) as nat);
        let rest = spec_all_patterns((n - 1) as nat);
        assert(whole == rest.push(PatternVertexId((n - 1) as usize)));
        assert forall|k: int| 0 <= k < n implies (#[trigger] whole[k]).0 == k by {
            if k < n - 1 {
                assert(whole[k] == rest[k]);
            }
        }
        assert forall|q: PatternVertexId| #[trigger] whole.contains(q) == (q.0 < n) by {
            if whole.contains(q) {
                let k = choose|k: int| 0 <= k < whole.len() && whole[k] == q;
                assert(whole[k].0 == k);
            }
            if q.0 < n {
                assert(whole[q.0 as int].0 == q.0);
                assert(whole[q.0 as int] == q);
            }
        }
        assert forall|i: int, j: int| 0 <= i < j < whole.len() implies
            whole[i] != whole[j] by {
            assert(whole[i].0 == i);
            assert(whole[j].0 == j);
        }
    } else {
        assert forall|q: PatternVertexId| #[trigger] whole.contains(q) == (q.0 < n) by {
            if whole.contains(q) {
                let k = choose|k: int| 0 <= k < whole.len() && whole[k] == q;
            }
        }
    }
}

/// Membership in an extended ordering: the placement appends the pattern
/// and exactly its newly produced variables, and the result stays
/// well-formed.
pub proof fn lemma_extend_ordering(g: &Graph, prev: Seq<VertexId>, p: PatternVertexId)
    requires
        g.wf(),
        p.0 < g.patterns@.len(),
        spec_ordering_wf(g, prev),
        spec_is_valid(&g.patterns@[p.0 as int], prev),
        !prev.contains(VertexId::Pattern(p)),
    ensures
        spec_ordering_wf(g, spec_place(g, prev, p)),
        forall|q: PatternVertexId| #[trigger] spec_place(g, prev, p).contains(
            VertexId::Pattern(q),
        ) == (prev.contains(VertexId::Pattern(q)) || q == p),
        forall|v: VariableVertexId| #[trigger] spec_place(g, prev, p).contains(
            VertexId::Variable(v),
        ) == (prev.contains(VertexId::Variable(v))
            || g.pattern_to_variable@[p.0 as int]@.contains(v)),
{
    let pv = spec_placed_vars(g, prev, p);
    let adj = g.pattern_to_variable@[p.0 as int]@;
    let next = spec_place(g, prev, p);
    let mid = prev.push(VertexId::Pattern(p));
    lemma_placed_vars(g, prev, p);
    assert forall|x: VariableVertexId| #[trigger] pv.contains(x)
        == (adj.contains(x) && !spec_ordered_var(prev, x)) by {
        assert(spec_placed_vars(g, prev, p).contains(x)
            == (g.pattern_to_variable@[p.0 as int]@.contains(x)
                && !spec_ordered_var(prev, x)));
    }
    assert(next == mid + spec_as_vertex_ids(pv));
    assert(next.len() == prev.len() + 1 + pv.len());
    assert(forall|i: int| 0 <= i < prev.len() ==> next[i] == prev[i]);
    assert(next[prev.len() as int] == VertexId::Pattern(p));
    assert(forall|k: int| 0 <= k < pv.len()
        ==> next[prev.len() + 1 + k] == VertexId::Variable(#[trigger] pv[k]));

    // Pattern membership.
    assert forall|q: PatternVertexId| #[trigger] next.contains(VertexId::Pattern(q))
        == (prev.contains(VertexId::Pattern(q)) || q == p) by {
        if next.contains(VertexId::Pattern(q)) {
            let k = choose|k: int| 0 <= k < next.len() && next[k] == VertexId::Pattern(q);
            if k < prev.len() {
                assert(prev[k] == VertexId::Pattern(q));
                assert(prev.contains(VertexId::Pattern(q)));
            } else if k == prev.len() {
                assert(q == p);
            } else {
                assert(next[k] == VertexId::Variable(pv[k - prev.len() - 1]));
                assert(false);
            }
        }
        if prev.contains(VertexId::Pattern(q)) {
            let k = choose|k: int| 0 <= k < prev.len() && prev[k] == VertexId::Pattern(q);
            assert(next[k] == VertexId::Pattern(q));
            assert(next.contains(VertexId::Pattern(q)));
        }
        if q == p {
            assert(next.contains(VertexId::Pattern(q)));
        }
    }

    // Variable membership.
    assert forall|v: VariableVertexId| #[trigger] next.contains(VertexId::Variable(v))
        == (prev.contains(VertexId::Variable(v))
            || g.pattern_to_variable@[p.0 as int]@.contains(v)) by {
        if next.contains(VertexId::Variable(v)) {
            let k = choose|k: int| 0 <= k < next.len() && next[k] == VertexId::Variable(v);
            if k < prev.len() {
                assert(prev[k] == VertexId::Variable(v));
                assert(prev.contains(VertexId::Variable(v)));
            } else if k == prev.len() {
                assert(false);
            } else {
                assert(pv[k - prev.len() - 1] == v);
                assert(pv.contains(v));
            }
        }
        if prev.contains(VertexId::Variable(v)) {
            let k = choose|k: int| 0 <= k < prev.len() && prev[k] == VertexId::Variable(v);
            assert(next[k] == VertexId::Variable(v));
        }
        if g.pattern_to_variable@[p.0 as int]@.contains(v)
            && !prev.contains(VertexId::Variable(v)) {
            assert(!spec_ordered_var(prev, v));
            assert(pv.contains(v));
            let k = choose|k: int| 0 <= k < pv.len() && pv[k] == v;
            assert(next[prev.len() + 1 + k] == VertexId::Variable(v));
        }
    }

    // No duplicates.
    assert forall|i: int, j: int| 0 <= i < j < next.len() implies next[i] != next[j] by {
        if j < prev.len() {
            assert(prev[i] != prev[j]);
        } else if j == prev.len() {
            assert(next[j] == VertexId::Pattern(p));
            assert(prev[i] == next[i]);
            assert(prev.contains(prev[i]));
        } else {
            let vj = pv[j - prev.len() - 1];
            assert(next[j] == VertexId::Variable(vj));
            assert(pv.contains(vj)) by {
                assert(pv[j - prev.len() - 1] == vj);
            }
            assert(!spec_ordered_var(prev, vj));
            if i < prev.len() {
                assert(next[i] == prev[i]);
                if next[i] == VertexId::Variable(vj) {
                    assert(prev.contains(VertexId::Variable(vj)));
                    assert(false);
                }
            } else if i == prev.len() {
                assert(next[i] == VertexId::Pattern(p));
            } else {
                let vi = pv[i - prev.len() - 1];
                assert(next[i] == VertexId::Variable(vi));
                assert(vi != vj);
            }
        }
    }

    // Validity at every position.
    assert forall|i: int| 0 <= i < next.len() implies spec_valid_at(g, next, i) by {
        if i < prev.len() {
            assert(spec_valid_at(g, prev, i));
            assert(next.take(i) =~= prev.take(i));
            assert(next[i] == prev[i]);
            match prev[i] {
                VertexId::Pattern(q) => {},
                VertexId::Variable(v) => {
                    if !g.variables@[v.0 as int].spec_is_input() {
                        let j = choose|j: int| 0 <= j < i && spec_produces(g, prev[j], v);
                        assert(spec_produces(g, next[j], v));
                    }
                },
            }
        } else if i == prev.len() {
            assert(next[i] == VertexId::Pattern(p));
            assert(next.take(i) =~= prev);
        } else {
            let v = pv[i - prev.len() - 1];
            assert(next[i] == VertexId::Variable(v));
            assert(pv.contains(v)) by {
                assert(pv[i - prev.len() - 1] == v);
            }
            assert(adj.contains(v));
            assert(v.0 < g.variables@.len());
            assert(spec_produces(g, next[prev.len() as int], v));
        }
    }
}



/// Builds the greedy ordering: repeatedly place the valid pattern of
/// minimal marginal cost, then its produced variables. The result is
/// pinned to the specification mirror — identical graphs give identical
/// plans — and is a well-formed, complete ordering; planning fails exactly
/// when the mirror has no valid ordering.
pub fn initialise_greedy_ordering(g: &Graph) -> (r: Result<ConjunctionPlan, PlannerError>)
    requires
        g.wf(),
    ensures
        r matches Ok(plan) ==> Some(plan.model()) == spec_greedy(g),
        r is Err == (spec_greedy(g) is None),
        r is Err ==> r == Err::<ConjunctionPlan, PlannerError>(PlannerError::EmptyPlanSpace),
        r matches Ok(plan) ==> spec_ordering_wf(g, plan.ordering@),
        r matches Ok(plan) ==> spec_ordering_complete(g, plan.ordering@),
        r matches Ok(plan) ==> plan.directions@.len() == g.patterns@.len(),
        r matches Ok(plan) ==> spec_directions_consistent(g, plan.ordering@, plan.directions@),
{
    let np = g.pattern_count();
    let nv = g.variable_count();
    let mut ordering = initial_ordering(g);
    let mut remaining = all_patterns(g);
    let mut directions: Vec<Option<Direction>> = Vec::new();
    let mut cost = CombinedCost::noop();
    let mut d: usize = 0;
    while d < np
        invariant
            0 <= d <= np,
            directions@ =~= Seq::new(d as nat, |i: int| None::<Direction>),
        decreases np - d,
    {
        directions.push(None);
        proof {
            assert(directions@ =~= Seq::new((d + 1) as nat, |i: int| None::<Direction>));
        }
        d += 1;
    }
    proof {
        lemma_initial_ordering(g, g.variables@.len());
        lemma_all_patterns(g.patterns@.len());
        assert(directions@ =~= Seq::new(g.patterns@.len(), |i: int| None::<Direction>));
        assert forall|i: int| 0 <= i < ordering@.len() implies (match #[trigger] ordering@[i] {
            VertexId::Pattern(p) => p.0 < directions@.len()
                && directions@[p.0 as int] == spec_direction_choice(g, ordering@.take(i), p),
            VertexId::Variable(_) => true,
        }) by {
            assert(ordering@.contains(ordering@[i]));
        }
        assert forall|q: PatternVertexId| remaining@.contains(q) implies
            !ordering@.contains(VertexId::Pattern(q)) by {
            if ordering@.contains(VertexId::Pattern(q)) {
                assert(false);
            }
        }
        assert forall|v: int|
            0 <= v < nv implies (#[trigger] ordering@.contains(
                VertexId::Variable(VariableVertexId(v as usize)),
            ) == (g.variables@[v].spec_is_input()
                || exists|q: PatternVertexId| #[trigger] ordering@.contains(
                    VertexId::Pattern(q),
                ) && q.0 < g.patterns@.len()
                    && g.pattern_to_variable@[q.0 as int]@.contains(
                    VariableVertexId(v as usize),
                ))) by {
            if exists|q: PatternVertexId| #[trigger] ordering@.contains(VertexId::Pattern(q))
                && q.0 < g.patterns@.len()
                && g.pattern_to_variable@[q.0 as int]@.contains(VariableVertexId(v as usize)) {
                let q = choose|q: PatternVertexId| #[trigger] ordering@.contains(
                    VertexId::Pattern(q),
                ) && q.0 < g.patterns@.len()
                    && g.pattern_to_variable@[q.0 as int]@.contains(
                    VariableVertexId(v as usize),
                );
                assert(false);
            }
        }
    }
    while remaining.len() > 0
        invariant
            g.wf(),
            np == g.patterns@.len(),
            nv == g.variables@.len(),
            directions@.len() == np,
            crate::ids::seq_no_dups(remaining@),
            forall|k: int| 0 <= k < remaining@.len()
                ==> (#[trigger] remaining@[k]).0 < np,
            forall|q: PatternVertexId| #[trigger] remaining@.contains(q)
                ==> !ordering@.contains(VertexId::Pattern(q)),
            forall|p: int| 0 <= p < np
                ==> #[trigger] ordering@.contains(VertexId::Pattern(PatternVertexId(p as usize)))
                    || remaining@.contains(PatternVertexId(p as usize)),
            spec_ordering_wf(g, ordering@),
            forall|v: int| 0 <= v < nv
                ==> (#[trigger] ordering@.contains(
                    VertexId::Variable(VariableVertexId(v as usize)),
                ) == (g.variables@[v].spec_is_input()
                    || exists|q: PatternVertexId| #[trigger] ordering@.contains(
                        VertexId::Pattern(q),
                    ) && q.0 < g.patterns@.len()
                        && g.pattern_to_variable@[q.0 as int]@.contains(
                        VariableVertexId(v as usize),
                    ))),
            spec_directions_consistent(g, ordering@, directions@),
            spec_greedy_rec(g, ordering@, remaining@, directions@, cost, remaining@.len())
                == spec_greedy(g),
        decreases remaining@.len(),
    {
        let ghost pre_ordering = ordering@;
        let ghost pre_remaining = remaining@;
        let ghost pre_directions = directions@;
        let ghost pre_cost = cost;
        let next = match best_candidate(g, &ordering, &remaining) {
            Option::Some(p) => p,
            Option::None => {
                proof {
                    assert(spec_greedy_rec(
                        g,
                        ordering@,
                        remaining@,
                        directions@,
                        cost,
                        remaining@.len(),
                    ) is None);
                }
                return Err(PlannerError::EmptyPlanSpace);
            },
        };
        proof {
            assert(remaining@.contains(next));
        }
        let (step_cost, meta) = g.patterns[next.0].cost_and_metadata(&ordering);
        let dir: Option<Direction> = match meta {
            CostMetaData::Direction(dd) => Some(dd),
            CostMetaData::NoDirection => None,
        };
        directions.set(next.0, dir);
        cost = cost.chain(step_cost);
        let pv = placed_vars(g, &ordering, next);
        ordering.push(VertexId::Pattern(next));
        let mut k: usize = 0;
        while k < pv.len()
            invariant
                0 <= k <= pv@.len(),
                ordering@ == pre_ordering.push(VertexId::Pattern(next))
                    + spec_as_vertex_ids(pv@.take(k as int)),
            decreases pv@.len() - k,
        {
            ordering.push(VertexId::Variable(pv[k]));
            proof {
                assert(spec_as_vertex_ids(pv@.take(k as int + 1))
                    =~= spec_as_vertex_ids(pv@.take(k as int)).push(
                    VertexId::Variable(pv@[k as int]),
                ));
                assert(ordering@ =~= pre_ordering.push(VertexId::Pattern(next))
                    + spec_as_vertex_ids(pv@.take(k as int + 1)));
            }
            k += 1;
        }
        remove_pattern(&mut remaining, next);
        proof {
            assert(pv@.take(pv@.len() as int) =~= pv@);
            assert(ordering@ == spec_place(g, pre_ordering, next));
            lemma_remove(pre_remaining, next);
            assert(remaining@ == spec_remove(pre_remaining, next));
            lemma_extend_ordering(g, pre_ordering, next);
            lemma_directions_extend(g, pre_ordering, pre_directions, next);
            assert(directions@ == pre_directions.update(
                next.0 as int,
                spec_direction_choice(g, pre_ordering, next),
            ));

            // The mirror takes the same step.
            assert(spec_greedy_rec(
                g,
                pre_ordering,
                pre_remaining,
                pre_directions,
                pre_cost,
                pre_remaining.len(),
            ) == spec_greedy_rec(
                g,
                ordering@,
                remaining@,
                directions@,
                cost,
                remaining@.len(),
            )) by {
                assert(pre_remaining.len() > 0);
                assert(spec_best_from(g, pre_ordering, pre_remaining, None::<PatternVertexId>)
                    == Some(next));
                assert(directions@ =~= pre_directions.update(next.0 as int, dir));
            }

            // Remaining ids stay in range and disjoint from the ordering.
            assert forall|q: PatternVertexId| #[trigger] remaining@.contains(q) implies
                !ordering@.contains(VertexId::Pattern(q)) by {
                assert(pre_remaining.contains(q) && q != next);
            }
            assert forall|k: int| 0 <= k < remaining@.len() implies
                (#[trigger] remaining@[k]).0 < np by {
                assert(remaining@.contains(remaining@[k]));
                assert(pre_remaining.contains(remaining@[k]));
                let j = choose|j: int| 0 <= j < pre_remaining.len()
                    && pre_remaining[j] == remaining@[k];
            }
            assert forall|p: int| 0 <= p < np implies
                #[trigger] ordering@.contains(VertexId::Pattern(PatternVertexId(p as usize)))
                    || remaining@.contains(PatternVertexId(p as usize)) by {
                if PatternVertexId(p as usize) == next {
                } else {
                    if pre_remaining.contains(PatternVertexId(p as usize)) {
                        assert(remaining@.contains(PatternVertexId(p as usize)));
                    } else {
                        assert(pre_ordering.contains(
                            VertexId::Pattern(PatternVertexId(p as usize)),
                        ));
                    }
                }
            }

            // Variable coverage.
            assert forall|v: int| 0 <= v < nv implies
                (#[trigger] ordering@.contains(
                    VertexId::Variable(VariableVertexId(v as usize)),
                ) == (g.variables@[v].spec_is_input()
                    || exists|q: PatternVertexId| #[trigger] ordering@.contains(
                        VertexId::Pattern(q),
                    ) && q.0 < g.patterns@.len()
                        && g.pattern_to_variable@[q.0 as int]@.contains(
                        VariableVertexId(v as usize),
                    ))) by {
                let vv = VariableVertexId(v as usize);
                if ordering@.contains(VertexId::Variable(vv)) {
                    if pre_ordering.contains(VertexId::Variable(vv)) {
                        if !g.variables@[v].spec_is_input() {
                            let q = choose|q: PatternVertexId| #[trigger] pre_ordering.contains(
                                VertexId::Pattern(q),
                            ) && q.0 < g.patterns@.len()
                                && g.pattern_to_variable@[q.0 as int]@.contains(vv);
                            assert(ordering@.contains(VertexId::Pattern(q)));
                        }
                    } else {
                        assert(g.pattern_to_variable@[next.0 as int]@.contains(vv));
                        assert(ordering@.contains(VertexId::Pattern(next)));
                    }
                } else {
                    assert(!pre_ordering.contains(VertexId::Variable(vv)));
                    assert(!g.variables@[v].spec_is_input());
                    if exists|q: PatternVertexId| #[trigger] ordering@.contains(
                        VertexId::Pattern(q),
                    ) && q.0 < g.patterns@.len()
                        && g.pattern_to_variable@[q.0 as int]@.contains(vv) {
                        let q = choose|q: PatternVertexId| #[trigger] ordering@.contains(
                            VertexId::Pattern(q),
                        ) && q.0 < g.patterns@.len()
                            && g.pattern_to_variable@[q.0 as int]@.contains(vv);
                        if q == next {
                            assert(ordering@.contains(VertexId::Variable(vv)));
                            assert(false);
                        } else {
                            assert(pre_ordering.contains(VertexId::Pattern(q)));
                            assert(pre_ordering.contains(VertexId::Variable(vv)));
                            assert(false);
                        }
                    }
                }
            }
        }
    }
    proof {
        assert(remaining@.len() == 0);
        assert(spec_greedy_rec(g, ordering@, remaining@, directions@, cost, remaining@.len())
            == Some((ordering@, directions@, cost)));
        assert forall|p: int| 0 <= p < g.patterns@.len() implies
            #[trigger] ordering@.contains(VertexId::Pattern(PatternVertexId(p as usize))) by {
            assert(!remaining@.contains(PatternVertexId(p as usize)));
        }
        assert forall|v: int| 0 <= v < g.variables@.len() implies
            (#[trigger] ordering@.contains(VertexId::Variable(VariableVertexId(v as usize)))
                == (g.variables@[v].spec_is_input()
                    || exists|p: int| 0 <= p < g.patterns@.len()
                        && (#[trigger] g.pattern_to_variable@[p])@.contains(
                        VariableVertexId(v as usize),
                    ))) by {
            let vv = VariableVertexId(v as usize);
            if ordering@.contains(VertexId::Variable(vv)) {
                if !g.variables@[v].spec_is_input() {
                    let q = choose|q: PatternVertexId| #[trigger] ordering@.contains(
                        VertexId::Pattern(q),
                    ) && q.0 < g.patterns@.len()
                        && g.pattern_to_variable@[q.0 as int]@.contains(vv);
                    assert((q.0 as int) < g.patterns@.len());
                    assert(g.pattern_to_variable@[q.0 as int]@.contains(vv));
                }
            } else {
                if exists|p: int| 0 <= p < g.patterns@.len()
                    && (#[trigger] g.pattern_to_variable@[p])@.contains(vv) {
                    let p = choose|p: int| 0 <= p < g.patterns@.len()
                        && (#[trigger] g.pattern_to_variable@[p])@.contains(vv);
                    assert(ordering@.contains(VertexId::Pattern(PatternVertexId(p as usize))));
                    assert(exists|q: PatternVertexId| #[trigger] ordering@.contains(
                        VertexId::Pattern(q),
                    ) && q.0 < g.patterns@.len()
                        && g.pattern_to_variable@[q.0 as int]@.contains(vv)) by {
                        assert(ordering@.contains(
                            VertexId::Pattern(PatternVertexId(p as usize)),
                        ) && PatternVertexId(p as usize).0 < g.patterns@.len()
                            && g.pattern_to_variable@[PatternVertexId(p as usize).0 as int]@
                                .contains(vv));
                    }
                    assert(false);
                }
            }
        }
    }
    Ok(ConjunctionPlan { ordering, directions, cost })
}



/// Producer before consumer: in a well-formed ordering, a produced (non
/// input) variable appears only after a pattern adjacent to it, and hence
/// every pattern that consumes the variable — one ordered after it — is
/// ordered strictly after that producer.
pub proof fn lemma_producer_before_consumer(g: &Graph, ordering: Seq<VertexId>)
    requires
        g.wf(),
        spec_ordering_wf(g, ordering),
    ensures
        forall|i: int, k: int, v: VariableVertexId|
            #![trigger ordering[i], spec_produces(g, ordering[k], v)]
            0 <= i < k < ordering.len() && ordering[i] == VertexId::Variable(v)
                && !g.variables@[v.0 as int].spec_is_input()
                && spec_produces(g, ordering[k], v)
            ==> exists|j: int| 0 <= j < i && spec_produces(g, #[trigger] ordering[j], v),
{
    assert forall|i: int, k: int, v: VariableVertexId|
        #![trigger ordering[i], spec_produces(g, ordering[k], v)]
        0 <= i < k < ordering.len() && ordering[i] == VertexId::Variable(v)
            && !g.variables@[v.0 as int].spec_is_input()
            && spec_produces(g, ordering[k], v) implies
        exists|j: int| 0 <= j < i && spec_produces(g, #[trigger] ordering[j], v) by {
        assert(spec_valid_at(g, ordering, i));
    }
}

/// The invariant a search state maintains: a well-formed ordering, the
/// remaining patterns distinct, in range and unplaced, every pattern placed
/// or remaining, and variable coverage matching the placed patterns.
pub open spec fn spec_search_state_wf(
    g: &Graph,
    ordering: Seq<VertexId>,
    remaining: Seq<PatternVertexId>,
) -> bool {
    &&& spec_ordering_wf(g, ordering)
    &&& crate::ids::seq_no_dups(remaining)
    &&& forall|k: int| 0 <= k < remaining.len()
        ==> (#[trigger] remaining[k]).0 < g.patterns@.len()
    &&& forall|q: PatternVertexId| #[trigger] remaining.contains(q)
        ==> !ordering.contains(VertexId::Pattern(q))
    &&& forall|p: int| 0 <= p < g.patterns@.len()
        ==> #[trigger] ordering.contains(VertexId::Pattern(PatternVertexId(p as usize)))
            || remaining.contains(PatternVertexId(p as usize))
    &&& forall|v: int| 0 <= v < g.variables@.len()
        ==> (#[trigger] ordering.contains(VertexId::Variable(VariableVertexId(v as usize)))
            == (g.variables@[v].spec_is_input()
                || exists|q: PatternVertexId| #[trigger] ordering.contains(
                    VertexId::Pattern(q),
                ) && q.0 < g.patterns@.len()
                    && g.pattern_to_variable@[q.0 as int]@.contains(
                    VariableVertexId(v as usize),
                )))
}

/// The initial search state is well-formed.
pub proof fn lemma_state_init(g: &Graph)
    requires
        g.wf(),
        g.variables@.len() <= usize::MAX,
        g.patterns@.len() <= usize::MAX,
    ensures
        spec_search_state_wf(
            g,
            spec_initial_ordering(g, g.variables@.len()),
            spec_all_patterns(g.patterns@.len()),
        ),
{
    lemma_initial_ordering(g, g.variables@.len());
    lemma_all_patterns(g.patterns@.len());
    let ordering = spec_initial_ordering(g, g.variables@.len());
    let remaining = spec_all_patterns(g.patterns@.len());
    assert forall|q: PatternVertexId| #[trigger] remaining.contains(q) implies
        !ordering.contains(VertexId::Pattern(q)) by {
        if ordering.contains(VertexId::Pattern(q)) {
            assert(false);
        }
    }
    assert forall|v: int| 0 <= v < g.variables@.len() implies
        (#[trigger] ordering.contains(VertexId::Variable(VariableVertexId(v as usize)))
            == (g.variables@[v].spec_is_input()
                || exists|q: PatternVertexId| #[trigger] ordering.contains(
                    VertexId::Pattern(q),
                ) && q.0 < g.patterns@.len()
                    && g.pattern_to_variable@[q.0 as int]@.contains(
                    VariableVertexId(v as usize),
                ))) by {
        if exists|q: PatternVertexId| #[trigger] ordering.contains(VertexId::Pattern(q))
            && q.0 < g.patterns@.len()
            && g.pattern_to_variable@[q.0 as int]@.contains(VariableVertexId(v as usize)) {
            let q = choose|q: PatternVertexId| #[trigger] ordering.contains(
                VertexId::Pattern(q),
            ) && q.0 < g.patterns@.len()
                && g.pattern_to_variable@[q.0 as int]@.contains(VariableVertexId(v as usize));
            assert(false);
        }
    }
}

/// Placing a valid remaining pattern preserves the search-state invariant.
pub proof fn lemma_state_step(
    g: &Graph,
    ordering: Seq<VertexId>,
    remaining: Seq<PatternVertexId>,
    p: PatternVertexId,
)
    requires
        g.wf(),
        spec_search_state_wf(g, ordering, remaining),
        remaining.contains(p),
        spec_is_valid(&g.patterns@[p.0 as int], ordering),
    ensures
        spec_search_state_wf(g, spec_place(g, ordering, p), spec_remove(remaining, p)),
        spec_remove(remaining, p).len() == remaining.len() - 1,
{
    let np = g.patterns@.len();
    let nv = g.variables@.len();
    let next_ord = spec_place(g, ordering, p);
    let next_rem = spec_remove(remaining, p);
    assert(p.0 < np) by {
        let k = choose|k: int| 0 <= k < remaining.len() && remaining[k] == p;
    }
    lemma_remove(remaining, p);
    lemma_extend_ordering(g, ordering, p);
    assert forall|q: PatternVertexId| #[trigger] next_rem.contains(q) implies
        !next_ord.contains(VertexId::Pattern(q)) by {
        assert(remaining.contains(q) && q != p);
    }
    assert forall|k: int| 0 <= k < next_rem.len() implies
        (#[trigger] next_rem[k]).0 < np by {
        assert(next_rem.contains(next_rem[k]));
        assert(remaining.contains(next_rem[k]));
        let j = choose|j: int| 0 <= j < remaining.len() && remaining[j] == next_rem[k];
    }
    assert forall|q: int| 0 <= q < np implies
        #[trigger] next_ord.contains(VertexId::Pattern(PatternVertexId(q as usize)))
            || next_rem.contains(PatternVertexId(q as usize)) by {
        if PatternVertexId(q as usize) == p {
        } else {
            if remaining.contains(PatternVertexId(q as usize)) {
                assert(next_rem.contains(PatternVertexId(q as usize)));
            } else {
                assert(ordering.contains(VertexId::Pattern(PatternVertexId(q as usize))));
            }
        }
    }
    assert forall|v: int| 0 <= v < nv implies
        (#[trigger] next_ord.contains(VertexId::Variable(VariableVertexId(v as usize)))
            == (g.variables@[v].spec_is_input()
                || exists|q: PatternVertexId| #[trigger] next_ord.contains(
                    VertexId::Pattern(q),
                ) && q.0 < np
                    && g.pattern_to_variable@[q.0 as int]@.contains(
                    VariableVertexId(v as usize),
                ))) by {
        let vv = VariableVertexId(v as usize);
        if next_ord.contains(VertexId::Variable(vv)) {
            if ordering.contains(VertexId::Variable(vv)) {
                if !g.variables@[v].spec_is_input() {
                    let q = choose|q: PatternVertexId| #[trigger] ordering.contains(
                        VertexId::Pattern(q),
                    ) && q.0 < np && g.pattern_to_variable@[q.0 as int]@.contains(vv);
                    assert(next_ord.contains(VertexId::Pattern(q)));
                }
            } else {
                assert(g.pattern_to_variable@[p.0 as int]@.contains(vv));
                assert(next_ord.contains(VertexId::Pattern(p)));
            }
        } else {
            assert(!ordering.contains(VertexId::Variable(vv)));
            assert(!g.variables@[v].spec_is_input());
            if exists|q: PatternVertexId| #[trigger] next_ord.contains(VertexId::Pattern(q))
                && q.0 < np && g.pattern_to_variable@[q.0 as int]@.contains(vv) {
                let q = choose|q: PatternVertexId| #[trigger] next_ord.contains(
                    VertexId::Pattern(q),
                ) && q.0 < np && g.pattern_to_variable@[q.0 as int]@.contains(vv);
                if q == p {
                    assert(next_ord.contains(VertexId::Variable(vv)));
                    assert(false);
                } else {
                    assert(ordering.contains(VertexId::Pattern(q)));
                    assert(ordering.contains(VertexId::Variable(vv)));
                    assert(false);
                }
            }
        }
    }
}

/// An exhausted search state is a complete ordering.
pub proof fn lemma_state_complete(
    g: &Graph,
    ordering: Seq<VertexId>,
    remaining: Seq<PatternVertexId>,
)
    requires
        g.wf(),
        g.patterns@.len() <= usize::MAX,
        spec_search_state_wf(g, ordering, remaining),
        remaining.len() == 0,
    ensures
        spec_ordering_complete(g, ordering),
{
    assert forall|p: int| 0 <= p < g.patterns@.len() implies
        #[trigger] ordering.contains(VertexId::Pattern(PatternVertexId(p as usize))) by {
        assert(!remaining.contains(PatternVertexId(p as usize)));
    }
    assert forall|v: int| 0 <= v < g.variables@.len() implies
        (#[trigger] ordering.contains(VertexId::Variable(VariableVertexId(v as usize)))
            == (g.variables@[v].spec_is_input()
                || exists|p: int| 0 <= p < g.patterns@.len()
                    && (#[trigger] g.pattern_to_variable@[p])@.contains(
                    VariableVertexId(v as usize),
                ))) by {
        let vv = VariableVertexId(v as usize);
        if ordering.contains(VertexId::Variable(vv)) {
            if !g.variables@[v].spec_is_input() {
                let q = choose|q: PatternVertexId| #[trigger] ordering.contains(
                    VertexId::Pattern(q),
                ) && q.0 < g.patterns@.len()
                    && g.pattern_to_variable@[q.0 as int]@.contains(vv);
                assert((q.0 as int) < g.patterns@.len());
                assert(g.pattern_to_variable@[q.0 as int]@.contains(vv));
            }
        } else {
            if exists|p: int| 0 <= p < g.patterns@.len()
                && (#[trigger] g.pattern_to_variable@[p])@.contains(vv) {
                let p = choose|p: int| 0 <= p < g.patterns@.len()
                    && (#[trigger] g.pattern_to_variable@[p])@.contains(vv);
                assert(ordering.contains(VertexId::Pattern(PatternVertexId(p as usize))));
                assert(exists|q: PatternVertexId| #[trigger] ordering.contains(
                    VertexId::Pattern(q),
                ) && q.0 < g.patterns@.len()
                    && g.pattern_to_variable@[q.0 as int]@.contains(vv)) by {
                    assert(ordering.contains(VertexId::Pattern(PatternVertexId(p as usize)))
                        && PatternVertexId(p as usize).0 < g.patterns@.len()
                        && g.pattern_to_variable@[PatternVertexId(p as usize).0 as int]@
                            .contains(vv));
                }
                assert(false);
            }
        }
    }
}



/// Determinism of the greedy planner: its result is pinned to the
/// specification mirror, so two plans of the same graph are the same plan
/// — the same ordering, directions and cost (ties during selection break
/// towards the lower pattern id).
pub proof fn lemma_greedy_deterministic(
    g: &Graph,
    first: ConjunctionPlan,
    second: ConjunctionPlan,
)
    requires
        Some(first.model()) == spec_greedy(g),
        Some(second.model()) == spec_greedy(g),
    ensures
        first.model() == second.model(),
{
}



/// The recorded direction of placing `p` under the prefix: the chosen
/// direction for constraints, nothing for other vertex kinds.
pub open spec fn spec_direction_choice(
    g: &Graph,
    ordering: Seq<VertexId>,
    p: PatternVertexId,
) -> Option<Direction> {
    match spec_cost_and_metadata(&g.patterns@[p.0 as int], ordering).1 {
        CostMetaData::Direction(d) => Some(d),
        CostMetaData::NoDirection => None,
    }
}

/// The direction map matches the ordering: every placed pattern's entry is
/// the direction chosen under exactly the prefix it was placed after.
pub open spec fn spec_directions_consistent(
    g: &Graph,
    ordering: Seq<VertexId>,
    directions: Seq<Option<Direction>>,
) -> bool {
    forall|i: int| 0 <= i < ordering.len() ==> (match #[trigger] ordering[i] {
        VertexId::Pattern(p) => p.0 < directions.len()
            && directions[p.0 as int] == spec_direction_choice(g, ordering.take(i), p),
        VertexId::Variable(_) => true,
    })
}

/// Placing a fresh pattern keeps the direction map consistent: the new
/// entry is chosen under the placement prefix, and every earlier entry's
/// prefix is unchanged.
pub proof fn lemma_directions_extend(
    g: &Graph,
    ordering: Seq<VertexId>,
    directions: Seq<Option<Direction>>,
    p: PatternVertexId,
)
    requires
        spec_directions_consistent(g, ordering, directions),
        !ordering.contains(VertexId::Pattern(p)),
        p.0 < directions.len(),
    ensures
        spec_directions_consistent(
            g,
            spec_place(g, ordering, p),
            directions.update(p.0 as int, spec_direction_choice(g, ordering, p)),
        ),
{
    let next = spec_place(g, ordering, p);
    let nd = directions.update(p.0 as int, spec_direction_choice(g, ordering, p));
    let pv = spec_placed_vars(g, ordering, p);
    assert(next.len() == ordering.len() + 1 + pv.len());
    assert forall|i: int| 0 <= i < next.len() implies (match #[trigger] next[i] {
        VertexId::Pattern(q) => q.0 < nd.len()
            && nd[q.0 as int] == spec_direction_choice(g, next.take(i), q),
        VertexId::Variable(_) => true,
    }) by {
        if i < ordering.len() {
            assert(next[i] == ordering[i]);
            assert(next.take(i) =~= ordering.take(i));
            match ordering[i] {
                VertexId::Pattern(q) => {
                    assert(ordering.contains(ordering[i]));
                    assert(q != p);
                    assert(nd[q.0 as int] == directions[q.0 as int]);
                },
                VertexId::Variable(_) => {},
            }
        } else if i == ordering.len() {
            assert(next[i] == VertexId::Pattern(p));
            assert(next.take(i) =~= ordering);
        } else {
            assert(next[i] == VertexId::Variable(pv[i - ordering.len() - 1]));
        }
    }
}


} // verus!
