//! The top-level planner: from a query's conjunction pool to plans.
//!
//! Conjunctions are planned from the back of the pool towards the front,
//! so that every negated sub-conjunction and disjunction branch is planned
//! before the conjunction that nests it: a negation contributes its cached
//! plan cost, a disjunction the parallel combination of its branch costs.
//! The root conjunction is planned last, with the externally pre-bound
//! variables as inputs.
//!
//! Branch plans are made once, with each branch's captured variables as
//! its inputs; the enclosing search reuses those cached costs rather than
//! re-planning a branch per candidate prefix. A branch can only consume
//! outside values through its captured variables, so the cached plan
//! already assumes every binding the enclosing plan could offer it.

use vstd::prelude::*;

use crate::beam::{beam_search_plan, BEAM_WIDTH, EXTENSION_WIDTH};
use crate::builder::{
    spec_category_error, spec_constraint_error_matches, spec_constraint_vars_ok,
    spec_fresh_kinds_ok, spec_registered_pattern, spec_resolved_ids, ConjunctionPlanBuilder,
};
use crate::cost::{spec_combine_parallel, CombinedCost};
use crate::errors::{InvariantViolation, PlannerError, UnsupportedFeature};
use crate::graph::{spec_index_of, Graph};
use crate::ids::VariableVertexId;
use crate::ir::{Comparator, ConstraintIr, QueryIr, Variable, VariableRegistry};
use crate::search::{spec_greedy, spec_ordering_complete, spec_ordering_wf, ConjunctionPlan};
use crate::stats::{Statistics, TypeAnnotations};
use crate::vertex::PatternVertex;

verus! {

/// A planned conjunction: its sealed graph and the plan over it.
#[derive(Clone, Debug)]
pub struct PlannedConjunction {
    pub graph: Graph,
    pub plan: ConjunctionPlan,
}

/// What planning one conjunction guarantees: a well-formed, complete,
/// directional ordering over its graph, whose projected cost does not
/// exceed the greedy plan's.
pub open spec fn spec_planned_ok(pc: &PlannedConjunction) -> bool {
    &&& pc.graph.wf()
    &&& spec_ordering_wf(&pc.graph, pc.plan.ordering@)
    &&& spec_ordering_complete(&pc.graph, pc.plan.ordering@)
    &&& pc.plan.directions@.len() == pc.graph.patterns@.len()
    &&& crate::search::spec_directions_consistent(
        &pc.graph,
        pc.plan.ordering@,
        pc.plan.directions@,
    )
    &&& (pc.plan.cost == crate::cost::spec_chain(
        crate::beam::spec_step_state(&pc.graph, pc.plan.ordering@, pc.plan.ordering@.len() as int).0,
        crate::beam::spec_step_state(&pc.graph, pc.plan.ordering@, pc.plan.ordering@.len() as int).1,
    ) || Some(pc.plan.model()) == spec_greedy(&pc.graph))
    &&& (spec_greedy(&pc.graph) matches Some(gp) && pc.plan.cost.cost <= gp.2.cost)
}

/// Machine limits under which a query can be registered at all.
pub open spec fn spec_query_sizes_ok(ir: &QueryIr, input_variables: Seq<Variable>) -> bool {
    forall|i: int| 0 <= i < ir.conjunctions@.len() ==> {
        &&& input_variables.len() + (#[trigger] ir.conjunctions@[i]).shared_variables@.len()
            + ir.conjunctions@[i].local_variables@.len() < usize::MAX - 1
        &&& ir.conjunctions@[i].constraints@.len() + 2 * ir.conjunctions@[i].negations@.len()
            + 2 * ir.conjunctions@[i].disjunctions@.len() < usize::MAX - 1
    }
}


/// The cached plan costs behind a pool of planned conjunctions; an
/// unplanned entry reads as the empty cost.
pub open spec fn spec_costs_of(planned: Seq<Option<PlannedConjunction>>) -> Seq<CombinedCost> {
    planned.map_values(
        |o: Option<PlannedConjunction>|
            match o {
                Option::Some(pc) => pc.plan.cost,
                Option::None => CombinedCost::spec_empty(),
            },
    )
}

/// The parallel combination of the branch costs of a disjunction.
pub open spec fn spec_parallel_cost(costs: Seq<CombinedCost>, branches: Seq<usize>) -> CombinedCost
    decreases branches.len(),
{
    if branches.len() == 0 {
        CombinedCost::spec_empty()
    } else {
        spec_combine_parallel(
            spec_parallel_cost(costs, branches.drop_last()),
            costs[branches.last() as int],
        )
    }
}


/// A registered negation pattern: costed by the nested plan, adjacent to
/// the resolved captured variables of the nested conjunction.
pub open spec fn spec_negation_entry(
    pv: PatternVertex,
    index: Seq<(Variable, crate::ids::VariableVertexId)>,
    ir: &QueryIr,
    nidx: int,
    costs: Seq<CombinedCost>,
) -> bool {
    pv matches PatternVertex::Negation { shared: sh, cost: c }
        && c == costs[nidx]
        && sh@ == spec_resolved_ids(index, ir.conjunctions@[nidx].shared_variables@)
}

/// A registered disjunction pattern: its branch indices, costed by the
/// parallel combination of the branch plans.
pub open spec fn spec_disjunction_entry(
    pv: PatternVertex,
    branches: Seq<usize>,
    costs: Seq<CombinedCost>,
) -> bool {
    pv matches PatternVertex::Disjunction { branches: b, cost: c, .. }
        && b@ == branches
        && c == spec_parallel_cost(costs, branches)
}

/// The graph a conjunction registers: one pattern per constraint, pinned to
/// the registration dispatch, followed by one negation per nested negation
/// (costed by the sub-plan) and one disjunction per nested disjunction
/// (costed by the parallel combination of its branch plans); every scope
/// variable registered, fresh vertices kinded by their category, and — for
/// a nested conjunction — the captured variables pre-bound as inputs.
pub open spec fn spec_graph_matches(
    g: &Graph,
    ir: &QueryIr,
    idx: int,
    registry: &VariableRegistry,
    annotations: &TypeAnnotations,
    statistics: &Statistics,
    inputs: Seq<Variable>,
    sub_costs: Seq<CombinedCost>,
) -> bool {
    let conj = ir.conjunctions@[idx];
    let nc = conj.constraints@.len() as int;
    let nn = conj.negations@.len() as int;
    let nd = conj.disjunctions@.len() as int;
    &&& g.wf()
    &&& g.patterns@.len() == nc + nn + nd
    &&& (forall|k: int| 0 <= k < nc ==> spec_registered_pattern(
        g.patterns@[k],
        #[trigger] conj.constraints@[k],
        g,
        annotations,
        statistics,
    ))
    &&& (forall|k: int| 0 <= k < nn ==> spec_negation_entry(
        g.patterns@[nc + k],
        g.variable_index@,
        ir,
        #[trigger] conj.negations@[k] as int,
        sub_costs,
    ))
    &&& (forall|k: int| 0 <= k < nd ==> spec_disjunction_entry(
        g.patterns@[nc + nn + k],
        (#[trigger] conj.disjunctions@[k]).branches@,
        sub_costs,
    ))
    &&& (forall|k: int| 0 <= k < conj.shared_variables@.len()
        ==> spec_index_of(g.variable_index@, #[trigger] conj.shared_variables@[k]) is Some)
    &&& (forall|k: int| 0 <= k < conj.local_variables@.len()
        ==> spec_index_of(g.variable_index@, #[trigger] conj.local_variables@[k]) is Some)
    &&& (idx == 0 ==> {
        &&& spec_fresh_kinds_ok(g.variables@, 0, inputs, registry@)
        &&& forall|k: int| 0 <= k < inputs.len()
            ==> spec_index_of(g.variable_index@, #[trigger] inputs[k]) is Some
    })
    &&& (idx > 0 ==> forall|k: int| 0 <= k < conj.shared_variables@.len()
        ==> (match spec_index_of(g.variable_index@, #[trigger] conj.shared_variables@[k]) {
            Option::Some(id) => id.0 < g.variables@.len()
                && g.variables@[id.0 as int].kind is Input,
            Option::None => false,
        }))
}


/// The variables in scope for conjunction `idx`: the externally pre-bound
/// inputs (for the root only), then the captured, then the local
/// variables.
pub open spec fn spec_scope_variables(ir: &QueryIr, idx: int, inputs: Seq<Variable>) -> Seq<
    Variable,
> {
    (if idx == 0 {
        inputs
    } else {
        Seq::empty()
    }) + ir.conjunctions@[idx].shared_variables@ + ir.conjunctions@[idx].local_variables@
}

/// A reference index holding exactly the scope variables, for stating
/// which names a conjunction can resolve at all.
pub open spec fn spec_scope_index(ir: &QueryIr, idx: int, inputs: Seq<Variable>) -> Seq<(
    Variable,
    VariableVertexId,
)> {
    spec_scope_variables(ir, idx, inputs).map_values(|v: Variable| (v, VariableVertexId(0)))
}

/// All of `vars` resolve against `index`.
pub open spec fn spec_vars_all_indexed(
    vars: Seq<Variable>,
    index: Seq<(Variable, VariableVertexId)>,
) -> bool {
    forall|t: int| 0 <= t < vars.len()
        ==> spec_index_of(index, #[trigger] vars[t]) is Some
}

/// Every name conjunction `idx` uses — in its constraints and in the
/// captured variables of its nested patterns — is a scope variable.
pub open spec fn spec_scope_covers(ir: &QueryIr, idx: int, inputs: Seq<Variable>) -> bool {
    let conj = ir.conjunctions@[idx];
    let index = spec_scope_index(ir, idx, inputs);
    &&& (forall|k: int| 0 <= k < conj.constraints@.len()
        ==> spec_constraint_vars_ok(#[trigger] conj.constraints@[k], index))
    &&& (forall|k: int| 0 <= k < conj.negations@.len()
        ==> spec_vars_all_indexed(
            ir.conjunctions@[#[trigger] conj.negations@[k] as int].shared_variables@,
            index,
        ))
    &&& (forall|dk: int, bk: int|
        0 <= dk < conj.disjunctions@.len() && 0 <= bk < conj.disjunctions@[dk].branches@.len()
        ==> spec_vars_all_indexed(
            ir.conjunctions@[
                #[trigger] conj.disjunctions@[dk].branches@[bk] as int
            ].shared_variables@,
            index,
        ))
}

/// What justifies each planning failure: every error value points at a
/// real feature or violation of the conjunction (an empty plan space is
/// justified separately, by a witness graph).
pub open spec fn spec_error_cause(
    ir: &QueryIr,
    idx: int,
    registry: &VariableRegistry,
    inputs: Seq<Variable>,
    e: PlannerError,
) -> bool {
    let conj = ir.conjunctions@[idx];
    match e {
        PlannerError::Unsupported(UnsupportedFeature::OptionalPattern) => conj.optionals@.len()
            > 0,
        PlannerError::Unsupported(UnsupportedFeature::ListVariablePlanning) => exists|k: int|
            0 <= k < spec_scope_variables(ir, idx, inputs).len()
                && (crate::ir::spec_category_of(
                registry@,
                #[trigger] spec_scope_variables(ir, idx, inputs)[k],
            ) matches Some(c) && c.spec_is_list()),
        PlannerError::Unsupported(UnsupportedFeature::LikeComparator) => exists|k: int|
            0 <= k < conj.constraints@.len() && (#[trigger] conj.constraints@[k] matches
                ConstraintIr::Comparison { comparator: Comparator::Like, .. }),
        PlannerError::Unsupported(UnsupportedFeature::ContainsComparator) => exists|k: int|
            0 <= k < conj.constraints@.len() && (#[trigger] conj.constraints@[k] matches
                ConstraintIr::Comparison { comparator: Comparator::Contains, .. }),
        PlannerError::Invariant(InvariantViolation::MissingVariableCategory) => exists|k: int|
            0 <= k < spec_scope_variables(ir, idx, inputs).len()
                && crate::ir::spec_category_of(
                registry@,
                #[trigger] spec_scope_variables(ir, idx, inputs)[k],
            ) is None,
        PlannerError::Invariant(InvariantViolation::UnresolvedAttributeOrValue) => exists|k: int|
            0 <= k < spec_scope_variables(ir, idx, inputs).len()
                && (crate::ir::spec_category_of(
                registry@,
                #[trigger] spec_scope_variables(ir, idx, inputs)[k],
            ) matches Some(c) && c is AttributeOrValue),
        PlannerError::Invariant(InvariantViolation::UnregisteredVariable) => !spec_scope_covers(
            ir,
            idx,
            inputs,
        ),
        PlannerError::Invariant(InvariantViolation::MalformedNestedReference) => false,
        PlannerError::EmptyPlanSpace => true,
    }
}

/// The reference scope index resolves exactly the scope variables.
proof fn lemma_scope_index_membership(listed: Seq<Variable>, v: Variable)
    ensures
        spec_index_of(
            listed.map_values(|w: Variable| (w, VariableVertexId(0))),
            v,
        ) is Some == listed.contains(v),
    decreases listed.len(),
{
    let mapped = listed.map_values(|w: Variable| (w, VariableVertexId(0)));
    if listed.len() == 0 {
        if listed.contains(v) {
            let k = choose|k: int| 0 <= k < listed.len() && listed[k] == v;
        }
    } else {
        lemma_scope_index_membership(listed.drop_first(), v);
        assert(mapped.drop_first() =~= listed.drop_first().map_values(
            |w: Variable| (w, VariableVertexId(0)),
        ));
        assert(mapped[0] == (listed[0], VariableVertexId(0)));
        if listed[0] != v {
            assert(listed.contains(v) == listed.drop_first().contains(v)) by {
                if listed.contains(v) {
                    let k = choose|k: int| 0 <= k < listed.len() && listed[k] == v;
                    assert(listed.drop_first()[k - 1] == v);
                }
                if listed.drop_first().contains(v) {
                    let k = choose|k: int|
                        0 <= k < listed.drop_first().len() && listed.drop_first()[k] == v;
                    assert(listed[k + 1] == v);
                }
            }
        }
    }
}

/// Variable resolution is monotone in the index's membership.
proof fn lemma_vars_ok_monotone(
    c: ConstraintIr,
    wide: Seq<(Variable, VariableVertexId)>,
    narrow: Seq<(Variable, VariableVertexId)>,
)
    requires
        forall|v: Variable| #[trigger] spec_index_of(narrow, v) is Some
            ==> spec_index_of(wide, v) is Some,
        spec_constraint_vars_ok(c, narrow),
    ensures
        spec_constraint_vars_ok(c, wide),
{
    match c {
        ConstraintIr::ExpressionBinding { output, inputs } => {
            assert(spec_index_of(narrow, output) is Some);
            assert forall|k: int| 0 <= k < inputs@.len() implies
                spec_index_of(wide, #[trigger] inputs@[k]) is Some by {
                assert(spec_index_of(narrow, inputs@[k]) is Some);
            }
        },
        ConstraintIr::FunctionCallBinding { assigned, arguments, .. } => {
            assert forall|k: int| 0 <= k < assigned@.len() implies
                spec_index_of(wide, #[trigger] assigned@[k]) is Some by {
                assert(spec_index_of(narrow, assigned@[k]) is Some);
            }
            assert forall|k: int| 0 <= k < arguments@.len() implies
                spec_index_of(wide, #[trigger] arguments@[k]) is Some by {
                assert(spec_index_of(narrow, arguments@[k]) is Some);
            }
        },
        _ => {},
    }
}


/// List resolution is monotone in the index's membership.
proof fn lemma_indexed_monotone(
    vars: Seq<Variable>,
    wide: Seq<(Variable, VariableVertexId)>,
    narrow: Seq<(Variable, VariableVertexId)>,
)
    requires
        forall|v: Variable| #[trigger] spec_index_of(narrow, v) is Some
            ==> spec_index_of(wide, v) is Some,
        spec_vars_all_indexed(vars, narrow),
    ensures
        spec_vars_all_indexed(vars, wide),
{
    assert forall|t: int| 0 <= t < vars.len() implies
        spec_index_of(wide, #[trigger] vars[t]) is Some by {
        assert(spec_index_of(narrow, vars[t]) is Some);
    }
}

/// Builds the graph for conjunction `idx` of the pool, registering its
/// variables, constraints and pre-planned nested patterns.
fn make_builder(
    ir: &QueryIr,
    idx: usize,
    registry: &VariableRegistry,
    annotations: &TypeAnnotations,
    statistics: &Statistics,
    input_variables: &Vec<Variable>,
    planned: &Vec<Option<PlannedConjunction>>,
) -> (r: Result<ConjunctionPlanBuilder, PlannerError>)
    requires
        ir.wf(),
        idx < ir.conjunctions@.len(),
        planned@.len() == ir.conjunctions@.len(),
        spec_query_sizes_ok(ir, input_variables@),
        forall|j: int| idx < j < planned@.len()
            ==> (#[trigger] planned@[j]) is Some,
    ensures
        r matches Ok(b) ==> b.graph.wf(),
        r matches Ok(b) ==> spec_graph_matches(
            &b.graph,
            ir,
            idx as int,
            registry,
            annotations,
            statistics,
            input_variables@,
            spec_costs_of(planned@),
        ),
        r is Ok ==> ir.conjunctions@[idx as int].optionals@.len() == 0,
        ir.conjunctions@[idx as int].optionals@.len() > 0
            ==> r == Err::<ConjunctionPlanBuilder, PlannerError>(
                PlannerError::Unsupported(UnsupportedFeature::OptionalPattern),
            ),
        r matches Err(e) ==> (e is Unsupported || e is Invariant),
        r matches Err(e) ==> spec_error_cause(ir, idx as int, registry, input_variables@, e),
{
    let conjunction = &ir.conjunctions[idx];
    if conjunction.optionals.len() > 0 {
        return Err(PlannerError::Unsupported(UnsupportedFeature::OptionalPattern));
    }
    let mut builder = ConjunctionPlanBuilder::new();
    let no_inputs: Vec<Variable> = Vec::new();
    let inputs: &Vec<Variable> = if idx == 0 {
        input_variables
    } else {
        &no_inputs
    };
    let ghost listed = spec_scope_variables(ir, idx as int, input_variables@);
    let ghost in_part = if idx == 0 {
        input_variables@
    } else {
        Seq::<Variable>::empty()
    };
    proof {
        assert(listed == in_part + conjunction.shared_variables@
            + conjunction.local_variables@);
    }
    let result = builder.register_variables(
        inputs,
        &conjunction.shared_variables,
        &conjunction.local_variables,
        registry,
        annotations,
        statistics,
    );
    if let Err(e) = result {
        proof {
            // The category failure of some captured or local variable is
            // the failure of a scope variable.
            assert(spec_error_cause(ir, idx as int, registry, input_variables@, e)) by {
                if exists|k: int| 0 <= k < conjunction.shared_variables@.len()
                    && Some(e) == spec_category_error(
                    registry@,
                    #[trigger] conjunction.shared_variables@[k],
                ) {
                    let k = choose|k: int|
                        0 <= k < conjunction.shared_variables@.len() && Some(e)
                            == spec_category_error(
                            registry@,
                            #[trigger] conjunction.shared_variables@[k],
                        );
                    assert(listed[in_part.len() + k] == conjunction.shared_variables@[k]);
                } else {
                    let k = choose|k: int|
                        0 <= k < conjunction.local_variables@.len() && Some(e)
                            == spec_category_error(
                            registry@,
                            #[trigger] conjunction.local_variables@[k],
                        );
                    assert(listed[
                        in_part.len() + conjunction.shared_variables@.len() + k
                    ] == conjunction.local_variables@[k]);
                }
            }
        }
        return Err(e);
    }
    let ghost after_vars = builder.graph;
    if idx > 0 {
        // A nested conjunction is planned with its captured variables
        // pre-bound by the enclosing scope.
        builder.with_inputs(&conjunction.shared_variables);
        proof {
            crate::builder::lemma_with_inputs(
                after_vars.variables@,
                after_vars.variable_index@,
                conjunction.shared_variables@,
            );
        }
    }
    let ghost after_inputs = builder.graph;
    let ghost synthetic = spec_scope_index(ir, idx as int, input_variables@);
    proof {
        assert(conjunction.constraints@.len() + 2 * conjunction.negations@.len()
            + 2 * conjunction.disjunctions@.len() < usize::MAX - 1);
        // Every scope variable is registered, so anything the reference
        // scope index resolves, the built index resolves too.
        assert forall|v: Variable| #[trigger] spec_index_of(synthetic, v) is Some implies
            spec_index_of(builder.graph.variable_index@, v) is Some by {
            lemma_scope_index_membership(listed, v);
            assert(listed.contains(v));
            let k = choose|k: int| 0 <= k < listed.len() && listed[k] == v;
            if k < in_part.len() {
                assert(in_part[k] == v);
                assert(idx == 0);
                assert(input_variables@[k] == v);
            } else if k < in_part.len() + conjunction.shared_variables@.len() {
                assert(conjunction.shared_variables@[k - in_part.len()] == v);
            } else {
                assert(conjunction.local_variables@[
                    k - in_part.len() - conjunction.shared_variables@.len()
                ] == v);
            }
        }
        // Captured variables of a nested conjunction are pre-bound.
        if idx > 0 {
            assert forall|k: int| 0 <= k < conjunction.shared_variables@.len() implies
                (match spec_index_of(
                    builder.graph.variable_index@,
                    #[trigger] conjunction.shared_variables@[k],
                ) {
                    Option::Some(id) => id.0 < builder.graph.variables@.len()
                        && builder.graph.variables@[id.0 as int].kind is Input,
                    Option::None => false,
                }) by {
                assert(spec_index_of(
                    after_vars.variable_index@,
                    conjunction.shared_variables@[k],
                ) is Some);
                after_vars.lemma_index_in_range(conjunction.shared_variables@[k]);
            }
        }
    }
    proof {
        assert(crate::ir::spec_conjunction_refs_wf(ir.conjunctions@, idx as int));
    }
    let ghost nc = conjunction.constraints@.len();
    let result = builder.register_constraints(conjunction, annotations, statistics);
    if let Err(e) = result {
        proof {
            assert(spec_error_cause(ir, idx as int, registry, input_variables@, e)) by {
                let k = choose|k: int|
                    0 <= k < conjunction.constraints@.len() && spec_constraint_error_matches(
                        #[trigger] conjunction.constraints@[k],
                        builder.graph.variable_index@,
                        e,
                    );
                if e == PlannerError::Invariant(InvariantViolation::UnregisteredVariable) {
                    if spec_scope_covers(ir, idx as int, input_variables@) {
                        assert(spec_constraint_vars_ok(conjunction.constraints@[k], synthetic));
                        lemma_vars_ok_monotone(
                            conjunction.constraints@[k],
                            builder.graph.variable_index@,
                            synthetic,
                        );
                        assert(false);
                    }
                }
            }
        }
        return Err(e);
    }
    let ghost after_constraints = builder.graph;
    proof {
        // Variable kinds and scope membership survive constraint
        // registration: it changes only bound lists and producer links.
        if idx == 0 {
            assert forall|v: int| 0 <= v < builder.graph.variables@.len() implies {
                let vert = #[trigger] builder.graph.variables@[v];
                (input_variables@.contains(vert.variable) && vert.kind is Input)
                    || vert.kind == crate::builder::spec_kind_of_category(
                    crate::ir::spec_category_of(registry@, vert.variable)->0,
                )
            } by {
                assert(after_inputs.variables@[v].kind == builder.graph.variables@[v].kind);
                assert(after_inputs.variables@[v].variable
                    == builder.graph.variables@[v].variable);
            }
        }
        if idx > 0 {
            assert forall|k: int| 0 <= k < conjunction.shared_variables@.len() implies
                (match spec_index_of(
                    builder.graph.variable_index@,
                    #[trigger] conjunction.shared_variables@[k],
                ) {
                    Option::Some(id) => id.0 < builder.graph.variables@.len()
                        && builder.graph.variables@[id.0 as int].kind is Input,
                    Option::None => false,
                }) by {
                match spec_index_of(
                    after_inputs.variable_index@,
                    conjunction.shared_variables@[k],
                ) {
                    Option::Some(id) => {
                        assert(after_inputs.variables@[id.0 as int].kind
                            == builder.graph.variables@[id.0 as int].kind);
                    },
                    Option::None => {},
                }
            }
        }
    }
    let mut n: usize = 0;
    while n < conjunction.negations.len()
        invariant
            builder.graph.wf(),
            ir.wf(),
            idx < ir.conjunctions@.len(),
            planned@.len() == ir.conjunctions@.len(),
            forall|j: int| idx < j < planned@.len() ==> (#[trigger] planned@[j]) is Some,
            conjunction == &ir.conjunctions@[idx as int],
            conjunction.optionals@.len() == 0,
            0 <= n <= conjunction.negations@.len(),
            nc == conjunction.constraints@.len(),
            builder.graph.patterns@.len() == nc + n,
            nc + 2 * conjunction.negations@.len() + 2 * conjunction.disjunctions@.len()
                < usize::MAX - 1,
            forall|k: int| 0 <= k < conjunction.negations@.len()
                ==> idx < #[trigger] conjunction.negations@[k] < planned@.len(),
            builder.graph.variables@ == after_constraints.variables@,
            builder.graph.variable_index@ == after_constraints.variable_index@,
            synthetic == spec_scope_index(ir, idx as int, input_variables@),
            forall|v: Variable| #[trigger] spec_index_of(synthetic, v) is Some
                ==> spec_index_of(builder.graph.variable_index@, v) is Some,
            forall|k: int| 0 <= k < nc ==> spec_registered_pattern(
                builder.graph.patterns@[k],
                #[trigger] conjunction.constraints@[k],
                &builder.graph,
                annotations,
                statistics,
            ),
            forall|k: int| 0 <= k < nc
                ==> builder.graph.patterns@[k] == after_constraints.patterns@[k],
            forall|k: int| 0 <= k < n ==> spec_negation_entry(
                builder.graph.patterns@[nc + k],
                after_constraints.variable_index@,
                ir,
                #[trigger] conjunction.negations@[k] as int,
                spec_costs_of(planned@),
            ),
        decreases conjunction.negations@.len() - n,
    {
        let ghost gpre = builder.graph;
        let nidx = conjunction.negations[n];
        proof {
            assert(crate::ir::spec_conjunction_refs_wf(ir.conjunctions@, idx as int));
            assert(idx < nidx < ir.conjunctions@.len());
            assert(planned@[nidx as int] is Some);
        }
        let sub_cost = match &planned[nidx] {
            Some(pc) => pc.plan.cost,
            None => CombinedCost::noop(),
        };
        proof {
            assert(sub_cost == spec_costs_of(planned@)[nidx as int]);
        }
        let result = builder.register_negation(
            &ir.conjunctions[nidx].shared_variables,
            sub_cost,
        );
        if let Err(e) = result {
            proof {
                assert(spec_error_cause(ir, idx as int, registry, input_variables@, e)) by {
                    if spec_scope_covers(ir, idx as int, input_variables@) {
                        assert(conjunction.negations@[n as int] == nidx);
                        assert(spec_vars_all_indexed(
                            ir.conjunctions@[nidx as int].shared_variables@,
                            synthetic,
                        ));
                        lemma_indexed_monotone(
                            ir.conjunctions@[nidx as int].shared_variables@,
                            builder.graph.variable_index@,
                            synthetic,
                        );
                        assert(false);
                    }
                }
            }
            return Err(e);
        }
        proof {
            assert forall|k: int| 0 <= k < gpre.patterns@.len() implies
                builder.graph.patterns@[k] == gpre.patterns@[k] by {
                assert(gpre.patterns@ =~= builder.graph.patterns@.subrange(
                    0,
                    gpre.patterns@.len() as int,
                ));
            }
            assert(builder.graph.patterns@.len() == nc + n + 1);
            assert forall|k: int| 0 <= k < n + 1 implies spec_negation_entry(
                builder.graph.patterns@[nc + k],
                after_constraints.variable_index@,
                ir,
                #[trigger] conjunction.negations@[k] as int,
                spec_costs_of(planned@),
            ) by {
                assert(crate::ir::spec_conjunction_refs_wf(ir.conjunctions@, idx as int));
                assert(idx < conjunction.negations@[k] < ir.conjunctions@.len());
                if k < n {
                    assert(builder.graph.patterns@[nc + k] == gpre.patterns@[nc + k]);
                } else {
                    assert(conjunction.negations@[k] == nidx);
                    assert(builder.graph.patterns@[nc + k]
                        == builder.graph.patterns@.last());
                    assert(spec_negation_entry(
                        builder.graph.patterns@.last(),
                        after_constraints.variable_index@,
                        ir,
                        nidx as int,
                        spec_costs_of(planned@),
                    ));
                }
            }
        }
        n += 1;
    }
    let ghost nn = conjunction.negations@.len();
    let mut d: usize = 0;
    while d < conjunction.disjunctions.len()
        invariant
            builder.graph.wf(),
            ir.wf(),
            idx < ir.conjunctions@.len(),
            planned@.len() == ir.conjunctions@.len(),
            forall|j: int| idx < j < planned@.len() ==> (#[trigger] planned@[j]) is Some,
            conjunction == &ir.conjunctions@[idx as int],
            conjunction.optionals@.len() == 0,
            0 <= d <= conjunction.disjunctions@.len(),
            nc == conjunction.constraints@.len(),
            nn == conjunction.negations@.len(),
            builder.graph.patterns@.len() == nc + nn + d,
            nc + 2 * nn + 2 * conjunction.disjunctions@.len() < usize::MAX - 1,
            forall|k: int| 0 <= k < conjunction.negations@.len()
                ==> idx < #[trigger] conjunction.negations@[k] < planned@.len(),
            builder.graph.variables@ == after_constraints.variables@,
            builder.graph.variable_index@ == after_constraints.variable_index@,
            synthetic == spec_scope_index(ir, idx as int, input_variables@),
            forall|v: Variable| #[trigger] spec_index_of(synthetic, v) is Some
                ==> spec_index_of(builder.graph.variable_index@, v) is Some,
            forall|k: int| 0 <= k < nc ==> spec_registered_pattern(
                builder.graph.patterns@[k],
                #[trigger] conjunction.constraints@[k],
                &builder.graph,
                annotations,
                statistics,
            ),
            forall|k: int| 0 <= k < nc
                ==> builder.graph.patterns@[k] == after_constraints.patterns@[k],
            forall|k: int| 0 <= k < nn ==> spec_negation_entry(
                builder.graph.patterns@[nc + k],
                after_constraints.variable_index@,
                ir,
                #[trigger] conjunction.negations@[k] as int,
                spec_costs_of(planned@),
            ),
            forall|k: int| 0 <= k < d ==> spec_disjunction_entry(
                builder.graph.patterns@[nc + nn + k],
                (#[trigger] conjunction.disjunctions@[k]).branches@,
                spec_costs_of(planned@),
            ),
        decreases conjunction.disjunctions@.len() - d,
    {
        let ghost gpre = builder.graph;
        let branches = &conjunction.disjunctions[d].branches;
        let mut cost = CombinedCost::empty();
        let mut shared: Vec<Variable> = Vec::new();
        let mut b: usize = 0;
        proof {
            assert(branches@.take(0) =~= Seq::<usize>::empty());
        }
        while b < branches.len()
            invariant
                ir.wf(),
                idx < ir.conjunctions@.len(),
                planned@.len() == ir.conjunctions@.len(),
                forall|j: int| idx < j < planned@.len() ==> (#[trigger] planned@[j]) is Some,
                conjunction == &ir.conjunctions@[idx as int],
                conjunction.optionals@.len() == 0,
                0 <= b <= branches@.len(),
                0 <= d < conjunction.disjunctions@.len(),
                branches == &conjunction.disjunctions@[d as int].branches,
                cost == spec_parallel_cost(spec_costs_of(planned@), branches@.take(b as int)),
                synthetic == spec_scope_index(ir, idx as int, input_variables@),
                spec_scope_covers(ir, idx as int, input_variables@)
                    ==> spec_vars_all_indexed(shared@, synthetic),
            decreases branches@.len() - b,
        {
            proof {
                assert(branches@.take(b as int + 1).drop_last() =~= branches@.take(b as int));
                assert(branches@.take(b as int + 1).last() == branches@[b as int]);
            }
            let bidx = branches[b];
            proof {
                assert(crate::ir::spec_conjunction_refs_wf(ir.conjunctions@, idx as int));
                assert(idx < bidx < ir.conjunctions@.len());
                assert(planned@[bidx as int] is Some);
            }
            match &planned[bidx] {
                Some(pc) => {
                    cost = cost.combine_parallel(pc.plan.cost);
                    proof {
                        assert(pc.plan.cost == spec_costs_of(planned@)[bidx as int]);
                    }
                },
                None => {},
            }
            let branch_shared = &ir.conjunctions[bidx].shared_variables;
            let mut sv: usize = 0;
            while sv < branch_shared.len()
                invariant
                    0 <= sv <= branch_shared@.len(),
                    ir.wf(),
                    idx < ir.conjunctions@.len(),
                    conjunction == &ir.conjunctions@[idx as int],
                    0 <= d < conjunction.disjunctions@.len(),
                    0 <= b < conjunction.disjunctions@[d as int].branches@.len(),
                    bidx == conjunction.disjunctions@[d as int].branches@[b as int],
                    bidx < ir.conjunctions@.len(),
                    branch_shared == &ir.conjunctions@[bidx as int].shared_variables,
                    synthetic == spec_scope_index(ir, idx as int, input_variables@),
                    spec_scope_covers(ir, idx as int, input_variables@)
                        ==> spec_vars_all_indexed(shared@, synthetic),
                decreases branch_shared@.len() - sv,
            {
                let ghost pre_shared = shared@;
                shared.push(branch_shared[sv]);
                proof {
                    if spec_scope_covers(ir, idx as int, input_variables@) {
                        assert(spec_vars_all_indexed(
                            ir.conjunctions@[bidx as int].shared_variables@,
                            synthetic,
                        ));
                        assert forall|t: int| 0 <= t < shared@.len() implies
                            spec_index_of(synthetic, #[trigger] shared@[t]) is Some by {
                            if t < pre_shared.len() {
                                assert(shared@[t] == pre_shared[t]);
                            } else {
                                assert(shared@[t] == branch_shared@[sv as int]);
                            }
                        }
                    }
                }
                sv += 1;
            }
            b += 1;
        }
        proof {
            assert(branches@.take(branches@.len() as int) =~= branches@);
        }
        let branch_indices = crate::ids::copy_vec(branches);
        let result = builder.register_disjunction(&shared, branch_indices, cost);
        if let Err(e) = result {
            proof {
                assert(spec_error_cause(ir, idx as int, registry, input_variables@, e)) by {
                    if spec_scope_covers(ir, idx as int, input_variables@) {
                        assert(spec_vars_all_indexed(shared@, synthetic));
                        lemma_indexed_monotone(
                            shared@,
                            builder.graph.variable_index@,
                            synthetic,
                        );
                        assert(false);
                    }
                }
            }
            return Err(e);
        }
        proof {
            assert forall|k: int| 0 <= k < gpre.patterns@.len() implies
                builder.graph.patterns@[k] == gpre.patterns@[k] by {
                assert(gpre.patterns@ =~= builder.graph.patterns@.subrange(
                    0,
                    gpre.patterns@.len() as int,
                ));
            }
            assert(builder.graph.patterns@.len() == nc + nn + d + 1);
            assert forall|k: int| 0 <= k < d + 1 implies spec_disjunction_entry(
                builder.graph.patterns@[nc + nn + k],
                (#[trigger] conjunction.disjunctions@[k]).branches@,
                spec_costs_of(planned@),
            ) by {
                assert(crate::ir::spec_conjunction_refs_wf(ir.conjunctions@, idx as int));
                if k < d {
                    assert(builder.graph.patterns@[nc + nn + k]
                        == gpre.patterns@[nc + nn + k]);
                } else {
                    assert(conjunction.disjunctions@[k] == conjunction.disjunctions@[d as int]);
                    assert(builder.graph.patterns@[nc + nn + k]
                        == builder.graph.patterns@.last());
                    assert(spec_disjunction_entry(
                        builder.graph.patterns@.last(),
                        conjunction.disjunctions@[d as int].branches@,
                        spec_costs_of(planned@),
                    ));
                }
            }
        }
        d += 1;
    }
    proof {
        assert(builder.graph.variable_index@ == after_constraints.variable_index@);
        assert forall|k: int| 0 <= k < conjunction.negations@.len() implies
            spec_negation_entry(
                builder.graph.patterns@[nc + k],
                builder.graph.variable_index@,
                ir,
                #[trigger] conjunction.negations@[k] as int,
                spec_costs_of(planned@),
            ) by {
            assert(spec_negation_entry(
                builder.graph.patterns@[nc + k],
                after_constraints.variable_index@,
                ir,
                conjunction.negations@[k] as int,
                spec_costs_of(planned@),
            ));
        }
    }
    Ok(builder)
}


/// The plan costs behind a finished pool.
pub open spec fn spec_plan_costs(plans: Seq<PlannedConjunction>) -> Seq<CombinedCost> {
    plans.map_values(|pc: PlannedConjunction| pc.plan.cost)
}

/// A parallel combination only reads the branch indices.
proof fn lemma_parallel_cost_stable(
    costs1: Seq<CombinedCost>,
    costs2: Seq<CombinedCost>,
    branches: Seq<usize>,
    lo: int,
)
    requires
        costs1.len() == costs2.len(),
        forall|k: int| 0 <= k < branches.len() ==> lo < #[trigger] branches[k] < costs1.len(),
        forall|j: int| lo < j < costs1.len() ==> costs1[j] == costs2[j],
    ensures
        spec_parallel_cost(costs1, branches) == spec_parallel_cost(costs2, branches),
    decreases branches.len(),
{
    if branches.len() > 0 {
        assert(forall|k: int| 0 <= k < branches.drop_last().len()
            ==> lo < #[trigger] branches.drop_last()[k] < costs1.len());
        lemma_parallel_cost_stable(costs1, costs2, branches.drop_last(), lo);
        assert(branches[branches.len() - 1] == branches.last());
    }
}

/// A registered graph's specification only reads the nested plans' costs,
/// which all sit strictly past its own pool index.
proof fn lemma_graph_matches_cost_stable(
    g: &Graph,
    ir: &QueryIr,
    idx: int,
    registry: &VariableRegistry,
    annotations: &TypeAnnotations,
    statistics: &Statistics,
    inputs: Seq<Variable>,
    costs1: Seq<CombinedCost>,
    costs2: Seq<CombinedCost>,
)
    requires
        ir.wf(),
        0 <= idx < ir.conjunctions@.len(),
        costs1.len() == ir.conjunctions@.len(),
        costs2.len() == ir.conjunctions@.len(),
        forall|j: int| idx < j < costs1.len() ==> costs1[j] == costs2[j],
        spec_graph_matches(g, ir, idx, registry, annotations, statistics, inputs, costs1),
    ensures
        spec_graph_matches(g, ir, idx, registry, annotations, statistics, inputs, costs2),
{
    let conj = ir.conjunctions@[idx];
    let nc = conj.constraints@.len() as int;
    let nn = conj.negations@.len() as int;
    assert(crate::ir::spec_conjunction_refs_wf(ir.conjunctions@, idx));
    assert forall|k: int| 0 <= k < nn implies spec_negation_entry(
        g.patterns@[nc + k],
        g.variable_index@,
        ir,
        #[trigger] conj.negations@[k] as int,
        costs2,
    ) by {
        assert(spec_negation_entry(
            g.patterns@[nc + k],
            g.variable_index@,
            ir,
            conj.negations@[k] as int,
            costs1,
        ));
        assert(idx < conj.negations@[k] < costs1.len());
    }
    assert forall|k: int| 0 <= k < conj.disjunctions@.len() as int implies
        spec_disjunction_entry(
            g.patterns@[nc + nn + k],
            (#[trigger] conj.disjunctions@[k]).branches@,
            costs2,
        ) by {
        assert(spec_disjunction_entry(
            g.patterns@[nc + nn + k],
            conj.disjunctions@[k].branches@,
            costs1,
        ));
        assert(forall|t: int| 0 <= t < conj.disjunctions@[k].branches@.len()
            ==> idx < #[trigger] conj.disjunctions@[k].branches@[t] < costs1.len());
        lemma_parallel_cost_stable(costs1, costs2, conj.disjunctions@[k].branches@, idx);
    }
}

/// Plans one conjunction of the pool: builds its graph and runs the beam
/// search with the greedy plan as fallback.
pub fn plan_conjunction(
    ir: &QueryIr,
    idx: usize,
    registry: &VariableRegistry,
    annotations: &TypeAnnotations,
    statistics: &Statistics,
    input_variables: &Vec<Variable>,
    planned: &Vec<Option<PlannedConjunction>>,
) -> (r: Result<PlannedConjunction, PlannerError>)
    requires
        ir.wf(),
        idx < ir.conjunctions@.len(),
        planned@.len() == ir.conjunctions@.len(),
        spec_query_sizes_ok(ir, input_variables@),
        forall|j: int| idx < j < planned@.len()
            ==> (#[trigger] planned@[j]) is Some,
    ensures
        r matches Ok(pc) ==> spec_planned_ok(&pc),
        r matches Ok(pc) ==> spec_graph_matches(
            &pc.graph,
            ir,
            idx as int,
            registry,
            annotations,
            statistics,
            input_variables@,
            spec_costs_of(planned@),
        ),
        r is Ok ==> ir.conjunctions@[idx as int].optionals@.len() == 0,
        ir.conjunctions@[idx as int].optionals@.len() > 0
            ==> r == Err::<PlannedConjunction, PlannerError>(
                PlannerError::Unsupported(UnsupportedFeature::OptionalPattern),
            ),
        r matches Err(e) ==> (e is Unsupported || e is Invariant
            || e == PlannerError::EmptyPlanSpace),
        r matches Err(e) ==> spec_error_cause(ir, idx as int, registry, input_variables@, e),
        r == Err::<PlannedConjunction, PlannerError>(PlannerError::EmptyPlanSpace)
            ==> exists|g: Graph|
                spec_graph_matches(
                    &g,
                    ir,
                    idx as int,
                    registry,
                    annotations,
                    statistics,
                    input_variables@,
                    spec_costs_of(planned@),
                ) && crate::search::spec_greedy(&g) is None,
{
    let builder = match make_builder(
        ir,
        idx,
        registry,
        annotations,
        statistics,
        input_variables,
        planned,
    ) {
        Ok(b) => b,
        Err(e) => {
            return Err(e);
        },
    };
    let plan = match beam_search_plan(&builder.graph, BEAM_WIDTH, EXTENSION_WIDTH) {
        Ok(p) => p,
        Err(e) => {
            proof {
                let ghost gw = builder.graph;
                assert(spec_graph_matches(
                    &gw,
                    ir,
                    idx as int,
                    registry,
                    annotations,
                    statistics,
                    input_variables@,
                    spec_costs_of(planned@),
                ) && crate::search::spec_greedy(&gw) is None);
            }
            return Err(e);
        },
    };
    Ok(PlannedConjunction { graph: builder.graph, plan })
}

/// Plans a whole query: every conjunction of the pool, nested ones first,
/// the root (index zero) with the externally pre-bound variables as
/// inputs. Planning is atomic: either every conjunction gets a complete
/// valid plan, or the first failure is reported and no plan escapes.
pub fn plan_query(
    ir: &QueryIr,
    registry: &VariableRegistry,
    annotations: &TypeAnnotations,
    statistics: &Statistics,
    input_variables: &Vec<Variable>,
) -> (r: Result<Vec<PlannedConjunction>, PlannerError>)
    requires
        ir.wf(),
        ir.conjunctions@.len() >= 1,
        spec_query_sizes_ok(ir, input_variables@),
    ensures
        r matches Ok(plans) ==> plans@.len() == ir.conjunctions@.len(),
        r matches Ok(plans) ==> forall|i: int| 0 <= i < plans@.len()
            ==> spec_planned_ok(&(#[trigger] plans@[i])),
        r matches Ok(plans) ==> forall|i: int| 0 <= i < plans@.len()
            ==> spec_graph_matches(
                &(#[trigger] plans@[i]).graph,
                ir,
                i,
                registry,
                annotations,
                statistics,
                input_variables@,
                spec_plan_costs(plans@),
            ),
        r is Ok ==> forall|i: int| 0 <= i < ir.conjunctions@.len()
            ==> (#[trigger] ir.conjunctions@[i]).optionals@.len() == 0,
        r matches Err(e) ==> (e is Unsupported || e is Invariant
            || e == PlannerError::EmptyPlanSpace),
        r matches Err(e) ==> exists|i: int|
            0 <= i < ir.conjunctions@.len() && spec_error_cause(
                ir,
                i,
                registry,
                input_variables@,
                e,
            ),
        r == Err::<Vec<PlannedConjunction>, PlannerError>(PlannerError::EmptyPlanSpace)
            ==> exists|i: int, g: Graph, costs: Seq<CombinedCost>|
                0 <= i < ir.conjunctions@.len() && spec_graph_matches(
                    &g,
                    ir,
                    i,
                    registry,
                    annotations,
                    statistics,
                    input_variables@,
                    costs,
                ) && spec_greedy(&g) is None,
{
    let n = ir.conjunctions.len();
    let mut planned: Vec<Option<PlannedConjunction>> = Vec::new();
    let mut f: usize = 0;
    while f < n
        invariant
            planned@.len() == f,
            0 <= f <= n,
            forall|j: int| 0 <= j < f ==> (#[trigger] planned@[j]) is None,
        decreases n - f,
    {
        planned.push(None);
        f += 1;
    }
    let mut idx: usize = n;
    while idx > 0
        invariant
            ir.wf(),
            n == ir.conjunctions@.len(),
            planned@.len() == n,
            spec_query_sizes_ok(ir, input_variables@),
            0 <= idx <= n,
            forall|j: int| idx <= j < n ==> (#[trigger] planned@[j]) is Some,
            forall|j: int| idx <= j < n
                ==> spec_planned_ok(&(#[trigger] planned@[j])->0),
            forall|j: int| idx <= j < n
                ==> (#[trigger] ir.conjunctions@[j]).optionals@.len() == 0,
            forall|j: int| idx <= j < n ==> spec_graph_matches(
                &((#[trigger] planned@[j])->0).graph,
                ir,
                j,
                registry,
                annotations,
                statistics,
                input_variables@,
                spec_costs_of(planned@),
            ),
        decreases idx,
    {
        idx -= 1;
        let pc = match plan_conjunction(
            ir,
            idx,
            registry,
            annotations,
            statistics,
            input_variables,
            &planned,
        ) {
            Ok(pc) => pc,
            Err(e) => {
                proof {
                    assert(spec_error_cause(ir, idx as int, registry, input_variables@, e));
                    if e == PlannerError::EmptyPlanSpace {
                        let g = choose|g: Graph|
                            spec_graph_matches(
                                &g,
                                ir,
                                idx as int,
                                registry,
                                annotations,
                                statistics,
                                input_variables@,
                                spec_costs_of(planned@),
                            ) && spec_greedy(&g) is None;
                        assert(spec_graph_matches(
                            &g,
                            ir,
                            idx as int,
                            registry,
                            annotations,
                            statistics,
                            input_variables@,
                            spec_costs_of(planned@),
                        ) && spec_greedy(&g) is None);
                    }
                }
                return Err(e);
            },
        };
        let ghost pre_planned = planned@;
        planned.set(idx, Some(pc));
        proof {
            assert(planned@ == pre_planned.update(idx as int, planned@[idx as int]));
            assert(spec_costs_of(planned@).len() == spec_costs_of(pre_planned).len());
            assert forall|j: int| (idx as int) < j < n implies
                spec_costs_of(pre_planned)[j] == spec_costs_of(planned@)[j] by {
                assert(planned@[j] == pre_planned[j]);
            }
            assert forall|j: int| idx <= j < n implies spec_graph_matches(
                &((#[trigger] planned@[j])->0).graph,
                ir,
                j,
                registry,
                annotations,
                statistics,
                input_variables@,
                spec_costs_of(planned@),
            ) by {
                if j == idx {
                    lemma_graph_matches_cost_stable(
                        &(planned@[j]->0).graph,
                        ir,
                        j,
                        registry,
                        annotations,
                        statistics,
                        input_variables@,
                        spec_costs_of(pre_planned),
                        spec_costs_of(planned@),
                    );
                } else {
                    assert(planned@[j] == pre_planned[j]);
                    assert(spec_graph_matches(
                        &(pre_planned[j]->0).graph,
                        ir,
                        j,
                        registry,
                        annotations,
                        statistics,
                        input_variables@,
                        spec_costs_of(pre_planned),
                    ));
                    assert forall|t: int| j < t < n implies
                        spec_costs_of(pre_planned)[t] == spec_costs_of(planned@)[t] by {
                        assert(planned@[t] == pre_planned[t]);
                    }
                    lemma_graph_matches_cost_stable(
                        &(planned@[j]->0).graph,
                        ir,
                        j,
                        registry,
                        annotations,
                        statistics,
                        input_variables@,
                        spec_costs_of(pre_planned),
                        spec_costs_of(planned@),
                    );
                }
            }
        }
    }
    let ghost orig = planned@;
    let ghost total = n as nat;
    let mut result: Vec<PlannedConjunction> = Vec::new();
    while result.len() < n
        invariant
            result@.len() + planned@.len() == total,
            total == n,
            orig.len() == n,
            planned@ =~= orig.skip(result@.len() as int),
            forall|k: int| 0 <= k < result@.len()
                ==> (#[trigger] result@[k]) == orig[k]->0,
            forall|j: int| 0 <= j < orig.len() ==> (#[trigger] orig[j]) is Some,
            forall|j: int| 0 <= j < orig.len()
                ==> spec_planned_ok(&(#[trigger] orig[j])->0),
        decreases n - result@.len(),
    {
        proof {
            assert(planned@.len() > 0);
            assert(planned@[0] == orig[result@.len() as int]);
            assert(planned@[0] is Some);
        }
        let head = planned.remove(0);
        match head {
            Some(pc) => {
                result.push(pc);
            },
            None => {
                proof {
                    assert(false);
                }
            },
        }
        proof {
            assert(planned@ =~= orig.skip(result@.len() as int));
        }
    }
    proof {
        // The drained pool is the planned pool, entry for entry, so the
        // cost sequences coincide and every recorded fact carries over.
        assert(spec_plan_costs(result@) =~= spec_costs_of(orig));
        assert forall|i: int| 0 <= i < result@.len() implies spec_graph_matches(
            &(#[trigger] result@[i]).graph,
            ir,
            i,
            registry,
            annotations,
            statistics,
            input_variables@,
            spec_plan_costs(result@),
        ) by {
            assert(result@[i] == orig[i]->0);
            assert(spec_graph_matches(
                &(orig[i]->0).graph,
                ir,
                i,
                registry,
                annotations,
                statistics,
                input_variables@,
                spec_costs_of(orig),
            ));
        }
        assert forall|i: int| 0 <= i < result@.len() implies
            spec_planned_ok(&(#[trigger] result@[i])) by {
            assert(result@[i] == orig[i]->0);
        }
    }
    Ok(result)
}

} // verus!
