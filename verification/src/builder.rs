//! Registration: building the constraint graph from a conjunction.
//!
//! Variables are registered in three passes (inputs, shared, locally
//! declared); the category drives the planner variant, and list-typed
//! categories are rejected. Constraints are registered once each; binary
//! constraints index the pattern against both variables; `is` and
//! comparisons additionally mirror equality and ordering bounds onto both
//! variable planners, which only sharpens cost estimates.

use vstd::prelude::*;

use crate::cost::{sat64, sat_add, CombinedCost};
use crate::errors::{InvariantViolation, PlannerError, UnsupportedFeature};
use crate::graph::{spec_index_of, Graph};
use crate::ids::{PatternVertexId, VariableVertexId};
use crate::ir::{
    Comparator, Conjunction, ConstraintIr, OperandIr, Variable, VariableCategory,
    VariableRegistry,
};
use crate::stats::{
    spec_instance_total, PairCountMap, SchemaType, Statistics, TypeAnnotations,
};
use crate::vertex::{
    ConstraintKind, ConstraintVertex, Input, PatternVertex, VariableVertex, VariableVertexKind,
};

verus! {

/// The id a pair-count map is keyed by.
pub open spec fn spec_type_key(t: SchemaType) -> u64 {
    match t {
        SchemaType::Entity(id) => id,
        SchemaType::Relation(id) => id,
        SchemaType::Attribute(id) => id,
        SchemaType::RoleType(id) => id,
    }
}

pub fn type_key(t: SchemaType) -> (r: u64)
    ensures
        r == spec_type_key(t),
{
    match t {
        SchemaType::Entity(id) => id,
        SchemaType::Relation(id) => id,
        SchemaType::Attribute(id) => id,
        SchemaType::RoleType(id) => id,
    }
}

/// Saturating sum of the pair counts of `l` against every member of `rs`.
pub open spec fn spec_row_sum(m: &PairCountMap, l: SchemaType, rs: Seq<SchemaType>) -> u64
    decreases rs.len(),
{
    if rs.len() == 0 {
        0
    } else {
        sat64(
            spec_row_sum(m, l, rs.drop_last())
                + m.spec_get(spec_type_key(l), spec_type_key(rs.last())),
        )
    }
}

/// Saturating sum of the pair counts over `ls` crossed with `rs`.
pub open spec fn spec_pair_sum(m: &PairCountMap, ls: Seq<SchemaType>, rs: Seq<SchemaType>) -> u64
    decreases ls.len(),
{
    if ls.len() == 0 {
        0
    } else {
        sat64(spec_pair_sum(m, ls.drop_last(), rs) + spec_row_sum(m, ls.last(), rs))
    }
}

/// The expected rows of the relation behind a binary constraint whose
/// endpoints carry these annotated type lists.
pub fn pair_sum(m: &PairCountMap, ls: &Vec<SchemaType>, rs: &Vec<SchemaType>) -> (r: u64)
    ensures
        r == spec_pair_sum(m, ls@, rs@),
{
    let mut total: u64 = 0;
    let mut i: usize = 0;
    proof {
        assert(ls@.take(0) =~= Seq::<SchemaType>::empty());
    }
    while i < ls.len()
        invariant
            0 <= i <= ls@.len(),
            total == spec_pair_sum(m, ls@.take(i as int), rs@),
        decreases ls@.len() - i,
    {
        let mut row: u64 = 0;
        let mut k: usize = 0;
        proof {
            assert(rs@.take(0) =~= Seq::<SchemaType>::empty());
        }
        while k < rs.len()
            invariant
                0 <= k <= rs@.len(),
                i < ls@.len(),
                row == spec_row_sum(m, ls@[i as int], rs@.take(k as int)),
            decreases rs@.len() - k,
        {
            proof {
                assert(rs@.take(k as int + 1).drop_last() =~= rs@.take(k as int));
                assert(rs@.take(k as int + 1).last() == rs@[k as int]);
            }
            row = sat_add(row, m.get(type_key(ls[i]), type_key(rs[k])));
            k += 1;
        }
        proof {
            assert(rs@.take(rs@.len() as int) =~= rs@);
            assert(ls@.take(i as int + 1).drop_last() =~= ls@.take(i as int));
            assert(ls@.take(i as int + 1).last() == ls@[i as int]);
        }
        total = sat_add(total, row);
        i += 1;
    }
    proof {
        assert(ls@.take(ls@.len() as int) =~= ls@);
    }
    total
}

/// Resolving an operand against the variable index: fixed operands always
/// resolve; a variable resolves to its registered planner id.
pub open spec fn spec_resolve_operand(
    index: Seq<(Variable, VariableVertexId)>,
    o: OperandIr,
) -> Option<Input> {
    match o {
        OperandIr::Variable(v) => match spec_index_of(index, v) {
            Some(id) => Some(Input::Variable(id)),
            None => None,
        },
        OperandIr::Label(_) => Some(Input::Fixed),
        OperandIr::Parameter(_) => Some(Input::Fixed),
    }
}


/// The unbound domain size behind a resolved operand: the variable vertex's
/// unbound total, or one for a fixed operand.
pub open spec fn spec_input_total(vars: Seq<VariableVertex>, i: Input) -> u64 {
    match i {
        Input::Variable(id) => vars[id.0 as int].unbound_total,
        Input::Fixed => 1,
    }
}

/// The expected rows of the relation behind a binary constraint: the
/// cross-pair count when both endpoints are variables, the variable side's
/// instance total when one endpoint is fixed, one otherwise.
pub open spec fn spec_edge_total(
    m: &PairCountMap,
    ann: &TypeAnnotations,
    stats: &Statistics,
    lhs: OperandIr,
    rhs: OperandIr,
) -> u64 {
    match (lhs, rhs) {
        (OperandIr::Variable(l), OperandIr::Variable(r)) => spec_pair_sum(
            m,
            ann.spec_get(l),
            ann.spec_get(r),
        ),
        (OperandIr::Variable(l), _) => spec_instance_total(ann.spec_get(l), stats),
        (_, OperandIr::Variable(r)) => spec_instance_total(ann.spec_get(r), stats),
        _ => 1,
    }
}

/// The constraint vertex a binary registration produces, once both
/// operands resolve.
pub open spec fn spec_binary_vertex(
    g: &Graph,
    ann: &TypeAnnotations,
    stats: &Statistics,
    m: &PairCountMap,
    kind: ConstraintKind,
    lhs: OperandIr,
    rhs: OperandIr,
) -> ConstraintVertex {
    ConstraintVertex {
        kind,
        lhs: spec_resolve_operand(g.variable_index@, lhs)->0,
        rhs: spec_resolve_operand(g.variable_index@, rhs)->0,
        role: Input::Fixed,
        edge_total: spec_edge_total(m, ann, stats, lhs, rhs),
        lhs_total: spec_input_total(
            g.variables@,
            spec_resolve_operand(g.variable_index@, lhs)->0,
        ),
        rhs_total: spec_input_total(
            g.variables@,
            spec_resolve_operand(g.variable_index@, rhs)->0,
        ),
    }
}

/// Whether a constraint can be registered against this variable index: all
/// of its variables are registered, and its comparator is supported.
pub open spec fn spec_constraint_ok(
    c: ConstraintIr,
    index: Seq<(Variable, VariableVertexId)>,
) -> bool {
    match c {
        ConstraintIr::Label { type_var, .. } => spec_index_of(index, type_var) is Some,
        ConstraintIr::RoleName { type_var, .. } => spec_index_of(index, type_var) is Some,
        ConstraintIr::Kind { type_var, .. } => spec_index_of(index, type_var) is Some,
        ConstraintIr::Value { attribute_type_var, .. } => spec_index_of(
            index,
            attribute_type_var,
        ) is Some,
        ConstraintIr::Iid { var, .. } => spec_index_of(index, var) is Some,
        ConstraintIr::Sub { subtype, supertype } => spec_resolve_operand(index, subtype) is Some
            && spec_resolve_operand(index, supertype) is Some,
        ConstraintIr::Owns { owner, attribute } => spec_resolve_operand(index, owner) is Some
            && spec_resolve_operand(index, attribute) is Some,
        ConstraintIr::Relates { relation, role_type } => spec_resolve_operand(
            index,
            relation,
        ) is Some && spec_resolve_operand(index, role_type) is Some,
        ConstraintIr::Plays { player, role_type } => spec_resolve_operand(index, player) is Some
            && spec_resolve_operand(index, role_type) is Some,
        ConstraintIr::Isa { thing, type_of } => spec_resolve_operand(index, thing) is Some
            && spec_resolve_operand(index, type_of) is Some,
        ConstraintIr::Has { owner, attribute } => spec_resolve_operand(index, owner) is Some
            && spec_resolve_operand(index, attribute) is Some,
        ConstraintIr::Links { relation, player, role_type } => spec_resolve_operand(
            index,
            relation,
        ) is Some && spec_resolve_operand(index, player) is Some && spec_resolve_operand(
            index,
            role_type,
        ) is Some,
        ConstraintIr::Is { lhs, rhs } => spec_index_of(index, lhs) is Some && spec_index_of(
            index,
            rhs,
        ) is Some,
        ConstraintIr::Comparison { lhs, rhs, comparator } => spec_resolve_operand(
            index,
            lhs,
        ) is Some && spec_resolve_operand(index, rhs) is Some && !(comparator is Like)
            && !(comparator is Contains),
        ConstraintIr::ExpressionBinding { output, inputs } => spec_index_of(
            index,
            output,
        ) is Some && (forall|k: int| 0 <= k < inputs@.len()
            ==> spec_index_of(index, #[trigger] inputs@[k]) is Some),
        ConstraintIr::FunctionCallBinding { assigned, arguments, .. } => (forall|k: int|
            0 <= k < assigned@.len()
                ==> spec_index_of(index, #[trigger] assigned@[k]) is Some) && (forall|k: int|
            0 <= k < arguments@.len()
                ==> spec_index_of(index, #[trigger] arguments@[k]) is Some),
    }
}




/// The planner ids of a variable list under the index, in order. An
/// unregistered entry yields an unspecified id; registration fails before
/// relying on one.
pub open spec fn spec_resolved_ids(
    index: Seq<(Variable, VariableVertexId)>,
    vars: Seq<Variable>,
) -> Seq<VariableVertexId>
    decreases vars.len(),
{
    if vars.len() == 0 {
        Seq::empty()
    } else {
        spec_resolved_ids(index, vars.drop_last()).push(spec_index_of(index, vars.last())->0)
    }
}


/// The underlying indexes of a planner id list.
pub open spec fn spec_ids_as_usizes(ids: Seq<VariableVertexId>) -> Seq<usize> {
    ids.map_values(|v: VariableVertexId| v.0)
}

/// The underlying indexes of a resolved variable list, in order.
pub open spec fn spec_resolved_usizes(
    index: Seq<(Variable, VariableVertexId)>,
    vars: Seq<Variable>,
) -> Seq<usize> {
    spec_ids_as_usizes(spec_resolved_ids(index, vars))
}


/// A resolved id list is pointwise the index lookup of the variable list.
pub proof fn lemma_resolved_ids_pointwise(
    index: Seq<(Variable, VariableVertexId)>,
    vars: Seq<Variable>,
)
    ensures
        spec_resolved_ids(index, vars).len() == vars.len(),
        forall|k: int| 0 <= k < vars.len()
            ==> spec_resolved_ids(index, vars)[k] == spec_index_of(
                index,
                #[trigger] vars[k],
            )->0,
    decreases vars.len(),
{
    if vars.len() > 0 {
        lemma_resolved_ids_pointwise(index, vars.drop_last());
        assert forall|k: int| 0 <= k < vars.len() implies
            spec_resolved_ids(index, vars)[k] == spec_index_of(index, #[trigger] vars[k])->0 by {
            if k < vars.len() - 1 {
                assert(vars.drop_last()[k] == vars[k]);
                assert(spec_resolved_ids(index, vars)[k]
                    == spec_resolved_ids(index, vars.drop_last())[k]);
            }
        }
    }
}


/// What registration records for one constraint: the exact pattern vertex
/// it pushes, as a function of the constraint, the variable index and the
/// unbound domain sizes of the graph.
pub open spec fn spec_registered_pattern(
    pv: PatternVertex,
    c: ConstraintIr,
    g: &Graph,
    ann: &TypeAnnotations,
    stats: &Statistics,
) -> bool {
    match c {
        ConstraintIr::Label { type_var, .. } => pv == PatternVertex::Constraint(
            spec_unary_vertex(g, ann, ConstraintKind::Label, type_var),
        ),
        ConstraintIr::RoleName { type_var, .. } => pv == PatternVertex::Constraint(
            spec_unary_vertex(g, ann, ConstraintKind::RoleName, type_var),
        ),
        ConstraintIr::Kind { type_var, .. } => pv == PatternVertex::Constraint(
            spec_unary_vertex(g, ann, ConstraintKind::Kind, type_var),
        ),
        ConstraintIr::Value { attribute_type_var, .. } => pv == PatternVertex::Constraint(
            spec_unary_vertex(g, ann, ConstraintKind::Value, attribute_type_var),
        ),
        ConstraintIr::Iid { var, .. } => pv == PatternVertex::Constraint(ConstraintVertex {
            kind: ConstraintKind::Iid,
            lhs: Input::Variable(spec_index_of(g.variable_index@, var)->0),
            rhs: Input::Fixed,
            role: Input::Fixed,
            edge_total: 1,
            lhs_total: 1,
            rhs_total: 1,
        }),
        ConstraintIr::Sub { subtype, supertype } => pv == PatternVertex::Constraint(
            spec_binary_vertex(
                g,
                ann,
                stats,
                &stats.sub_edge_counts,
                ConstraintKind::Sub,
                subtype,
                supertype,
            ),
        ),
        ConstraintIr::Owns { owner, attribute } => pv == PatternVertex::Constraint(
            spec_binary_vertex(
                g,
                ann,
                stats,
                &stats.owns_edge_counts,
                ConstraintKind::Owns,
                owner,
                attribute,
            ),
        ),
        ConstraintIr::Relates { relation, role_type } => pv == PatternVertex::Constraint(
            spec_binary_vertex(
                g,
                ann,
                stats,
                &stats.relates_edge_counts,
                ConstraintKind::Relates,
                relation,
                role_type,
            ),
        ),
        ConstraintIr::Plays { player, role_type } => pv == PatternVertex::Constraint(
            spec_binary_vertex(
                g,
                ann,
                stats,
                &stats.plays_edge_counts,
                ConstraintKind::Plays,
                player,
                role_type,
            ),
        ),
        ConstraintIr::Isa { thing, type_of } => pv == PatternVertex::Constraint(
            spec_isa_vertex(g, ann, stats, thing, type_of),
        ),
        ConstraintIr::Has { owner, attribute } => pv == PatternVertex::Constraint(
            spec_binary_vertex(
                g,
                ann,
                stats,
                &stats.has_edge_counts,
                ConstraintKind::Has,
                owner,
                attribute,
            ),
        ),
        ConstraintIr::Links { relation, player, role_type } => pv == PatternVertex::Constraint(
            spec_links_vertex(g, ann, stats, relation, player, role_type),
        ),
        ConstraintIr::Is { lhs, rhs } => pv == (PatternVertex::Is {
            lhs: spec_index_of(g.variable_index@, lhs)->0,
            rhs: spec_index_of(g.variable_index@, rhs)->0,
        }),
        ConstraintIr::Comparison { lhs, rhs, .. } => pv == (PatternVertex::Comparison {
            lhs: spec_resolve_operand(g.variable_index@, lhs)->0,
            rhs: spec_resolve_operand(g.variable_index@, rhs)->0,
        }),
        ConstraintIr::ExpressionBinding { output, inputs } => (pv matches
            PatternVertex::Expression { inputs: in_ids, output: out_id }
                && Some(out_id) == spec_index_of(g.variable_index@, output)
                && spec_ids_as_usizes(in_ids@) == crate::vertex::spec_dedup_first(
                spec_resolved_usizes(g.variable_index@, inputs@),
            )),
        ConstraintIr::FunctionCallBinding { function_id, assigned, arguments } => (pv matches
            PatternVertex::FunctionCall { function_id: f, arguments: a, assigned: sg }
                && f == function_id
                && a@ == spec_resolved_ids(g.variable_index@, arguments@)
                && sg@ == spec_resolved_ids(g.variable_index@, assigned@)),
    }
}

/// The unbound domain size behind an operand is stable across graphs with
/// the same index and the same unbound totals.
proof fn lemma_operand_total_stable(g1: &Graph, g2: &Graph, o: OperandIr)
    requires
        g1.index_wf(),
        g1.variable_index@ == g2.variable_index@,
        g1.variables@.len() == g2.variables@.len(),
        forall|v: int| 0 <= v < g1.variables@.len()
            ==> (#[trigger] g1.variables@[v]).unbound_total
                == g2.variables@[v].unbound_total,
        spec_resolve_operand(g1.variable_index@, o) is Some,
    ensures
        spec_input_total(g1.variables@, spec_resolve_operand(g1.variable_index@, o)->0)
            == spec_input_total(g2.variables@, spec_resolve_operand(g2.variable_index@, o)->0),
{
    match o {
        OperandIr::Variable(v) => {
            g1.lemma_index_in_range(v);
        },
        OperandIr::Label(_) => {},
        OperandIr::Parameter(_) => {},
    }
}

/// The recorded pattern of a registrable constraint depends only on the
/// variable index and the unbound totals, which constraint registration
/// never changes.
pub proof fn lemma_registered_pattern_stable(
    pv: PatternVertex,
    c: ConstraintIr,
    g1: &Graph,
    g2: &Graph,
    ann: &TypeAnnotations,
    stats: &Statistics,
)
    requires
        g1.index_wf(),
        g1.variable_index@ == g2.variable_index@,
        g1.variables@.len() == g2.variables@.len(),
        forall|v: int| 0 <= v < g1.variables@.len()
            ==> (#[trigger] g1.variables@[v]).unbound_total
                == g2.variables@[v].unbound_total,
        spec_constraint_ok(c, g1.variable_index@),
        spec_registered_pattern(pv, c, g1, ann, stats),
    ensures
        spec_registered_pattern(pv, c, g2, ann, stats),
{
    match c {
        ConstraintIr::Sub { subtype, supertype } => {
            lemma_operand_total_stable(g1, g2, subtype);
            lemma_operand_total_stable(g1, g2, supertype);
        },
        ConstraintIr::Owns { owner, attribute } => {
            lemma_operand_total_stable(g1, g2, owner);
            lemma_operand_total_stable(g1, g2, attribute);
        },
        ConstraintIr::Relates { relation, role_type } => {
            lemma_operand_total_stable(g1, g2, relation);
            lemma_operand_total_stable(g1, g2, role_type);
        },
        ConstraintIr::Plays { player, role_type } => {
            lemma_operand_total_stable(g1, g2, player);
            lemma_operand_total_stable(g1, g2, role_type);
        },
        ConstraintIr::Isa { thing, type_of } => {
            lemma_operand_total_stable(g1, g2, thing);
            lemma_operand_total_stable(g1, g2, type_of);
        },
        ConstraintIr::Has { owner, attribute } => {
            lemma_operand_total_stable(g1, g2, owner);
            lemma_operand_total_stable(g1, g2, attribute);
        },
        ConstraintIr::Links { relation, player, role_type } => {
            lemma_operand_total_stable(g1, g2, relation);
            lemma_operand_total_stable(g1, g2, player);
            lemma_operand_total_stable(g1, g2, role_type);
        },
        _ => {},
    }
}

/// The effect of mirroring an `is` or comparison onto the variable arena,
/// per vertex: the lhs operand's variable is updated first, the rhs
/// operand's second; an equality extends `equals`, a less-than bound the
/// lhs's `uppers` and the rhs's `lowers`, a greater-than bound conversely;
/// every other field and vertex is unchanged. Bounds are additive and
/// idempotent: an operand already recorded changes nothing.
pub open spec fn spec_vertex_bounds_after(
    before: Seq<VariableVertex>,
    after: Seq<VariableVertex>,
    l: Input,
    r: Input,
    c: Comparator,
    k: int,
) -> bool {
    let b = before[k];
    let a = after[k];
    let first = (l matches Input::Variable(v) && v.0 == k);
    let second = (r matches Input::Variable(v) && v.0 == k);
    let eq1 = if first && c is Equal {
        crate::vertex::push_if_absent(b.equals@, r)
    } else {
        b.equals@
    };
    let eq2 = if second && c is Equal {
        crate::vertex::push_if_absent(eq1, l)
    } else {
        eq1
    };
    let up1 = if first && (c is Less || c is LessOrEqual) {
        crate::vertex::push_if_absent(b.uppers@, r)
    } else {
        b.uppers@
    };
    let up2 = if second && (c is Greater || c is GreaterOrEqual) {
        crate::vertex::push_if_absent(up1, l)
    } else {
        up1
    };
    let lo1 = if first && (c is Greater || c is GreaterOrEqual) {
        crate::vertex::push_if_absent(b.lowers@, r)
    } else {
        b.lowers@
    };
    let lo2 = if second && (c is Less || c is LessOrEqual) {
        crate::vertex::push_if_absent(lo1, l)
    } else {
        lo1
    };
    &&& a.variable == b.variable
    &&& a.kind == b.kind
    &&& a.unbound_total == b.unbound_total
    &&& a.producer == b.producer
    &&& a.equals@ == eq2
    &&& a.uppers@ == up2
    &&& a.lowers@ == lo2
}

/// The whole-arena form of the mirroring effect.
pub open spec fn spec_bounds_mirrored(
    before: Seq<VariableVertex>,
    after: Seq<VariableVertex>,
    l: Input,
    r: Input,
    c: Comparator,
) -> bool {
    &&& after.len() == before.len()
    &&& forall|k: int| 0 <= k < before.len()
        ==> #[trigger] spec_vertex_bounds_after(before, after, l, r, c, k)
}

/// The variable arena after re-registering `inputs` as pre-bound: each
/// listed registered variable's vertex has its kind set to `Input`, in
/// list order; everything else is untouched.
pub open spec fn spec_with_inputs(
    vars: Seq<VariableVertex>,
    index: Seq<(Variable, VariableVertexId)>,
    inputs: Seq<Variable>,
) -> Seq<VariableVertex>
    decreases inputs.len(),
{
    if inputs.len() == 0 {
        vars
    } else {
        let prev = spec_with_inputs(vars, index, inputs.drop_last());
        match spec_index_of(index, inputs.last()) {
            Some(id) => if id.0 < prev.len() {
                prev.update(
                    id.0 as int,
                    VariableVertex { kind: VariableVertexKind::Input, ..prev[id.0 as int] },
                )
            } else {
                prev
            },
            None => prev,
        }
    }
}

/// Re-registration as inputs only flips kinds to `Input`: every listed
/// registered variable ends up an input, and every vertex is otherwise
/// unchanged.
pub proof fn lemma_with_inputs(
    vars: Seq<VariableVertex>,
    index: Seq<(Variable, VariableVertexId)>,
    inputs: Seq<Variable>,
)
    ensures
        spec_with_inputs(vars, index, inputs).len() == vars.len(),
        forall|k: int| 0 <= k < inputs.len()
            ==> (match spec_index_of(index, #[trigger] inputs[k]) {
                Some(id) => id.0 < vars.len()
                    ==> spec_with_inputs(vars, index, inputs)[id.0 as int].kind is Input,
                None => true,
            }),
        forall|j: int| 0 <= j < vars.len()
            ==> (#[trigger] spec_with_inputs(vars, index, inputs)[j] == vars[j]
                || spec_with_inputs(vars, index, inputs)[j] == (VariableVertex {
                    kind: VariableVertexKind::Input,
                    ..vars[j]
                })),
    decreases inputs.len(),
{
    if inputs.len() > 0 {
        lemma_with_inputs(vars, index, inputs.drop_last());
        let prev = spec_with_inputs(vars, index, inputs.drop_last());
        let whole = spec_with_inputs(vars, index, inputs);
        assert forall|k: int| 0 <= k < inputs.len() implies
            (match spec_index_of(index, #[trigger] inputs[k]) {
                Some(id) => id.0 < vars.len() ==> whole[id.0 as int].kind is Input,
                None => true,
            }) by {
            if k < inputs.len() - 1 {
                assert(inputs.drop_last()[k] == inputs[k]);
                match spec_index_of(index, inputs[k]) {
                    Some(id) => {
                        if id.0 < vars.len() {
                            assert(prev[id.0 as int].kind is Input);
                            match spec_index_of(index, inputs.last()) {
                                Some(last_id) => {
                                    if last_id.0 < prev.len() && last_id.0 == id.0 {
                                        assert(whole[id.0 as int].kind is Input);
                                    }
                                },
                                None => {},
                            }
                        }
                    },
                    None => {},
                }
            }
        }
    }
}


/// Whether every variable a constraint names resolves against the index,
/// regardless of its comparator.
pub open spec fn spec_constraint_vars_ok(
    c: ConstraintIr,
    index: Seq<(Variable, VariableVertexId)>,
) -> bool {
    spec_constraint_ok(c, index) || (c matches ConstraintIr::Comparison { lhs, rhs, .. }
        && spec_resolve_operand(index, lhs) is Some
        && spec_resolve_operand(index, rhs) is Some)
}

/// The failure a constraint can produce, by error value: an unregistered
/// variable exactly when one of its variables does not resolve; an
/// unsupported comparator exactly on that comparator.
pub open spec fn spec_constraint_error_matches(
    c: ConstraintIr,
    index: Seq<(Variable, VariableVertexId)>,
    e: PlannerError,
) -> bool {
    ||| (e == PlannerError::Invariant(InvariantViolation::UnregisteredVariable)
        && !spec_constraint_vars_ok(c, index))
    ||| (e == PlannerError::Unsupported(UnsupportedFeature::LikeComparator)
        && (c matches ConstraintIr::Comparison { comparator: Comparator::Like, .. }))
    ||| (e == PlannerError::Unsupported(UnsupportedFeature::ContainsComparator)
        && (c matches ConstraintIr::Comparison { comparator: Comparator::Contains, .. }))
}

/// The planner graph under construction for one conjunction.
#[derive(Clone, Debug)]
pub struct ConjunctionPlanBuilder {
    pub graph: Graph,
    /// Input and captured variables, in registration order.
    pub shared_variables: Vec<Variable>,
}

impl ConjunctionPlanBuilder {
    pub fn new() -> (r: Self)
        ensures
            r.graph.wf(),
            r.graph.variables@.len() == 0,
            r.graph.patterns@.len() == 0,
            r.shared_variables@.len() == 0,
    {
        ConjunctionPlanBuilder { graph: Graph::new(), shared_variables: Vec::new() }
    }

    pub fn shared_variables(&self) -> (r: &Vec<Variable>)
        ensures
            r == &self.shared_variables,
    {
        &self.shared_variables
    }

    /// The planner ids of the variables marked as inputs.
    pub fn input_variables(&self) -> (r: Vec<VariableVertexId>)
        requires
            self.graph.wf(),
        ensures
            r@.len() <= self.graph.variables@.len(),
            forall|k: int| 0 <= k < r@.len()
                ==> (#[trigger] r@[k]).0 < self.graph.variables@.len(),
            forall|k: int| 0 <= k < r@.len()
                ==> self.graph.variables@[(#[trigger] r@[k]).0 as int].spec_is_input(),
            forall|v: int| 0 <= v < self.graph.variables@.len()
                && self.graph.variables@[v].spec_is_input()
                ==> r@.contains(VariableVertexId(v as usize)),
            crate::ids::seq_no_dups(r@),
            forall|k: int| 0 <= k < r@.len() ==> (#[trigger] r@[k]).0 >= k,
    {
        let mut r: Vec<VariableVertexId> = Vec::new();
        let mut i: usize = 0;
        while i < self.graph.variables.len()
            invariant
                0 <= i <= self.graph.variables@.len(),
                r@.len() <= i,
                forall|k: int| 0 <= k < r@.len() ==> (#[trigger] r@[k]).0 < i,
                forall|k: int| 0 <= k < r@.len()
                    ==> self.graph.variables@[(#[trigger] r@[k]).0 as int].spec_is_input(),
                forall|v: int| 0 <= v < i && self.graph.variables@[v].spec_is_input()
                    ==> r@.contains(VariableVertexId(v as usize)),
                forall|x: int, y: int| 0 <= x < y < r@.len()
                    ==> (#[trigger] r@[x]).0 < (#[trigger] r@[y]).0,
                forall|k: int| 0 <= k < r@.len() ==> (#[trigger] r@[k]).0 >= k,
            decreases self.graph.variables@.len() - i,
        {
            let ghost prev = r@;
            if self.graph.variables[i].is_input() {
                r.push(VariableVertexId(i));
            }
            proof {
                assert forall|v: int|
                    0 <= v < i + 1 && self.graph.variables@[v].spec_is_input() implies
                    r@.contains(VariableVertexId(v as usize)) by {
                    if v < i {
                        assert(prev.contains(VariableVertexId(v as usize)));
                        let k = choose|k: int|
                            0 <= k < prev.len() && prev[k] == VariableVertexId(v as usize);
                        assert(r@[k] == VariableVertexId(v as usize));
                    } else {
                        assert(r@.last() == VariableVertexId(i));
                    }
                }
            }
            i += 1;
        }
        r
    }

    /// Re-registers already-known variables as inputs, pre-bound from the
    /// enclosing scope: each listed registered variable's vertex kind
    /// becomes `Input`; everything else is untouched.
    pub fn with_inputs(&mut self, input_variables: &Vec<Variable>)
        requires
            old(self).graph.wf(),
        ensures
            final(self).graph.wf(),
            final(self).graph.patterns@ == old(self).graph.patterns@,
            final(self).graph.pattern_to_variable@ == old(self).graph.pattern_to_variable@,
            final(self).graph.variable_to_pattern@ == old(self).graph.variable_to_pattern@,
            final(self).graph.variable_index@ == old(self).graph.variable_index@,
            final(self).graph.variables@ == spec_with_inputs(
                old(self).graph.variables@,
                old(self).graph.variable_index@,
                input_variables@,
            ),
            final(self).shared_variables@ == old(self).shared_variables@,
    {
        let mut i: usize = 0;
        proof {
            assert(input_variables@.take(0) =~= Seq::<Variable>::empty());
        }
        while i < input_variables.len()
            invariant
                0 <= i <= input_variables@.len(),
                self.graph.wf(),
                self.graph.patterns@ == old(self).graph.patterns@,
                self.graph.pattern_to_variable@ == old(self).graph.pattern_to_variable@,
                self.graph.variable_to_pattern@ == old(self).graph.variable_to_pattern@,
                self.graph.variable_index@ == old(self).graph.variable_index@,
                self.graph.variables@ == spec_with_inputs(
                    old(self).graph.variables@,
                    old(self).graph.variable_index@,
                    input_variables@.take(i as int),
                ),
                self.shared_variables@ == old(self).shared_variables@,
            decreases input_variables@.len() - i,
        {
            proof {
                assert(input_variables@.take(i as int + 1).drop_last()
                    =~= input_variables@.take(i as int));
                assert(input_variables@.take(i as int + 1).last()
                    == input_variables@[i as int]);
                lemma_with_inputs(
                    old(self).graph.variables@,
                    old(self).graph.variable_index@,
                    input_variables@.take(i as int),
                );
            }
            let ghost prev_vars = self.graph.variables@;
            match self.graph.variable_id_of(input_variables[i]) {
                Option::Some(id) => {
                    proof {
                        self.graph.lemma_index_in_range(input_variables@[i as int]);
                        assert(id.0 < prev_vars.len());
                    }
                    self.graph.set_variable_kind(id, VariableVertexKind::Input);
                    proof {
                        assert(self.graph.variables@ == spec_with_inputs(
                            old(self).graph.variables@,
                            old(self).graph.variable_index@,
                            input_variables@.take(i as int + 1),
                        ));
                    }
                },
                Option::None => {
                    proof {
                        assert(self.graph.variables@ == spec_with_inputs(
                            old(self).graph.variables@,
                            old(self).graph.variable_index@,
                            input_variables@.take(i as int + 1),
                        ));
                    }
                },
            }
            i += 1;
        }
        proof {
            assert(input_variables@.take(input_variables@.len() as int) =~= input_variables@);
        }
    }

    fn register_input_var(&mut self, variable: Variable)
        requires
            old(self).graph.wf(),
            old(self).graph.variables@.len() < usize::MAX,
        ensures
            final(self).graph.wf(),
            final(self).graph.patterns@ == old(self).graph.patterns@,
            final(self).graph.variables@.len() <= old(self).graph.variables@.len() + 1,
            spec_index_of(final(self).graph.variable_index@, variable) is Some,
            old(self).graph.variable_index@.is_prefix_of(final(self).graph.variable_index@),
            old(self).graph.variables@.is_prefix_of(final(self).graph.variables@),
            spec_index_of(old(self).graph.variable_index@, variable) is None
                ==> (final(self).graph.variables@.len() == old(self).graph.variables@.len() + 1
                    && final(self).graph.variables@.last().kind is Input
                    && final(self).graph.variables@.last().variable == variable),
            spec_index_of(old(self).graph.variable_index@, variable) is Some
                ==> *final(self) == *old(self),
    {
        if self.graph.has_variable(variable) {
            // Registered by an earlier pass already; inputs are not
            // registered twice.
            return ;
        }
        let vertex = VariableVertex::new(variable, VariableVertexKind::Input, 1);
        let id = self.graph.push_variable(variable, vertex);
        self.shared_variables.push(variable);
        proof {
            lemma_index_push(old(self).graph.variable_index@, variable, id);
        }
    }

    fn register_type_var(&mut self, variable: Variable, annotations: &TypeAnnotations)
        requires
            old(self).graph.wf(),
            old(self).graph.variables@.len() < usize::MAX,
        ensures
            final(self).graph.wf(),
            final(self).graph.patterns@ == old(self).graph.patterns@,
            final(self).graph.variables@.len() == old(self).graph.variables@.len() + 1,
            spec_index_of(final(self).graph.variable_index@, variable) is Some,
            old(self).graph.variable_index@.is_prefix_of(final(self).graph.variable_index@),
            old(self).graph.variables@.is_prefix_of(final(self).graph.variables@),
            final(self).graph.variables@.last().kind is Type,
            final(self).graph.variables@.last().variable == variable,
    {
        let types = annotations.get(variable);
        let count: u64 = if types.len() >= 1 {
            if types.len() as u64 <= u64::MAX {
                types.len() as u64
            } else {
                u64::MAX
            }
        } else {
            1
        };
        let vertex = VariableVertex::new(variable, VariableVertexKind::Type, count);
        let id = self.graph.push_variable(variable, vertex);
        proof {
            lemma_index_push(old(self).graph.variable_index@, variable, id);
        }
    }

    fn register_thing_var(
        &mut self,
        variable: Variable,
        annotations: &TypeAnnotations,
        statistics: &Statistics,
    )
        requires
            old(self).graph.wf(),
            old(self).graph.variables@.len() < usize::MAX,
        ensures
            final(self).graph.wf(),
            final(self).graph.patterns@ == old(self).graph.patterns@,
            final(self).graph.variables@.len() == old(self).graph.variables@.len() + 1,
            spec_index_of(final(self).graph.variable_index@, variable) is Some,
            old(self).graph.variable_index@.is_prefix_of(final(self).graph.variable_index@),
            old(self).graph.variables@.is_prefix_of(final(self).graph.variables@),
            final(self).graph.variables@.last().kind is Thing,
            final(self).graph.variables@.last().variable == variable,
    {
        let total = annotations.instance_total(variable, statistics);
        let vertex = VariableVertex::new(variable, VariableVertexKind::Thing, total);
        let id = self.graph.push_variable(variable, vertex);
        proof {
            lemma_index_push(old(self).graph.variable_index@, variable, id);
        }
    }

    fn register_value_var(&mut self, variable: Variable)
        requires
            old(self).graph.wf(),
            old(self).graph.variables@.len() < usize::MAX,
        ensures
            final(self).graph.wf(),
            final(self).graph.patterns@ == old(self).graph.patterns@,
            final(self).graph.variables@.len() == old(self).graph.variables@.len() + 1,
            spec_index_of(final(self).graph.variable_index@, variable) is Some,
            old(self).graph.variable_index@.is_prefix_of(final(self).graph.variable_index@),
            old(self).graph.variables@.is_prefix_of(final(self).graph.variables@),
            final(self).graph.variables@.last().kind is Value,
            final(self).graph.variables@.last().variable == variable,
    {
        let vertex = VariableVertex::new(variable, VariableVertexKind::Value, 1);
        let id = self.graph.push_variable(variable, vertex);
        proof {
            lemma_index_push(old(self).graph.variable_index@, variable, id);
        }
    }

    /// Registers one non-input variable by its category.
    fn register_categorized_var(
        &mut self,
        variable: Variable,
        registry: &VariableRegistry,
        annotations: &TypeAnnotations,
        statistics: &Statistics,
    ) -> (r: Result<(), PlannerError>)
        requires
            old(self).graph.wf(),
            old(self).graph.variables@.len() < usize::MAX - 1,
        ensures
            final(self).graph.wf(),
            final(self).graph.patterns@ == old(self).graph.patterns@,
            final(self).graph.variables@.len() <= old(self).graph.variables@.len() + 1,
            r is Ok ==> spec_index_of(final(self).graph.variable_index@, variable) is Some,
            r is Ok == spec_category_ok(registry@, variable),
            r matches Err(e) ==> Some(e) == spec_category_error(registry@, variable),
            old(self).graph.variable_index@.is_prefix_of(final(self).graph.variable_index@),
            old(self).graph.variables@.is_prefix_of(final(self).graph.variables@),
            r is Ok && spec_index_of(old(self).graph.variable_index@, variable) is Some
                ==> final(self).graph.variables@ == old(self).graph.variables@,
            r is Ok && spec_index_of(old(self).graph.variable_index@, variable) is None
                ==> (final(self).graph.variables@.len()
                    == old(self).graph.variables@.len() + 1
                    && final(self).graph.variables@.last().variable == variable
                    && final(self).graph.variables@.last().kind == spec_kind_of_category(
                    crate::ir::spec_category_of(registry@, variable)->0,
                )),
            r is Err ==> *final(self) == *old(self),
    {
        let category = match registry.get_variable_category(variable) {
            Some(c) => c,
            None => {
                return Err(PlannerError::Invariant(InvariantViolation::MissingVariableCategory));
            },
        };
        match category {
            VariableCategory::ObjectList
            | VariableCategory::ThingList
            | VariableCategory::AttributeList
            | VariableCategory::ValueList => {
                Err(PlannerError::Unsupported(UnsupportedFeature::ListVariablePlanning))
            },
            VariableCategory::AttributeOrValue => {
                Err(PlannerError::Invariant(InvariantViolation::UnresolvedAttributeOrValue))
            },
            VariableCategory::Type
            | VariableCategory::ThingType
            | VariableCategory::AttributeType
            | VariableCategory::RoleType => {
                if !self.graph.has_variable(variable) {
                    self.register_type_var(variable, annotations);
                }
                Ok(())
            },
            VariableCategory::Thing | VariableCategory::Object | VariableCategory::Attribute => {
                if !self.graph.has_variable(variable) {
                    self.register_thing_var(variable, annotations, statistics);
                }
                Ok(())
            },
            VariableCategory::Value => {
                if !self.graph.has_variable(variable) {
                    self.register_value_var(variable);
                }
                Ok(())
            },
        }
    }

    /// Registers the conjunction's variables in three passes: inputs,
    /// captured, locally declared. Succeeds exactly when every captured and
    /// local variable has a registrable category.
    pub fn register_variables(
        &mut self,
        input_variables: &Vec<Variable>,
        shared_variables: &Vec<Variable>,
        local_variables: &Vec<Variable>,
        registry: &VariableRegistry,
        annotations: &TypeAnnotations,
        statistics: &Statistics,
    ) -> (r: Result<(), PlannerError>)
        requires
            old(self).graph.wf(),
            old(self).graph.variables@.len() + input_variables@.len() + shared_variables@.len()
                + local_variables@.len() < usize::MAX - 1,
        ensures
            final(self).graph.wf(),
            final(self).graph.patterns@ == old(self).graph.patterns@,
            r is Ok == (
                (forall|k: int| 0 <= k < shared_variables@.len()
                    ==> spec_category_ok(registry@, #[trigger] shared_variables@[k]))
                && (forall|k: int| 0 <= k < local_variables@.len()
                    ==> spec_category_ok(registry@, #[trigger] local_variables@[k]))
            ),
            r is Ok ==> forall|k: int| 0 <= k < input_variables@.len()
                ==> spec_index_of(
                    final(self).graph.variable_index@,
                    #[trigger] input_variables@[k],
                ) is Some,
            r is Ok ==> forall|k: int| 0 <= k < shared_variables@.len()
                ==> spec_index_of(
                    final(self).graph.variable_index@,
                    #[trigger] shared_variables@[k],
                ) is Some,
            r is Ok ==> forall|k: int| 0 <= k < local_variables@.len()
                ==> spec_index_of(
                    final(self).graph.variable_index@,
                    #[trigger] local_variables@[k],
                ) is Some,
            r matches Err(e) ==> ((exists|k: int|
                0 <= k < shared_variables@.len() && Some(e) == spec_category_error(
                    registry@,
                    #[trigger] shared_variables@[k],
                )) || (exists|k: int|
                0 <= k < local_variables@.len() && Some(e) == spec_category_error(
                    registry@,
                    #[trigger] local_variables@[k],
                ))),
            r is Ok ==> spec_fresh_kinds_ok(
                final(self).graph.variables@,
                old(self).graph.variables@.len() as int,
                input_variables@,
                registry@,
            ),
    {
        let ghost base_vars = old(self).graph.variables@.len() as int;
        let ghost limit = old(self).graph.variables@.len() + input_variables@.len()
            + shared_variables@.len() + local_variables@.len();
        let mut i: usize = 0;
        while i < input_variables.len()
            invariant
                0 <= i <= input_variables@.len(),
                self.graph.wf(),
                self.graph.patterns@ == old(self).graph.patterns@,
                self.graph.variables@.len()
                    <= old(self).graph.variables@.len() + i,
                limit == old(self).graph.variables@.len() + input_variables@.len()
                    + shared_variables@.len() + local_variables@.len(),
                limit < usize::MAX - 1,
                forall|k: int| 0 <= k < i ==> spec_index_of(
                    self.graph.variable_index@,
                    #[trigger] input_variables@[k],
                ) is Some,
                base_vars == old(self).graph.variables@.len(),
                spec_fresh_kinds_ok(
                    self.graph.variables@,
                    base_vars,
                    input_variables@,
                    registry@,
                ),
            decreases input_variables@.len() - i,
        {
            let ghost pre = self.graph.variable_index@;
            let ghost pre_vars = self.graph.variables@;
            self.register_input_var(input_variables[i]);
            proof {
                lemma_index_monotone(pre, self.graph.variable_index@);
                assert(input_variables@.contains(input_variables@[i as int]));
                assert forall|v: int| base_vars <= v < self.graph.variables@.len() implies {
                    let vert = #[trigger] self.graph.variables@[v];
                    (input_variables@.contains(vert.variable) && vert.kind is Input)
                        || vert.kind == spec_kind_of_category(
                        crate::ir::spec_category_of(registry@, vert.variable)->0,
                    )
                } by {
                    if v < pre_vars.len() {
                        assert(pre_vars =~= self.graph.variables@.subrange(
                            0,
                            pre_vars.len() as int,
                        ));
                        assert(self.graph.variables@[v] == pre_vars[v]);
                    } else {
                        assert(self.graph.variables@[v] == self.graph.variables@.last());
                    }
                }
            }
            i += 1;
        }
        let mut j: usize = 0;
        while j < shared_variables.len()
            invariant
                0 <= j <= shared_variables@.len(),
                self.graph.wf(),
                self.graph.patterns@ == old(self).graph.patterns@,
                self.graph.variables@.len()
                    <= old(self).graph.variables@.len() + input_variables@.len() + j,
                limit == old(self).graph.variables@.len() + input_variables@.len()
                    + shared_variables@.len() + local_variables@.len(),
                limit < usize::MAX - 1,
                forall|k: int| 0 <= k < input_variables@.len() ==> spec_index_of(
                    self.graph.variable_index@,
                    #[trigger] input_variables@[k],
                ) is Some,
                forall|k: int| 0 <= k < j ==> spec_index_of(
                    self.graph.variable_index@,
                    #[trigger] shared_variables@[k],
                ) is Some,
                forall|k: int| 0 <= k < j
                    ==> spec_category_ok(registry@, #[trigger] shared_variables@[k]),
                base_vars == old(self).graph.variables@.len(),
                spec_fresh_kinds_ok(
                    self.graph.variables@,
                    base_vars,
                    input_variables@,
                    registry@,
                ),
            decreases shared_variables@.len() - j,
        {
            let variable = shared_variables[j];
            if !self.graph.has_variable(variable) {
                self.shared_variables.push(variable);
            }
            let ghost pre = self.graph.variable_index@;
            let ghost pre_vars = self.graph.variables@;
            let result = self.register_categorized_var(
                variable,
                registry,
                annotations,
                statistics,
            );
            proof {
                lemma_index_monotone(pre, self.graph.variable_index@);
            }
            if let Err(e) = result {
                proof {
                    assert(Some(e) == spec_category_error(registry@, shared_variables@[j as int]));
                }
                return Err(e);
            }
            proof {
                assert forall|v: int| base_vars <= v < self.graph.variables@.len() implies {
                    let vert = #[trigger] self.graph.variables@[v];
                    (input_variables@.contains(vert.variable) && vert.kind is Input)
                        || vert.kind == spec_kind_of_category(
                        crate::ir::spec_category_of(registry@, vert.variable)->0,
                    )
                } by {
                    if v < pre_vars.len() {
                        assert(pre_vars =~= self.graph.variables@.subrange(
                            0,
                            pre_vars.len() as int,
                        ));
                        assert(self.graph.variables@[v] == pre_vars[v]);
                    } else {
                        assert(self.graph.variables@[v] == self.graph.variables@.last());
                    }
                }
            }
            j += 1;
        }
        let mut l: usize = 0;
        while l < local_variables.len()
            invariant
                0 <= l <= local_variables@.len(),
                self.graph.wf(),
                self.graph.patterns@ == old(self).graph.patterns@,
                self.graph.variables@.len() <= old(self).graph.variables@.len()
                    + input_variables@.len() + shared_variables@.len() + l,
                limit == old(self).graph.variables@.len() + input_variables@.len()
                    + shared_variables@.len() + local_variables@.len(),
                limit < usize::MAX - 1,
                forall|k: int| 0 <= k < input_variables@.len() ==> spec_index_of(
                    self.graph.variable_index@,
                    #[trigger] input_variables@[k],
                ) is Some,
                forall|k: int| 0 <= k < shared_variables@.len() ==> spec_index_of(
                    self.graph.variable_index@,
                    #[trigger] shared_variables@[k],
                ) is Some,
                forall|k: int| 0 <= k < shared_variables@.len()
                    ==> spec_category_ok(registry@, #[trigger] shared_variables@[k]),
                forall|k: int| 0 <= k < l ==> spec_index_of(
                    self.graph.variable_index@,
                    #[trigger] local_variables@[k],
                ) is Some,
                forall|k: int| 0 <= k < l
                    ==> spec_category_ok(registry@, #[trigger] local_variables@[k]),
                base_vars == old(self).graph.variables@.len(),
                spec_fresh_kinds_ok(
                    self.graph.variables@,
                    base_vars,
                    input_variables@,
                    registry@,
                ),
            decreases local_variables@.len() - l,
        {
            let variable = local_variables[l];
            let ghost pre = self.graph.variable_index@;
            let ghost pre_vars = self.graph.variables@;
            let result = self.register_categorized_var(
                variable,
                registry,
                annotations,
                statistics,
            );
            proof {
                lemma_index_monotone(pre, self.graph.variable_index@);
            }
            if let Err(e) = result {
                proof {
                    assert(Some(e) == spec_category_error(registry@, local_variables@[l as int]));
                }
                return Err(e);
            }
            proof {
                assert forall|v: int| base_vars <= v < self.graph.variables@.len() implies {
                    let vert = #[trigger] self.graph.variables@[v];
                    (input_variables@.contains(vert.variable) && vert.kind is Input)
                        || vert.kind == spec_kind_of_category(
                        crate::ir::spec_category_of(registry@, vert.variable)->0,
                    )
                } by {
                    if v < pre_vars.len() {
                        assert(pre_vars =~= self.graph.variables@.subrange(
                            0,
                            pre_vars.len() as int,
                        ));
                        assert(self.graph.variables@[v] == pre_vars[v]);
                    } else {
                        assert(self.graph.variables@[v] == self.graph.variables@.last());
                    }
                }
            }
            l += 1;
        }
        Ok(())
    }

    /// Plans this conjunction's sealed graph with the greedy planner.
    pub fn plan(&self) -> (r: Result<crate::search::ConjunctionPlan, PlannerError>)
        requires
            self.graph.wf(),
        ensures
            r matches Ok(p) ==> Some(p.model()) == crate::search::spec_greedy(&self.graph),
            r matches Ok(p) ==> crate::search::spec_directions_consistent(
                &self.graph,
                p.ordering@,
                p.directions@,
            ),
            r is Err == (crate::search::spec_greedy(&self.graph) is None),
            r is Err ==> r == Err::<crate::search::ConjunctionPlan, PlannerError>(
                PlannerError::EmptyPlanSpace,
            ),
    {
        crate::search::initialise_greedy_ordering(&self.graph)
    }

    /// Plans this conjunction's sealed graph with the beam planner,
    /// falling back to the greedy plan when the beam prunes too hard.
    pub fn beam_search_plan(&self) -> (r: Result<crate::search::ConjunctionPlan, PlannerError>)
        requires
            self.graph.wf(),
        ensures
            r is Err == (crate::search::spec_greedy(&self.graph) is None),
            r is Err ==> r == Err::<crate::search::ConjunctionPlan, PlannerError>(
                PlannerError::EmptyPlanSpace,
            ),
            r matches Ok(p) ==> crate::search::spec_ordering_wf(&self.graph, p.ordering@),
            r matches Ok(p) ==> crate::search::spec_ordering_complete(&self.graph, p.ordering@),
            r matches Ok(p) ==> p.directions@.len() == self.graph.patterns@.len(),
            r matches Ok(p) ==> crate::search::spec_directions_consistent(
                &self.graph,
                p.ordering@,
                p.directions@,
            ),
            r matches Ok(p) ==> (crate::search::spec_greedy(&self.graph) matches Some(gp)
                && p.cost.cost <= gp.2.cost),
            r matches Ok(p) ==> (p.cost == crate::cost::spec_chain(
                crate::beam::spec_step_state(&self.graph, p.ordering@, p.ordering@.len() as int).0,
                crate::beam::spec_step_state(&self.graph, p.ordering@, p.ordering@.len() as int).1,
            ) || Some(p.model()) == crate::search::spec_greedy(&self.graph)),
    {
        crate::beam::beam_search_plan(
            &self.graph,
            crate::beam::BEAM_WIDTH,
            crate::beam::EXTENSION_WIDTH,
        )
    }

    /// Resolves an operand to a planner input, or reports the unregistered
    /// variable.
    fn resolve_operand(&self, o: OperandIr) -> (r: Result<Input, PlannerError>)
        requires
            self.graph.wf(),
        ensures
            r is Ok == (spec_resolve_operand(self.graph.variable_index@, o) is Some),
            r matches Ok(i) ==> Some(i) == spec_resolve_operand(self.graph.variable_index@, o),
            r matches Ok(i) ==> crate::graph::spec_input_in_range(
                i,
                self.graph.variables@.len(),
            ),
            r is Err ==> r == Err::<Input, PlannerError>(
                PlannerError::Invariant(InvariantViolation::UnregisteredVariable),
            ),
    {
        match o {
            OperandIr::Variable(v) => match self.graph.variable_id_of(v) {
                Some(id) => {
                    proof {
                        self.graph.lemma_index_in_range(v);
                    }
                    Ok(Input::Variable(id))
                },
                None => Err(PlannerError::Invariant(InvariantViolation::UnregisteredVariable)),
            },
            OperandIr::Label(_) => Ok(Input::Fixed),
            OperandIr::Parameter(_) => Ok(Input::Fixed),
        }
    }

    /// Resolves a bare variable to its planner id.
    fn resolve_variable(&self, v: Variable) -> (r: Result<VariableVertexId, PlannerError>)
        requires
            self.graph.wf(),
        ensures
            r is Ok == (spec_index_of(self.graph.variable_index@, v) is Some),
            r matches Ok(id) ==> Some(id) == spec_index_of(self.graph.variable_index@, v),
            r matches Ok(id) ==> id.0 < self.graph.variables@.len(),
            r is Err ==> r == Err::<VariableVertexId, PlannerError>(
                PlannerError::Invariant(InvariantViolation::UnregisteredVariable),
            ),
    {
        match self.graph.variable_id_of(v) {
            Some(id) => {
                proof {
                    self.graph.lemma_index_in_range(v);
                }
                Ok(id)
            },
            None => Err(PlannerError::Invariant(InvariantViolation::UnregisteredVariable)),
        }
    }

    /// The unbound domain size behind a resolved operand.
    fn input_total(&self, i: Input) -> (r: u64)
        requires
            crate::graph::spec_input_in_range(i, self.graph.variables@.len()),
        ensures
            r == spec_input_total(self.graph.variables@, i),
    {
        match i {
            Input::Variable(id) => self.graph.variables[id.0].unbound_total,
            Input::Fixed => 1,
        }
    }

    /// The expected rows of the relation behind a binary constraint.
    fn edge_total(
        &self,
        m: &PairCountMap,
        annotations: &TypeAnnotations,
        statistics: &Statistics,
        lhs: OperandIr,
        rhs: OperandIr,
    ) -> (r: u64)
        ensures
            r == spec_edge_total(m, annotations, statistics, lhs, rhs),
    {
        match (lhs, rhs) {
            (OperandIr::Variable(l), OperandIr::Variable(r)) => {
                let ls = annotations.get(l);
                let rs = annotations.get(r);
                pair_sum(m, &ls, &rs)
            },
            (OperandIr::Variable(l), _) => annotations.instance_total(l, statistics),
            (_, OperandIr::Variable(r)) => annotations.instance_total(r, statistics),
            _ => 1,
        }
    }

    /// Registers one binary schema constraint costed against `m`.
    fn register_binary(
        &mut self,
        kind: ConstraintKind,
        m: &PairCountMap,
        annotations: &TypeAnnotations,
        statistics: &Statistics,
        lhs: OperandIr,
        rhs: OperandIr,
    ) -> (r: Result<(), PlannerError>)
        requires
            old(self).graph.wf(),
            old(self).graph.patterns@.len() < usize::MAX,
        ensures
            final(self).graph.wf(),
            final(self).graph.variables@ == old(self).graph.variables@,
            final(self).graph.variable_index@ == old(self).graph.variable_index@,
            r is Ok == (spec_resolve_operand(old(self).graph.variable_index@, lhs) is Some
                && spec_resolve_operand(old(self).graph.variable_index@, rhs) is Some),
            r is Ok ==> final(self).graph.patterns@ == old(self).graph.patterns@.push(
                PatternVertex::Constraint(
                    spec_binary_vertex(&old(self).graph, annotations, statistics, m, kind, lhs, rhs),
                ),
            ),
            r is Err ==> final(self).graph.patterns@ == old(self).graph.patterns@,
            r is Err ==> r == Err::<(), PlannerError>(
                PlannerError::Invariant(InvariantViolation::UnregisteredVariable),
            ),
    {
        let lhs_input = match self.resolve_operand(lhs) {
            Ok(i) => i,
            Err(e) => {
                return Err(e);
            },
        };
        let rhs_input = match self.resolve_operand(rhs) {
            Ok(i) => i,
            Err(e) => {
                return Err(e);
            },
        };
        let vertex = ConstraintVertex {
            kind,
            lhs: lhs_input,
            rhs: rhs_input,
            role: Input::Fixed,
            edge_total: self.edge_total(m, annotations, statistics, lhs, rhs),
            lhs_total: self.input_total(lhs_input),
            rhs_total: self.input_total(rhs_input),
        };
        self.graph.push_constraint(vertex);
        Ok(())
    }

    /// Registers a unary type-list filter (label, role name, kind, value).
    fn register_type_list(
        &mut self,
        kind: ConstraintKind,
        annotations: &TypeAnnotations,
        type_var: Variable,
    ) -> (r: Result<(), PlannerError>)
        requires
            old(self).graph.wf(),
            old(self).graph.patterns@.len() < usize::MAX,
        ensures
            final(self).graph.wf(),
            final(self).graph.variables@ == old(self).graph.variables@,
            final(self).graph.variable_index@ == old(self).graph.variable_index@,
            r is Ok == (spec_index_of(old(self).graph.variable_index@, type_var) is Some),
            r is Ok ==> final(self).graph.patterns@ == old(self).graph.patterns@.push(
                PatternVertex::Constraint(
                    spec_unary_vertex(&old(self).graph, annotations, kind, type_var),
                ),
            ),
            r is Err ==> final(self).graph.patterns@ == old(self).graph.patterns@,
            r is Err ==> r == Err::<(), PlannerError>(
                PlannerError::Invariant(InvariantViolation::UnregisteredVariable),
            ),
    {
        let id = match self.resolve_variable(type_var) {
            Ok(id) => id,
            Err(e) => {
                return Err(e);
            },
        };
        let types = annotations.get(type_var);
        let count: u64 = types.len() as u64;
        let vertex = ConstraintVertex {
            kind,
            lhs: Input::Variable(id),
            rhs: Input::Fixed,
            role: Input::Fixed,
            edge_total: count,
            lhs_total: count,
            rhs_total: 1,
        };
        self.graph.push_constraint(vertex);
        Ok(())
    }

    pub fn register_label(
        &mut self,
        annotations: &TypeAnnotations,
        type_var: Variable,
    ) -> (r: Result<(), PlannerError>)
        requires
            old(self).graph.wf(),
            old(self).graph.patterns@.len() < usize::MAX,
        ensures
            register_unary_ensures(*old(self), *final(self), annotations, ConstraintKind::Label, type_var, r),
    {
        self.register_type_list(ConstraintKind::Label, annotations, type_var)
    }

    pub fn register_role_name(
        &mut self,
        annotations: &TypeAnnotations,
        type_var: Variable,
    ) -> (r: Result<(), PlannerError>)
        requires
            old(self).graph.wf(),
            old(self).graph.patterns@.len() < usize::MAX,
        ensures
            register_unary_ensures(*old(self), *final(self), annotations, ConstraintKind::RoleName, type_var, r),
    {
        self.register_type_list(ConstraintKind::RoleName, annotations, type_var)
    }

    pub fn register_kind(
        &mut self,
        annotations: &TypeAnnotations,
        type_var: Variable,
    ) -> (r: Result<(), PlannerError>)
        requires
            old(self).graph.wf(),
            old(self).graph.patterns@.len() < usize::MAX,
        ensures
            register_unary_ensures(*old(self), *final(self), annotations, ConstraintKind::Kind, type_var, r),
    {
        self.register_type_list(ConstraintKind::Kind, annotations, type_var)
    }

    pub fn register_value(
        &mut self,
        annotations: &TypeAnnotations,
        attribute_type_var: Variable,
    ) -> (r: Result<(), PlannerError>)
        requires
            old(self).graph.wf(),
            old(self).graph.patterns@.len() < usize::MAX,
        ensures
            register_unary_ensures(*old(self), *final(self), annotations, ConstraintKind::Value, attribute_type_var, r),
    {
        self.register_type_list(ConstraintKind::Value, annotations, attribute_type_var)
    }

    /// Registers a direct `iid` lookup of one thing.
    pub fn register_iid(&mut self, var: Variable) -> (r: Result<(), PlannerError>)
        requires
            old(self).graph.wf(),
            old(self).graph.patterns@.len() < usize::MAX,
        ensures
            final(self).graph.wf(),
            final(self).graph.variables@ == old(self).graph.variables@,
            final(self).graph.variable_index@ == old(self).graph.variable_index@,
            r is Ok == (spec_index_of(old(self).graph.variable_index@, var) is Some),
            r is Ok ==> final(self).graph.patterns@ == old(self).graph.patterns@.push(
                PatternVertex::Constraint(ConstraintVertex {
                    kind: ConstraintKind::Iid,
                    lhs: Input::Variable(spec_index_of(old(self).graph.variable_index@, var)->0),
                    rhs: Input::Fixed,
                    role: Input::Fixed,
                    edge_total: 1,
                    lhs_total: 1,
                    rhs_total: 1,
                }),
            ),
            r is Err ==> final(self).graph.patterns@ == old(self).graph.patterns@,
            r is Err ==> r == Err::<(), PlannerError>(
                PlannerError::Invariant(InvariantViolation::UnregisteredVariable),
            ),
    {
        let id = match self.resolve_variable(var) {
            Ok(id) => id,
            Err(e) => {
                return Err(e);
            },
        };
        let vertex = ConstraintVertex {
            kind: ConstraintKind::Iid,
            lhs: Input::Variable(id),
            rhs: Input::Fixed,
            role: Input::Fixed,
            edge_total: 1,
            lhs_total: 1,
            rhs_total: 1,
        };
        self.graph.push_constraint(vertex);
        Ok(())
    }

    pub fn register_sub(
        &mut self,
        annotations: &TypeAnnotations,
        statistics: &Statistics,
        subtype: OperandIr,
        supertype: OperandIr,
    ) -> (r: Result<(), PlannerError>)
        requires
            old(self).graph.wf(),
            old(self).graph.patterns@.len() < usize::MAX,
        ensures
            register_binary_ensures(*old(self), *final(self), annotations, statistics,
                &statistics.sub_edge_counts, ConstraintKind::Sub, subtype, supertype, r),
    {
        self.register_binary(
            ConstraintKind::Sub,
            &statistics.sub_edge_counts,
            annotations,
            statistics,
            subtype,
            supertype,
        )
    }

    pub fn register_owns(
        &mut self,
        annotations: &TypeAnnotations,
        statistics: &Statistics,
        owner: OperandIr,
        attribute: OperandIr,
    ) -> (r: Result<(), PlannerError>)
        requires
            old(self).graph.wf(),
            old(self).graph.patterns@.len() < usize::MAX,
        ensures
            register_binary_ensures(*old(self), *final(self), annotations, statistics,
                &statistics.owns_edge_counts, ConstraintKind::Owns, owner, attribute, r),
    {
        self.register_binary(
            ConstraintKind::Owns,
            &statistics.owns_edge_counts,
            annotations,
            statistics,
            owner,
            attribute,
        )
    }

    pub fn register_relates(
        &mut self,
        annotations: &TypeAnnotations,
        statistics: &Statistics,
        relation: OperandIr,
        role_type: OperandIr,
    ) -> (r: Result<(), PlannerError>)
        requires
            old(self).graph.wf(),
            old(self).graph.patterns@.len() < usize::MAX,
        ensures
            register_binary_ensures(*old(self), *final(self), annotations, statistics,
                &statistics.relates_edge_counts, ConstraintKind::Relates, relation, role_type, r),
    {
        self.register_binary(
            ConstraintKind::Relates,
            &statistics.relates_edge_counts,
            annotations,
            statistics,
            relation,
            role_type,
        )
    }

    pub fn register_plays(
        &mut self,
        annotations: &TypeAnnotations,
        statistics: &Statistics,
        player: OperandIr,
        role_type: OperandIr,
    ) -> (r: Result<(), PlannerError>)
        requires
            old(self).graph.wf(),
            old(self).graph.patterns@.len() < usize::MAX,
        ensures
            register_binary_ensures(*old(self), *final(self), annotations, statistics,
                &statistics.plays_edge_counts, ConstraintKind::Plays, player, role_type, r),
    {
        self.register_binary(
            ConstraintKind::Plays,
            &statistics.plays_edge_counts,
            annotations,
            statistics,
            player,
            role_type,
        )
    }

    pub fn register_has(
        &mut self,
        annotations: &TypeAnnotations,
        statistics: &Statistics,
        owner: OperandIr,
        attribute: OperandIr,
    ) -> (r: Result<(), PlannerError>)
        requires
            old(self).graph.wf(),
            old(self).graph.patterns@.len() < usize::MAX,
        ensures
            register_binary_ensures(*old(self), *final(self), annotations, statistics,
                &statistics.has_edge_counts, ConstraintKind::Has, owner, attribute, r),
    {
        self.register_binary(
            ConstraintKind::Has,
            &statistics.has_edge_counts,
            annotations,
            statistics,
            owner,
            attribute,
        )
    }

    /// Registers an `isa` constraint; its scan enumerates the instances of
    /// the thing variable's annotated types.
    pub fn register_isa(
        &mut self,
        annotations: &TypeAnnotations,
        statistics: &Statistics,
        thing: OperandIr,
        type_of: OperandIr,
    ) -> (r: Result<(), PlannerError>)
        requires
            old(self).graph.wf(),
            old(self).graph.patterns@.len() < usize::MAX,
        ensures
            final(self).graph.wf(),
            final(self).graph.variables@ == old(self).graph.variables@,
            final(self).graph.variable_index@ == old(self).graph.variable_index@,
            r is Ok == (spec_resolve_operand(old(self).graph.variable_index@, thing) is Some
                && spec_resolve_operand(old(self).graph.variable_index@, type_of) is Some),
            r is Ok ==> final(self).graph.patterns@ == old(self).graph.patterns@.push(
                PatternVertex::Constraint(
                    spec_isa_vertex(&old(self).graph, annotations, statistics, thing, type_of),
                ),
            ),
            r is Err ==> final(self).graph.patterns@ == old(self).graph.patterns@,
            r is Err ==> r == Err::<(), PlannerError>(
                PlannerError::Invariant(InvariantViolation::UnregisteredVariable),
            ),
    {
        let lhs_input = match self.resolve_operand(thing) {
            Ok(i) => i,
            Err(e) => {
                return Err(e);
            },
        };
        let rhs_input = match self.resolve_operand(type_of) {
            Ok(i) => i,
            Err(e) => {
                return Err(e);
            },
        };
        let edge = match thing {
            OperandIr::Variable(v) => annotations.instance_total(v, statistics),
            _ => 1,
        };
        let vertex = ConstraintVertex {
            kind: ConstraintKind::Isa,
            lhs: lhs_input,
            rhs: rhs_input,
            role: Input::Fixed,
            edge_total: edge,
            lhs_total: self.input_total(lhs_input),
            rhs_total: self.input_total(rhs_input),
        };
        self.graph.push_constraint(vertex);
        Ok(())
    }

    /// Registers a `links` constraint over relation, player and role.
    pub fn register_links(
        &mut self,
        annotations: &TypeAnnotations,
        statistics: &Statistics,
        relation: OperandIr,
        player: OperandIr,
        role_type: OperandIr,
    ) -> (r: Result<(), PlannerError>)
        requires
            old(self).graph.wf(),
            old(self).graph.patterns@.len() < usize::MAX,
        ensures
            final(self).graph.wf(),
            final(self).graph.variables@ == old(self).graph.variables@,
            final(self).graph.variable_index@ == old(self).graph.variable_index@,
            r is Ok == (spec_resolve_operand(old(self).graph.variable_index@, relation) is Some
                && spec_resolve_operand(old(self).graph.variable_index@, player) is Some
                && spec_resolve_operand(old(self).graph.variable_index@, role_type) is Some),
            r is Ok ==> final(self).graph.patterns@ == old(self).graph.patterns@.push(
                PatternVertex::Constraint(
                    spec_links_vertex(
                        &old(self).graph,
                        annotations,
                        statistics,
                        relation,
                        player,
                        role_type,
                    ),
                ),
            ),
            r is Err ==> final(self).graph.patterns@ == old(self).graph.patterns@,
            r is Err ==> r == Err::<(), PlannerError>(
                PlannerError::Invariant(InvariantViolation::UnregisteredVariable),
            ),
    {
        let lhs_input = match self.resolve_operand(relation) {
            Ok(i) => i,
            Err(e) => {
                return Err(e);
            },
        };
        let rhs_input = match self.resolve_operand(player) {
            Ok(i) => i,
            Err(e) => {
                return Err(e);
            },
        };
        let role_input = match self.resolve_operand(role_type) {
            Ok(i) => i,
            Err(e) => {
                return Err(e);
            },
        };
        let vertex = ConstraintVertex {
            kind: ConstraintKind::Links,
            lhs: lhs_input,
            rhs: rhs_input,
            role: role_input,
            edge_total: self.edge_total(
                &statistics.links_edge_counts,
                annotations,
                statistics,
                relation,
                player,
            ),
            lhs_total: self.input_total(lhs_input),
            rhs_total: self.input_total(rhs_input),
        };
        self.graph.push_constraint(vertex);
        Ok(())
    }

    /// Registers an `is` equality and mirrors it onto both variables.
    pub fn register_is(&mut self, lhs: Variable, rhs: Variable) -> (r: Result<
        (),
        PlannerError,
    >)
        requires
            old(self).graph.wf(),
            old(self).graph.patterns@.len() < usize::MAX,
        ensures
            final(self).graph.wf(),
            final(self).graph.variables@.len() == old(self).graph.variables@.len(),
            final(self).graph.variable_index@ == old(self).graph.variable_index@,
            r is Ok == (spec_index_of(old(self).graph.variable_index@, lhs) is Some
                && spec_index_of(old(self).graph.variable_index@, rhs) is Some),
            r is Ok ==> final(self).graph.patterns@ == old(self).graph.patterns@.push(
                PatternVertex::Is {
                    lhs: spec_index_of(old(self).graph.variable_index@, lhs)->0,
                    rhs: spec_index_of(old(self).graph.variable_index@, rhs)->0,
                },
            ),
            r is Ok ==> spec_bounds_mirrored(
                old(self).graph.variables@,
                final(self).graph.variables@,
                Input::Variable(spec_index_of(old(self).graph.variable_index@, lhs)->0),
                Input::Variable(spec_index_of(old(self).graph.variable_index@, rhs)->0),
                Comparator::Equal,
            ),
            r is Err ==> final(self).graph.patterns@ == old(self).graph.patterns@,
            r is Err ==> final(self).graph.variables@ == old(self).graph.variables@,
            r is Err ==> r == Err::<(), PlannerError>(
                PlannerError::Invariant(InvariantViolation::UnregisteredVariable),
            ),
    {
        let lhs_id = match self.resolve_variable(lhs) {
            Ok(id) => id,
            Err(e) => {
                return Err(e);
            },
        };
        let rhs_id = match self.resolve_variable(rhs) {
            Ok(id) => id,
            Err(e) => {
                return Err(e);
            },
        };
        let ghost before = self.graph.variables@;
        self.graph.add_equal(lhs_id, Input::Variable(rhs_id));
        let ghost mid = self.graph.variables@;
        self.graph.add_equal(rhs_id, Input::Variable(lhs_id));
        proof {
            assert forall|k: int| 0 <= k < before.len() implies
                #[trigger] spec_vertex_bounds_after(
                    before,
                    self.graph.variables@,
                    Input::Variable(lhs_id),
                    Input::Variable(rhs_id),
                    Comparator::Equal,
                    k,
                ) by {
                if k != lhs_id.0 && k != rhs_id.0 {
                    assert(mid[k] == before[k]);
                    assert(self.graph.variables@[k] == mid[k]);
                }
            }
        }
        self.graph.push_is(lhs_id, rhs_id);
        Ok(())
    }

    /// Registers a comparison and mirrors its ordering bounds onto both
    /// variable operands for range-aware costing. `like` and `contains`
    /// comparators are unsupported.
    pub fn register_comparison(
        &mut self,
        lhs: OperandIr,
        rhs: OperandIr,
        comparator: Comparator,
    ) -> (r: Result<(), PlannerError>)
        requires
            old(self).graph.wf(),
            old(self).graph.patterns@.len() < usize::MAX,
        ensures
            final(self).graph.wf(),
            final(self).graph.variables@.len() == old(self).graph.variables@.len(),
            final(self).graph.variable_index@ == old(self).graph.variable_index@,
            r is Ok == (spec_resolve_operand(old(self).graph.variable_index@, lhs) is Some
                && spec_resolve_operand(old(self).graph.variable_index@, rhs) is Some
                && !(comparator is Like) && !(comparator is Contains)),
            r is Ok ==> final(self).graph.patterns@ == old(self).graph.patterns@.push(
                PatternVertex::Comparison {
                    lhs: spec_resolve_operand(old(self).graph.variable_index@, lhs)->0,
                    rhs: spec_resolve_operand(old(self).graph.variable_index@, rhs)->0,
                },
            ),
            r is Ok ==> spec_bounds_mirrored(
                old(self).graph.variables@,
                final(self).graph.variables@,
                spec_resolve_operand(old(self).graph.variable_index@, lhs)->0,
                spec_resolve_operand(old(self).graph.variable_index@, rhs)->0,
                comparator,
            ),
            r is Err ==> final(self).graph.patterns@ == old(self).graph.patterns@,
            r is Err ==> final(self).graph.variables@ == old(self).graph.variables@,
            r is Err ==> ((r == Err::<(), PlannerError>(
                PlannerError::Invariant(InvariantViolation::UnregisteredVariable),
            ) && !(spec_resolve_operand(old(self).graph.variable_index@, lhs) is Some
                && spec_resolve_operand(old(self).graph.variable_index@, rhs) is Some))
                || (r == Err::<(), PlannerError>(
                PlannerError::Unsupported(UnsupportedFeature::LikeComparator),
            ) && comparator is Like) || (r == Err::<(), PlannerError>(
                PlannerError::Unsupported(UnsupportedFeature::ContainsComparator),
            ) && comparator is Contains)),
    {
        let lhs_input = match self.resolve_operand(lhs) {
            Ok(i) => i,
            Err(e) => {
                return Err(e);
            },
        };
        let rhs_input = match self.resolve_operand(rhs) {
            Ok(i) => i,
            Err(e) => {
                return Err(e);
            },
        };
        match comparator {
            Comparator::Like => {
                return Err(PlannerError::Unsupported(UnsupportedFeature::LikeComparator));
            },
            Comparator::Contains => {
                return Err(PlannerError::Unsupported(UnsupportedFeature::ContainsComparator));
            },
            _ => {},
        }
        let ghost before = self.graph.variables@;
        if let Input::Variable(l) = lhs_input {
            match comparator {
                Comparator::Equal => self.graph.add_equal(l, rhs_input),
                Comparator::NotEqual => {},
                Comparator::Less | Comparator::LessOrEqual => {
                    self.graph.add_upper_bound(l, rhs_input)
                },
                Comparator::Greater | Comparator::GreaterOrEqual => {
                    self.graph.add_lower_bound(l, rhs_input)
                },
                _ => {},
            }
        }
        let ghost mid = self.graph.variables@;
        if let Input::Variable(rv) = rhs_input {
            match comparator {
                Comparator::Equal => self.graph.add_equal(rv, lhs_input),
                Comparator::NotEqual => {},
                Comparator::Less | Comparator::LessOrEqual => {
                    self.graph.add_lower_bound(rv, lhs_input)
                },
                Comparator::Greater | Comparator::GreaterOrEqual => {
                    self.graph.add_upper_bound(rv, lhs_input)
                },
                _ => {},
            }
        }
        proof {
            assert forall|k: int| 0 <= k < before.len() implies
                #[trigger] spec_vertex_bounds_after(
                    before,
                    self.graph.variables@,
                    lhs_input,
                    rhs_input,
                    comparator,
                    k,
                ) by {
                let touched_first = lhs_input matches Input::Variable(v) && v.0 == k;
                let touched_second = rhs_input matches Input::Variable(v) && v.0 == k;
                if !touched_first {
                    assert(mid[k] == before[k]);
                }
                if !touched_second {
                    assert(self.graph.variables@[k] == mid[k]);
                }
            }
        }
        self.graph.push_comparison(lhs_input, rhs_input);
        Ok(())
    }

    /// Registers an expression binding and links the output variable's
    /// producer. The inputs are deduplicated, keeping first occurrences.
    pub fn register_expression_binding(
        &mut self,
        output: Variable,
        inputs: &Vec<Variable>,
    ) -> (r: Result<(), PlannerError>)
        requires
            old(self).graph.wf(),
            old(self).graph.patterns@.len() < usize::MAX,
        ensures
            final(self).graph.wf(),
            final(self).graph.variables@.len() == old(self).graph.variables@.len(),
            final(self).graph.variable_index@ == old(self).graph.variable_index@,
            r is Ok == (spec_index_of(old(self).graph.variable_index@, output) is Some
                && (forall|k: int| 0 <= k < inputs@.len()
                    ==> spec_index_of(
                        old(self).graph.variable_index@,
                        #[trigger] inputs@[k],
                    ) is Some)),
            r is Ok ==> final(self).graph.patterns@.len()
                == old(self).graph.patterns@.len() + 1,
            r is Ok ==> old(self).graph.patterns@.is_prefix_of(final(self).graph.patterns@),
            r is Ok ==> (final(self).graph.patterns@.last() matches
                PatternVertex::Expression { inputs: in_ids, output: out_id }
                    && Some(out_id) == spec_index_of(old(self).graph.variable_index@, output)
                    && spec_ids_as_usizes(in_ids@) == crate::vertex::spec_dedup_first(
                    spec_resolved_usizes(old(self).graph.variable_index@, inputs@),
                )),
            r is Ok ==> (spec_index_of(old(self).graph.variable_index@, output) matches Some(oid)
                && final(self).graph.variables@[oid.0 as int].producer
                    == Some(PatternVertexId(old(self).graph.patterns@.len() as usize))),
            r is Ok ==> forall|v: int| 0 <= v < old(self).graph.variables@.len()
                ==> (#[trigger] final(self).graph.variables@[v]
                    == old(self).graph.variables@[v]
                    || final(self).graph.variables@[v] == (crate::vertex::VariableVertex {
                        producer: Some(PatternVertexId(old(self).graph.patterns@.len() as usize)),
                        ..old(self).graph.variables@[v]
                    })),
            r is Err ==> final(self).graph.patterns@ == old(self).graph.patterns@,
            r is Err ==> final(self).graph.variables@ == old(self).graph.variables@,
            r is Err ==> r == Err::<(), PlannerError>(
                PlannerError::Invariant(InvariantViolation::UnregisteredVariable),
            ),
    {
        let out_id = match self.resolve_variable(output) {
            Ok(id) => id,
            Err(e) => {
                return Err(e);
            },
        };
        let mut raw: Vec<usize> = Vec::new();
        let mut i: usize = 0;
        proof {
            assert(inputs@.take(0) =~= Seq::<Variable>::empty());
            assert(spec_resolved_ids(self.graph.variable_index@, inputs@.take(0))
                =~= Seq::<VariableVertexId>::empty());
            assert(raw@ =~= spec_resolved_usizes(self.graph.variable_index@, inputs@.take(0)));
        }
        while i < inputs.len()
            invariant
                0 <= i <= inputs@.len(),
                self.graph == old(self).graph,
                self.graph.wf(),
                raw@.len() == i,
                raw@ == spec_resolved_usizes(self.graph.variable_index@, inputs@.take(i as int)),
                forall|k: int| 0 <= k < i
                    ==> spec_index_of(
                        self.graph.variable_index@,
                        #[trigger] inputs@[k],
                    ) is Some,
                forall|k: int| 0 <= k < i
                    ==> (#[trigger] raw@[k]) < self.graph.variables@.len(),
            decreases inputs@.len() - i,
        {
            proof {
                assert(inputs@.take(i as int + 1).drop_last() =~= inputs@.take(i as int));
                assert(inputs@.take(i as int + 1).last() == inputs@[i as int]);
            }
            let id = match self.resolve_variable(inputs[i]) {
                Ok(id) => id,
                Err(e) => {
                    return Err(e);
                },
            };
            raw.push(id.0);
            proof {
                assert(raw@ =~= spec_ids_as_usizes(
                    spec_resolved_ids(
                        self.graph.variable_index@,
                        inputs@.take(i as int + 1),
                    ),
                ));
            }
            i += 1;
        }
        proof {
            assert(inputs@.take(inputs@.len() as int) =~= inputs@);
        }
        let deduped = crate::outside::unique_usize(&raw);
        proof {
            crate::vertex::lemma_dedup_first(raw@);
            assert forall|j: int| 0 <= j < deduped@.len() implies
                (#[trigger] deduped@[j]) < self.graph.variables@.len() by {
                assert(deduped@.contains(deduped@[j]));
                assert(raw@.contains(deduped@[j]));
                let t = choose|t: int| 0 <= t < raw@.len() && raw@[t] == deduped@[j];
            }
        }
        let mut ids: Vec<VariableVertexId> = Vec::new();
        let mut k: usize = 0;
        while k < deduped.len()
            invariant
                0 <= k <= deduped@.len(),
                self.graph == old(self).graph,
                self.graph.wf(),
                ids@.len() == k,
                forall|j: int| 0 <= j < k ==> (#[trigger] ids@[j]).0 == deduped@[j],
                forall|j: int| 0 <= j < deduped@.len()
                    ==> (#[trigger] deduped@[j]) < self.graph.variables@.len(),
                forall|j: int| 0 <= j < k
                    ==> (#[trigger] ids@[j]).0 < self.graph.variables@.len(),
            decreases deduped@.len() - k,
        {
            ids.push(VariableVertexId(deduped[k]));
            k += 1;
        }
        proof {
            assert(spec_ids_as_usizes(ids@) =~= deduped@);
        }
        self.graph.push_expression(ids, out_id);
        Ok(())
    }

    /// Registers a function-call binding and links every assigned
    /// variable's producer.
    pub fn register_function_call_binding(
        &mut self,
        function_id: u64,
        assigned: &Vec<Variable>,
        arguments: &Vec<Variable>,
    ) -> (r: Result<(), PlannerError>)
        requires
            old(self).graph.wf(),
            old(self).graph.patterns@.len() < usize::MAX,
        ensures
            final(self).graph.wf(),
            final(self).graph.variables@.len() == old(self).graph.variables@.len(),
            final(self).graph.variable_index@ == old(self).graph.variable_index@,
            r is Ok == ((forall|k: int| 0 <= k < assigned@.len()
                ==> spec_index_of(
                    old(self).graph.variable_index@,
                    #[trigger] assigned@[k],
                ) is Some) && (forall|k: int| 0 <= k < arguments@.len()
                ==> spec_index_of(
                    old(self).graph.variable_index@,
                    #[trigger] arguments@[k],
                ) is Some)),
            r is Ok ==> final(self).graph.patterns@.len()
                == old(self).graph.patterns@.len() + 1,
            r is Ok ==> old(self).graph.patterns@.is_prefix_of(final(self).graph.patterns@),
            r is Ok ==> (final(self).graph.patterns@.last() matches
                PatternVertex::FunctionCall { function_id: f, arguments: a, assigned: sg }
                    && f == function_id
                    && a@ == spec_resolved_ids(old(self).graph.variable_index@, arguments@)
                    && sg@ == spec_resolved_ids(old(self).graph.variable_index@, assigned@)),
            r is Ok ==> forall|k: int| 0 <= k < assigned@.len()
                ==> (match spec_index_of(
                    old(self).graph.variable_index@,
                    #[trigger] assigned@[k],
                ) {
                    Some(id) => final(self).graph.variables@[id.0 as int].producer
                        == Some(PatternVertexId(old(self).graph.patterns@.len() as usize)),
                    None => true,
                }),
            r is Ok ==> forall|v: int| 0 <= v < old(self).graph.variables@.len()
                ==> (#[trigger] final(self).graph.variables@[v]
                    == old(self).graph.variables@[v]
                    || final(self).graph.variables@[v] == (crate::vertex::VariableVertex {
                        producer: Some(PatternVertexId(old(self).graph.patterns@.len() as usize)),
                        ..old(self).graph.variables@[v]
                    })),
            r is Err ==> final(self).graph.patterns@ == old(self).graph.patterns@,
            r is Err ==> final(self).graph.variables@ == old(self).graph.variables@,
            r is Err ==> r == Err::<(), PlannerError>(
                PlannerError::Invariant(InvariantViolation::UnregisteredVariable),
            ),
    {
        let mut arg_ids: Vec<VariableVertexId> = Vec::new();
        let mut i: usize = 0;
        proof {
            assert(arguments@.take(0) =~= Seq::<Variable>::empty());
        }
        while i < arguments.len()
            invariant
                0 <= i <= arguments@.len(),
                self.graph == old(self).graph,
                self.graph.wf(),
                arg_ids@ == spec_resolved_ids(
                    self.graph.variable_index@,
                    arguments@.take(i as int),
                ),
                arg_ids@.len() == i,
                forall|k: int| 0 <= k < i
                    ==> spec_index_of(
                        self.graph.variable_index@,
                        #[trigger] arguments@[k],
                    ) is Some,
                forall|k: int| 0 <= k < arg_ids@.len()
                    ==> (#[trigger] arg_ids@[k]).0 < self.graph.variables@.len(),
            decreases arguments@.len() - i,
        {
            proof {
                assert(arguments@.take(i as int + 1).drop_last() =~= arguments@.take(i as int));
                assert(arguments@.take(i as int + 1).last() == arguments@[i as int]);
            }
            let id = match self.resolve_variable(arguments[i]) {
                Ok(id) => id,
                Err(e) => {
                    return Err(e);
                },
            };
            arg_ids.push(id);
            i += 1;
        }
        proof {
            assert(arguments@.take(arguments@.len() as int) =~= arguments@);
        }
        let mut assigned_ids: Vec<VariableVertexId> = Vec::new();
        let mut k: usize = 0;
        proof {
            assert(assigned@.take(0) =~= Seq::<Variable>::empty());
        }
        while k < assigned.len()
            invariant
                0 <= k <= assigned@.len(),
                self.graph == old(self).graph,
                self.graph.wf(),
                assigned_ids@ == spec_resolved_ids(
                    self.graph.variable_index@,
                    assigned@.take(k as int),
                ),
                assigned_ids@.len() == k,
                arg_ids@ == spec_resolved_ids(self.graph.variable_index@, arguments@),
                forall|j: int| 0 <= j < k
                    ==> spec_index_of(
                        self.graph.variable_index@,
                        #[trigger] assigned@[j],
                    ) is Some,
                forall|j: int| 0 <= j < assigned_ids@.len()
                    ==> (#[trigger] assigned_ids@[j]).0 < self.graph.variables@.len(),
                forall|j: int| 0 <= j < arg_ids@.len()
                    ==> (#[trigger] arg_ids@[j]).0 < self.graph.variables@.len(),
                forall|j: int| 0 <= j < arguments@.len()
                    ==> spec_index_of(
                        self.graph.variable_index@,
                        #[trigger] arguments@[j],
                    ) is Some,
            decreases assigned@.len() - k,
        {
            proof {
                assert(assigned@.take(k as int + 1).drop_last() =~= assigned@.take(k as int));
                assert(assigned@.take(k as int + 1).last() == assigned@[k as int]);
            }
            let id = match self.resolve_variable(assigned[k]) {
                Ok(id) => id,
                Err(e) => {
                    return Err(e);
                },
            };
            assigned_ids.push(id);
            k += 1;
        }
        proof {
            assert(assigned@.take(assigned@.len() as int) =~= assigned@);
            lemma_resolved_ids_pointwise(self.graph.variable_index@, assigned@);
        }
        self.graph.push_function_call(function_id, arg_ids, assigned_ids);
        Ok(())
    }

    /// Registers a pre-planned negation over its captured variables.
    pub fn register_negation(
        &mut self,
        shared: &Vec<Variable>,
        cost: CombinedCost,
    ) -> (r: Result<(), PlannerError>)
        requires
            old(self).graph.wf(),
            old(self).graph.patterns@.len() < usize::MAX,
        ensures
            final(self).graph.wf(),
            final(self).graph.variables@ == old(self).graph.variables@,
            final(self).graph.variable_index@ == old(self).graph.variable_index@,
            r is Ok == (forall|k: int| 0 <= k < shared@.len()
                ==> spec_index_of(
                    old(self).graph.variable_index@,
                    #[trigger] shared@[k],
                ) is Some),
            r is Ok ==> final(self).graph.patterns@.len()
                == old(self).graph.patterns@.len() + 1,
            r is Ok ==> old(self).graph.patterns@.is_prefix_of(final(self).graph.patterns@),
            r is Ok ==> (final(self).graph.patterns@.last() matches
                PatternVertex::Negation { shared: sh, cost: c }
                    && c == cost
                    && sh@ == spec_resolved_ids(old(self).graph.variable_index@, shared@)),
            r is Err ==> final(self).graph.patterns@ == old(self).graph.patterns@,
            r is Err ==> r == Err::<(), PlannerError>(
                PlannerError::Invariant(InvariantViolation::UnregisteredVariable),
            ),
    {
        let ids = match self.resolve_all(shared) {
            Ok(ids) => ids,
            Err(e) => {
                return Err(e);
            },
        };
        self.graph.push_negation(ids, cost);
        Ok(())
    }

    /// Registers a disjunction over pre-costed branch conjunctions.
    pub fn register_disjunction(
        &mut self,
        shared: &Vec<Variable>,
        branches: Vec<usize>,
        cost: CombinedCost,
    ) -> (r: Result<(), PlannerError>)
        requires
            old(self).graph.wf(),
            old(self).graph.patterns@.len() < usize::MAX,
        ensures
            final(self).graph.wf(),
            final(self).graph.variables@ == old(self).graph.variables@,
            final(self).graph.variable_index@ == old(self).graph.variable_index@,
            r is Ok == (forall|k: int| 0 <= k < shared@.len()
                ==> spec_index_of(
                    old(self).graph.variable_index@,
                    #[trigger] shared@[k],
                ) is Some),
            r is Ok ==> final(self).graph.patterns@.len()
                == old(self).graph.patterns@.len() + 1,
            r is Ok ==> old(self).graph.patterns@.is_prefix_of(final(self).graph.patterns@),
            r is Ok ==> (final(self).graph.patterns@.last() matches
                PatternVertex::Disjunction { shared: sh, branches: b, cost: c }
                    && c == cost
                    && b@ == branches@
                    && sh@ == spec_resolved_ids(old(self).graph.variable_index@, shared@)),
            r is Err ==> final(self).graph.patterns@ == old(self).graph.patterns@,
            r is Err ==> r == Err::<(), PlannerError>(
                PlannerError::Invariant(InvariantViolation::UnregisteredVariable),
            ),
    {
        let ids = match self.resolve_all(shared) {
            Ok(ids) => ids,
            Err(e) => {
                return Err(e);
            },
        };
        self.graph.push_disjunction(ids, branches, cost);
        Ok(())
    }

    /// Resolves a list of variables, failing on the first unregistered one.
    fn resolve_all(&self, vars: &Vec<Variable>) -> (r: Result<
        Vec<VariableVertexId>,
        PlannerError,
    >)
        requires
            self.graph.wf(),
        ensures
            r is Ok == (forall|k: int| 0 <= k < vars@.len()
                ==> spec_index_of(self.graph.variable_index@, #[trigger] vars@[k]) is Some),
            r matches Ok(ids) ==> ids@ == spec_resolved_ids(self.graph.variable_index@, vars@),
            r matches Ok(ids) ==> ids@.len() == vars@.len(),
            r matches Ok(ids) ==> forall|k: int| 0 <= k < ids@.len()
                ==> (#[trigger] ids@[k]).0 < self.graph.variables@.len(),
            r is Err ==> r == Err::<Vec<VariableVertexId>, PlannerError>(
                PlannerError::Invariant(InvariantViolation::UnregisteredVariable),
            ),
    {
        let mut ids: Vec<VariableVertexId> = Vec::new();
        let mut i: usize = 0;
        proof {
            assert(vars@.take(0) =~= Seq::<Variable>::empty());
        }
        while i < vars.len()
            invariant
                0 <= i <= vars@.len(),
                self.graph.wf(),
                ids@.len() == i,
                ids@ == spec_resolved_ids(self.graph.variable_index@, vars@.take(i as int)),
                forall|k: int| 0 <= k < i
                    ==> spec_index_of(
                        self.graph.variable_index@,
                        #[trigger] vars@[k],
                    ) is Some,
                forall|k: int| 0 <= k < i
                    ==> (#[trigger] ids@[k]).0 < self.graph.variables@.len(),
            decreases vars@.len() - i,
        {
            proof {
                assert(vars@.take(i as int + 1).drop_last() =~= vars@.take(i as int));
                assert(vars@.take(i as int + 1).last() == vars@[i as int]);
            }
            let id = match self.resolve_variable(vars[i]) {
                Ok(id) => id,
                Err(e) => {
                    return Err(e);
                },
            };
            ids.push(id);
            i += 1;
        }
        proof {
            assert(vars@.take(vars@.len() as int) =~= vars@);
        }
        Ok(ids)
    }

    /// Registers every constraint of the conjunction, once each. Succeeds
    /// exactly when every constraint's variables are registered and its
    /// comparator is supported.
    pub fn register_constraints(
        &mut self,
        conjunction: &Conjunction,
        annotations: &TypeAnnotations,
        statistics: &Statistics,
    ) -> (r: Result<(), PlannerError>)
        requires
            old(self).graph.wf(),
            old(self).graph.patterns@.len() + conjunction.constraints@.len() < usize::MAX,
        ensures
            final(self).graph.wf(),
            final(self).graph.variables@.len() == old(self).graph.variables@.len(),
            final(self).graph.variable_index@ == old(self).graph.variable_index@,
            forall|v: int| 0 <= v < old(self).graph.variables@.len()
                ==> ((#[trigger] final(self).graph.variables@[v]).unbound_total
                    == old(self).graph.variables@[v].unbound_total
                    && final(self).graph.variables@[v].kind
                    == old(self).graph.variables@[v].kind
                    && final(self).graph.variables@[v].variable
                    == old(self).graph.variables@[v].variable),
            r is Ok == (forall|k: int| 0 <= k < conjunction.constraints@.len()
                ==> spec_constraint_ok(
                    #[trigger] conjunction.constraints@[k],
                    old(self).graph.variable_index@,
                )),
            r is Ok ==> final(self).graph.patterns@.len()
                == old(self).graph.patterns@.len() + conjunction.constraints@.len(),
            r is Ok ==> forall|k: int| 0 <= k < conjunction.constraints@.len()
                ==> spec_registered_pattern(
                    final(self).graph.patterns@[old(self).graph.patterns@.len() + k],
                    #[trigger] conjunction.constraints@[k],
                    &final(self).graph,
                    annotations,
                    statistics,
                ),
            r matches Err(e) ==> (e is Invariant || e is Unsupported),
            r matches Err(e) ==> exists|k: int|
                0 <= k < conjunction.constraints@.len() && spec_constraint_error_matches(
                    #[trigger] conjunction.constraints@[k],
                    old(self).graph.variable_index@,
                    e,
                ),
    {
        let ghost base = old(self).graph.patterns@.len() as int;
        let mut i: usize = 0;
        while i < conjunction.constraints.len()
            invariant
                0 <= i <= conjunction.constraints@.len(),
                base == old(self).graph.patterns@.len(),
                self.graph.wf(),
                self.graph.variables@.len() == old(self).graph.variables@.len(),
                self.graph.variable_index@ == old(self).graph.variable_index@,
                forall|v: int| 0 <= v < old(self).graph.variables@.len()
                    ==> ((#[trigger] self.graph.variables@[v]).unbound_total
                        == old(self).graph.variables@[v].unbound_total
                        && self.graph.variables@[v].kind
                        == old(self).graph.variables@[v].kind
                        && self.graph.variables@[v].variable
                        == old(self).graph.variables@[v].variable),
                self.graph.patterns@.len() == old(self).graph.patterns@.len() + i,
                old(self).graph.patterns@.len() + conjunction.constraints@.len() < usize::MAX,
                forall|k: int| 0 <= k < i
                    ==> spec_constraint_ok(
                        #[trigger] conjunction.constraints@[k],
                        self.graph.variable_index@,
                    ),
                forall|k: int| 0 <= k < i
                    ==> spec_registered_pattern(
                        self.graph.patterns@[base + k],
                        #[trigger] conjunction.constraints@[k],
                        &self.graph,
                        annotations,
                        statistics,
                    ),
            decreases conjunction.constraints@.len() - i,
        {
            let ghost gpre = self.graph;
            let result = match &conjunction.constraints[i] {
                ConstraintIr::Label { type_var, .. } => {
                    self.register_label(annotations, *type_var)
                },
                ConstraintIr::RoleName { type_var, .. } => {
                    self.register_role_name(annotations, *type_var)
                },
                ConstraintIr::Kind { type_var, .. } => {
                    self.register_kind(annotations, *type_var)
                },
                ConstraintIr::Value { attribute_type_var, .. } => {
                    self.register_value(annotations, *attribute_type_var)
                },
                ConstraintIr::Iid { var, .. } => self.register_iid(*var),
                ConstraintIr::Sub { subtype, supertype } => {
                    self.register_sub(annotations, statistics, *subtype, *supertype)
                },
                ConstraintIr::Owns { owner, attribute } => {
                    self.register_owns(annotations, statistics, *owner, *attribute)
                },
                ConstraintIr::Relates { relation, role_type } => {
                    self.register_relates(annotations, statistics, *relation, *role_type)
                },
                ConstraintIr::Plays { player, role_type } => {
                    self.register_plays(annotations, statistics, *player, *role_type)
                },
                ConstraintIr::Isa { thing, type_of } => {
                    self.register_isa(annotations, statistics, *thing, *type_of)
                },
                ConstraintIr::Has { owner, attribute } => {
                    self.register_has(annotations, statistics, *owner, *attribute)
                },
                ConstraintIr::Links { relation, player, role_type } => {
                    self.register_links(annotations, statistics, *relation, *player, *role_type)
                },
                ConstraintIr::Is { lhs, rhs } => self.register_is(*lhs, *rhs),
                ConstraintIr::Comparison { lhs, rhs, comparator } => {
                    self.register_comparison(*lhs, *rhs, *comparator)
                },
                ConstraintIr::ExpressionBinding { output, inputs } => {
                    self.register_expression_binding(*output, inputs)
                },
                ConstraintIr::FunctionCallBinding { function_id, assigned, arguments } => {
                    self.register_function_call_binding(*function_id, assigned, arguments)
                },
            };
            if let Err(e) = result {
                proof {
                    assert(spec_constraint_error_matches(
                        conjunction.constraints@[i as int],
                        self.graph.variable_index@,
                        e,
                    ));
                }
                return Err(e);
            }
            proof {
                // The variable arena keeps its unbound totals, kinds and
                // identities: this step changed at most bound lists and
                // producer links.
                assert forall|v: int| 0 <= v < gpre.variables@.len() implies
                    ((#[trigger] self.graph.variables@[v]).unbound_total
                        == gpre.variables@[v].unbound_total
                        && self.graph.variables@[v].kind == gpre.variables@[v].kind
                        && self.graph.variables@[v].variable
                        == gpre.variables@[v].variable) by {
                    match conjunction.constraints@[i as int] {
                        ConstraintIr::Is { lhs, rhs } => {
                            assert(spec_vertex_bounds_after(
                                gpre.variables@,
                                self.graph.variables@,
                                Input::Variable(
                                    spec_index_of(gpre.variable_index@, lhs)->0,
                                ),
                                Input::Variable(
                                    spec_index_of(gpre.variable_index@, rhs)->0,
                                ),
                                Comparator::Equal,
                                v,
                            ));
                        },
                        ConstraintIr::Comparison { lhs, rhs, comparator } => {
                            assert(spec_vertex_bounds_after(
                                gpre.variables@,
                                self.graph.variables@,
                                spec_resolve_operand(gpre.variable_index@, lhs)->0,
                                spec_resolve_operand(gpre.variable_index@, rhs)->0,
                                comparator,
                                v,
                            ));
                        },
                        _ => {},
                    }
                }
                // The pattern recorded for this constraint, and all earlier
                // ones, match the dispatch specification under the current
                // graph.
                assert(spec_registered_pattern(
                    self.graph.patterns@[base + i],
                    conjunction.constraints@[i as int],
                    &gpre,
                    annotations,
                    statistics,
                ));
                assert(spec_constraint_ok(
                    conjunction.constraints@[i as int],
                    gpre.variable_index@,
                ));
                assert forall|k: int| 0 <= k < i + 1 implies spec_registered_pattern(
                    self.graph.patterns@[base + k],
                    #[trigger] conjunction.constraints@[k],
                    &self.graph,
                    annotations,
                    statistics,
                ) by {
                    if k < i {
                        assert(self.graph.patterns@[base + k] == gpre.patterns@[base + k]);
                        lemma_registered_pattern_stable(
                            self.graph.patterns@[base + k],
                            conjunction.constraints@[k],
                            &gpre,
                            &self.graph,
                            annotations,
                            statistics,
                        );
                    } else {
                        lemma_registered_pattern_stable(
                            self.graph.patterns@[base + k],
                            conjunction.constraints@[k],
                            &gpre,
                            &self.graph,
                            annotations,
                            statistics,
                        );
                    }
                }
            }
            i += 1;
        }
        Ok(())
    }
}


/// The planner vertex kind a registrable category maps to.
pub open spec fn spec_kind_of_category(c: VariableCategory) -> VariableVertexKind {
    match c {
        VariableCategory::Type
        | VariableCategory::ThingType
        | VariableCategory::AttributeType
        | VariableCategory::RoleType => VariableVertexKind::Type,
        VariableCategory::Thing
        | VariableCategory::Object
        | VariableCategory::Attribute => VariableVertexKind::Thing,
        VariableCategory::Value => VariableVertexKind::Value,
        _ => VariableVertexKind::Thing,
    }
}

/// The failure a variable's category produces, if any: a missing category
/// and an unresolved attribute-or-value are upstream invariant violations,
/// a list category is unsupported.
pub open spec fn spec_category_error(
    registry: Seq<(Variable, VariableCategory)>,
    v: Variable,
) -> Option<PlannerError> {
    match crate::ir::spec_category_of(registry, v) {
        Option::None => Some(PlannerError::Invariant(InvariantViolation::MissingVariableCategory)),
        Option::Some(c) => if c.spec_is_list() {
            Some(PlannerError::Unsupported(UnsupportedFeature::ListVariablePlanning))
        } else if c is AttributeOrValue {
            Some(PlannerError::Invariant(InvariantViolation::UnresolvedAttributeOrValue))
        } else {
            None
        },
    }
}

/// Every vertex registered by a variable pass is either an input vertex
/// for a listed input variable, or carries the kind its registry category
/// maps to.
pub open spec fn spec_fresh_kinds_ok(
    vars: Seq<VariableVertex>,
    from: int,
    inputs: Seq<Variable>,
    registry: Seq<(Variable, VariableCategory)>,
) -> bool {
    forall|v: int| from <= v < vars.len() ==> {
        let vert = #[trigger] vars[v];
        (inputs.contains(vert.variable) && vert.kind is Input)
            || vert.kind == spec_kind_of_category(
            crate::ir::spec_category_of(registry, vert.variable)->0,
        )
    }
}

/// A variable's category allows registration: present, not list-typed, and
/// not an unresolved attribute-or-value.
pub open spec fn spec_category_ok(
    registry: Seq<(Variable, VariableCategory)>,
    v: Variable,
) -> bool {
    match crate::ir::spec_category_of(registry, v) {
        Some(c) => !c.spec_is_list() && !(c is AttributeOrValue),
        None => false,
    }
}

/// A lookup that succeeded still succeeds after the index grows at the end.
proof fn lemma_index_monotone(
    pre: Seq<(Variable, VariableVertexId)>,
    post: Seq<(Variable, VariableVertexId)>,
)
    requires
        pre.is_prefix_of(post),
    ensures
        forall|v: Variable| spec_index_of(pre, v) is Some
            ==> #[trigger] spec_index_of(post, v) is Some,
{
    assert forall|v: Variable| spec_index_of(pre, v) is Some implies
        #[trigger] spec_index_of(post, v) is Some by {
        lemma_index_extend(pre, post, v);
    }
}

proof fn lemma_index_extend(
    pre: Seq<(Variable, VariableVertexId)>,
    post: Seq<(Variable, VariableVertexId)>,
    v: Variable,
)
    requires
        pre.is_prefix_of(post),
        spec_index_of(pre, v) is Some,
    ensures
        spec_index_of(post, v) is Some,
    decreases pre.len(),
{
    assert(pre[0] == post[0]);
    if pre[0].0 != v {
        assert(pre.drop_first().is_prefix_of(post.drop_first()));
        lemma_index_extend(pre.drop_first(), post.drop_first(), v);
    }
}

/// A pushed entry is found afterwards; earlier entries still resolve.
proof fn lemma_index_push(
    pre: Seq<(Variable, VariableVertexId)>,
    v: Variable,
    id: VariableVertexId,
)
    ensures
        spec_index_of(pre.push((v, id)), v) is Some,
        forall|w: Variable| spec_index_of(pre, w) is Some
            ==> #[trigger] spec_index_of(pre.push((v, id)), w) is Some,
    decreases pre.len(),
{
    if pre.len() == 0 {
        assert(pre.push((v, id))[0] == (v, id));
    } else {
        assert(pre.push((v, id))[0] == pre[0]);
        lemma_index_push(pre.drop_first(), v, id);
        assert(pre.push((v, id)).drop_first() =~= pre.drop_first().push((v, id)));
        assert forall|w: Variable| spec_index_of(pre, w) is Some implies
            #[trigger] spec_index_of(pre.push((v, id)), w) is Some by {
            if pre[0].0 != w {
                assert(spec_index_of(pre.drop_first(), w) is Some);
                assert(spec_index_of(pre.drop_first().push((v, id)), w) is Some);
            }
        }
        if pre[0].0 != v {
            assert(spec_index_of(pre.drop_first().push((v, id)), v) is Some);
        }
    }
}


/// The constraint vertex an `isa` registration produces.
pub open spec fn spec_isa_vertex(
    g: &Graph,
    ann: &TypeAnnotations,
    stats: &Statistics,
    thing: OperandIr,
    type_of: OperandIr,
) -> ConstraintVertex {
    ConstraintVertex {
        kind: ConstraintKind::Isa,
        lhs: spec_resolve_operand(g.variable_index@, thing)->0,
        rhs: spec_resolve_operand(g.variable_index@, type_of)->0,
        role: Input::Fixed,
        edge_total: (match thing {
            OperandIr::Variable(v) => spec_instance_total(ann.spec_get(v), stats),
            _ => 1,
        }),
        lhs_total: spec_input_total(
            g.variables@,
            spec_resolve_operand(g.variable_index@, thing)->0,
        ),
        rhs_total: spec_input_total(
            g.variables@,
            spec_resolve_operand(g.variable_index@, type_of)->0,
        ),
    }
}

/// The constraint vertex a `links` registration produces.
pub open spec fn spec_links_vertex(
    g: &Graph,
    ann: &TypeAnnotations,
    stats: &Statistics,
    relation: OperandIr,
    player: OperandIr,
    role_type: OperandIr,
) -> ConstraintVertex {
    ConstraintVertex {
        kind: ConstraintKind::Links,
        lhs: spec_resolve_operand(g.variable_index@, relation)->0,
        rhs: spec_resolve_operand(g.variable_index@, player)->0,
        role: spec_resolve_operand(g.variable_index@, role_type)->0,
        edge_total: spec_edge_total(&stats.links_edge_counts, ann, stats, relation, player),
        lhs_total: spec_input_total(
            g.variables@,
            spec_resolve_operand(g.variable_index@, relation)->0,
        ),
        rhs_total: spec_input_total(
            g.variables@,
            spec_resolve_operand(g.variable_index@, player)->0,
        ),
    }
}

/// The constraint vertex a unary type-list registration produces.
pub open spec fn spec_unary_vertex(
    g: &Graph,
    ann: &TypeAnnotations,
    kind: ConstraintKind,
    type_var: Variable,
) -> ConstraintVertex {
    ConstraintVertex {
        kind,
        lhs: Input::Variable(spec_index_of(g.variable_index@, type_var)->0),
        rhs: Input::Fixed,
        role: Input::Fixed,
        edge_total: ann.spec_get(type_var).len() as u64,
        lhs_total: ann.spec_get(type_var).len() as u64,
        rhs_total: 1,
    }
}

/// What a unary registration guarantees.
pub open spec fn register_unary_ensures(
    prev: ConjunctionPlanBuilder,
    next: ConjunctionPlanBuilder,
    ann: &TypeAnnotations,
    kind: ConstraintKind,
    type_var: Variable,
    r: Result<(), PlannerError>,
) -> bool {
    &&& next.graph.wf()
    &&& next.graph.variables@ == prev.graph.variables@
    &&& next.graph.variable_index@ == prev.graph.variable_index@
    &&& (r is Ok == (spec_index_of(prev.graph.variable_index@, type_var) is Some))
    &&& (r is Ok ==> next.graph.patterns@ == prev.graph.patterns@.push(
        PatternVertex::Constraint(spec_unary_vertex(&prev.graph, ann, kind, type_var)),
    ))
    &&& (r is Err ==> next.graph.patterns@ == prev.graph.patterns@)
    &&& (r is Err ==> r == Err::<(), PlannerError>(
        PlannerError::Invariant(InvariantViolation::UnregisteredVariable),
    ))
}

/// What a binary registration guarantees.
pub open spec fn register_binary_ensures(
    prev: ConjunctionPlanBuilder,
    next: ConjunctionPlanBuilder,
    ann: &TypeAnnotations,
    stats: &Statistics,
    m: &PairCountMap,
    kind: ConstraintKind,
    lhs: OperandIr,
    rhs: OperandIr,
    r: Result<(), PlannerError>,
) -> bool {
    &&& next.graph.wf()
    &&& next.graph.variables@ == prev.graph.variables@
    &&& next.graph.variable_index@ == prev.graph.variable_index@
    &&& (r is Ok == (spec_resolve_operand(prev.graph.variable_index@, lhs) is Some
        && spec_resolve_operand(prev.graph.variable_index@, rhs) is Some))
    &&& (r is Ok ==> next.graph.patterns@ == prev.graph.patterns@.push(
        PatternVertex::Constraint(
            spec_binary_vertex(&prev.graph, ann, stats, m, kind, lhs, rhs),
        ),
    ))
    &&& (r is Err ==> next.graph.patterns@ == prev.graph.patterns@)
    &&& (r is Err ==> r == Err::<(), PlannerError>(
        PlannerError::Invariant(InvariantViolation::UnregisteredVariable),
    ))
}

} // verus!
