//! End-to-end planning scenarios over small schemas with seeded
//! statistics.

use match_planner::{
    initialise_greedy_ordering, plan_query, Comparator, Conjunction, ConstraintIr, Direction,
    DisjunctionIr, LoweredEntry, OperandIr, PatternVertexId, QueryIr, SchemaType, Statistics,
    TypeAnnotations, Variable, VariableCategory, VariableRegistry, VariableVertexId, VertexId,
    COST_SCALE,
};

const PERSON: u64 = 1;
const NAME: u64 = 2;
const AGE: u64 = 3;

fn person_statistics() -> Statistics {
    let mut statistics = Statistics::new();
    statistics.entity_counts.set(PERSON, 1_000_000);
    statistics.attribute_counts.set(NAME, 10_000_000);
    statistics.has_edge_counts.set(PERSON, NAME, 10_000_000);
    statistics
}

fn single_conjunction(constraints: Vec<ConstraintIr>, locals: Vec<Variable>) -> QueryIr {
    let mut conjunction = Conjunction::new(0);
    conjunction.constraints = constraints;
    conjunction.local_variables = locals;
    QueryIr { conjunctions: vec![conjunction] }
}

#[test]
fn scenario_single_isa_over_large_type() {
    // One pattern: a thing variable over a type of a million instances.
    // Expected: one step, canonical direction, the pattern then the
    // variable, and an io ratio of one million.
    let p = Variable(10);
    let mut registry = VariableRegistry::new();
    registry.register(p, VariableCategory::Thing);
    let mut annotations = TypeAnnotations::new();
    annotations.annotate(p, vec![SchemaType::Entity(PERSON)]);
    let statistics = person_statistics();
    let ir = single_conjunction(
        vec![ConstraintIr::Isa { thing: OperandIr::Variable(p), type_of: OperandIr::Label(PERSON) }],
        vec![p],
    );

    let plans = plan_query(&ir, &registry, &annotations, &statistics, &Vec::new()).unwrap();
    assert_eq!(plans.len(), 1);
    let plan = &plans[0].plan;
    assert_eq!(
        plan.ordering,
        vec![
            VertexId::Pattern(PatternVertexId(0)),
            VertexId::Variable(VariableVertexId(0)),
        ],
    );
    assert_eq!(plan.directions, vec![Some(Direction::Canonical)]);
    assert_eq!(plan.cost.io_ratio, 1_000_000 * COST_SCALE);
    assert_eq!(plan.cost.cost, 5 * COST_SCALE + 1_000_000 * COST_SCALE);
}

#[test]
fn scenario_has_chain() {
    // `isa` runs first and produces the owner; `has` follows with the
    // owner as its single input, canonically, producing the attribute.
    let p = Variable(10);
    let n = Variable(11);
    let mut registry = VariableRegistry::new();
    registry.register(p, VariableCategory::Thing);
    registry.register(n, VariableCategory::Attribute);
    let mut annotations = TypeAnnotations::new();
    annotations.annotate(p, vec![SchemaType::Entity(PERSON)]);
    annotations.annotate(n, vec![SchemaType::Attribute(NAME)]);
    let statistics = person_statistics();
    let ir = single_conjunction(
        vec![
            ConstraintIr::Isa { thing: OperandIr::Variable(p), type_of: OperandIr::Label(PERSON) },
            ConstraintIr::Has { owner: OperandIr::Variable(p), attribute: OperandIr::Variable(n) },
        ],
        vec![p, n],
    );

    let plans = plan_query(&ir, &registry, &annotations, &statistics, &Vec::new()).unwrap();
    let planned = &plans[0];
    let plan = &planned.plan;
    assert_eq!(
        plan.ordering,
        vec![
            VertexId::Pattern(PatternVertexId(0)),
            VertexId::Variable(VariableVertexId(0)),
            VertexId::Pattern(PatternVertexId(1)),
            VertexId::Variable(VariableVertexId(1)),
        ],
    );
    assert_eq!(plan.directions[1], Some(Direction::Canonical));

    let lowered = plan.lower(&planned.graph);
    assert_eq!(
        lowered,
        vec![
            LoweredEntry::BeginStep { sort_variable: VariableVertexId(0) },
            LoweredEntry::ConstraintInstruction {
                pattern: PatternVertexId(0),
                kind: match_planner::ConstraintKind::Isa,
                direction: Direction::Canonical,
                inputs: match_planner::InputsSpec::Unbound,
            },
            LoweredEntry::BeginStep { sort_variable: VariableVertexId(1) },
            LoweredEntry::ConstraintInstruction {
                pattern: PatternVertexId(1),
                kind: match_planner::ConstraintKind::Has,
                direction: Direction::Canonical,
                inputs: match_planner::InputsSpec::Single(VariableVertexId(0)),
            },
        ],
    );
}

#[test]
fn scenario_beam_joins_cheaper_than_greedy() {
    // The beam absorbs the `has` scan into the `isa` step with a join
    // reduction, so its plan is strictly cheaper than the greedy chain.
    let p = Variable(10);
    let n = Variable(11);
    let mut registry = VariableRegistry::new();
    registry.register(p, VariableCategory::Thing);
    registry.register(n, VariableCategory::Attribute);
    let mut annotations = TypeAnnotations::new();
    annotations.annotate(p, vec![SchemaType::Entity(PERSON)]);
    annotations.annotate(n, vec![SchemaType::Attribute(NAME)]);
    let statistics = person_statistics();
    let ir = single_conjunction(
        vec![
            ConstraintIr::Isa { thing: OperandIr::Variable(p), type_of: OperandIr::Label(PERSON) },
            ConstraintIr::Has { owner: OperandIr::Variable(p), attribute: OperandIr::Variable(n) },
        ],
        vec![p, n],
    );

    let plans = plan_query(&ir, &registry, &annotations, &statistics, &Vec::new()).unwrap();
    let planned = &plans[0];
    let greedy = initialise_greedy_ordering(&planned.graph).unwrap();
    // Beam result never exceeds greedy; here the join makes it strictly
    // cheaper. This fails if joinability never detects the shared owner.
    assert!(planned.plan.cost.cost < greedy.cost.cost);
    assert_eq!(planned.plan.cost.cost, 1_000_005 * COST_SCALE + 15 * COST_SCALE);
    assert_eq!(planned.plan.cost.io_ratio, 10 * COST_SCALE);
}

#[test]
fn scenario_triangular_join_intersects() {
    // Two owners share one attribute variable: the second `has` scan is
    // fully bound by the time it is placed, and is lowered as a check
    // inside the step sorted on the shared attribute.
    let p1 = Variable(10);
    let p2 = Variable(11);
    let n = Variable(12);
    let mut registry = VariableRegistry::new();
    registry.register(p1, VariableCategory::Thing);
    registry.register(p2, VariableCategory::Thing);
    registry.register(n, VariableCategory::Attribute);
    let mut annotations = TypeAnnotations::new();
    annotations.annotate(p1, vec![SchemaType::Entity(PERSON)]);
    annotations.annotate(p2, vec![SchemaType::Entity(PERSON)]);
    annotations.annotate(n, vec![SchemaType::Attribute(NAME)]);
    let statistics = person_statistics();
    let ir = single_conjunction(
        vec![
            ConstraintIr::Isa { thing: OperandIr::Variable(p1), type_of: OperandIr::Label(PERSON) },
            ConstraintIr::Isa { thing: OperandIr::Variable(p2), type_of: OperandIr::Label(PERSON) },
            ConstraintIr::Has { owner: OperandIr::Variable(p1), attribute: OperandIr::Variable(n) },
            ConstraintIr::Has { owner: OperandIr::Variable(p2), attribute: OperandIr::Variable(n) },
        ],
        vec![p1, p2, n],
    );

    let plans = plan_query(&ir, &registry, &annotations, &statistics, &Vec::new()).unwrap();
    let planned = &plans[0];
    let lowered = planned.plan.lower(&planned.graph);
    // The last `has` placed produces nothing and is emitted as a check.
    let checks = lowered
        .iter()
        .filter(|e| matches!(e, LoweredEntry::CheckInstruction { .. }))
        .count();
    assert_eq!(checks, 1);
    // Every pattern appears exactly once in the ordering.
    for pattern in 0..4 {
        let occurrences = planned
            .plan
            .ordering
            .iter()
            .filter(|v| **v == VertexId::Pattern(PatternVertexId(pattern)))
            .count();
        assert_eq!(occurrences, 1);
    }
}

#[test]
fn scenario_comparison_absorbed_as_check() {
    // `$a has age $x; $b has age $y; $x < $y`: the comparison consumes
    // two bound values and is lowered as a check, never as its own
    // producing step.
    let a = Variable(20);
    let b = Variable(21);
    let x = Variable(22);
    let y = Variable(23);
    let mut registry = VariableRegistry::new();
    registry.register(a, VariableCategory::Thing);
    registry.register(b, VariableCategory::Thing);
    registry.register(x, VariableCategory::Attribute);
    registry.register(y, VariableCategory::Attribute);
    let mut annotations = TypeAnnotations::new();
    annotations.annotate(a, vec![SchemaType::Entity(PERSON)]);
    annotations.annotate(b, vec![SchemaType::Entity(PERSON)]);
    annotations.annotate(x, vec![SchemaType::Attribute(AGE)]);
    annotations.annotate(y, vec![SchemaType::Attribute(AGE)]);
    let mut statistics = person_statistics();
    statistics.attribute_counts.set(AGE, 100);
    statistics.has_edge_counts.set(PERSON, AGE, 1_000_000);
    let ir = single_conjunction(
        vec![
            ConstraintIr::Has { owner: OperandIr::Variable(a), attribute: OperandIr::Variable(x) },
            ConstraintIr::Has { owner: OperandIr::Variable(b), attribute: OperandIr::Variable(y) },
            ConstraintIr::Comparison {
                lhs: OperandIr::Variable(x),
                rhs: OperandIr::Variable(y),
                comparator: Comparator::Less,
            },
        ],
        vec![a, b, x, y],
    );

    let plans = plan_query(&ir, &registry, &annotations, &statistics, &Vec::new()).unwrap();
    let planned = &plans[0];
    let lowered = planned.plan.lower(&planned.graph);
    let comparison_entries: Vec<&LoweredEntry> = lowered
        .iter()
        .filter(|e| matches!(e, LoweredEntry::CheckInstruction { pattern } if pattern.0 == 2))
        .collect();
    assert_eq!(comparison_entries.len(), 1);
    // The comparison is ordered after both value variables it consumes.
    let comparison_position = planned
        .plan
        .ordering
        .iter()
        .position(|v| *v == VertexId::Pattern(PatternVertexId(2)))
        .unwrap();
    for value_var in [2usize, 3usize] {
        let var_position = planned
            .plan
            .ordering
            .iter()
            .position(|v| *v == VertexId::Variable(VariableVertexId(value_var)))
            .unwrap();
        assert!(var_position < comparison_position);
    }
}

#[test]
fn scenario_negation_after_captured_variable() {
    // `$p isa person; not { $p has name $n; }`: the negation is planned
    // with the captured owner as input and enters the outer ordering only
    // after the owner is produced.
    let p = Variable(10);
    let n = Variable(11);
    let mut registry = VariableRegistry::new();
    registry.register(p, VariableCategory::Thing);
    registry.register(n, VariableCategory::Attribute);
    let mut annotations = TypeAnnotations::new();
    annotations.annotate(p, vec![SchemaType::Entity(PERSON)]);
    annotations.annotate(n, vec![SchemaType::Attribute(NAME)]);
    let statistics = person_statistics();

    let mut outer = Conjunction::new(0);
    outer.constraints = vec![ConstraintIr::Isa {
        thing: OperandIr::Variable(p),
        type_of: OperandIr::Label(PERSON),
    }];
    outer.local_variables = vec![p];
    outer.negations = vec![1];
    let mut inner = Conjunction::new(1);
    inner.constraints = vec![ConstraintIr::Has {
        owner: OperandIr::Variable(p),
        attribute: OperandIr::Variable(n),
    }];
    inner.shared_variables = vec![p];
    inner.local_variables = vec![n];
    let ir = QueryIr { conjunctions: vec![outer, inner] };

    let plans = plan_query(&ir, &registry, &annotations, &statistics, &Vec::new()).unwrap();
    assert_eq!(plans.len(), 2);
    let outer_plan = &plans[0].plan;
    let isa_position = outer_plan
        .ordering
        .iter()
        .position(|v| *v == VertexId::Pattern(PatternVertexId(0)))
        .unwrap();
    let negation_position = outer_plan
        .ordering
        .iter()
        .position(|v| *v == VertexId::Pattern(PatternVertexId(1)))
        .unwrap();
    assert!(isa_position < negation_position);
    let lowered = outer_plan.lower(&plans[0].graph);
    assert_eq!(
        lowered.last().unwrap(),
        &LoweredEntry::NegationStep { pattern: PatternVertexId(1) },
    );
}

#[test]
fn scenario_disjunction_combines_branches_in_parallel() {
    // `$p isa person; { $p has name "a"; } or { $p has name "b"; }`: one
    // disjunction pattern whose cached cost is the parallel combination of
    // the two branch plans; it is lowered as a disjunction step.
    let p = Variable(10);
    let mut registry = VariableRegistry::new();
    registry.register(p, VariableCategory::Thing);
    let mut annotations = TypeAnnotations::new();
    annotations.annotate(p, vec![SchemaType::Entity(PERSON)]);
    let statistics = person_statistics();

    let mut outer = Conjunction::new(0);
    outer.constraints = vec![ConstraintIr::Isa {
        thing: OperandIr::Variable(p),
        type_of: OperandIr::Label(PERSON),
    }];
    outer.local_variables = vec![p];
    outer.disjunctions = vec![DisjunctionIr { branches: vec![1, 2] }];
    let mut branch_a = Conjunction::new(1);
    branch_a.constraints = vec![ConstraintIr::Has {
        owner: OperandIr::Variable(p),
        attribute: OperandIr::Parameter(100),
    }];
    branch_a.shared_variables = vec![p];
    let mut branch_b = Conjunction::new(2);
    branch_b.constraints = vec![ConstraintIr::Has {
        owner: OperandIr::Variable(p),
        attribute: OperandIr::Parameter(101),
    }];
    branch_b.shared_variables = vec![p];
    let ir = QueryIr { conjunctions: vec![outer, branch_a, branch_b] };

    let plans = plan_query(&ir, &registry, &annotations, &statistics, &Vec::new()).unwrap();
    assert_eq!(plans.len(), 3);
    // The branch plans have identical shape, so the parallel combination
    // sums their costs and io ratios: each doubles.
    let branch_cost = plans[1].plan.cost;
    assert_eq!(plans[2].plan.cost, branch_cost);
    match &plans[0].graph.patterns[1] {
        match_planner::vertex::PatternVertex::Disjunction { cost, branches, .. } => {
            assert_eq!(branches, &vec![1usize, 2usize]);
            assert_eq!(cost.cost, 2 * branch_cost.cost);
            assert_eq!(cost.io_ratio, 2 * branch_cost.io_ratio);
        },
        other => panic!("unexpected pattern vertex: {:?}", other),
    }
    let lowered = plans[0].plan.lower(&plans[0].graph);
    assert_eq!(
        lowered.last().unwrap(),
        &LoweredEntry::DisjunctionStep { pattern: PatternVertexId(1) },
    );
}

#[test]
fn plan_is_valid_at_every_prefix() {
    // The validity-prefix invariant, checked executably: every pattern of
    // the ordering satisfies its validity predicate under the prefix
    // before it.
    let p = Variable(10);
    let n = Variable(11);
    let mut registry = VariableRegistry::new();
    registry.register(p, VariableCategory::Thing);
    registry.register(n, VariableCategory::Attribute);
    let mut annotations = TypeAnnotations::new();
    annotations.annotate(p, vec![SchemaType::Entity(PERSON)]);
    annotations.annotate(n, vec![SchemaType::Attribute(NAME)]);
    let statistics = person_statistics();
    let ir = single_conjunction(
        vec![
            ConstraintIr::Isa { thing: OperandIr::Variable(p), type_of: OperandIr::Label(PERSON) },
            ConstraintIr::Has { owner: OperandIr::Variable(p), attribute: OperandIr::Variable(n) },
            ConstraintIr::Comparison {
                lhs: OperandIr::Variable(n),
                rhs: OperandIr::Parameter(7),
                comparator: Comparator::GreaterOrEqual,
            },
        ],
        vec![p, n],
    );
    let plans = plan_query(&ir, &registry, &annotations, &statistics, &Vec::new()).unwrap();
    let planned = &plans[0];
    for (i, vertex) in planned.plan.ordering.iter().enumerate() {
        if let VertexId::Pattern(pattern) = vertex {
            let prefix: Vec<VertexId> = planned.plan.ordering[..i].to_vec();
            assert!(planned.graph.patterns[pattern.0].is_valid(&prefix));
        }
    }
}
