//! Planning over the schema-level constraint kinds: `is` assignment,
//! reverse directions, type-list filters, iid lookups and the remaining
//! binary kinds.

use match_planner::{
    plan_query, CombinedCost, Conjunction, ConstraintIr, Direction, LoweredEntry, OperandIr,
    PatternVertexId, QueryIr, SchemaType, Statistics, TypeAnnotations, Variable,
    VariableCategory, VariableRegistry, VariableVertexId, VertexId, COST_SCALE,
};

const PERSON: u64 = 1;
const NAME: u64 = 2;

#[test]
fn is_assignment_produces_the_unbound_side() {
    // `$p isa person; $q is $p`: the `is` runs once the left side is
    // bound, producing the right side from it.
    let p = Variable(1);
    let q = Variable(2);
    let mut registry = VariableRegistry::new();
    registry.register(p, VariableCategory::Thing);
    registry.register(q, VariableCategory::Thing);
    let mut annotations = TypeAnnotations::new();
    annotations.annotate(p, vec![SchemaType::Entity(PERSON)]);
    annotations.annotate(q, vec![SchemaType::Entity(PERSON)]);
    let mut statistics = Statistics::new();
    statistics.entity_counts.set(PERSON, 1000);
    let mut conjunction = Conjunction::new(0);
    conjunction.constraints = vec![
        ConstraintIr::Isa { thing: OperandIr::Variable(p), type_of: OperandIr::Label(PERSON) },
        ConstraintIr::Is { lhs: q, rhs: p },
    ];
    conjunction.local_variables = vec![p, q];
    let ir = QueryIr { conjunctions: vec![conjunction] };

    let plans = plan_query(&ir, &registry, &annotations, &statistics, &Vec::new()).unwrap();
    let planned = &plans[0];
    let lowered = planned.plan.lower(&planned.graph);
    assert!(lowered.contains(&LoweredEntry::IsInstruction {
        pattern: PatternVertexId(1),
        input: VariableVertexId(0),
        output: VariableVertexId(1),
    }));
    // The equality was mirrored onto both variable planners, pinning the
    // expected size of each to one.
    assert_eq!(planned.graph.variables[0].expected_size(), 1);
    assert_eq!(planned.graph.variables[1].expected_size(), 1);
}

#[test]
fn has_prefers_the_reverse_direction_from_a_bound_attribute() {
    // The attribute is produced first (tiny attribute type); scanning
    // `has` from the attribute side is cheaper, so the planner picks the
    // reverse direction.
    let p = Variable(1);
    let n = Variable(2);
    let mut registry = VariableRegistry::new();
    registry.register(p, VariableCategory::Thing);
    registry.register(n, VariableCategory::Attribute);
    let mut annotations = TypeAnnotations::new();
    annotations.annotate(p, vec![SchemaType::Entity(PERSON)]);
    annotations.annotate(n, vec![SchemaType::Attribute(NAME)]);
    let mut statistics = Statistics::new();
    statistics.entity_counts.set(PERSON, 1_000_000);
    statistics.attribute_counts.set(NAME, 10);
    statistics.has_edge_counts.set(PERSON, NAME, 1_000_000);
    let mut conjunction = Conjunction::new(0);
    conjunction.constraints = vec![
        ConstraintIr::Isa { thing: OperandIr::Variable(n), type_of: OperandIr::Label(NAME) },
        ConstraintIr::Has { owner: OperandIr::Variable(p), attribute: OperandIr::Variable(n) },
    ];
    conjunction.local_variables = vec![p, n];
    let ir = QueryIr { conjunctions: vec![conjunction] };

    let plans = plan_query(&ir, &registry, &annotations, &statistics, &Vec::new()).unwrap();
    let plan = &plans[0].plan;
    // The tiny isa scan runs first, then has in reverse from the bound
    // attribute.
    let isa_position = plan
        .ordering
        .iter()
        .position(|v| *v == VertexId::Pattern(PatternVertexId(0)))
        .unwrap();
    let has_position = plan
        .ordering
        .iter()
        .position(|v| *v == VertexId::Pattern(PatternVertexId(1)))
        .unwrap();
    assert!(isa_position < has_position);
    assert_eq!(plan.directions[1], Some(Direction::Reverse));
}

#[test]
fn label_filter_and_iid_lookup_cost_constants() {
    // A label filter over a type variable costs one simple in-memory
    // operation; an iid lookup one iterator open.
    let t = Variable(1);
    let x = Variable(2);
    let mut registry = VariableRegistry::new();
    registry.register(t, VariableCategory::Type);
    registry.register(x, VariableCategory::Thing);
    let mut annotations = TypeAnnotations::new();
    annotations.annotate(t, vec![SchemaType::Entity(PERSON)]);
    annotations.annotate(x, vec![SchemaType::Entity(PERSON)]);
    let mut statistics = Statistics::new();
    statistics.entity_counts.set(PERSON, 50);
    let mut conjunction = Conjunction::new(0);
    conjunction.constraints = vec![
        ConstraintIr::Label { type_var: t, type_id: PERSON },
        ConstraintIr::Iid { var: x, iid_parameter: 77 },
    ];
    conjunction.local_variables = vec![t, x];
    let ir = QueryIr { conjunctions: vec![conjunction] };

    let plans = plan_query(&ir, &registry, &annotations, &statistics, &Vec::new()).unwrap();
    let graph = &plans[0].graph;
    let empty_prefix: Vec<VertexId> = Vec::new();
    let (label_cost, _) = graph.patterns[0].cost_and_metadata(&empty_prefix);
    assert_eq!(label_cost, CombinedCost { cost: 20_000, io_ratio: COST_SCALE });
    let (iid_cost, _) = graph.patterns[1].cost_and_metadata(&empty_prefix);
    assert_eq!(iid_cost, CombinedCost { cost: 5 * COST_SCALE, io_ratio: COST_SCALE });
}

#[test]
fn schema_kinds_register_their_edge_counts() {
    // `owns`, `plays`, `relates` and `sub` cost against their own edge
    // maps; each records the cross count of its endpoints' types.
    let a = Variable(1);
    let b = Variable(2);
    let mut registry = VariableRegistry::new();
    registry.register(a, VariableCategory::ThingType);
    registry.register(b, VariableCategory::AttributeType);
    let mut annotations = TypeAnnotations::new();
    annotations.annotate(a, vec![SchemaType::Entity(PERSON)]);
    annotations.annotate(b, vec![SchemaType::Attribute(NAME)]);
    let mut statistics = Statistics::new();
    statistics.owns_edge_counts.set(PERSON, NAME, 3);
    let mut conjunction = Conjunction::new(0);
    conjunction.constraints = vec![ConstraintIr::Owns {
        owner: OperandIr::Variable(a),
        attribute: OperandIr::Variable(b),
    }];
    conjunction.local_variables = vec![a, b];
    let ir = QueryIr { conjunctions: vec![conjunction] };

    let plans = plan_query(&ir, &registry, &annotations, &statistics, &Vec::new()).unwrap();
    match &plans[0].graph.patterns[0] {
        match_planner::vertex::PatternVertex::Constraint(c) => {
            assert_eq!(c.kind, match_planner::ConstraintKind::Owns);
            assert_eq!(c.edge_total, 3);
        },
        other => panic!("unexpected pattern vertex: {:?}", other),
    }
}

#[test]
fn function_call_output_waits_for_its_arguments() {
    // `$y = f($x)`: the call is valid only once the argument is produced,
    // and it is the producer of its assigned variable.
    let p = Variable(1);
    let y = Variable(2);
    let mut registry = VariableRegistry::new();
    registry.register(p, VariableCategory::Thing);
    registry.register(y, VariableCategory::Value);
    let mut annotations = TypeAnnotations::new();
    annotations.annotate(p, vec![SchemaType::Entity(PERSON)]);
    let mut statistics = Statistics::new();
    statistics.entity_counts.set(PERSON, 10);
    let mut conjunction = Conjunction::new(0);
    conjunction.constraints = vec![
        ConstraintIr::Isa { thing: OperandIr::Variable(p), type_of: OperandIr::Label(PERSON) },
        ConstraintIr::FunctionCallBinding {
            function_id: 42,
            assigned: vec![y],
            arguments: vec![p],
        },
    ];
    conjunction.local_variables = vec![p, y];
    let ir = QueryIr { conjunctions: vec![conjunction] };

    let plans = plan_query(&ir, &registry, &annotations, &statistics, &Vec::new()).unwrap();
    let planned = &plans[0];
    assert_eq!(planned.graph.variables[1].producer, Some(PatternVertexId(1)));
    let lowered = planned.plan.lower(&planned.graph);
    assert_eq!(
        lowered.last().unwrap(),
        &LoweredEntry::FunctionCallStep { pattern: PatternVertexId(1), function_id: 42 },
    );
    // The call is ordered after its argument variable.
    let arg_position = planned
        .plan
        .ordering
        .iter()
        .position(|v| *v == VertexId::Variable(VariableVertexId(0)))
        .unwrap();
    let call_position = planned
        .plan
        .ordering
        .iter()
        .position(|v| *v == VertexId::Pattern(PatternVertexId(1)))
        .unwrap();
    assert!(arg_position < call_position);
}

#[test]
fn noop_and_ratio_constructors() {
    let noop = CombinedCost::noop();
    assert_eq!(noop, CombinedCost { cost: 0, io_ratio: COST_SCALE });
    let empty = CombinedCost::empty();
    assert_eq!(empty, CombinedCost { cost: 0, io_ratio: 0 });
    let simple = CombinedCost::in_mem_simple_with_ratio(2 * COST_SCALE);
    assert_eq!(simple, CombinedCost { cost: 20_000, io_ratio: 2 * COST_SCALE });
    let complex = CombinedCost::in_mem_complex_with_ratio(COST_SCALE);
    assert_eq!(complex, CombinedCost { cost: 40_000, io_ratio: COST_SCALE });
}
