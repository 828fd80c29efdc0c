//! The graph-facing API: vertex id sets, id accessors, the statistics
//! oracle, the variable registry, optionals and expression deduplication.

use match_planner::{
    instance_count, Conjunction, ConstraintIr, CountMap, ExpressionOpCode, Input, OperandIr,
    Optional, PatternVertexId, PatternVertexIdSet, QueryIr, SchemaType, Statistics,
    TypeAnnotations, Variable, VariableCategory, VariableRegistry, VariableVertexId,
    VariableVertexIdSet, VertexId,
};

#[test]
fn variable_set_insert_is_idempotent() {
    let mut set = VariableVertexIdSet::new();
    assert!(set.insert(VariableVertexId(3)));
    assert!(set.insert(VariableVertexId(5)));
    assert!(!set.insert(VariableVertexId(3)));
    assert!(set.contains(&VariableVertexId(3)));
    assert!(!set.contains(&VariableVertexId(4)));
    assert_eq!(set.iter(), vec![VariableVertexId(3), VariableVertexId(5)]);
    assert_eq!(set.len(), 2);
}

#[test]
fn pattern_set_remove_keeps_the_rest() {
    let mut set = PatternVertexIdSet::new();
    set.insert(PatternVertexId(1));
    set.insert(PatternVertexId(2));
    set.insert(PatternVertexId(3));
    assert!(set.remove(&PatternVertexId(2)));
    assert!(!set.remove(&PatternVertexId(2)));
    assert_eq!(set.iter(), vec![PatternVertexId(1), PatternVertexId(3)]);
    assert!(!set.is_empty());
}

#[test]
fn vertex_id_accessors_pick_their_kind() {
    let v = VertexId::Variable(VariableVertexId(4));
    let p = VertexId::Pattern(PatternVertexId(9));
    assert_eq!(v.as_variable_id(), Some(VariableVertexId(4)));
    assert_eq!(v.as_pattern_id(), None);
    assert_eq!(p.as_pattern_id(), Some(PatternVertexId(9)));
    assert_eq!(p.as_variable_id(), None);
    assert_eq!(Input::Variable(VariableVertexId(4)).as_variable(), Some(VariableVertexId(4)));
    assert_eq!(Input::Fixed.as_variable(), None);
}

#[test]
fn count_map_reads_missing_entries_as_zero() {
    let mut counts = CountMap::new();
    assert_eq!(counts.get(7), 0);
    counts.set(7, 400);
    counts.set(8, 5);
    counts.set(7, 401);
    assert_eq!(counts.get(7), 401);
    assert_eq!(counts.get(8), 5);
    assert_eq!(counts.get(9), 0);
}

#[test]
fn instance_counts_follow_the_type_kind() {
    let mut statistics = Statistics::new();
    statistics.entity_counts.set(1, 10);
    statistics.relation_counts.set(1, 20);
    statistics.attribute_counts.set(1, 30);
    assert_eq!(instance_count(SchemaType::Entity(1), &statistics), 10);
    assert_eq!(instance_count(SchemaType::Relation(1), &statistics), 20);
    assert_eq!(instance_count(SchemaType::Attribute(1), &statistics), 30);
    assert_eq!(instance_count(SchemaType::RoleType(1), &statistics), 0);
    assert_eq!(instance_count(SchemaType::Entity(2), &statistics), 0);
}

#[test]
fn registry_returns_the_first_category() {
    let mut registry = VariableRegistry::new();
    registry.register(Variable(1), VariableCategory::Thing);
    registry.register(Variable(2), VariableCategory::Value);
    assert_eq!(registry.get_variable_category(Variable(1)), Some(VariableCategory::Thing));
    assert_eq!(registry.get_variable_category(Variable(2)), Some(VariableCategory::Value));
    assert_eq!(registry.get_variable_category(Variable(3)), None);
}

#[test]
fn optional_wraps_its_conjunction() {
    let mut optional = Optional::new(5);
    assert_eq!(optional.conjunction().scope_id(), 5);
    let inner = optional.conjunction_mut();
    inner.local_variables.push(Variable(1));
    assert_eq!(optional.conjunction().local_variables, vec![Variable(1)]);
}

#[test]
fn expression_inputs_are_deduplicated() {
    // The expression names one input twice; registration keeps its first
    // occurrence only. This fails if deduplication returns its argument
    // unchanged.
    let out = Variable(1);
    let a = Variable(2);
    let b = Variable(3);
    let mut registry = VariableRegistry::new();
    registry.register(out, VariableCategory::Value);
    registry.register(a, VariableCategory::Value);
    registry.register(b, VariableCategory::Value);
    let annotations = TypeAnnotations::new();
    let statistics = Statistics::new();
    let mut conjunction = Conjunction::new(0);
    conjunction.local_variables = vec![out, a, b];
    conjunction.constraints = vec![ConstraintIr::ExpressionBinding {
        output: out,
        inputs: vec![a, b, a],
    }];
    let ir = QueryIr { conjunctions: vec![conjunction] };

    let mut builder = match_planner::ConjunctionPlanBuilder::new();
    builder
        .register_variables(
            &Vec::new(),
            &Vec::new(),
            &ir.conjunctions[0].local_variables,
            &registry,
            &annotations,
            &statistics,
        )
        .unwrap();
    builder
        .register_constraints(&ir.conjunctions[0], &annotations, &statistics)
        .unwrap();
    match &builder.graph.patterns[0] {
        match_planner::vertex::PatternVertex::Expression { inputs, output } => {
            assert_eq!(inputs, &vec![VariableVertexId(1), VariableVertexId(2)]);
            assert_eq!(*output, VariableVertexId(0));
        },
        other => panic!("unexpected pattern vertex: {:?}", other),
    }
    // The producer of the output variable is the expression pattern.
    assert_eq!(builder.graph.variables[0].producer, Some(PatternVertexId(0)));
}

#[test]
fn expression_op_codes_are_distinct() {
    let add = ExpressionOpCode::OpIntegerAddInteger;
    let abs = ExpressionOpCode::MathAbsInteger;
    assert_ne!(add, abs);
    assert_eq!(add, ExpressionOpCode::OpIntegerAddInteger);
}
