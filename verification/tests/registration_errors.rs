//! Error behaviour of registration and planning: unsupported features,
//! broken upstream invariants, and an empty plan space.

use match_planner::{
    plan_query, Comparator, Conjunction, ConstraintIr, InvariantViolation, OperandIr,
    PlannerError, QueryIr, SchemaType, Statistics, TypeAnnotations, UnsupportedFeature, Variable,
    VariableCategory, VariableRegistry,
};

fn empty_oracles() -> (TypeAnnotations, Statistics) {
    (TypeAnnotations::new(), Statistics::new())
}

fn query_of(conjunction: Conjunction) -> QueryIr {
    QueryIr { conjunctions: vec![conjunction] }
}

#[test]
fn list_variable_is_unsupported() {
    let v = Variable(1);
    let mut registry = VariableRegistry::new();
    registry.register(v, VariableCategory::AttributeList);
    let (annotations, statistics) = empty_oracles();
    let mut conjunction = Conjunction::new(0);
    conjunction.local_variables = vec![v];
    let r = plan_query(&query_of(conjunction), &registry, &annotations, &statistics, &Vec::new());
    assert_eq!(
        r.unwrap_err(),
        PlannerError::Unsupported(UnsupportedFeature::ListVariablePlanning),
    );
}

#[test]
fn missing_category_is_invariant_violation() {
    let v = Variable(1);
    let registry = VariableRegistry::new();
    let (annotations, statistics) = empty_oracles();
    let mut conjunction = Conjunction::new(0);
    conjunction.local_variables = vec![v];
    let r = plan_query(&query_of(conjunction), &registry, &annotations, &statistics, &Vec::new());
    assert_eq!(
        r.unwrap_err(),
        PlannerError::Invariant(InvariantViolation::MissingVariableCategory),
    );
}

#[test]
fn unresolved_attribute_or_value_is_invariant_violation() {
    let v = Variable(1);
    let mut registry = VariableRegistry::new();
    registry.register(v, VariableCategory::AttributeOrValue);
    let (annotations, statistics) = empty_oracles();
    let mut conjunction = Conjunction::new(0);
    conjunction.shared_variables = vec![v];
    let r = plan_query(&query_of(conjunction), &registry, &annotations, &statistics, &Vec::new());
    assert_eq!(
        r.unwrap_err(),
        PlannerError::Invariant(InvariantViolation::UnresolvedAttributeOrValue),
    );
}

#[test]
fn like_comparator_is_unsupported() {
    let v = Variable(1);
    let mut registry = VariableRegistry::new();
    registry.register(v, VariableCategory::Attribute);
    let mut annotations = TypeAnnotations::new();
    annotations.annotate(v, vec![SchemaType::Attribute(2)]);
    let statistics = Statistics::new();
    let mut conjunction = Conjunction::new(0);
    conjunction.local_variables = vec![v];
    conjunction.constraints = vec![ConstraintIr::Comparison {
        lhs: OperandIr::Variable(v),
        rhs: OperandIr::Parameter(9),
        comparator: Comparator::Like,
    }];
    let r = plan_query(&query_of(conjunction), &registry, &annotations, &statistics, &Vec::new());
    assert_eq!(r.unwrap_err(), PlannerError::Unsupported(UnsupportedFeature::LikeComparator));
}

#[test]
fn contains_comparator_is_unsupported() {
    let v = Variable(1);
    let mut registry = VariableRegistry::new();
    registry.register(v, VariableCategory::Attribute);
    let mut annotations = TypeAnnotations::new();
    annotations.annotate(v, vec![SchemaType::Attribute(2)]);
    let statistics = Statistics::new();
    let mut conjunction = Conjunction::new(0);
    conjunction.local_variables = vec![v];
    conjunction.constraints = vec![ConstraintIr::Comparison {
        lhs: OperandIr::Variable(v),
        rhs: OperandIr::Parameter(9),
        comparator: Comparator::Contains,
    }];
    let r = plan_query(&query_of(conjunction), &registry, &annotations, &statistics, &Vec::new());
    assert_eq!(
        r.unwrap_err(),
        PlannerError::Unsupported(UnsupportedFeature::ContainsComparator),
    );
}

#[test]
fn optional_pattern_is_unsupported() {
    let registry = VariableRegistry::new();
    let (annotations, statistics) = empty_oracles();
    let mut outer = Conjunction::new(0);
    outer.optionals = vec![1];
    let inner = Conjunction::new(1);
    let ir = QueryIr { conjunctions: vec![outer, inner] };
    let r = plan_query(&ir, &registry, &annotations, &statistics, &Vec::new());
    assert_eq!(r.unwrap_err(), PlannerError::Unsupported(UnsupportedFeature::OptionalPattern));
}

#[test]
fn unregistered_variable_is_invariant_violation() {
    // The constraint names a variable that no registration pass declared.
    let v = Variable(1);
    let ghost_var = Variable(99);
    let mut registry = VariableRegistry::new();
    registry.register(v, VariableCategory::Thing);
    let mut annotations = TypeAnnotations::new();
    annotations.annotate(v, vec![SchemaType::Entity(1)]);
    let statistics = Statistics::new();
    let mut conjunction = Conjunction::new(0);
    conjunction.local_variables = vec![v];
    conjunction.constraints = vec![ConstraintIr::Has {
        owner: OperandIr::Variable(v),
        attribute: OperandIr::Variable(ghost_var),
    }];
    let r = plan_query(&query_of(conjunction), &registry, &annotations, &statistics, &Vec::new());
    assert_eq!(
        r.unwrap_err(),
        PlannerError::Invariant(InvariantViolation::UnregisteredVariable),
    );
}

#[test]
fn comparison_over_unproducible_values_has_empty_plan_space() {
    // Two value variables that nothing produces: the comparison can never
    // become valid, so no ordering exists.
    let x = Variable(1);
    let y = Variable(2);
    let mut registry = VariableRegistry::new();
    registry.register(x, VariableCategory::Value);
    registry.register(y, VariableCategory::Value);
    let (annotations, statistics) = empty_oracles();
    let mut conjunction = Conjunction::new(0);
    conjunction.local_variables = vec![x, y];
    conjunction.constraints = vec![ConstraintIr::Comparison {
        lhs: OperandIr::Variable(x),
        rhs: OperandIr::Variable(y),
        comparator: Comparator::Less,
    }];
    let r = plan_query(&query_of(conjunction), &registry, &annotations, &statistics, &Vec::new());
    assert_eq!(r.unwrap_err(), PlannerError::EmptyPlanSpace);
}

#[test]
fn error_messages_name_the_failure() {
    let e = PlannerError::EmptyPlanSpace;
    assert_eq!(e.message(), "no valid ordering exists for the conjunction");
    let u = PlannerError::Unsupported(UnsupportedFeature::OptionalPattern);
    assert_eq!(u.message(), "unsupported: optional patterns");
}
