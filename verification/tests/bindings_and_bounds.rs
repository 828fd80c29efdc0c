//! Input bindings of lowered scans, externally pre-bound variables, and
//! the bound-sharpening of cost estimates.

use match_planner::{
    plan_query, Comparator, Conjunction, ConstraintIr, InputsSpec, LoweredEntry, OperandIr,
    PatternVertexId, QueryIr, SchemaType, Statistics, TypeAnnotations, Variable,
    VariableCategory, VariableRegistry, VariableVertexId, VertexId,
};

const PERSON: u64 = 1;
const EMPLOYMENT: u64 = 7;
const EMPLOYEE: u64 = 8;

#[test]
fn links_scan_binds_the_bound_endpoints() {
    // `$r isa employment; $r links $p as employee`: when the relation is
    // produced first, the links scan runs with it as its single input.
    let r = Variable(1);
    let p = Variable(2);
    let role = Variable(3);
    let mut registry = VariableRegistry::new();
    registry.register(r, VariableCategory::Thing);
    registry.register(p, VariableCategory::Thing);
    registry.register(role, VariableCategory::RoleType);
    let mut annotations = TypeAnnotations::new();
    annotations.annotate(r, vec![SchemaType::Relation(EMPLOYMENT)]);
    annotations.annotate(p, vec![SchemaType::Entity(PERSON)]);
    annotations.annotate(role, vec![SchemaType::RoleType(EMPLOYEE)]);
    let mut statistics = Statistics::new();
    statistics.relation_counts.set(EMPLOYMENT, 100);
    statistics.entity_counts.set(PERSON, 1_000_000);
    statistics.links_edge_counts.set(EMPLOYMENT, PERSON, 200);
    let mut conjunction = Conjunction::new(0);
    conjunction.constraints = vec![
        ConstraintIr::Isa {
            thing: OperandIr::Variable(r),
            type_of: OperandIr::Label(EMPLOYMENT),
        },
        ConstraintIr::Links {
            relation: OperandIr::Variable(r),
            player: OperandIr::Variable(p),
            role_type: OperandIr::Variable(role),
        },
    ];
    conjunction.local_variables = vec![r, p, role];
    let ir = QueryIr { conjunctions: vec![conjunction] };

    let plans = plan_query(&ir, &registry, &annotations, &statistics, &Vec::new()).unwrap();
    let planned = &plans[0];
    let lowered = planned.plan.lower(&planned.graph);
    let links_entry = lowered
        .iter()
        .find(|e| {
            matches!(e, LoweredEntry::ConstraintInstruction { pattern, .. } if pattern.0 == 1)
        })
        .unwrap();
    match links_entry {
        LoweredEntry::ConstraintInstruction { kind, direction, inputs, .. } => {
            assert_eq!(*kind, match_planner::ConstraintKind::Links);
            assert_eq!(*inputs, InputsSpec::Single(VariableVertexId(0)));
            // The single input is the relation, the canonical-first
            // endpoint, so the scan runs canonically.
            assert_eq!(*direction, match_planner::Direction::Canonical);
        },
        other => panic!("unexpected entry: {:?}", other),
    }
}

#[test]
fn links_scan_from_bound_player_runs_in_reverse() {
    // `$p isa person; $r links $p as employee`: the player is produced
    // first, so the links scan takes it as its single input and runs in
    // reverse, whatever direction the cost tie recorded.
    let p = Variable(1);
    let r = Variable(2);
    let role = Variable(3);
    let mut registry = VariableRegistry::new();
    registry.register(p, VariableCategory::Thing);
    registry.register(r, VariableCategory::Thing);
    registry.register(role, VariableCategory::RoleType);
    let mut annotations = TypeAnnotations::new();
    annotations.annotate(p, vec![SchemaType::Entity(PERSON)]);
    annotations.annotate(r, vec![SchemaType::Relation(EMPLOYMENT)]);
    annotations.annotate(role, vec![SchemaType::RoleType(EMPLOYEE)]);
    let mut statistics = Statistics::new();
    statistics.entity_counts.set(PERSON, 10);
    statistics.relation_counts.set(EMPLOYMENT, 1_000_000);
    statistics.links_edge_counts.set(EMPLOYMENT, PERSON, 1_000_000);
    let mut conjunction = Conjunction::new(0);
    conjunction.constraints = vec![
        ConstraintIr::Isa { thing: OperandIr::Variable(p), type_of: OperandIr::Label(PERSON) },
        ConstraintIr::Links {
            relation: OperandIr::Variable(r),
            player: OperandIr::Variable(p),
            role_type: OperandIr::Variable(role),
        },
    ];
    conjunction.local_variables = vec![p, r, role];
    let ir = QueryIr { conjunctions: vec![conjunction] };

    let plans = plan_query(&ir, &registry, &annotations, &statistics, &Vec::new()).unwrap();
    let planned = &plans[0];
    let lowered = planned.plan.lower(&planned.graph);
    let links_entry = lowered
        .iter()
        .find(|e| {
            matches!(e, LoweredEntry::ConstraintInstruction { pattern, .. } if pattern.0 == 1)
        })
        .unwrap();
    match links_entry {
        LoweredEntry::ConstraintInstruction { direction, inputs, .. } => {
            assert_eq!(*inputs, InputsSpec::Single(VariableVertexId(0)));
            assert_eq!(*direction, match_planner::Direction::Reverse);
        },
        other => panic!("unexpected entry: {:?}", other),
    }
}

#[test]
fn tied_costs_still_scan_from_the_bound_side() {
    // The attribute is pre-bound and its type has a single instance, so
    // scanning the edges from either side costs the same and the planner
    // records the canonical direction; the bound endpoint is the
    // attribute (the right-hand side), so the lowered scan must still run
    // in reverse from it.
    let p = Variable(1);
    let n = Variable(2);
    let mut registry = VariableRegistry::new();
    registry.register(p, VariableCategory::Thing);
    registry.register(n, VariableCategory::Attribute);
    let mut annotations = TypeAnnotations::new();
    annotations.annotate(p, vec![SchemaType::Entity(PERSON)]);
    annotations.annotate(n, vec![SchemaType::Attribute(2)]);
    let mut statistics = Statistics::new();
    statistics.entity_counts.set(PERSON, 1_000_000);
    statistics.attribute_counts.set(2, 1);
    statistics.has_edge_counts.set(PERSON, 2, 1_000_000);
    let mut conjunction = Conjunction::new(0);
    conjunction.constraints = vec![ConstraintIr::Has {
        owner: OperandIr::Variable(p),
        attribute: OperandIr::Variable(n),
    }];
    conjunction.local_variables = vec![p];
    let ir = QueryIr { conjunctions: vec![conjunction] };

    let plans = plan_query(&ir, &registry, &annotations, &statistics, &vec![n]).unwrap();
    let planned = &plans[0];
    // The recorded direction broke the cost tie towards canonical.
    assert_eq!(planned.plan.directions[0], Some(match_planner::Direction::Canonical));
    let has_entry = planned
        .plan
        .lower(&planned.graph)
        .into_iter()
        .find(|e| {
            matches!(e, LoweredEntry::ConstraintInstruction { pattern, .. } if pattern.0 == 0)
        })
        .unwrap();
    match has_entry {
        LoweredEntry::ConstraintInstruction { direction, inputs, .. } => {
            assert_eq!(inputs, InputsSpec::Single(VariableVertexId(0)));
            assert_eq!(direction, match_planner::Direction::Reverse);
        },
        other => panic!("unexpected entry: {:?}", other),
    }
}
