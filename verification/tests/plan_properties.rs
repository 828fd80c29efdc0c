//! Cross-cutting plan properties exercised on concrete inputs: both
//! planners are deterministic, lowering is idempotent, every pattern is
//! planned exactly once, and chosen directions are the cheaper side.

use match_planner::{
    initialise_greedy_ordering, plan_query, Conjunction, ConstraintIr, Direction, OperandIr,
    QueryIr, SchemaType, Statistics, TypeAnnotations, Variable, VariableCategory,
    VariableRegistry, VertexId,
};

const MOVIE: u64 = 4;
const TITLE: u64 = 5;
const DIRECTING: u64 = 6;

fn movie_query() -> (QueryIr, VariableRegistry, TypeAnnotations, Statistics) {
    let m = Variable(30);
    let t = Variable(31);
    let d = Variable(32);
    let mut registry = VariableRegistry::new();
    registry.register(m, VariableCategory::Thing);
    registry.register(t, VariableCategory::Attribute);
    registry.register(d, VariableCategory::Thing);
    let mut annotations = TypeAnnotations::new();
    annotations.annotate(m, vec![SchemaType::Entity(MOVIE)]);
    annotations.annotate(t, vec![SchemaType::Attribute(TITLE)]);
    annotations.annotate(d, vec![SchemaType::Relation(DIRECTING)]);
    let mut statistics = Statistics::new();
    statistics.entity_counts.set(MOVIE, 50_000);
    statistics.attribute_counts.set(TITLE, 45_000);
    statistics.relation_counts.set(DIRECTING, 60_000);
    statistics.has_edge_counts.set(MOVIE, TITLE, 50_000);
    statistics.links_edge_counts.set(DIRECTING, MOVIE, 60_000);
    let mut conjunction = Conjunction::new(0);
    conjunction.constraints = vec![
        ConstraintIr::Isa { thing: OperandIr::Variable(m), type_of: OperandIr::Label(MOVIE) },
        ConstraintIr::Has { owner: OperandIr::Variable(m), attribute: OperandIr::Variable(t) },
        ConstraintIr::Links {
            relation: OperandIr::Variable(d),
            player: OperandIr::Variable(m),
            role_type: OperandIr::Label(9),
        },
    ];
    conjunction.local_variables = vec![m, t, d];
    (QueryIr { conjunctions: vec![conjunction] }, registry, annotations, statistics)
}

#[test]
fn planners_are_deterministic() {
    // Identical inputs give identical plans, run to run, for the greedy
    // planner and for the whole pipeline.
    let (ir, registry, annotations, statistics) = movie_query();
    let first = plan_query(&ir, &registry, &annotations, &statistics, &Vec::new()).unwrap();
    let second = plan_query(&ir, &registry, &annotations, &statistics, &Vec::new()).unwrap();
    assert_eq!(first[0].plan.ordering, second[0].plan.ordering);
    assert_eq!(first[0].plan.directions, second[0].plan.directions);
    assert_eq!(first[0].plan.cost, second[0].plan.cost);

    let g1 = initialise_greedy_ordering(&first[0].graph).unwrap();
    let g2 = initialise_greedy_ordering(&second[0].graph).unwrap();
    assert_eq!(g1.ordering, g2.ordering);
    assert_eq!(g1.directions, g2.directions);
    assert_eq!(g1.cost, g2.cost);
}

#[test]
fn lowering_is_idempotent() {
    // Lowering the same plan twice yields identical step streams.
    let (ir, registry, annotations, statistics) = movie_query();
    let plans = plan_query(&ir, &registry, &annotations, &statistics, &Vec::new()).unwrap();
    let first = plans[0].plan.lower(&plans[0].graph);
    let second = plans[0].plan.lower(&plans[0].graph);
    assert_eq!(first, second);
}

#[test]
fn every_pattern_and_variable_appears_exactly_once() {
    let (ir, registry, annotations, statistics) = movie_query();
    let plans = plan_query(&ir, &registry, &annotations, &statistics, &Vec::new()).unwrap();
    let plan = &plans[0].plan;
    let graph = &plans[0].graph;
    for p in 0..graph.patterns.len() {
        let occurrences = plan
            .ordering
            .iter()
            .filter(|v| {
                matches!(v, VertexId::Pattern(pat) if pat.0 == p)
            })
            .count();
        assert_eq!(occurrences, 1);
    }
    for v in 0..graph.variables.len() {
        let occurrences = plan
            .ordering
            .iter()
            .filter(|x| {
                matches!(x, VertexId::Variable(var) if var.0 == v)
            })
            .count();
        assert_eq!(occurrences, 1);
    }
}

#[test]
fn producers_come_before_consumers() {
    // Every variable of the ordering follows a pattern adjacent to it,
    // and every pattern consuming it comes after that producer.
    let (ir, registry, annotations, statistics) = movie_query();
    let plans = plan_query(&ir, &registry, &annotations, &statistics, &Vec::new()).unwrap();
    let plan = &plans[0].plan;
    let graph = &plans[0].graph;
    for (i, vertex) in plan.ordering.iter().enumerate() {
        if let VertexId::Variable(v) = vertex {
            let producer = plan.ordering[..i].iter().position(|x| {
                matches!(x, VertexId::Pattern(p) if graph.pattern_to_variable[p.0].contains(v))
            });
            assert!(producer.is_some());
        }
    }
}

#[test]
fn chosen_direction_is_the_cheaper_side() {
    // For each constraint, the cost under the chosen direction never
    // exceeds the other direction's cost under the same prefix.
    let (ir, registry, annotations, statistics) = movie_query();
    let plans = plan_query(&ir, &registry, &annotations, &statistics, &Vec::new()).unwrap();
    let graph = &plans[0].graph;
    let plan = &plans[0].plan;
    for (i, vertex) in plan.ordering.iter().enumerate() {
        if let VertexId::Pattern(p) = vertex {
            if let match_planner::vertex::PatternVertex::Constraint(c) = &graph.patterns[p.0] {
                if !c.kind.is_unary() {
                    let prefix: Vec<VertexId> = plan.ordering[..i].to_vec();
                    let (cost, direction) = c.cost_and_direction(&prefix);
                    let lhs_bound = match c.lhs {
                        match_planner::Input::Variable(v) => prefix.contains(&VertexId::Variable(v)),
                        match_planner::Input::Fixed => true,
                    };
                    let rhs_bound = match c.rhs {
                        match_planner::Input::Variable(v) => prefix.contains(&VertexId::Variable(v)),
                        match_planner::Input::Fixed => true,
                    };
                    let canonical = match_planner::vertex::scan_cost(
                        c.edge_total,
                        lhs_bound,
                        c.lhs_total,
                        rhs_bound,
                        c.rhs_total,
                    );
                    let reverse = match_planner::vertex::scan_cost(
                        c.edge_total,
                        rhs_bound,
                        c.rhs_total,
                        lhs_bound,
                        c.lhs_total,
                    );
                    assert!(cost.cost <= canonical.cost);
                    assert!(cost.cost <= reverse.cost);
                    match direction {
                        Direction::Canonical => assert_eq!(cost, canonical),
                        Direction::Reverse => assert_eq!(cost, reverse),
                    }
                }
            }
        }
    }
}

#[test]
fn beam_never_costs_more_than_greedy() {
    let (ir, registry, annotations, statistics) = movie_query();
    let plans = plan_query(&ir, &registry, &annotations, &statistics, &Vec::new()).unwrap();
    let greedy = initialise_greedy_ordering(&plans[0].graph).unwrap();
    assert!(plans[0].plan.cost.cost <= greedy.cost.cost);
}

#[test]
fn visibility_follows_selection_and_later_consumers() {
    // The relation variable is consumed by no later pattern: internal
    // unless selected. The movie variable feeds both `has` and `links`, so
    // it stays output-visible even unselected, and its last consumer is
    // whichever of the two scans is ordered later.
    let (ir, registry, annotations, statistics) = movie_query();
    let plans = plan_query(&ir, &registry, &annotations, &statistics, &Vec::new()).unwrap();
    let plan = &plans[0].plan;
    let graph = &plans[0].graph;

    let movie = match_planner::VariableVertexId(0);
    let movie_position = plan
        .ordering
        .iter()
        .position(|x| *x == VertexId::Variable(movie))
        .unwrap();
    assert_eq!(
        match_planner::variable_visibility(graph, &plan.ordering, movie_position, movie, &Vec::new()),
        match_planner::Visibility::Output,
    );
    let last = match_planner::last_consumer(graph, &plan.ordering, movie_position, movie).unwrap();
    assert!(matches!(plan.ordering[last], VertexId::Pattern(_)));
    assert!(last > movie_position);

    // The title variable is consumed only by the scan that produces it:
    // no later consumer, so it is internal unless selected.
    let title = match_planner::VariableVertexId(1);
    let title_position = plan
        .ordering
        .iter()
        .position(|x| *x == VertexId::Variable(title))
        .unwrap();
    assert_eq!(
        match_planner::variable_visibility(graph, &plan.ordering, title_position, title, &Vec::new()),
        match_planner::Visibility::Internal,
    );
    assert_eq!(
        match_planner::variable_visibility(graph, &plan.ordering, title_position, title, &vec![title]),
        match_planner::Visibility::Output,
    );
    assert_eq!(match_planner::last_consumer(graph, &plan.ordering, title_position, title), None);
}
