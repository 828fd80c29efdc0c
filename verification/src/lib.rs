//! A cost-based planner for conjunctive pattern-match queries.
//!
//! The planner takes a conjunction of constraints over variables, together
//! with schema statistics, and produces an ordered, directional execution
//! plan: a sequence of pattern and variable vertices in which every pattern
//! is placed only once its validity predicate holds, every produced variable
//! follows a pattern that produces it, and every binary constraint carries
//! the cheaper of its two traversal directions. The ordered plan is then
//! lowered into a step stream (intersection, check, expression,
//! function-call, negation and disjunction steps) for a downstream
//! executor. Negated sub-conjunctions and disjunction branches are planned
//! recursively, nested ones first.
//!
//! Two planners share one cost model: a greedy planner that always places
//! the valid pattern of least marginal cost, proven equal to its
//! specification mirror, and a beam planner that searches a bounded
//! frontier of partial plans with join-aware step costs, keeping the
//! greedy plan as its fallback candidate so its projected cost never
//! exceeds the greedy planner's.
//!
//! Costs are modelled in fixed-point arithmetic: one cost unit or one unit
//! of io ratio is `COST_SCALE` in the underlying integers.

pub mod beam;
pub mod builder;
pub mod cost;
pub mod errors;
pub mod graph;
pub mod ids;
pub mod ir;
pub mod lower;
pub mod outside;
pub mod planner;
pub mod search;
pub mod stats;
pub mod vertex;

pub use beam::{beam_search_plan, PlanPartial, BEAM_WIDTH, EXTENSION_WIDTH};
pub use builder::ConjunctionPlanBuilder;
pub use cost::{CombinedCost, COST_SCALE};
pub use errors::{InvariantViolation, PlannerError, UnsupportedFeature};
pub use graph::Graph;
pub use ids::{PatternVertexId, PatternVertexIdSet, VariableVertexId, VariableVertexIdSet, VertexId};
pub use ir::{
    Comparator, Conjunction, ConstraintIr, DisjunctionIr, ExpressionOpCode, OperandIr, Optional,
    QueryIr, Variable, VariableCategory, VariableRegistry,
};
pub use lower::{last_consumer, variable_visibility, InputsSpec, LoweredEntry, Visibility};
pub use planner::{plan_conjunction, plan_query, PlannedConjunction};
pub use search::{initialise_greedy_ordering, ConjunctionPlan};
pub use stats::{instance_count, CountMap, PairCountMap, SchemaType, Statistics, TypeAnnotations};
pub use vertex::{ConstraintKind, CostMetaData, Direction, Input};
