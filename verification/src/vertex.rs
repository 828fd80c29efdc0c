//! Planner vertices: per-pattern validity and cost logic.
//!
//! Every vertex of the planner graph is either a variable vertex or a
//! pattern vertex. Pattern vertices know when they may legally enter an
//! ordering (`is_valid`) and what one retrieval through them costs given
//! the already-ordered prefix (`cost_and_metadata`). Binary constraints
//! cost both traversal directions and pick the cheaper one.

use vstd::prelude::*;

use crate::cost::{
    sat64, sat_add, spec_max_u64, spec_mul_div, mul_div, CombinedCost, ADVANCE_ITERATOR_COST,
    COST_SCALE, IN_MEM_COST_COMPLEX, IN_MEM_COST_SIMPLE, MIN_IO_RATIO, OPEN_ITERATOR_COST,
};
use crate::ids::{PatternVertexId, VariableVertexId, VertexId};
use crate::ir::Variable;

verus! {

/// Traversal direction of a binary constraint: canonical follows the
/// constraint as written, reverse iterates it from the second endpoint.
#[derive(Clone, Copy, Debug, PartialEq, Eq, Structural)]
pub enum Direction {
    Canonical,
    Reverse,
}

/// Cost metadata handed to lowering alongside the chosen cost: the cheaper
/// direction for a constraint, nothing for other vertex kinds.
#[derive(Clone, Copy, Debug, PartialEq, Eq, Structural)]
pub enum CostMetaData {
    Direction(Direction),
    NoDirection,
}

/// An operand of a pattern: a planner variable or a fixed vertex (a type
/// label or a value parameter), which is always bound.
#[derive(Clone, Copy, Debug, PartialEq, Eq, Hash, Structural)]
pub enum Input {
    Fixed,
    Variable(VariableVertexId),
}

impl Input {
    pub open spec fn spec_as_variable(self) -> Option<VariableVertexId> {
        match self {
            Input::Variable(v) => Some(v),
            Input::Fixed => None,
        }
    }

    pub fn as_variable(self) -> (r: Option<VariableVertexId>)
        ensures
            r == self.spec_as_variable(),
    {
        match self {
            Input::Variable(v) => Some(v),
            Input::Fixed => None,
        }
    }
}

/// Whether the ordered prefix has produced variable `v`.
pub open spec fn spec_ordered_var(ordering: Seq<VertexId>, v: VariableVertexId) -> bool {
    ordering.contains(VertexId::Variable(v))
}

/// Whether operand `i` is bound under the ordered prefix: fixed operands
/// always are, variables once they appear in the prefix.
pub open spec fn spec_input_bound(i: Input, ordering: Seq<VertexId>) -> bool {
    match i {
        Input::Fixed => true,
        Input::Variable(v) => spec_ordered_var(ordering, v),
    }
}

/// Whether the ordered prefix contains variable `v`.
pub fn ordered_var(ordering: &Vec<VertexId>, v: VariableVertexId) -> (r: bool)
    ensures
        r == spec_ordered_var(ordering@, v),
{
    let mut i: usize = 0;
    while i < ordering.len()
        invariant
            0 <= i <= ordering@.len(),
            forall|k: int| 0 <= k < i ==> ordering@[k] != VertexId::Variable(v),
        decreases ordering@.len() - i,
    {
        if ordering[i] == VertexId::Variable(v) {
            return true;
        }
        i += 1;
    }
    false
}

/// Whether operand `i` is bound under the ordered prefix.
pub fn input_bound(i: Input, ordering: &Vec<VertexId>) -> (r: bool)
    ensures
        r == spec_input_bound(i, ordering@),
{
    match i {
        Input::Fixed => true,
        Input::Variable(v) => ordered_var(ordering, v),
    }
}

/// The kind of a variable vertex, set by the category it was registered
/// under.
#[derive(Clone, Copy, Debug, PartialEq, Eq, Structural)]
pub enum VariableVertexKind {
    /// Pre-bound from outside the conjunction.
    Input,
    /// A schema type variable.
    Type,
    /// An entity, relation or attribute variable.
    Thing,
    /// A computed value variable.
    Value,
}

/// A variable vertex: its external identity, the size of its unbound
/// domain, and the equality and ordering bounds discovered from `is` and
/// comparison constraints, which only sharpen cost estimates.
#[derive(Clone, Debug, PartialEq, Eq)]
#[verifier::ext_equal]
pub struct VariableVertex {
    pub variable: Variable,
    pub kind: VariableVertexKind,
    /// Expected number of candidates when enumerated with nothing bound.
    pub unbound_total: u64,
    /// Operands this variable is known equal to.
    pub equals: Vec<Input>,
    /// Operands known to bound this variable from above.
    pub uppers: Vec<Input>,
    /// Operands known to bound this variable from below.
    pub lowers: Vec<Input>,
    /// The pattern that computes this variable, for expression and
    /// function-call outputs.
    pub producer: Option<PatternVertexId>,
}

/// The expected number of results for a variable: an equality pins it to
/// one; every ordering bound halves it; never below one.
pub open spec fn spec_expected_size(v: &VariableVertex) -> u64 {
    if v.kind is Input {
        1
    } else if v.equals@.len() > 0 {
        1
    } else {
        spec_halve(v.unbound_total, v.uppers@.len() + v.lowers@.len())
    }
}

/// `total` halved `n` times, never below one.
pub open spec fn spec_halve(total: u64, n: nat) -> u64
    decreases n,
{
    if total <= 1 {
        1
    } else if n == 0 {
        total
    } else {
        spec_halve(total / 2, (n - 1) as nat)
    }
}

impl VariableVertex {
    pub fn new(variable: Variable, kind: VariableVertexKind, unbound_total: u64) -> (r: Self)
        ensures
            r.variable == variable,
            r.kind == kind,
            r.unbound_total == unbound_total,
            r.equals@.len() == 0,
            r.uppers@.len() == 0,
            r.lowers@.len() == 0,
            r.producer is None,
    {
        VariableVertex {
            variable,
            kind,
            unbound_total,
            equals: Vec::new(),
            uppers: Vec::new(),
            lowers: Vec::new(),
            producer: None,
        }
    }

    pub open spec fn spec_is_input(&self) -> bool {
        self.kind is Input
    }

    pub fn is_input(&self) -> (r: bool)
        ensures
            r == self.spec_is_input(),
    {
        match self.kind {
            VariableVertexKind::Input => true,
            _ => false,
        }
    }

    /// Records an equality bound; adding the same operand again changes
    /// nothing (bounds are additive and idempotent).
    pub fn add_equal(&mut self, other: Input)
        ensures
            *final(self) == (VariableVertex { equals: final(self).equals, ..*old(self) }),
            final(self).equals@ == push_if_absent(old(self).equals@, other),
    {
        push_input_if_absent(&mut self.equals, other);
    }

    /// Records an upper bound; idempotent.
    pub fn add_upper_bound(&mut self, other: Input)
        ensures
            *final(self) == (VariableVertex { uppers: final(self).uppers, ..*old(self) }),
            final(self).uppers@ == push_if_absent(old(self).uppers@, other),
    {
        push_input_if_absent(&mut self.uppers, other);
    }

    /// Records a lower bound; idempotent.
    pub fn add_lower_bound(&mut self, other: Input)
        ensures
            *final(self) == (VariableVertex { lowers: final(self).lowers, ..*old(self) }),
            final(self).lowers@ == push_if_absent(old(self).lowers@, other),
    {
        push_input_if_absent(&mut self.lowers, other);
    }

    /// Records the producing pattern of this variable.
    pub fn set_producer(&mut self, pattern: PatternVertexId)
        ensures
            *final(self) == (VariableVertex { producer: Some(pattern), ..*old(self) }),
    {
        self.producer = Some(pattern);
    }

    /// The expected number of results for this variable.
    pub fn expected_size(&self) -> (r: u64)
        ensures
            r == spec_expected_size(self),
    {
        match self.kind {
            VariableVertexKind::Input => 1,
            _ => {
                if self.equals.len() > 0 {
                    1
                } else {
                    proof {
                        lemma_halve_add(
                            self.unbound_total,
                            self.uppers@.len(),
                            self.lowers@.len(),
                        );
                    }
                    halve(halve(self.unbound_total, self.uppers.len()), self.lowers.len())
                }
            },
        }
    }
}

/// `s` with `x` appended unless already present.
pub open spec fn push_if_absent(s: Seq<Input>, x: Input) -> Seq<Input> {
    if s.contains(x) {
        s
    } else {
        s.push(x)
    }
}

fn push_input_if_absent(v: &mut Vec<Input>, x: Input)
    ensures
        final(v)@ == push_if_absent(old(v)@, x),
{
    let mut i: usize = 0;
    while i < v.len()
        invariant
            0 <= i <= v@.len(),
            v@ == old(v)@,
            forall|k: int| 0 <= k < i ==> v@[k] != x,
        decreases v@.len() - i,
    {
        if v[i] == x {
            return ;
        }
        i += 1;
    }
    assert(!v@.contains(x));
    v.push(x);
}

/// Halving distributes over a split of the count.
pub proof fn lemma_halve_add(t: u64, a: nat, b: nat)
    ensures
        spec_halve(t, a + b) == spec_halve(spec_halve(t, a), b),
    decreases a,
{
    if t <= 1 {
        assert(spec_halve(t, a) == 1);
        assert(spec_halve(1, b) == 1);
        assert(spec_halve(t, a + b) == 1);
    } else if a == 0 {
        assert(spec_halve(t, a) == t);
    } else {
        lemma_halve_add(t / 2, (a - 1) as nat, b);
    }
}

/// `total` halved `n` times, never below one.
pub fn halve(total: u64, n: usize) -> (r: u64)
    ensures
        r == spec_halve(total, n as nat),
{
    let mut t: u64 = total;
    let mut k: usize = n;
    while t > 1 && k > 0
        invariant
            spec_halve(total, n as nat) == spec_halve(t, k as nat),
        decreases k,
    {
        t = t / 2;
        k -= 1;
    }
    if t <= 1 {
        1
    } else {
        t
    }
}

/// The kind of a constraint pattern.
#[derive(Clone, Copy, Debug, PartialEq, Eq, Structural)]
pub enum ConstraintKind {
    Label,
    RoleName,
    Kind,
    Value,
    Iid,
    Sub,
    Owns,
    Relates,
    Plays,
    Isa,
    Has,
    Links,
}

impl ConstraintKind {
    /// Unary kinds filter one type variable against a fixed list.
    pub open spec fn spec_is_unary(self) -> bool {
        self is Label || self is RoleName || self is Kind || self is Value || self is Iid
    }

    pub fn is_unary(self) -> (r: bool)
        ensures
            r == self.spec_is_unary(),
    {
        match self {
            ConstraintKind::Label
            | ConstraintKind::RoleName
            | ConstraintKind::Kind
            | ConstraintKind::Value
            | ConstraintKind::Iid => true,
            _ => false,
        }
    }
}

/// A constraint vertex: its kind, operands, and the sizes its costs are
/// computed from — the row count of the underlying relation and the domain
/// sizes of its two endpoints (one for a fixed operand).
#[derive(Clone, Copy, Debug, PartialEq, Eq, Structural)]
pub struct ConstraintVertex {
    pub kind: ConstraintKind,
    pub lhs: Input,
    pub rhs: Input,
    /// The role operand of a `links` constraint; `Fixed` elsewhere.
    pub role: Input,
    /// Expected rows of the scanned relation.
    pub edge_total: u64,
    /// Domain size of the lhs endpoint (at least the fixed size one).
    pub lhs_total: u64,
    /// Domain size of the rhs endpoint.
    pub rhs_total: u64,
}

/// The cost of scanning a relation of `edge_total` rows from the `from`
/// endpoint towards the `to` endpoint. A bound `from` restricts the scan to
/// its share of the rows; a bound `to` keeps only matching rows.
pub open spec fn spec_scan_cost(
    edge_total: u64,
    from_bound: bool,
    from_total: u64,
    to_bound: bool,
    to_total: u64,
) -> CombinedCost {
    let from_d = spec_max_u64(from_total, 1);
    let to_d = spec_max_u64(to_total, 1);
    let rows = if from_bound {
        spec_mul_div(edge_total, COST_SCALE, from_d)
    } else {
        sat64(edge_total * COST_SCALE)
    };
    let io = if to_bound {
        spec_mul_div(rows, 1, to_d)
    } else {
        rows
    };
    CombinedCost {
        cost: sat64(OPEN_ITERATOR_COST + spec_mul_div(rows, ADVANCE_ITERATOR_COST, COST_SCALE)),
        io_ratio: spec_max_u64(io, MIN_IO_RATIO),
    }
}

/// Executable mirror of `spec_scan_cost`.
pub fn scan_cost(
    edge_total: u64,
    from_bound: bool,
    from_total: u64,
    to_bound: bool,
    to_total: u64,
) -> (r: CombinedCost)
    ensures
        r == spec_scan_cost(edge_total, from_bound, from_total, to_bound, to_total),
{
    let from_d: u64 = if from_total >= 1 { from_total } else { 1 };
    let to_d: u64 = if to_total >= 1 { to_total } else { 1 };
    let rows: u64 = if from_bound {
        mul_div(edge_total, COST_SCALE, from_d)
    } else {
        mul_div(edge_total, COST_SCALE, 1)
    };
    proof {
        if !from_bound {
            assert(spec_mul_div(edge_total, COST_SCALE, 1) == sat64(edge_total * COST_SCALE));
        }
    }
    let io: u64 = if to_bound {
        mul_div(rows, 1, to_d)
    } else {
        rows
    };
    CombinedCost {
        cost: sat_add(OPEN_ITERATOR_COST, mul_div(rows, ADVANCE_ITERATOR_COST, COST_SCALE)),
        io_ratio: if io >= MIN_IO_RATIO {
            io
        } else {
            MIN_IO_RATIO
        },
    }
}

/// The cost of a unary type-list filter over `candidates` allowed types.
pub open spec fn spec_type_list_cost(candidates: u64, var_bound: bool) -> CombinedCost {
    if var_bound {
        CombinedCost { cost: IN_MEM_COST_SIMPLE, io_ratio: COST_SCALE }
    } else {
        CombinedCost {
            cost: IN_MEM_COST_SIMPLE,
            io_ratio: spec_max_u64(sat64(candidates * COST_SCALE), MIN_IO_RATIO),
        }
    }
}

/// The cost of a direct `iid` lookup: one seek, at most one row.
pub open spec fn spec_iid_cost() -> CombinedCost {
    CombinedCost { cost: OPEN_ITERATOR_COST, io_ratio: COST_SCALE }
}

impl ConstraintVertex {
    /// The canonical-direction cost under the prefix `ordering`.
    pub open spec fn spec_canonical_cost(&self, ordering: Seq<VertexId>) -> CombinedCost {
        spec_scan_cost(
            self.edge_total,
            spec_input_bound(self.lhs, ordering),
            self.lhs_total,
            spec_input_bound(self.rhs, ordering),
            self.rhs_total,
        )
    }

    /// The reverse-direction cost under the prefix `ordering`.
    pub open spec fn spec_reverse_cost(&self, ordering: Seq<VertexId>) -> CombinedCost {
        spec_scan_cost(
            self.edge_total,
            spec_input_bound(self.rhs, ordering),
            self.rhs_total,
            spec_input_bound(self.lhs, ordering),
            self.lhs_total,
        )
    }

    /// The cost and direction chosen for this constraint under `ordering`.
    /// Unary kinds always run canonically; binary kinds take the cheaper
    /// direction, canonical on ties.
    pub open spec fn spec_cost_and_direction(&self, ordering: Seq<VertexId>) -> (
        CombinedCost,
        Direction,
    ) {
        if self.kind is Label || self.kind is RoleName || self.kind is Kind
            || self.kind is Value {
            (
                spec_type_list_cost(self.edge_total, spec_input_bound(self.lhs, ordering)),
                Direction::Canonical,
            )
        } else if self.kind is Iid {
            (spec_iid_cost(), Direction::Canonical)
        } else {
            let canonical = self.spec_canonical_cost(ordering);
            let reverse = self.spec_reverse_cost(ordering);
            if canonical.cost <= reverse.cost {
                (canonical, Direction::Canonical)
            } else {
                (reverse, Direction::Reverse)
            }
        }
    }

    /// The direction this constraint would take with nothing bound.
    pub open spec fn spec_unbound_direction(&self) -> Direction {
        self.spec_cost_and_direction(Seq::empty()).1
    }

    /// Costs both directions under the prefix and picks the cheaper one.
    /// The chosen direction's cost never exceeds the other direction's.
    pub fn cost_and_direction(&self, ordering: &Vec<VertexId>) -> (r: (CombinedCost, Direction))
        ensures
            r == self.spec_cost_and_direction(ordering@),
            r.0.cost <= self.spec_canonical_cost(ordering@).cost
                || self.kind.spec_is_unary(),
            r.0.cost <= self.spec_reverse_cost(ordering@).cost
                || self.kind.spec_is_unary(),
    {
        match self.kind {
            ConstraintKind::Label
            | ConstraintKind::RoleName
            | ConstraintKind::Kind
            | ConstraintKind::Value => {
                let bound = input_bound(self.lhs, ordering);
                let c = if bound {
                    CombinedCost { cost: IN_MEM_COST_SIMPLE, io_ratio: COST_SCALE }
                } else {
                    let scaled = mul_div(self.edge_total, COST_SCALE, 1);
                    proof {
                        assert(spec_mul_div(self.edge_total, COST_SCALE, 1)
                            == sat64(self.edge_total * COST_SCALE));
                    }
                    CombinedCost {
                        cost: IN_MEM_COST_SIMPLE,
                        io_ratio: if scaled >= MIN_IO_RATIO {
                            scaled
                        } else {
                            MIN_IO_RATIO
                        },
                    }
                };
                (c, Direction::Canonical)
            },
            ConstraintKind::Iid => {
                (CombinedCost { cost: OPEN_ITERATOR_COST, io_ratio: COST_SCALE }, Direction::Canonical)
            },
            _ => {
                let lhs_bound = input_bound(self.lhs, ordering);
                let rhs_bound = input_bound(self.rhs, ordering);
                let canonical = scan_cost(
                    self.edge_total,
                    lhs_bound,
                    self.lhs_total,
                    rhs_bound,
                    self.rhs_total,
                );
                let reverse = scan_cost(
                    self.edge_total,
                    rhs_bound,
                    self.rhs_total,
                    lhs_bound,
                    self.lhs_total,
                );
                if canonical.cost <= reverse.cost {
                    (canonical, Direction::Canonical)
                } else {
                    (reverse, Direction::Reverse)
                }
            },
        }
    }
}

/// A pattern vertex: one unit of work in the plan.
#[derive(Clone, Debug, PartialEq, Eq)]
pub enum PatternVertex {
    Constraint(ConstraintVertex),
    /// Equality between two variables; one side produces the other.
    Is { lhs: VariableVertexId, rhs: VariableVertexId },
    /// An ordered comparison; both variable operands must be bound.
    Comparison { lhs: Input, rhs: Input },
    /// A pure computation from the inputs to the output variable.
    Expression { inputs: Vec<VariableVertexId>, output: VariableVertexId },
    /// A function invocation binding the assigned variables.
    FunctionCall {
        function_id: u64,
        arguments: Vec<VariableVertexId>,
        assigned: Vec<VariableVertexId>,
    },
    /// A pre-planned negated sub-conjunction with its cached cost.
    Negation { shared: Vec<VariableVertexId>, cost: CombinedCost },
    /// A disjunction over branch conjunctions (pool indices) with the cached
    /// parallel combination of the branch costs.
    Disjunction { shared: Vec<VariableVertexId>, branches: Vec<usize>, cost: CombinedCost },
}

/// `s` with later duplicates dropped: each element at its first occurrence.
pub open spec fn spec_dedup_first<T>(s: Seq<T>) -> Seq<T>
    decreases s.len(),
{
    if s.len() == 0 {
        Seq::empty()
    } else {
        let rest = spec_dedup_first(s.drop_last());
        if rest.contains(s.last()) {
            rest
        } else {
            rest.push(s.last())
        }
    }
}

/// Deduplication keeps exactly the members and never repeats one.
pub proof fn lemma_dedup_first<T>(s: Seq<T>)
    ensures
        forall|x: T| spec_dedup_first(s).contains(x) == s.contains(x),
        crate::ids::seq_no_dups(spec_dedup_first(s)),
        spec_dedup_first(s).len() <= s.len(),
    decreases s.len(),
{
    if s.len() > 0 {
        lemma_dedup_first(s.drop_last());
        let rest = spec_dedup_first(s.drop_last());
        let d = spec_dedup_first(s);
        assert forall|x: T| d.contains(x) == s.contains(x) by {
            if s.contains(x) {
                let k = choose|k: int| 0 <= k < s.len() && s[k] == x;
                if k < s.len() - 1 {
                    assert(s.drop_last()[k] == x);
                    assert(s.drop_last().contains(x));
                    assert(rest.contains(x));
                    if !rest.contains(s.last()) {
                        let j = choose|j: int| 0 <= j < rest.len() && rest[j] == x;
                        assert(d[j] == x);
                    }
                } else {
                    assert(x == s.last());
                    if rest.contains(x) {
                    } else {
                        assert(d.last() == x);
                    }
                }
            }
            if d.contains(x) {
                let k = choose|k: int| 0 <= k < d.len() && d[k] == x;
                if k < rest.len() {
                    assert(rest[k] == x);
                    assert(rest.contains(x));
                    assert(s.drop_last().contains(x));
                    let j = choose|j: int| 0 <= j < s.len() - 1 && s.drop_last()[j] == x;
                    assert(s[j] == x);
                } else {
                    assert(x == s.last());
                    assert(s[s.len() - 1] == x);
                }
            }
        }
        assert forall|i: int, j: int| 0 <= i < j < d.len() implies d[i] != d[j] by {
            if j < rest.len() {
                assert(rest[i] != rest[j]);
            } else {
                assert(d[j] == s.last());
                assert(!rest.contains(s.last()));
                assert(rest[i] == d[i]);
                assert(rest.contains(d[i]));
            }
        }
    }
}

/// Collects the distinct variables of `parts`, keeping first occurrences.
pub fn dedup_vars(parts: &Vec<VariableVertexId>) -> (r: Vec<VariableVertexId>)
    ensures
        r@ == spec_dedup_first(parts@),
{
    let mut r: Vec<VariableVertexId> = Vec::new();
    let mut i: usize = 0;
    proof {
        assert(parts@.take(0) =~= Seq::<VariableVertexId>::empty());
    }
    while i < parts.len()
        invariant
            0 <= i <= parts@.len(),
            r@ == spec_dedup_first(parts@.take(i as int)),
        decreases parts@.len() - i,
    {
        proof {
            assert(parts@.take(i as int + 1).drop_last() =~= parts@.take(i as int));
            assert(parts@.take(i as int + 1).last() == parts@[i as int]);
        }
        let mut found = false;
        let mut k: usize = 0;
        while k < r.len()
            invariant
                0 <= k <= r@.len(),
                found == exists|j: int| 0 <= j < k && r@[j] == parts@[i as int],
                i < parts@.len(),
            decreases r@.len() - k,
        {
            if r[k] == parts[i] {
                found = true;
                assert(r@[k as int] == parts@[i as int]);
            }
            k += 1;
        }
        if !found {
            r.push(parts[i]);
        }
        i += 1;
    }
    proof {
        assert(parts@.take(parts@.len() as int) =~= parts@);
    }
    r
}

/// The variables of an operand list, in order.
pub open spec fn spec_input_vars(inputs: Seq<Input>) -> Seq<VariableVertexId>
    decreases inputs.len(),
{
    if inputs.len() == 0 {
        Seq::empty()
    } else {
        let rest = spec_input_vars(inputs.drop_last());
        match inputs.last() {
            Input::Variable(v) => rest.push(v),
            Input::Fixed => rest,
        }
    }
}

impl PatternVertex {
    /// The distinct variables this pattern touches, first occurrences in
    /// the pattern's canonical operand order.
    pub open spec fn spec_variables(&self) -> Seq<VariableVertexId> {
        spec_dedup_first(self.spec_raw_variables())
    }

    /// The pattern's variable operands in canonical order, duplicates kept.
    pub open spec fn spec_raw_variables(&self) -> Seq<VariableVertexId> {
        match *self {
            PatternVertex::Constraint(c) => spec_input_vars(seq![c.lhs, c.rhs, c.role]),
            PatternVertex::Is { lhs, rhs } => seq![lhs, rhs],
            PatternVertex::Comparison { lhs, rhs } => spec_input_vars(seq![lhs, rhs]),
            PatternVertex::Expression { inputs, output } => inputs@.push(output),
            PatternVertex::FunctionCall { arguments, assigned, .. } => arguments@ + assigned@,
            PatternVertex::Negation { shared, .. } => shared@,
            PatternVertex::Disjunction { shared, .. } => shared@,
        }
    }

    /// Executable mirror of `spec_variables`.
    pub fn variables(&self) -> (r: Vec<VariableVertexId>)
        ensures
            r@ == self.spec_variables(),
    {
        let mut raw: Vec<VariableVertexId> = Vec::new();
        match self {
            PatternVertex::Constraint(c) => {
                push_var_of(&mut raw, c.lhs);
                push_var_of(&mut raw, c.rhs);
                push_var_of(&mut raw, c.role);
                proof {
                    let s1 = seq![c.lhs];
                    let s2 = seq![c.lhs, c.rhs];
                    let s3 = seq![c.lhs, c.rhs, c.role];
                    assert(s1.drop_last() =~= Seq::<Input>::empty());
                    assert(s2.drop_last() =~= s1);
                    assert(s3.drop_last() =~= s2);
                    assert(spec_input_vars(Seq::<Input>::empty())
                        =~= Seq::<VariableVertexId>::empty());
                    assert(s1.last() == c.lhs);
                    assert(s2.last() == c.rhs);
                    assert(s3.last() == c.role);
                    reveal_with_fuel(spec_input_vars, 4);
                    assert(spec_input_vars(s3) =~= raw@);
                }
            },
            PatternVertex::Is { lhs, rhs } => {
                raw.push(*lhs);
                raw.push(*rhs);
                assert(raw@ =~= seq![*lhs, *rhs]);
            },
            PatternVertex::Comparison { lhs, rhs } => {
                push_var_of(&mut raw, *lhs);
                push_var_of(&mut raw, *rhs);
                proof {
                    let s1 = seq![*lhs];
                    let s2 = seq![*lhs, *rhs];
                    assert(s1.drop_last() =~= Seq::<Input>::empty());
                    assert(s2.drop_last() =~= s1);
                    assert(spec_input_vars(Seq::<Input>::empty())
                        =~= Seq::<VariableVertexId>::empty());
                    assert(s1.last() == *lhs);
                    assert(s2.last() == *rhs);
                    reveal_with_fuel(spec_input_vars, 3);
                    assert(spec_input_vars(s2) =~= raw@);
                }
            },
            PatternVertex::Expression { inputs, output } => {
                raw = crate::ids::copy_vec(inputs);
                raw.push(*output);
            },
            PatternVertex::FunctionCall { arguments, assigned, .. } => {
                raw = crate::ids::copy_vec(arguments);
                let mut i: usize = 0;
                while i < assigned.len()
                    invariant
                        0 <= i <= assigned@.len(),
                        raw@ == arguments@ + assigned@.take(i as int),
                    decreases assigned@.len() - i,
                {
                    raw.push(assigned[i]);
                    proof {
                        assert(arguments@ + assigned@.take(i as int + 1)
                            =~= (arguments@ + assigned@.take(i as int)).push(assigned@[i as int]));
                    }
                    i += 1;
                }
                proof {
                    assert(assigned@.take(assigned@.len() as int) =~= assigned@);
                }
            },
            PatternVertex::Negation { shared, .. } => {
                raw = crate::ids::copy_vec(shared);
            },
            PatternVertex::Disjunction { shared, .. } => {
                raw = crate::ids::copy_vec(shared);
            },
        }
        dedup_vars(&raw)
    }
}

/// Appends the variable behind `i`, if any.
fn push_var_of(raw: &mut Vec<VariableVertexId>, i: Input)
    ensures
        final(raw)@ == (match i {
            Input::Variable(v) => old(raw)@.push(v),
            Input::Fixed => old(raw)@,
        }),
{
    match i {
        Input::Variable(v) => raw.push(v),
        Input::Fixed => (),
    }
}


/// Whether the ordered prefix contains pattern `p`.
pub open spec fn spec_ordered_pattern(ordering: Seq<VertexId>, p: PatternVertexId) -> bool {
    ordering.contains(VertexId::Pattern(p))
}

/// All of `vars` are ordered under the prefix.
pub open spec fn spec_all_ordered(vars: Seq<VariableVertexId>, ordering: Seq<VertexId>) -> bool {
    forall|k: int| 0 <= k < vars.len() ==> spec_ordered_var(ordering, #[trigger] vars[k])
}

/// Whether all of `vars` are ordered under the prefix.
pub fn all_ordered(vars: &Vec<VariableVertexId>, ordering: &Vec<VertexId>) -> (r: bool)
    ensures
        r == spec_all_ordered(vars@, ordering@),
{
    let mut i: usize = 0;
    while i < vars.len()
        invariant
            0 <= i <= vars@.len(),
            forall|k: int| 0 <= k < i ==> spec_ordered_var(ordering@, #[trigger] vars@[k]),
        decreases vars@.len() - i,
    {
        if !ordered_var(ordering, vars[i]) {
            return false;
        }
        i += 1;
    }
    true
}

/// The validity predicate: may this pattern be placed after the prefix?
///
/// Constraints may always be placed (an unbound scan is legal in either
/// direction). An `is` needs one side ordered, which produces the other. A
/// comparison needs every variable operand ordered. Expressions and
/// function calls need all their inputs, negations and disjunctions all
/// their shared variables.
pub open spec fn spec_is_valid(p: &PatternVertex, ordering: Seq<VertexId>) -> bool {
    match *p {
        PatternVertex::Constraint(_) => true,
        PatternVertex::Is { lhs, rhs } => spec_ordered_var(ordering, lhs) || spec_ordered_var(
            ordering,
            rhs,
        ),
        PatternVertex::Comparison { lhs, rhs } => spec_input_bound(lhs, ordering)
            && spec_input_bound(rhs, ordering),
        PatternVertex::Expression { inputs, .. } => spec_all_ordered(inputs@, ordering),
        PatternVertex::FunctionCall { arguments, .. } => spec_all_ordered(arguments@, ordering),
        PatternVertex::Negation { shared, .. } => spec_all_ordered(shared@, ordering),
        PatternVertex::Disjunction { shared, .. } => spec_all_ordered(shared@, ordering),
    }
}

/// The cost and metadata of placing `p` after the prefix, with no join
/// context: constraints choose their cheaper direction; `is`, comparisons
/// and expressions cost one in-memory operation; function calls default to
/// one cost unit; negations and disjunctions return their cached cost.
pub open spec fn spec_cost_and_metadata(p: &PatternVertex, ordering: Seq<VertexId>) -> (
    CombinedCost,
    CostMetaData,
) {
    match *p {
        PatternVertex::Constraint(c) => {
            let (cost, dir) = c.spec_cost_and_direction(ordering);
            (cost, CostMetaData::Direction(dir))
        },
        PatternVertex::Is { .. } => (
            CombinedCost { cost: IN_MEM_COST_COMPLEX, io_ratio: COST_SCALE },
            CostMetaData::NoDirection,
        ),
        PatternVertex::Comparison { .. } => (
            CombinedCost { cost: IN_MEM_COST_COMPLEX, io_ratio: COST_SCALE },
            CostMetaData::NoDirection,
        ),
        PatternVertex::Expression { .. } => (
            CombinedCost { cost: IN_MEM_COST_COMPLEX, io_ratio: COST_SCALE },
            CostMetaData::NoDirection,
        ),
        PatternVertex::FunctionCall { .. } => (
            CombinedCost { cost: COST_SCALE, io_ratio: COST_SCALE },
            CostMetaData::NoDirection,
        ),
        PatternVertex::Negation { cost, .. } => (cost, CostMetaData::NoDirection),
        PatternVertex::Disjunction { cost, .. } => (cost, CostMetaData::NoDirection),
    }
}

impl PatternVertex {
    /// Executable mirror of `spec_is_valid`.
    pub fn is_valid(&self, ordering: &Vec<VertexId>) -> (r: bool)
        ensures
            r == spec_is_valid(self, ordering@),
    {
        match self {
            PatternVertex::Constraint(_) => true,
            PatternVertex::Is { lhs, rhs } => {
                ordered_var(ordering, *lhs) || ordered_var(ordering, *rhs)
            },
            PatternVertex::Comparison { lhs, rhs } => {
                input_bound(*lhs, ordering) && input_bound(*rhs, ordering)
            },
            PatternVertex::Expression { inputs, .. } => all_ordered(inputs, ordering),
            PatternVertex::FunctionCall { arguments, .. } => all_ordered(arguments, ordering),
            PatternVertex::Negation { shared, .. } => all_ordered(shared, ordering),
            PatternVertex::Disjunction { shared, .. } => all_ordered(shared, ordering),
        }
    }

    /// Executable mirror of `spec_cost_and_metadata`. For a constraint, the
    /// chosen direction's cost never exceeds the cost of the other
    /// direction under the same prefix.
    pub fn cost_and_metadata(&self, ordering: &Vec<VertexId>) -> (r: (CombinedCost, CostMetaData))
        ensures
            r == spec_cost_and_metadata(self, ordering@),
            self is Constraint && !self->Constraint_0.kind.spec_is_unary() ==> {
                &&& r.0.cost <= self->Constraint_0.spec_canonical_cost(ordering@).cost
                &&& r.0.cost <= self->Constraint_0.spec_reverse_cost(ordering@).cost
            },
    {
        match self {
            PatternVertex::Constraint(c) => {
                let (cost, dir) = c.cost_and_direction(ordering);
                (cost, CostMetaData::Direction(dir))
            },
            PatternVertex::Is { .. } => (
                CombinedCost { cost: IN_MEM_COST_COMPLEX, io_ratio: COST_SCALE },
                CostMetaData::NoDirection,
            ),
            PatternVertex::Comparison { .. } => (
                CombinedCost { cost: IN_MEM_COST_COMPLEX, io_ratio: COST_SCALE },
                CostMetaData::NoDirection,
            ),
            PatternVertex::Expression { .. } => (
                CombinedCost { cost: IN_MEM_COST_COMPLEX, io_ratio: COST_SCALE },
                CostMetaData::NoDirection,
            ),
            PatternVertex::FunctionCall { .. } => (
                CombinedCost { cost: COST_SCALE, io_ratio: COST_SCALE },
                CostMetaData::NoDirection,
            ),
            PatternVertex::Negation { cost, .. } => (*cost, CostMetaData::NoDirection),
            PatternVertex::Disjunction { cost, .. } => (*cost, CostMetaData::NoDirection),
        }
    }
}


/// Direction monotonicity: for a binary constraint, the chosen direction's
/// cost never exceeds the other direction's cost under the same prefix.
pub proof fn lemma_direction_monotone(c: ConstraintVertex, ordering: Seq<VertexId>)
    requires
        !c.kind.spec_is_unary(),
    ensures
        c.spec_cost_and_direction(ordering).0.cost
            <= c.spec_canonical_cost(ordering).cost,
        c.spec_cost_and_direction(ordering).0.cost
            <= c.spec_reverse_cost(ordering).cost,
        c.spec_cost_and_direction(ordering).1 is Canonical
            ==> c.spec_cost_and_direction(ordering).0 == c.spec_canonical_cost(ordering),
        c.spec_cost_and_direction(ordering).1 is Reverse
            ==> c.spec_cost_and_direction(ordering).0 == c.spec_reverse_cost(ordering),
{
}


} // verus!
