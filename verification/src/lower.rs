//! Plan lowering: from an ordered plan to the executor's step stream.
//!
//! The ordered plan is walked once. Variables are bookkeeping only. A
//! pattern with no newly produced variables is emitted as a check against
//! the current rows. A producing constraint (or `is`) joins the open
//! intersection step when it produces the step's sort variable, and
//! otherwise begins a new step sorted on its first produced variable; its
//! binding is dual, single or unbound by which endpoints are already
//! bound. The scan direction follows the binding: a single input on the
//! left-hand endpoint runs canonically, on the right-hand endpoint in
//! reverse; a dual binding keeps the planner's recorded direction; an
//! unbound scan aligns with the sort variable, falling back to the
//! recorded direction. Expressions, function
//! calls, negations and disjunctions each stand as their own step and
//! close the open intersection. The step stream is a pure function of the
//! plan: lowering the same plan twice yields the identical stream.

use vstd::prelude::*;

use crate::graph::Graph;
use crate::ids::{PatternVertexId, VariableVertexId, VertexId};
use crate::search::{spec_unordered, ConjunctionPlan};
use crate::vertex::{
    spec_input_bound, spec_ordered_var, ConstraintKind, Direction, Input, PatternVertex,
};

verus! {

/// The input binding of a lowered constraint scan.
#[derive(Clone, Copy, Debug, PartialEq, Eq, Structural)]
pub enum InputsSpec {
    Unbound,
    Single(VariableVertexId),
    Dual(VariableVertexId, VariableVertexId),
}

/// One entry of the lowered step stream.
#[derive(Clone, Copy, Debug, PartialEq, Eq, Structural)]
pub enum LoweredEntry {
    /// Opens an intersection step sorted on the variable.
    BeginStep { sort_variable: VariableVertexId },
    /// A producing constraint scan inside the open step.
    ConstraintInstruction {
        pattern: PatternVertexId,
        kind: ConstraintKind,
        direction: Direction,
        inputs: InputsSpec,
    },
    /// An `is` assignment producing one side from the other.
    IsInstruction {
        pattern: PatternVertexId,
        input: VariableVertexId,
        output: VariableVertexId,
    },
    /// A fully bound pattern checked against the current rows.
    CheckInstruction { pattern: PatternVertexId },
    /// A pure computation producing its output variable.
    ExpressionStep { pattern: PatternVertexId, output: VariableVertexId },
    /// A function invocation step.
    FunctionCallStep { pattern: PatternVertexId, function_id: u64 },
    /// A pre-planned negated sub-conjunction, run over the current rows.
    NegationStep { pattern: PatternVertexId },
    /// A disjunction of sub-conjunction branches over the current rows.
    DisjunctionStep { pattern: PatternVertexId },
}

/// The binding of a binary constraint under the bound-ness of its
/// endpoints: dual when both are bound variables, single from the bound
/// side, unbound otherwise.
pub open spec fn spec_binding(
    lhs: Input,
    rhs: Input,
    prefix: Seq<VertexId>,
) -> InputsSpec {
    match (lhs, rhs) {
        (Input::Variable(l), Input::Variable(r)) => {
            if spec_ordered_var(prefix, l) && spec_ordered_var(prefix, r) {
                InputsSpec::Dual(l, r)
            } else if spec_ordered_var(prefix, l) {
                InputsSpec::Single(l)
            } else if spec_ordered_var(prefix, r) {
                InputsSpec::Single(r)
            } else {
                InputsSpec::Unbound
            }
        },
        (Input::Variable(l), Input::Fixed) => {
            if spec_ordered_var(prefix, l) {
                InputsSpec::Single(l)
            } else {
                InputsSpec::Unbound
            }
        },
        (Input::Fixed, Input::Variable(r)) => {
            if spec_ordered_var(prefix, r) {
                InputsSpec::Single(r)
            } else {
                InputsSpec::Unbound
            }
        },
        (Input::Fixed, Input::Fixed) => InputsSpec::Unbound,
    }
}

/// The direction recorded for pattern `p`, canonical when none was.
pub open spec fn spec_direction_of(directions: Seq<Option<Direction>>, p: PatternVertexId) -> Direction {
    if p.0 < directions.len() {
        match directions[p.0 as int] {
            Some(d) => d,
            None => Direction::Canonical,
        }
    } else {
        Direction::Canonical
    }
}

/// The direction a lowered constraint scan runs in, derived from its
/// binding: a single input on the left-hand endpoint scans canonically, on
/// the right-hand endpoint in reverse; a dual binding keeps the planner's
/// recorded direction; an unbound scan is canonical when the sort variable
/// is the canonical-first endpoint, reverse when it is the second, and
/// otherwise keeps the recorded direction.
pub open spec fn spec_lowered_direction(
    c: crate::vertex::ConstraintVertex,
    prefix: Seq<VertexId>,
    sv: VariableVertexId,
    recorded: Direction,
) -> Direction {
    match spec_binding(c.lhs, c.rhs, prefix) {
        InputsSpec::Dual(_, _) => recorded,
        InputsSpec::Single(v) => if c.lhs == Input::Variable(v) {
            Direction::Canonical
        } else {
            Direction::Reverse
        },
        InputsSpec::Unbound => if c.lhs == Input::Variable(sv) {
            Direction::Canonical
        } else if c.rhs == Input::Variable(sv) {
            Direction::Reverse
        } else {
            recorded
        },
    }
}

/// The entries emitted for the ordered item at position `i`, and the sort
/// variable of the step left open afterwards.
pub open spec fn spec_lower_at(
    g: &Graph,
    ordering: Seq<VertexId>,
    directions: Seq<Option<Direction>>,
    i: int,
    open: Option<VariableVertexId>,
) -> (Seq<LoweredEntry>, Option<VariableVertexId>) {
    match ordering[i] {
        VertexId::Variable(_) => (Seq::empty(), open),
        VertexId::Pattern(p) => {
            if p.0 >= g.patterns@.len() {
                (Seq::empty(), open)
            } else {
                let outputs = spec_unordered(
                    g.pattern_to_variable@[p.0 as int]@,
                    ordering.take(i),
                );
                let prefix = ordering.take(i);
                match g.patterns@[p.0 as int] {
                    PatternVertex::Constraint(c) => {
                        if outputs.len() == 0 {
                            (seq![LoweredEntry::CheckInstruction { pattern: p }], open)
                        } else {
                            let sv = outputs[0];
                            let instruction = LoweredEntry::ConstraintInstruction {
                                pattern: p,
                                kind: c.kind,
                                direction: spec_lowered_direction(
                                    c,
                                    prefix,
                                    sv,
                                    spec_direction_of(directions, p),
                                ),
                                inputs: spec_binding(c.lhs, c.rhs, prefix),
                            };
                            if open == Some(sv) {
                                (seq![instruction], open)
                            } else {
                                (
                                    seq![
                                        LoweredEntry::BeginStep { sort_variable: sv },
                                        instruction,
                                    ],
                                    Some(sv),
                                )
                            }
                        }
                    },
                    PatternVertex::Is { lhs, rhs } => {
                        if outputs.len() == 0 {
                            (seq![LoweredEntry::CheckInstruction { pattern: p }], open)
                        } else {
                            let sv = outputs[0];
                            let bound = if spec_ordered_var(prefix, lhs) {
                                lhs
                            } else {
                                rhs
                            };
                            let instruction = LoweredEntry::IsInstruction {
                                pattern: p,
                                input: bound,
                                output: sv,
                            };
                            if open == Some(sv) {
                                (seq![instruction], open)
                            } else {
                                (
                                    seq![
                                        LoweredEntry::BeginStep { sort_variable: sv },
                                        instruction,
                                    ],
                                    Some(sv),
                                )
                            }
                        }
                    },
                    PatternVertex::Comparison { .. } => {
                        (seq![LoweredEntry::CheckInstruction { pattern: p }], open)
                    },
                    PatternVertex::Expression { output, .. } => {
                        (
                            seq![LoweredEntry::ExpressionStep { pattern: p, output }],
                            None,
                        )
                    },
                    PatternVertex::FunctionCall { function_id, .. } => {
                        // A function call always stands as its own step:
                        // upstream guarantees its assigned variables have no
                        // other producer, so it is never a mere check.
                        (
                            seq![
                                LoweredEntry::FunctionCallStep { pattern: p, function_id },
                            ],
                            None,
                        )
                    },
                    PatternVertex::Negation { .. } => {
                        (seq![LoweredEntry::NegationStep { pattern: p }], None)
                    },
                    PatternVertex::Disjunction { .. } => {
                        (seq![LoweredEntry::DisjunctionStep { pattern: p }], None)
                    },
                }
            }
        },
    }
}

/// The lowered stream of the ordering from position `i` on, with `open`
/// the sort variable of the currently open step.
pub open spec fn spec_lower_rec(
    g: &Graph,
    ordering: Seq<VertexId>,
    directions: Seq<Option<Direction>>,
    i: int,
    open: Option<VariableVertexId>,
) -> Seq<LoweredEntry>
    decreases ordering.len() - i,
{
    if i < 0 || i >= ordering.len() {
        Seq::empty()
    } else {
        let (entries, next_open) = spec_lower_at(g, ordering, directions, i, open);
        entries + spec_lower_rec(g, ordering, directions, i + 1, next_open)
    }
}

/// The lowered step stream of a plan.
pub open spec fn spec_lower(
    g: &Graph,
    ordering: Seq<VertexId>,
    directions: Seq<Option<Direction>>,
) -> Seq<LoweredEntry> {
    spec_lower_rec(g, ordering, directions, 0, None)
}

/// Whether variable `v` is ordered within the first `upto` entries.
fn ordered_in_prefix(ordering: &Vec<VertexId>, upto: usize, v: VariableVertexId) -> (r: bool)
    requires
        upto <= ordering@.len(),
    ensures
        r == spec_ordered_var(ordering@.take(upto as int), v),
{
    let mut k: usize = 0;
    while k < upto
        invariant
            0 <= k <= upto <= ordering@.len(),
            forall|j: int| 0 <= j < k ==> ordering@[j] != VertexId::Variable(v),
        decreases upto - k,
    {
        if ordering[k] == VertexId::Variable(v) {
            proof {
                assert(ordering@.take(upto as int)[k as int] == VertexId::Variable(v));
            }
            return true;
        }
        k += 1;
    }
    proof {
        if spec_ordered_var(ordering@.take(upto as int), v) {
            let j = choose|j: int|
                0 <= j < upto && ordering@.take(upto as int)[j] == VertexId::Variable(v);
            assert(ordering@[j] == VertexId::Variable(v));
        }
    }
    false
}

/// The pattern's variables not ordered within the first `upto` entries.
fn outputs_of(g: &Graph, ordering: &Vec<VertexId>, upto: usize, p: PatternVertexId) -> (r: Vec<
    VariableVertexId,
>)
    requires
        g.wf(),
        p.0 < g.patterns@.len(),
        upto <= ordering@.len(),
    ensures
        r@ == spec_unordered(g.pattern_to_variable@[p.0 as int]@, ordering@.take(upto as int)),
{
    let vars = &g.pattern_to_variable[p.0];
    let mut r: Vec<VariableVertexId> = Vec::new();
    let mut i: usize = 0;
    proof {
        assert(vars@.take(0) =~= Seq::<VariableVertexId>::empty());
    }
    while i < vars.len()
        invariant
            0 <= i <= vars@.len(),
            upto <= ordering@.len(),
            vars@ == g.pattern_to_variable@[p.0 as int]@,
            r@ == spec_unordered(vars@.take(i as int), ordering@.take(upto as int)),
        decreases vars@.len() - i,
    {
        proof {
            assert(vars@.take(i as int + 1).drop_last() =~= vars@.take(i as int));
            assert(vars@.take(i as int + 1).last() == vars@[i as int]);
        }
        if !ordered_in_prefix(ordering, upto, vars[i]) {
            r.push(vars[i]);
        }
        i += 1;
    }
    proof {
        assert(vars@.take(vars@.len() as int) =~= vars@);
    }
    r
}

/// The input binding of a binary constraint at position `upto`.
fn binding_of(
    ordering: &Vec<VertexId>,
    upto: usize,
    lhs: Input,
    rhs: Input,
) -> (r: InputsSpec)
    requires
        upto <= ordering@.len(),
    ensures
        r == spec_binding(lhs, rhs, ordering@.take(upto as int)),
{
    match (lhs, rhs) {
        (Input::Variable(l), Input::Variable(rv)) => {
            let lb = ordered_in_prefix(ordering, upto, l);
            let rb = ordered_in_prefix(ordering, upto, rv);
            if lb && rb {
                InputsSpec::Dual(l, rv)
            } else if lb {
                InputsSpec::Single(l)
            } else if rb {
                InputsSpec::Single(rv)
            } else {
                InputsSpec::Unbound
            }
        },
        (Input::Variable(l), Input::Fixed) => {
            if ordered_in_prefix(ordering, upto, l) {
                InputsSpec::Single(l)
            } else {
                InputsSpec::Unbound
            }
        },
        (Input::Fixed, Input::Variable(rv)) => {
            if ordered_in_prefix(ordering, upto, rv) {
                InputsSpec::Single(rv)
            } else {
                InputsSpec::Unbound
            }
        },
        (Input::Fixed, Input::Fixed) => InputsSpec::Unbound,
    }
}

impl ConjunctionPlan {
    /// Lowers the ordered plan into the executor's step stream. The stream
    /// is a pure function of the plan: lowering twice yields the same
    /// stream entry for entry.
    pub fn lower(&self, g: &Graph) -> (r: Vec<LoweredEntry>)
        requires
            g.wf(),
        ensures
            r@ == spec_lower(g, self.ordering@, self.directions@),
    {
        let mut r: Vec<LoweredEntry> = Vec::new();
        let mut open: Option<VariableVertexId> = None;
        let mut i: usize = 0;
        proof {
            assert(r@ + spec_lower_rec(g, self.ordering@, self.directions@, 0, None)
                =~= spec_lower(g, self.ordering@, self.directions@));
        }
        while i < self.ordering.len()
            invariant
                g.wf(),
                0 <= i <= self.ordering@.len(),
                r@ + spec_lower_rec(g, self.ordering@, self.directions@, i as int, open)
                    == spec_lower(g, self.ordering@, self.directions@),
            decreases self.ordering@.len() - i,
        {
            let ghost pre_r = r@;
            let ghost pre_open = open;
            match self.ordering[i] {
                VertexId::Variable(_) => {},
                VertexId::Pattern(p) => {
                    if p.0 < g.pattern_count() {
                        let outputs = outputs_of(g, &self.ordering, i, p);
                        match &g.patterns[p.0] {
                            PatternVertex::Constraint(c) => {
                                if outputs.len() == 0 {
                                    r.push(LoweredEntry::CheckInstruction { pattern: p });
                                } else {
                                    let sv = outputs[0];
                                    let recorded = if p.0 < self.directions.len() {
                                        match self.directions[p.0] {
                                            Some(d) => d,
                                            None => Direction::Canonical,
                                        }
                                    } else {
                                        Direction::Canonical
                                    };
                                    let inputs = binding_of(&self.ordering, i, c.lhs, c.rhs);
                                    let direction = match inputs {
                                        InputsSpec::Dual(_, _) => recorded,
                                        InputsSpec::Single(v) => {
                                            if c.lhs == Input::Variable(v) {
                                                Direction::Canonical
                                            } else {
                                                Direction::Reverse
                                            }
                                        },
                                        InputsSpec::Unbound => {
                                            if c.lhs == Input::Variable(sv) {
                                                Direction::Canonical
                                            } else if c.rhs == Input::Variable(sv) {
                                                Direction::Reverse
                                            } else {
                                                recorded
                                            }
                                        },
                                    };
                                    let instruction = LoweredEntry::ConstraintInstruction {
                                        pattern: p,
                                        kind: c.kind,
                                        direction,
                                        inputs,
                                    };
                                    let same = match open {
                                        Some(o) => o == sv,
                                        None => false,
                                    };
                                    if !same {
                                        r.push(LoweredEntry::BeginStep { sort_variable: sv });
                                        open = Some(sv);
                                    }
                                    r.push(instruction);
                                }
                            },
                            PatternVertex::Is { lhs, rhs } => {
                                if outputs.len() == 0 {
                                    r.push(LoweredEntry::CheckInstruction { pattern: p });
                                } else {
                                    let sv = outputs[0];
                                    let bound = if ordered_in_prefix(
                                        &self.ordering,
                                        i,
                                        *lhs,
                                    ) {
                                        *lhs
                                    } else {
                                        *rhs
                                    };
                                    let instruction = LoweredEntry::IsInstruction {
                                        pattern: p,
                                        input: bound,
                                        output: sv,
                                    };
                                    let same = match open {
                                        Some(o) => o == sv,
                                        None => false,
                                    };
                                    if !same {
                                        r.push(LoweredEntry::BeginStep { sort_variable: sv });
                                        open = Some(sv);
                                    }
                                    r.push(instruction);
                                }
                            },
                            PatternVertex::Comparison { .. } => {
                                r.push(LoweredEntry::CheckInstruction { pattern: p });
                            },
                            PatternVertex::Expression { output, .. } => {
                                r.push(LoweredEntry::ExpressionStep {
                                    pattern: p,
                                    output: *output,
                                });
                                open = None;
                            },
                            PatternVertex::FunctionCall { function_id, .. } => {
                                r.push(LoweredEntry::FunctionCallStep {
                                    pattern: p,
                                    function_id: *function_id,
                                });
                                open = None;
                            },
                            PatternVertex::Negation { .. } => {
                                r.push(LoweredEntry::NegationStep { pattern: p });
                                open = None;
                            },
                            PatternVertex::Disjunction { .. } => {
                                r.push(LoweredEntry::DisjunctionStep { pattern: p });
                                open = None;
                            },
                        }
                    }
                },
            }
            proof {
                let (entries, next_open) = spec_lower_at(
                    g,
                    self.ordering@,
                    self.directions@,
                    i as int,
                    pre_open,
                );
                assert(r@ =~= pre_r + entries);
                assert(open == next_open);
                assert(r@ + spec_lower_rec(
                    g,
                    self.ordering@,
                    self.directions@,
                    i as int + 1,
                    open,
                ) =~= spec_lower(g, self.ordering@, self.directions@)) by {
                    assert(pre_r + spec_lower_rec(
                        g,
                        self.ordering@,
                        self.directions@,
                        i as int,
                        pre_open,
                    ) == spec_lower(g, self.ordering@, self.directions@));
                    assert(spec_lower_rec(
                        g,
                        self.ordering@,
                        self.directions@,
                        i as int,
                        pre_open,
                    ) == entries + spec_lower_rec(
                        g,
                        self.ordering@,
                        self.directions@,
                        i as int + 1,
                        next_open,
                    ));
                    assert(pre_r + (entries + spec_lower_rec(
                        g,
                        self.ordering@,
                        self.directions@,
                        i as int + 1,
                        next_open,
                    )) =~= (pre_r + entries) + spec_lower_rec(
                        g,
                        self.ordering@,
                        self.directions@,
                        i as int + 1,
                        next_open,
                    ));
                }
            }
            i += 1;
        }
        proof {
            assert(spec_lower_rec(
                g,
                self.ordering@,
                self.directions@,
                self.ordering@.len() as int,
                open,
            ) =~= Seq::<LoweredEntry>::empty());
            assert(r@ =~= r@ + Seq::<LoweredEntry>::empty());
        }
        r
    }
}

/// Lowering is idempotent: the step stream is a pure function of the
/// graph and the plan, so lowering the same plan twice yields identical
/// step streams.
pub proof fn lemma_lowering_idempotent(
    g: &Graph,
    ordering: Seq<VertexId>,
    directions: Seq<Option<Direction>>,
    first: Seq<LoweredEntry>,
    second: Seq<LoweredEntry>,
)
    requires
        first == spec_lower(g, ordering, directions),
        second == spec_lower(g, ordering, directions),
    ensures
        first == second,
{
}


/// How a produced variable is handed past its step by the executor.
#[derive(Clone, Copy, Debug, PartialEq, Eq, Structural)]
pub enum Visibility {
    /// Selected by the user, or consumed by a later pattern: the variable
    /// stays in the output row.
    Output,
    /// Needed only inside its own step: counted or checked, never carried.
    Internal,
}

/// Some pattern after position `i` consumes variable `v`.
pub open spec fn spec_has_later_consumer(
    g: &Graph,
    ordering: Seq<VertexId>,
    i: int,
    v: VariableVertexId,
) -> bool {
    exists|j: int| i < j < ordering.len() && crate::search::spec_produces(
        g,
        #[trigger] ordering[j],
        v,
    )
}

/// The visibility of the variable produced at position `i`: output when it
/// is user-selected or some later pattern consumes it, internal otherwise.
pub open spec fn spec_visibility(
    g: &Graph,
    ordering: Seq<VertexId>,
    i: int,
    v: VariableVertexId,
    selected: Seq<VariableVertexId>,
) -> Visibility {
    if selected.contains(v) || spec_has_later_consumer(g, ordering, i, v) {
        Visibility::Output
    } else {
        Visibility::Internal
    }
}

/// Computes the visibility of the variable produced at position `i`.
pub fn variable_visibility(
    g: &Graph,
    ordering: &Vec<VertexId>,
    i: usize,
    v: VariableVertexId,
    selected: &Vec<VariableVertexId>,
) -> (r: Visibility)
    requires
        g.wf(),
    ensures
        r == spec_visibility(g, ordering@, i as int, v, selected@),
{
    let mut k: usize = 0;
    while k < selected.len()
        invariant
            0 <= k <= selected@.len(),
            forall|t: int| 0 <= t < k ==> selected@[t] != v,
        decreases selected@.len() - k,
    {
        if selected[k] == v {
            proof {
                assert(selected@[k as int] == v);
            }
            return Visibility::Output;
        }
        k += 1;
    }
    match last_consumer(g, ordering, i, v) {
        Option::Some(_) => Visibility::Output,
        Option::None => Visibility::Internal,
    }
}

/// The position of the last pattern consuming `v` after position `i`, if
/// any: the step holding it is the last one that needs `v`, after which
/// the executor drops the variable from its rows.
pub fn last_consumer(
    g: &Graph,
    ordering: &Vec<VertexId>,
    i: usize,
    v: VariableVertexId,
) -> (r: Option<usize>)
    requires
        g.wf(),
    ensures
        r matches Some(j) ==> (i as int) < j < ordering@.len()
            && crate::search::spec_produces(g, ordering@[j as int], v)
            && forall|t: int| j < t < ordering@.len()
                ==> !crate::search::spec_produces(g, #[trigger] ordering@[t], v),
        r is None == !spec_has_later_consumer(g, ordering@, i as int, v),
{
    let mut j: usize = ordering.len();
    while j > 0 && j - 1 > i
        invariant
            g.wf(),
            j <= ordering@.len(),
            forall|t: int| j <= t < ordering@.len()
                ==> !crate::search::spec_produces(g, #[trigger] ordering@[t], v),
        decreases j,
    {
        let candidate = j - 1;
        let consumed = match ordering[candidate] {
            VertexId::Pattern(p) => {
                if p.0 < g.pattern_count() {
                    let vars = &g.pattern_to_variable[p.0];
                    let mut found = false;
                    let mut t: usize = 0;
                    while t < vars.len()
                        invariant
                            0 <= t <= vars@.len(),
                            vars@ == g.pattern_to_variable@[p.0 as int]@,
                            found == exists|u: int| 0 <= u < t && vars@[u] == v,
                        decreases vars@.len() - t,
                    {
                        if vars[t] == v {
                            found = true;
                            proof {
                                assert(vars@[t as int] == v);
                            }
                        }
                        t += 1;
                    }
                    proof {
                        if found {
                            let u = choose|u: int| 0 <= u < vars@.len() && vars@[u] == v;
                            assert(vars@.contains(v));
                        } else {
                            if vars@.contains(v) {
                                let u = choose|u: int|
                                    0 <= u < vars@.len() && vars@[u] == v;
                            }
                        }
                    }
                    found
                } else {
                    false
                }
            },
            VertexId::Variable(_) => false,
        };
        if consumed {
            return Some(candidate);
        }
        j = candidate;
    }
    proof {
        assert(!spec_has_later_consumer(g, ordering@, i as int, v)) by {
            if spec_has_later_consumer(g, ordering@, i as int, v) {
                let t = choose|t: int| (i as int) < t < ordering@.len()
                    && crate::search::spec_produces(g, ordering@[t], v);
            }
        }
    }
    None
}

} // verus!
