//! The input of the planner: a normalized conjunctive pattern.
//!
//! A query is a pool of conjunctions. Nested patterns (negations and
//! disjunction branches) refer to other entries of the pool by index, and
//! every such reference points strictly forward, so the nesting is acyclic
//! and sub-conjunctions can be planned from the back of the pool towards
//! the front. Conjunction zero is the root.

use vstd::prelude::*;

verus! {

/// An externally allocated variable identifier.
#[derive(Clone, Copy, Debug, PartialEq, Eq, Hash, Structural)]
pub struct Variable(pub u64);

/// The category a variable was registered under.
#[derive(Clone, Copy, Debug, PartialEq, Eq, Structural)]
pub enum VariableCategory {
    Type,
    ThingType,
    AttributeType,
    RoleType,
    Thing,
    Object,
    Attribute,
    Value,
    ObjectList,
    ThingList,
    AttributeList,
    ValueList,
    AttributeOrValue,
}

impl VariableCategory {
    /// List-typed categories, which the planner does not support.
    pub open spec fn spec_is_list(self) -> bool {
        self is ObjectList || self is ThingList || self is AttributeList || self is ValueList
    }

    pub fn is_list(self) -> (r: bool)
        ensures
            r == self.spec_is_list(),
    {
        match self {
            VariableCategory::ObjectList
            | VariableCategory::ThingList
            | VariableCategory::AttributeList
            | VariableCategory::ValueList => true,
            _ => false,
        }
    }
}

/// Comparison operators between two operands.
#[derive(Clone, Copy, Debug, PartialEq, Eq, Structural)]
pub enum Comparator {
    Equal,
    NotEqual,
    Less,
    LessOrEqual,
    Greater,
    GreaterOrEqual,
    Like,
    Contains,
}

/// An operand of a constraint: a variable, a fixed type label, or a fixed
/// value parameter.
#[derive(Clone, Copy, Debug, PartialEq, Eq, Structural)]
pub enum OperandIr {
    Variable(Variable),
    Label(u64),
    Parameter(u64),
}

impl OperandIr {
    pub open spec fn spec_as_variable(self) -> Option<Variable> {
        match self {
            OperandIr::Variable(v) => Some(v),
            _ => None,
        }
    }

    pub fn as_variable(self) -> (r: Option<Variable>)
        ensures
            r == self.spec_as_variable(),
    {
        match self {
            OperandIr::Variable(v) => Some(v),
            _ => None,
        }
    }
}

/// One constraint of a conjunction.
#[derive(Clone, Debug, PartialEq, Eq)]
pub enum ConstraintIr {
    /// Unary filter: the type variable is the type with this label.
    Label { type_var: Variable, type_id: u64 },
    /// Unary filter: the role-type variable has this role name.
    RoleName { type_var: Variable, name_id: u64 },
    /// Unary filter: the type variable is of this kind.
    Kind { type_var: Variable, kind_id: u64 },
    /// Unary filter: the attribute-type variable has this value type.
    Value { attribute_type_var: Variable, value_type_id: u64 },
    /// Direct lookup of one thing by its internal id (a parameter).
    Iid { var: Variable, iid_parameter: u64 },
    Sub { subtype: OperandIr, supertype: OperandIr },
    Owns { owner: OperandIr, attribute: OperandIr },
    Relates { relation: OperandIr, role_type: OperandIr },
    Plays { player: OperandIr, role_type: OperandIr },
    Isa { thing: OperandIr, type_of: OperandIr },
    Has { owner: OperandIr, attribute: OperandIr },
    Links { relation: OperandIr, player: OperandIr, role_type: OperandIr },
    Is { lhs: Variable, rhs: Variable },
    Comparison { lhs: OperandIr, rhs: OperandIr, comparator: Comparator },
    /// Pure computation binding `output` from the `inputs`.
    ExpressionBinding { output: Variable, inputs: Vec<Variable> },
    /// Function invocation assigning the `assigned` variables from the
    /// `arguments`.
    FunctionCallBinding { function_id: u64, assigned: Vec<Variable>, arguments: Vec<Variable> },
}

/// A disjunction: alternative sub-conjunctions sharing an input set. Each
/// branch is an index into the conjunction pool of the query.
#[derive(Clone, Debug, PartialEq, Eq)]
pub struct DisjunctionIr {
    pub branches: Vec<usize>,
}

/// One conjunction: constraints over a variable scope, plus nested patterns
/// referring to other conjunctions of the pool by index.
#[derive(Clone, Debug, PartialEq, Eq)]
pub struct Conjunction {
    pub scope_id: u64,
    pub constraints: Vec<ConstraintIr>,
    /// Variables captured from the enclosing scope.
    pub shared_variables: Vec<Variable>,
    /// Variables declared locally in this conjunction.
    pub local_variables: Vec<Variable>,
    /// Negated sub-conjunctions (pool indices).
    pub negations: Vec<usize>,
    /// Disjunctions of sub-conjunction branches (pool indices).
    pub disjunctions: Vec<DisjunctionIr>,
    /// Optional sub-conjunctions (pool indices); planning them is
    /// unsupported and reported as such.
    pub optionals: Vec<usize>,
}

impl Conjunction {
    pub fn new(scope_id: u64) -> (r: Self)
        ensures
            r.scope_id == scope_id,
            r.constraints@.len() == 0,
            r.shared_variables@.len() == 0,
            r.local_variables@.len() == 0,
            r.negations@.len() == 0,
            r.disjunctions@.len() == 0,
            r.optionals@.len() == 0,
    {
        Conjunction {
            scope_id,
            constraints: Vec::new(),
            shared_variables: Vec::new(),
            local_variables: Vec::new(),
            negations: Vec::new(),
            disjunctions: Vec::new(),
            optionals: Vec::new(),
        }
    }

    pub fn scope_id(&self) -> (r: u64)
        ensures
            r == self.scope_id,
    {
        self.scope_id
    }
}

/// An optional pattern: a sub-conjunction that may fail to match without
/// discarding the enclosing row. The planner reports it as unsupported.
#[derive(Clone, Debug, PartialEq, Eq)]
pub struct Optional {
    conjunction: Conjunction,
}

impl Optional {
    /// The sub-conjunction this optional wraps.
    pub closed spec fn spec_conjunction(&self) -> Conjunction {
        self.conjunction
    }

    pub fn new(scope_id: u64) -> (r: Self)
        ensures
            r.spec_conjunction().scope_id == scope_id,
            r.spec_conjunction().constraints@.len() == 0,
            r.spec_conjunction().shared_variables@.len() == 0,
            r.spec_conjunction().local_variables@.len() == 0,
            r.spec_conjunction().negations@.len() == 0,
            r.spec_conjunction().disjunctions@.len() == 0,
            r.spec_conjunction().optionals@.len() == 0,
    {
        Optional { conjunction: Conjunction::new(scope_id) }
    }

    pub fn conjunction(&self) -> (r: &Conjunction)
        ensures
            r == self.spec_conjunction(),
    {
        &self.conjunction
    }

    pub fn conjunction_mut(&mut self) -> (r: &mut Conjunction)
        ensures
            *r == old(self).spec_conjunction(),
            final(self).spec_conjunction() == *final(r),
    {
        &mut self.conjunction
    }
}

/// The variable registry: maps each variable to its category.
#[derive(Clone, Debug, PartialEq, Eq)]
pub struct VariableRegistry {
    entries: Vec<(Variable, VariableCategory)>,
}

/// The category of `v` under `entries`: the first entry for `v`, if any.
pub open spec fn spec_category_of(
    entries: Seq<(Variable, VariableCategory)>,
    v: Variable,
) -> Option<VariableCategory>
    decreases entries.len(),
{
    if entries.len() == 0 {
        None
    } else if entries[0].0 == v {
        Some(entries[0].1)
    } else {
        spec_category_of(entries.drop_first(), v)
    }
}

impl VariableRegistry {
    pub closed spec fn view(&self) -> Seq<(Variable, VariableCategory)> {
        self.entries@
    }

    pub fn new() -> (r: Self)
        ensures
            r@.len() == 0,
    {
        VariableRegistry { entries: Vec::new() }
    }

    pub fn register(&mut self, v: Variable, category: VariableCategory)
        ensures
            final(self)@ == old(self)@.push((v, category)),
    {
        self.entries.push((v, category));
    }

    pub fn get_variable_category(&self, v: Variable) -> (r: Option<VariableCategory>)
        ensures
            r == spec_category_of(self@, v),
    {
        let mut i: usize = 0;
        proof {
            assert(self.entries@.skip(0) =~= self.entries@);
        }
        while i < self.entries.len()
            invariant
                0 <= i <= self.entries@.len(),
                spec_category_of(self.entries@, v)
                    == spec_category_of(self.entries@.skip(i as int), v),
            decreases self.entries@.len() - i,
        {
            proof {
                assert(self.entries@.skip(i as int).drop_first()
                    =~= self.entries@.skip(i as int + 1));
            }
            if self.entries[i].0 == v {
                return Some(self.entries[i].1);
            }
            i += 1;
        }
        None
    }
}

/// A query: the pool of conjunctions, rooted at index zero. Every nested
/// reference points to a strictly larger index.
#[derive(Clone, Debug, PartialEq, Eq)]
pub struct QueryIr {
    pub conjunctions: Vec<Conjunction>,
}

/// Nested references of conjunction `i` all point past `i`, into the pool.
pub open spec fn spec_conjunction_refs_wf(pool: Seq<Conjunction>, i: int) -> bool {
    &&& forall|k: int| 0 <= k < pool[i].negations@.len()
        ==> i < #[trigger] pool[i].negations@[k] < pool.len()
    &&& forall|k: int| 0 <= k < pool[i].optionals@.len()
        ==> i < #[trigger] pool[i].optionals@[k] < pool.len()
    &&& forall|d: int, k: int|
        0 <= d < pool[i].disjunctions@.len()
            && 0 <= k < pool[i].disjunctions@[d].branches@.len()
        ==> i < #[trigger] pool[i].disjunctions@[d].branches@[k] < pool.len()
}

impl QueryIr {
    /// The pool is acyclic: all nested references point strictly forward.
    pub open spec fn wf(&self) -> bool {
        forall|i: int| 0 <= i < self.conjunctions@.len()
            ==> #[trigger] spec_conjunction_refs_wf(self.conjunctions@, i)
    }
}

/// The instruction set of compiled expressions, as consumed by the
/// downstream executor; the planner treats expressions as opaque
/// computations with a fixed cost.
#[derive(Clone, Copy, Debug, PartialEq, Eq, Structural)]
pub enum ExpressionOpCode {
    LoadConstant,
    LoadVariable,
    ListConstructor,
    ListIndex,
    ListIndexRange,
    CastUnaryIntegerToDouble,
    CastLeftIntegerToDouble,
    CastRightIntegerToDouble,
    CastUnaryIntegerToDecimal,
    CastLeftIntegerToDecimal,
    CastRightIntegerToDecimal,
    CastUnaryDecimalToDouble,
    CastLeftDecimalToDouble,
    CastRightDecimalToDouble,
    OpIntegerAddInteger,
    OpDoubleAddDouble,
    OpIntegerMultiplyInteger,
    OpIntegerSubtractInteger,
    OpIntegerDivideInteger,
    OpIntegerModuloInteger,
    OpIntegerPowerInteger,
    OpDoubleSubtractDouble,
    OpDoubleMultiplyDouble,
    OpDoubleDivideDouble,
    OpDoubleModuloDouble,
    OpDoublePowerDouble,
    OpDecimalAddDecimal,
    OpDecimalSubtractDecimal,
    OpDecimalMultiplyDecimal,
    MathAbsInteger,
    MathAbsDouble,
    MathRemainderInteger,
    MathRoundDouble,
    MathCeilDouble,
    MathFloorDouble,
}

} // verus!
