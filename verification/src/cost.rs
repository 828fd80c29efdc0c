//! The cost model of the planner, in fixed-point arithmetic.
//!
//! A `CombinedCost` pairs a per-input cost with an io ratio (the expected
//! number of output rows per input row). Both are scaled by `COST_SCALE`:
//! the integer `COST_SCALE` stands for the real value one. All arithmetic
//! saturates at `u64::MAX`, and chained io ratios never fall below
//! `MIN_IO_RATIO`, the smallest positive ratio the model distinguishes.

use vstd::prelude::*;

verus! {

/// Fixed-point scale: this integer stands for the real value one.
pub const COST_SCALE: u64 = 1_000_000;

/// Floor for chained io ratios: the smallest positive ratio of the model,
/// one quantum of the fixed-point scale (a ratio of one millionth). A
/// finer floor would need a finer scale, which the 64-bit saturating
/// arithmetic trades away in exchange for headroom on large counts.
pub const MIN_IO_RATIO: u64 = 1;

/// Cost of one simple in-memory operation.
pub const IN_MEM_COST_SIMPLE: u64 = 20_000;

/// Cost of one complex in-memory operation.
pub const IN_MEM_COST_COMPLEX: u64 = IN_MEM_COST_SIMPLE * 2;

/// Cost of opening a storage iterator.
pub const OPEN_ITERATOR_COST: u64 = 5_000_000;

/// Cost of advancing a storage iterator by one element.
pub const ADVANCE_ITERATOR_COST: u64 = 1_000_000;

/// `x` clamped into `u64`.
pub open spec fn sat64(x: int) -> u64 {
    if x > u64::MAX {
        u64::MAX
    } else if x < 0 {
        0
    } else {
        x as u64
    }
}

/// `(a * b) / d` clamped into `u64` (zero when `d` is zero).
pub open spec fn spec_mul_div(a: u64, b: u64, d: u64) -> u64 {
    if d == 0 {
        0
    } else {
        sat64((a * b) / (d as int))
    }
}

/// Saturating addition.
pub fn sat_add(a: u64, b: u64) -> (r: u64)
    ensures
        r == sat64(a + b),
{
    if a > u64::MAX - b {
        u64::MAX
    } else {
        a + b
    }
}

/// Saturating multiply-then-divide: `(a * b) / d`, zero when `d` is zero.
pub fn mul_div(a: u64, b: u64, d: u64) -> (r: u64)
    ensures
        r == spec_mul_div(a, b, d),
{
    if d == 0 {
        return 0;
    }
    proof {
        assert((a as int) * (b as int) <= (u64::MAX as int) * (u64::MAX as int))
            by (nonlinear_arith)
            requires
                a <= u64::MAX,
                b <= u64::MAX,
        ;
    }
    let p: u128 = (a as u128) * (b as u128) / (d as u128);
    if p > u64::MAX as u128 {
        u64::MAX
    } else {
        p as u64
    }
}

/// A per-input cost together with the expected output rows per input row,
/// both in fixed-point units of `COST_SCALE`.
#[derive(Clone, Copy, Debug, PartialEq, Eq, Structural)]
pub struct CombinedCost {
    /// Work per input row, `COST_SCALE` standing for one cost unit.
    pub cost: u64,
    /// Expected output rows per input row, `COST_SCALE` standing for one.
    pub io_ratio: u64,
}

/// The cost of the step `a` followed per output row by the step `b`.
pub open spec fn spec_chain(a: CombinedCost, b: CombinedCost) -> CombinedCost {
    CombinedCost {
        cost: sat64(a.cost + spec_mul_div(b.cost, a.io_ratio, COST_SCALE)),
        io_ratio: spec_max_u64(spec_mul_div(a.io_ratio, b.io_ratio, COST_SCALE), MIN_IO_RATIO),
    }
}

/// Joining `b` into the step of `a` on a variable of expected size
/// `join_size` (a plain count): costs add, the combined io ratio is the
/// product reduced by the join size.
pub open spec fn spec_join(a: CombinedCost, b: CombinedCost, join_size: u64) -> CombinedCost {
    CombinedCost {
        cost: sat64(a.cost + b.cost),
        io_ratio: spec_max_u64(
            spec_mul_div(a.io_ratio, b.io_ratio, sat64(COST_SCALE * join_size)),
            MIN_IO_RATIO,
        ),
    }
}

/// Running `a` and `b` as parallel alternatives: costs and io ratios add.
pub open spec fn spec_combine_parallel(a: CombinedCost, b: CombinedCost) -> CombinedCost {
    CombinedCost { cost: sat64(a.cost + b.cost), io_ratio: sat64(a.io_ratio + b.io_ratio) }
}

pub open spec fn spec_max_u64(a: u64, b: u64) -> u64 {
    if a >= b {
        a
    } else {
        b
    }
}

impl CombinedCost {
    /// A step that does nothing: no cost, io ratio one.
    pub fn noop() -> (r: Self)
        ensures
            r == Self::spec_noop(),
    {
        CombinedCost { cost: 0, io_ratio: COST_SCALE }
    }

    pub open spec fn spec_noop() -> Self {
        CombinedCost { cost: 0, io_ratio: COST_SCALE }
    }

    /// A step producing nothing: no cost, io ratio zero.
    pub fn empty() -> (r: Self)
        ensures
            r == Self::spec_empty(),
    {
        CombinedCost { cost: 0, io_ratio: 0 }
    }

    pub open spec fn spec_empty() -> Self {
        CombinedCost { cost: 0, io_ratio: 0 }
    }

    /// One simple in-memory operation with the given io ratio.
    pub fn in_mem_simple_with_ratio(io_ratio: u64) -> (r: Self)
        ensures
            r == (CombinedCost { cost: IN_MEM_COST_SIMPLE, io_ratio }),
    {
        CombinedCost { cost: IN_MEM_COST_SIMPLE, io_ratio }
    }

    /// One complex in-memory operation with the given io ratio.
    pub fn in_mem_complex_with_ratio(io_ratio: u64) -> (r: Self)
        ensures
            r == (CombinedCost { cost: IN_MEM_COST_COMPLEX, io_ratio }),
    {
        CombinedCost { cost: IN_MEM_COST_COMPLEX, io_ratio }
    }

    /// Sequential composition: `self`, then `other` once per output row.
    pub fn chain(self, other: Self) -> (r: Self)
        ensures
            r == spec_chain(self, other),
    {
        let added = mul_div(other.cost, self.io_ratio, COST_SCALE);
        let ratio = mul_div(self.io_ratio, other.io_ratio, COST_SCALE);
        CombinedCost {
            cost: sat_add(self.cost, added),
            io_ratio: if ratio >= MIN_IO_RATIO { ratio } else { MIN_IO_RATIO },
        }
    }

    /// Join composition on a variable of expected size `join_size`.
    pub fn join(self, other: Self, join_size: u64) -> (r: Self)
        ensures
            r == spec_join(self, other, join_size),
    {
        let d128: u128 = (COST_SCALE as u128) * (join_size as u128);
        let denom: u64 = if d128 > u64::MAX as u128 {
            u64::MAX
        } else {
            d128 as u64
        };
        let ratio = mul_div(self.io_ratio, other.io_ratio, denom);
        CombinedCost {
            cost: sat_add(self.cost, other.cost),
            io_ratio: if ratio >= MIN_IO_RATIO { ratio } else { MIN_IO_RATIO },
        }
    }

    /// Parallel combination of alternatives.
    pub fn combine_parallel(self, other: Self) -> (r: Self)
        ensures
            r == spec_combine_parallel(self, other),
    {
        CombinedCost { cost: sat_add(self.cost, other.cost), io_ratio: sat_add(self.io_ratio, other.io_ratio) }
    }
}

/// Chaining can only increase the per-input cost: the cost of a plan is
/// non-decreasing as further steps are appended to it.
pub proof fn lemma_chain_monotone(a: CombinedCost, b: CombinedCost)
    ensures
        spec_chain(a, b).cost >= a.cost,
{
}

/// Folding `chain` over a sequence of step costs: the cumulative cost
/// after any prefix is non-decreasing in the prefix length.
pub open spec fn spec_chain_fold(init: CombinedCost, steps: Seq<CombinedCost>) -> CombinedCost
    decreases steps.len(),
{
    if steps.len() == 0 {
        init
    } else {
        spec_chain_fold(spec_chain(init, steps[0]), steps.drop_first())
    }
}

/// The cumulative cost of a chained plan is non-decreasing as patterns are
/// appended: chaining one further step cannot lower the cost of the whole.
pub proof fn lemma_chain_fold_monotone(init: CombinedCost, steps: Seq<CombinedCost>)
    ensures
        spec_chain_fold(init, steps).cost >= init.cost,
    decreases steps.len(),
{
    if steps.len() > 0 {
        lemma_chain_monotone(init, steps[0]);
        lemma_chain_fold_monotone(spec_chain(init, steps[0]), steps.drop_first());
    }
}

} // verus!
