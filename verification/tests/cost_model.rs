//! The fixed-point cost model: exact values for chaining, joining and
//! parallel combination, and the chaining monotonicity on examples.

use match_planner::cost::{
    mul_div, sat_add, ADVANCE_ITERATOR_COST, IN_MEM_COST_COMPLEX, IN_MEM_COST_SIMPLE,
    MIN_IO_RATIO, OPEN_ITERATOR_COST,
};
use match_planner::{CombinedCost, COST_SCALE};

#[test]
fn constants_are_scaled() {
    assert_eq!(COST_SCALE, 1_000_000);
    assert_eq!(IN_MEM_COST_SIMPLE, 20_000);
    assert_eq!(IN_MEM_COST_COMPLEX, 40_000);
    assert_eq!(OPEN_ITERATOR_COST, 5 * COST_SCALE);
    assert_eq!(ADVANCE_ITERATOR_COST, COST_SCALE);
}

#[test]
fn chain_multiplies_io_and_accumulates_cost() {
    // A step of cost 2.0 with 3 outputs per input, then one of cost 4.0
    // with 5 outputs per input: cost 2 + 4 * 3 = 14, ratio 15.
    let a = CombinedCost { cost: 2 * COST_SCALE, io_ratio: 3 * COST_SCALE };
    let b = CombinedCost { cost: 4 * COST_SCALE, io_ratio: 5 * COST_SCALE };
    let c = a.chain(b);
    assert_eq!(c.cost, 14 * COST_SCALE);
    assert_eq!(c.io_ratio, 15 * COST_SCALE);
}

#[test]
fn chain_keeps_io_ratio_above_floor() {
    let a = CombinedCost { cost: 0, io_ratio: 0 };
    let b = CombinedCost { cost: 0, io_ratio: 0 };
    let c = a.chain(b);
    assert_eq!(c.io_ratio, MIN_IO_RATIO);
}

#[test]
fn chain_never_lowers_cost() {
    // The cumulative cost of a plan is non-decreasing as steps are chained.
    let mut acc = CombinedCost::noop();
    let steps = [
        CombinedCost { cost: 7 * COST_SCALE, io_ratio: 2 * COST_SCALE },
        CombinedCost { cost: 0, io_ratio: COST_SCALE / 2 },
        CombinedCost { cost: 1, io_ratio: COST_SCALE },
    ];
    for step in steps {
        let next = acc.chain(step);
        assert!(next.cost >= acc.cost);
        acc = next;
    }
}

#[test]
fn join_divides_io_by_join_size() {
    // Two scans of ratio 1000 joined on a variable of expected size 100:
    // the combined ratio is 1000 * 1000 / 100 = 10000; costs add.
    let a = CombinedCost { cost: 3 * COST_SCALE, io_ratio: 1000 * COST_SCALE };
    let b = CombinedCost { cost: 2 * COST_SCALE, io_ratio: 1000 * COST_SCALE };
    let c = a.join(b, 100);
    assert_eq!(c.cost, 5 * COST_SCALE);
    assert_eq!(c.io_ratio, 10_000 * COST_SCALE);
}

#[test]
fn combine_parallel_sums_costs_and_ratios() {
    let a = CombinedCost { cost: 3 * COST_SCALE, io_ratio: 2 * COST_SCALE };
    let b = CombinedCost { cost: 4 * COST_SCALE, io_ratio: 5 * COST_SCALE };
    let c = a.combine_parallel(b);
    assert_eq!(c.cost, 7 * COST_SCALE);
    assert_eq!(c.io_ratio, 7 * COST_SCALE);
}

#[test]
fn saturation_caps_at_maximum() {
    assert_eq!(sat_add(u64::MAX - 1, 5), u64::MAX);
    assert_eq!(sat_add(1, 2), 3);
    assert_eq!(mul_div(10, 30, 4), 75);
    assert_eq!(mul_div(u64::MAX, u64::MAX, 1), u64::MAX);
    assert_eq!(mul_div(5, 5, 0), 0);
}
