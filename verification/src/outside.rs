//! Adapters over the iterator utilities the planner leans on.

use vstd::prelude::*;

use itertools::Itertools;

verus! {

/// `s` with later duplicates dropped: each element at its first occurrence.
pub open spec fn spec_unique_first(s: Seq<usize>) -> Seq<usize> {
    crate::vertex::spec_dedup_first(s)
}

/// Relies on itertools' `unique`: yields each element once, at its first
/// occurrence, in input order.
#[verifier::external_body]
pub fn unique_usize(values: &Vec<usize>) -> (r: Vec<usize>)
    ensures
        r@ == spec_unique_first(values@),
{
    values.iter().copied().unique().collect()
}

/// Relies on itertools' `exactly_one`: `Ok` exactly when the iterator
/// yields a single element, which it returns.
#[verifier::external_body]
pub fn exactly_one_usize(values: &Vec<usize>) -> (r: Option<usize>)
    ensures
        r == (if values@.len() == 1 {
            Some(values@[0])
        } else {
            None::<usize>
        }),
{
    values.iter().copied().exactly_one().ok()
}

} // verus!
