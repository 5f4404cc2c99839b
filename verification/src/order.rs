//! The order on strategy ids and generations: by raw value.
//!
//! Imitation ties are broken towards the lowest id, and comparisons between
//! generations must follow the counter, so the order is the numeric one,
//! written out here rather than left to what a derive produces.

use crate::types::{Generation, StrategyId};
use core::cmp::Ordering;
use vstd::prelude::*;
use vstd::std_specs::cmp::PartialOrdSpec;

verus! {

/// Compares two raw bytes numerically.
pub open spec fn order_of_bytes(a: u8, b: u8) -> Option<Ordering> {
    if a < b {
        Some(Ordering::Less)
    } else if a > b {
        Some(Ordering::Greater)
    } else {
        Some(Ordering::Equal)
    }
}

/// Compares two raw counts numerically.
pub open spec fn order_of_counts(a: u32, b: u32) -> Option<Ordering> {
    if a < b {
        Some(Ordering::Less)
    } else if a > b {
        Some(Ordering::Greater)
    } else {
        Some(Ordering::Equal)
    }
}

impl PartialOrd for StrategyId {
    fn partial_cmp(&self, other: &Self) -> (r: Option<Ordering>) {
        let a = self.get();
        let b = other.get();
        if a < b {
            Some(Ordering::Less)
        } else if a > b {
            Some(Ordering::Greater)
        } else {
            Some(Ordering::Equal)
        }
    }
}

impl vstd::std_specs::cmp::PartialOrdSpecImpl for StrategyId {
    open spec fn obeys_partial_cmp_spec() -> bool {
        true
    }

    open spec fn partial_cmp_spec(&self, other: &Self) -> Option<Ordering> {
        order_of_bytes(self@, other@)
    }
}

impl PartialOrd for Generation {
    fn partial_cmp(&self, other: &Self) -> (r: Option<Ordering>) {
        let a = self.get();
        let b = other.get();
        if a < b {
            Some(Ordering::Less)
        } else if a > b {
            Some(Ordering::Greater)
        } else {
            Some(Ordering::Equal)
        }
    }
}

impl vstd::std_specs::cmp::PartialOrdSpecImpl for Generation {
    open spec fn obeys_partial_cmp_spec() -> bool {
        true
    }

    open spec fn partial_cmp_spec(&self, other: &Self) -> Option<Ordering> {
        order_of_counts(self@, other@)
    }
}

/// Ids order by their raw value: an id is below another exactly when its
/// byte is, and equal exactly when its byte is.
pub proof fn lemma_ids_order_by_raw_value(a: StrategyId, b: StrategyId)
    ensures
        (a.partial_cmp_spec(&b) == Some(Ordering::Less)) == (a@ < b@),
        (a.partial_cmp_spec(&b) == Some(Ordering::Greater)) == (a@ > b@),
        (a.partial_cmp_spec(&b) == Some(Ordering::Equal)) == (a@ == b@),
        (a == b) == (a@ == b@),
{
    crate::types::lemma_id_is_its_byte(a, b);
}

/// Generations order by their raw count: one is earlier than another exactly
/// when its count is lower, and equal exactly when the counts are.
pub proof fn lemma_generations_order_by_count(a: Generation, b: Generation)
    ensures
        (a.partial_cmp_spec(&b) == Some(Ordering::Less)) == (a@ < b@),
        (a.partial_cmp_spec(&b) == Some(Ordering::Greater)) == (a@ > b@),
        (a.partial_cmp_spec(&b) == Some(Ordering::Equal)) == (a@ == b@),
        (a == b) == (a@ == b@),
{
    crate::types::lemma_generation_is_its_count(a, b);
}

} // verus!
