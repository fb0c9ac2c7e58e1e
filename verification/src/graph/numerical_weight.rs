//! Weight implementations for the primitive integer types: weights combine
//! by addition, within the type's range.
use vstd::prelude::*;

use crate::graph::edge::SignedWeight;
use crate::graph::edge::Weight;

verus! {

impl Weight for i32 {
    open spec fn combine_allowed(left: i32, right: i32) -> bool {
        i32::MIN <= left + right <= i32::MAX
    }

    open spec fn spec_combine(left: i32, right: i32) -> i32 {
        (left + right) as i32
    }

    fn combine(left: &i32, right: &i32) -> (r: i32) {
        *left + *right
    }
}

impl SignedWeight for i32 {
    open spec fn spec_negative(&self) -> bool {
        *self < 0
    }

    fn negative(&self) -> (r: bool) {
        *self < 0
    }
}

impl Weight for i64 {
    open spec fn combine_allowed(left: i64, right: i64) -> bool {
        i64::MIN <= left + right <= i64::MAX
    }

    open spec fn spec_combine(left: i64, right: i64) -> i64 {
        (left + right) as i64
    }

    fn combine(left: &i64, right: &i64) -> (r: i64) {
        *left + *right
    }
}

impl SignedWeight for i64 {
    open spec fn spec_negative(&self) -> bool {
        *self < 0
    }

    fn negative(&self) -> (r: bool) {
        *self < 0
    }
}

impl Weight for u32 {
    open spec fn combine_allowed(left: u32, right: u32) -> bool {
        left + right <= u32::MAX
    }

    open spec fn spec_combine(left: u32, right: u32) -> u32 {
        (left + right) as u32
    }

    fn combine(left: &u32, right: &u32) -> (r: u32) {
        *left + *right
    }
}

impl Weight for u64 {
    open spec fn combine_allowed(left: u64, right: u64) -> bool {
        left + right <= u64::MAX
    }

    open spec fn spec_combine(left: u64, right: u64) -> u64 {
        (left + right) as u64
    }

    fn combine(left: &u64, right: &u64) -> (r: u64) {
        *left + *right
    }
}

impl Weight for usize {
    open spec fn combine_allowed(left: usize, right: usize) -> bool {
        left + right <= usize::MAX
    }

    open spec fn spec_combine(left: usize, right: usize) -> usize {
        (left + right) as usize
    }

    fn combine(left: &usize, right: &usize) -> (r: usize) {
        *left + *right
    }
}

} // verus!
