//! The checked integer adder.

use vstd::prelude::*;
use crate::errors::OpError;

verus! {

/// What checked addition returns: the exact sum when it fits in the 32-bit
/// range, and an overflow error otherwise.
pub open spec fn add_result(a: int, b: int) -> Result<i32, OpError> {
    if i32::MIN <= a + b <= i32::MAX {
        Ok((a + b) as i32)
    } else {
        Err(OpError::ArithmeticOverflow)
    }
}

/// Adds two numbers with checked arithmetic: the exact sum, or
/// `ArithmeticOverflow` when it leaves the 32-bit range.
pub fn add(a: i32, b: i32) -> (r: Result<i32, OpError>)
    ensures
        r == add_result(a as int, b as int),
{
    let s: i64 = a as i64 + b as i64;
    if s < i32::MIN as i64 || s > i32::MAX as i64 {
        Err(OpError::ArithmeticOverflow)
    } else {
        Ok(s as i32)
    }
}

/// Addition is commutative: swapping the operands changes neither the sum
/// nor whether it overflows.
pub proof fn lemma_add_commutative(a: int, b: int)
    ensures
        add_result(a, b) == add_result(b, a),
{
}

} // verus!
