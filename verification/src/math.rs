//! Sum and difference of two C `int` values: what a small library to try
//! the bridge on computes.

use vstd::prelude::*;

verus! {

/// The sum of `left` and `right`, where a 32-bit integer holds it.
pub fn add(left: i32, right: i32) -> (res: i32)
    requires
        i32::MIN <= left + right <= i32::MAX,
    ensures
        res == left + right,
{
    left + right
}

/// The difference of `left` and `right`, where a 32-bit integer holds it.
pub fn sub(left: i32, right: i32) -> (res: i32)
    requires
        i32::MIN <= left - right <= i32::MAX,
    ensures
        res == left - right,
{
    left - right
}

} // verus!
