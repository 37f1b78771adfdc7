//! Plain functions that hand a value back to their caller.

use vstd::prelude::*;

verus! {

/// The value of the block's final expression is what the function returns.
pub fn five() -> (r: i32)
    ensures
        r == 5,
{
    5
}

/// Returns early, with an explicit `return`.
pub fn three() -> (r: i32)
    ensures
        r == 3,
{
    return 3;
}

/// The successor of `x`.
pub fn plus_one(x: i32) -> (r: i32)
    requires
        x < i32::MAX,
    ensures
        r == x + 1,
{
    x + 1
}

} // verus!
