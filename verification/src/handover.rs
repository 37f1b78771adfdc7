//! Handing a heap-backed string from function to function: a call takes
//! ownership of what it is given, and a return gives ownership back.

use vstd::prelude::*;
use vstd::utf8::{encode_utf8, is_ascii_chars, is_ascii_chars_encode_utf8};

verus! {

/// Creates a string and gives its ownership to the caller.
pub fn gives_ownership() -> (some_string: String)
    ensures
        some_string@ == "hello"@,
{
    let some_string = "hello".to_owned();
    some_string
}

/// Takes ownership of a string and gives the same string back.
pub fn takes_and_gives_back(a_string: String) -> (back: String)
    ensures
        back == a_string,
{
    a_string
}

/// Gives the string back together with its length in bytes, so that the
/// caller owns it again after the call.
pub fn calculate_length(s: String) -> (r: (String, usize))
    ensures
        r.0 == s,
        r.1 == encode_utf8(s@).len() as usize,
{
    let length = s.as_str().len();
    (s, length)
}

/// The two values that a caller hands to two callees in turn: a string,
/// which moves into its callee and is gone for the caller, and an integer,
/// which is copied and stays usable.
pub fn outer_function() -> (r: (String, i32))
    ensures
        r.0@ == "hello"@,
        r.1 == 5,
{
    let s = "hello".to_owned();
    let x: i32 = 5;
    (s, x)
}

/// Takes one string from `gives_ownership` and sends another through
/// `takes_and_gives_back`. Both are dropped when the function returns.
pub fn another_outer_function() {
    let _s1 = gives_ownership();
    let s2 = "hello".to_owned();
    let _s3 = takes_and_gives_back(s2);
}

/// Sends a string through `calculate_length` and returns what came back:
/// the string and its length.
pub fn yet_another_outer_funciton() -> (r: (String, usize))
    ensures
        r.0@ == "hello"@,
        r.1 == 5,
{
    let s1 = "hello".to_owned();
    let (s2, len) = calculate_length(s1);
    proof {
        reveal_strlit("hello");
        assert(is_ascii_chars("hello"@));
        is_ascii_chars_encode_utf8("hello"@);
    }
    (s2, len)
}

} // verus!
