//! Adding numbers and greeting people.
use vstd::prelude::*;

verus! {

/// The sum of `left` and `right`.
pub fn add(left: usize, right: usize) -> (r: usize)
    requires
        left + right <= usize::MAX,
    ensures
        r == left + right,
{
    internal_adder(left, right)
}

/// The sum of `left` and `right`, as `add` computes it.
pub fn internal_adder(left: usize, right: usize) -> (r: usize)
    requires
        left + right <= usize::MAX,
    ensures
        r == left + right,
{
    left + right
}

/// A greeting for `name`: `Hello! ` followed by the name.
pub fn greeting(name: &str) -> (r: String)
    ensures
        r@ == "Hello! "@ + name@,
{
    let mut r = String::from_str("Hello! ");
    r.append(name);
    r
}

} // verus!
