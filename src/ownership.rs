//! Borrowing strings: measuring one, extending one, handing one out.
use vstd::prelude::*;

verus! {

/// The length of `s` in bytes of UTF-8.
pub fn calculate_length(s: &String) -> (r: usize)
    ensures
        r == vstd::utf8::encode_utf8(s@).len() as usize,
{
    s.as_str().len()
}

/// Appends `, world` to `some_string`.
pub fn change(some_string: &mut String)
    ensures
        final(some_string)@ == old(some_string)@ + ", world"@,
{
    some_string.append(", world");
}

/// A new string `hello`, owned by the caller.
pub fn dangle() -> (r: String)
    ensures
        r@ == "hello"@,
{
    String::from_str("hello")
}

} // verus!
