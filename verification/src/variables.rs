//! Small functions on numbers and strings.

use vstd::prelude::*;

verus! {

/// Twice `n`.
pub fn double(n: i32) -> (r: i32)
    requires
        i32::MIN <= 2 * n <= i32::MAX,
    ensures
        r == 2 * n,
{
    n * 2
}

/// Twice `n` when it is positive, else zero.
pub fn double_or_nothing(n: i32) -> (r: i32)
    requires
        n > 0 ==> 2 * n <= i32::MAX,
    ensures
        r == if n > 0 {
            2 * n
        } else {
            0
        },
{
    if n > 0 {
        n * 2
    } else {
        0
    }
}

/// Prefixes the string in place with `"Why hello there "`.
pub fn greet_borrow_mut(s: &mut String)
    ensures
        final(s)@ == "Why hello there "@ + old(s)@,
{
    let mut greeting = String::from_str("Why hello there ");
    greeting.append(s.as_str());
    *s = greeting;
}

} // verus!
