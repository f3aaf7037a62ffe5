//! Small arithmetic and a greeting.

use vstd::prelude::*;
use vstd::string::*;

verus! {

/// The number five.
pub fn five() -> (n: i32)
    ensures
        n == 5,
{
    5
}

/// The successor of `x`.
pub fn plus_one(x: i32) -> (n: i32)
    requires
        x < i32::MAX,
    ensures
        n == x + 1,
{
    x + 1
}

/// The sum of two sizes.
pub fn add(left: usize, right: usize) -> (sum: usize)
    requires
        left + right <= usize::MAX,
    ensures
        sum == left + right,
{
    left + right
}

/// The sum of two numbers.
pub fn internal_adder(a: i32, b: i32) -> (sum: i32)
    requires
        i32::MIN <= a + b <= i32::MAX,
    ensures
        sum == a + b,
{
    a + b
}

/// `a` plus two.
pub fn add_two(a: i32) -> (sum: i32)
    requires
        a + 2 <= i32::MAX,
    ensures
        sum == a + 2,
{
    internal_adder(a, 2)
}

/// What `greeting` says to `name`.
pub open spec fn greeting_for(name: Seq<char>) -> Seq<char> {
    "Hello "@ + name + "!"@
}

/// A greeting that holds the name.
pub fn greeting(name: &str) -> (text: String)
    ensures
        text@ == greeting_for(name@),
{
    let mut text = "Hello ".to_string();
    text.append(name);
    text.append("!");
    text
}

} // verus!
