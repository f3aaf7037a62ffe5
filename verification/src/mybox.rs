//! A box of one's own: a wrapper that hands out what it holds when it is
//! dereferenced.

use vstd::prelude::*;
use vstd::string::*;

verus! {

/// A value in a wrapper.
#[derive(Debug)]
pub struct MyBox<T>(pub T);

impl<T> MyBox<T> {
    /// Wraps `x`.
    pub fn new(x: T) -> (b: MyBox<T>)
        ensures
            b.0 == x,
    {
        MyBox(x)
    }
}

impl<T> std::ops::Deref for MyBox<T> {
    type Target = T;

    /// The value inside.
    fn deref(&self) -> (inner: &T)
        ensures
            *inner == self.0,
    {
        &self.0
    }
}

/// The text that greets `name`.
pub fn hello(name: &str) -> (text: String)
    ensures
        text@ == "Hello, "@ + name@ + "!"@,
{
    let mut text = "Hello, ".to_string();
    text.append(name);
    text.append("!");
    text
}

} // verus!
