//! New types over old ones, traits with a type of their own, and a slice
//! cut in two.

use vstd::prelude::*;
use vstd::string::*;

verus! {

/// A number that is its own type.
pub struct NewInt32(pub i32);

/// Another name for a 64-bit number.
pub type NewInt64 = i64;

/// A source of items, one type of item for each source.
pub trait Iterator {
    type Item;

    /// Whether `item` is what comes next.
    spec fn yields(&self, item: Option<Self::Item>) -> bool;

    /// Hands out the next item, if any is left.
    fn next(&mut self) -> (item: Option<Self::Item>)
        ensures
            old(self).yields(item),
    ;
}

/// A source of items of a type that the user of the source picks.
pub trait Iterator2<T> {
    /// Whether `item` is what comes next.
    spec fn yields(&self, item: Option<T>) -> bool;

    /// Hands out the next item, if any is left.
    fn next(&mut self) -> (item: Option<T>)
        ensures
            old(self).yields(item),
    ;
}

/// A source that yields the number one for ever.
pub struct Counter {}

impl Iterator for Counter {
    type Item = u32;

    open spec fn yields(&self, item: Option<u32>) -> bool {
        item == Some(1u32)
    }

    fn next(&mut self) -> Option<u32> {
        Some(1)
    }
}

/// A source that yields one for ever, as a number and as a text.
pub struct Counter2 {}

impl Iterator2<String> for Counter2 {
    open spec fn yields(&self, item: Option<String>) -> bool {
        item matches Some(text) && text@ == "1"@
    }

    fn next(&mut self) -> Option<String> {
        Some(one_text())
    }
}

impl Iterator2<u32> for Counter2 {
    open spec fn yields(&self, item: Option<u32>) -> bool {
        item == Some(1u32)
    }

    fn next(&mut self) -> Option<u32> {
        Some(one())
    }
}

/// The number one.
pub fn one() -> (n: u32)
    ensures
        n == 1,
{
    1
}

/// The number one as a text.
pub fn one_text() -> (text: String)
    ensures
        text@ == "1"@,
{
    "1".to_string()
}

/// A point in the plane.
#[derive(Clone, Copy, Debug, PartialEq, Eq, Structural)]
pub struct Point {
    pub x: i32,
    pub y: i32,
}

impl std::ops::Add for Point {
    type Output = Point;

    /// The sum of two points, coordinate by coordinate.
    fn add(self, other: Point) -> (sum: Point) {
        Point { x: self.x + other.x, y: self.y + other.y }
    }
}

impl vstd::std_specs::ops::AddSpecImpl for Point {
    open spec fn obeys_add_spec() -> bool {
        true
    }

    /// Both sums fit their coordinate.
    open spec fn add_req(self, other: Point) -> bool {
        &&& i32::MIN <= self.x + other.x <= i32::MAX
        &&& i32::MIN <= self.y + other.y <= i32::MAX
    }

    open spec fn add_spec(self, other: Point) -> Point {
        Point { x: (self.x + other.x) as i32, y: (self.y + other.y) as i32 }
    }
}

/// A length in millimetres.
#[derive(Clone, Copy, Debug, PartialEq, Eq, Structural)]
pub struct Millimeters(pub u32);

/// A length in metres.
#[derive(Clone, Copy, Debug, PartialEq, Eq, Structural)]
pub struct Meters(pub u32);

impl std::ops::Add<Meters> for Millimeters {
    type Output = Millimeters;

    /// The sum of this length and one in metres, in millimetres.
    fn add(self, other: Meters) -> (sum: Millimeters) {
        Millimeters(self.0 + other.0 * 1000)
    }
}

impl vstd::std_specs::ops::AddSpecImpl<Meters> for Millimeters {
    open spec fn obeys_add_spec() -> bool {
        true
    }

    /// The sum fits.
    open spec fn add_req(self, other: Meters) -> bool {
        self.0 + other.0 * 1000 <= u32::MAX
    }

    open spec fn add_spec(self, other: Meters) -> Millimeters {
        Millimeters((self.0 + other.0 * 1000) as u32)
    }
}

/// A count to which amounts are added.
pub struct Tally {
    pub count: u32,
}

impl Tally {
    /// Adds `inc` to the count.
    pub fn add_to_count(&mut self, inc: u32)
        requires
            old(self).count + inc <= u32::MAX,
        ensures
            final(self).count == old(self).count + inc,
    {
        self.count = self.count + inc;
    }
}

/// Cuts a slice in two at `mid`. Both parts can be written to, and what
/// is written shows in the slice.
pub fn split_at_mut(values: &mut [i32], mid: usize) -> (parts: (&mut [i32], &mut [i32]))
    requires
        mid <= old(values)@.len(),
    ensures
        parts.0@ == old(values)@.subrange(0, mid as int),
        parts.1@ == old(values)@.subrange(mid as int, old(values)@.len() as int),
        final(values)@ == final(parts.0)@ + final(parts.1)@,
{
    values.split_at_mut(mid)
}

/// A row of `n` times the character `c`.
pub open spec fn row(c: char, n: nat) -> Seq<char> {
    Seq::new(n, |i: int| c)
}

/// A row of `n` times the one-character text `unit`.
pub fn repeat(unit: &str, n: usize) -> (text: String)
    requires
        unit@.len() == 1,
    ensures
        text@ == row(unit@[0], n as nat),
{
    let mut text = String::new();
    let mut i: usize = 0;
    while i < n
        invariant
            i <= n,
            unit@.len() == 1,
            text@ == row(unit@[0], i as nat),
        decreases n - i,
    {
        text.append(unit);
        i = i + 1;
    }
    text
}

/// The five lines that put `text`, which is `len` wide, in a frame of
/// stars.
pub open spec fn framed(text: Seq<char>, len: nat) -> Seq<Seq<char>> {
    seq![
        row('*', len + 4),
        "*"@ + row(' ', len + 2) + "*"@,
        "* "@ + text + " *"@,
        "*"@ + row(' ', len + 2) + "*"@,
        row('*', len + 4),
    ]
}

/// Puts a text in a frame of stars. The frame is as wide as the text has
/// bytes, and four more.
pub fn outline(text: &str) -> (lines: Vec<String>)
    requires
        text.spec_bytes().len() + 4 <= usize::MAX,
    ensures
        lines@.len() == 5,
        forall|i: int| 0 <= i < 5 ==> (#[trigger] lines@[i])@ == framed(text@, text.spec_bytes().len())[i],
{
    let len = text.as_bytes().len();
    proof {
        reveal_strlit("*");
        reveal_strlit(" ");
    }
    let top = repeat("*", len + 4);
    let mut gap = "*".to_string();
    gap.append(repeat(" ", len + 2).as_str());
    gap.append("*");
    let mut middle = "* ".to_string();
    middle.append(text);
    middle.append(" *");
    let mut lines: Vec<String> = Vec::new();
    lines.push(top.clone());
    lines.push(gap.clone());
    lines.push(middle);
    lines.push(gap);
    lines.push(top);
    lines
}

} // verus!
