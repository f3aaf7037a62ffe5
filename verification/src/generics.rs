//! The largest of a list, for numbers, characters and anything ordered;
//! and a few containers that work for any type.

use vstd::prelude::*;
use vstd::std_specs::cmp::{PartialOrdIs, PartialOrdSpec};

verus! {

/// The largest number of a list that is not empty.
pub fn get_largest_i32(list: &[i32]) -> (largest: i32)
    requires
        list@.len() > 0,
    ensures
        list@.contains(largest),
        forall|i: int| 0 <= i < list@.len() ==> list@[i] <= largest,
{
    let mut largest = list[0];
    let mut i: usize = 1;
    while i < list.len()
        invariant
            1 <= i <= list@.len(),
            exists|k: int| 0 <= k < i && list@[k] == largest,
            forall|j: int| 0 <= j < i ==> list@[j] <= largest,
        decreases list.len() - i,
    {
        if list[i] > largest {
            largest = list[i];
        }
        i = i + 1;
    }
    largest
}

/// The largest character of a list that is not empty, by code point.
pub fn get_largest_char(list: &[char]) -> (largest: char)
    requires
        list@.len() > 0,
    ensures
        list@.contains(largest),
        forall|i: int| 0 <= i < list@.len() ==> list@[i] <= largest,
{
    let mut largest = list[0];
    let mut i: usize = 1;
    while i < list.len()
        invariant
            1 <= i <= list@.len(),
            exists|k: int| 0 <= k < i && list@[k] == largest,
            forall|j: int| 0 <= j < i ==> list@[j] <= largest,
        decreases list.len() - i,
    {
        if list[i] > largest {
            largest = list[i];
        }
        i = i + 1;
    }
    largest
}

/// The place that a scan of the first `upto` items ends on, when it
/// starts at the first item and moves on to each item that is greater
/// than the one it is on.
pub open spec fn scan_pick<T: PartialOrd>(list: Seq<T>, upto: int) -> int
    decreases upto,
{
    if upto <= 1 {
        0
    } else {
        let before = scan_pick(list, upto - 1);
        if list[upto - 1].is_gt(&list[before]) {
            upto - 1
        } else {
            before
        }
    }
}

/// Comparisons of `T` are the ones that its order describes.
pub open spec fn keeps_order<T: PartialOrd>() -> bool {
    T::obeys_partial_cmp_spec()
}

/// The largest item of a list that is not empty: the item that a scan
/// from the front ends on. Where the order is total this is the first of
/// the greatest items; where some items do not compare it is still the
/// item that the scan ends on.
pub fn get_largest<T: PartialOrd>(list: &[T]) -> (largest: &T)
    requires
        list@.len() > 0,
    ensures
        list@.contains(*largest),
        keeps_order::<T>() ==> *largest == list@[scan_pick(list@, list@.len() as int)],
{
    let mut largest = &list[0];
    let mut i: usize = 1;
    let ghost mut at: int = 0;
    while i < list.len()
        invariant
            1 <= i <= list@.len(),
            0 <= at < i,
            *largest == list@[at],
            keeps_order::<T>() ==> at == scan_pick(list@, i as int),
        decreases list.len() - i,
    {
        let item = &list[i];
        if item > largest {
            largest = item;
            proof {
                at = i as int;
            }
        }
        i = i + 1;
    }
    largest
}

/// A point whose coordinates have one type.
#[derive(Debug)]
pub struct Point<T> {
    pub x: T,
    pub y: T,
}

impl<T> Point<T> {
    /// The first coordinate.
    pub fn x(&self) -> (x: &T)
        ensures
            *x == self.x,
    {
        &self.x
    }
}

/// A point whose coordinates may have two types.
#[derive(Debug)]
pub struct Point2<X1, Y1> {
    pub x: X1,
    pub y: Y1,
}

impl<X1, Y1> Point2<X1, Y1> {
    /// The point with the first coordinate of this one and the second of
    /// the other.
    pub fn mix<X2, Y2>(self, other: Point2<X2, Y2>) -> (mixed: Point2<X1, Y2>)
        ensures
            mixed.x == self.x,
            mixed.y == other.y,
    {
        Point2 { x: self.x, y: other.y }
    }
}

/// Two values of one type.
pub struct Pair<T> {
    x: T,
    y: T,
}

impl<T> Pair<T> {
    /// The first value.
    pub closed spec fn first(&self) -> T {
        self.x
    }

    /// The second value.
    pub closed spec fn second(&self) -> T {
        self.y
    }

    /// The pair of `x` and `y`.
    pub fn new(x: T, y: T) -> (pair: Self)
        ensures
            pair.first() == x,
            pair.second() == y,
    {
        Self { x, y }
    }

    /// The first value.
    pub fn x(&self) -> (x: &T)
        ensures
            *x == self.first(),
    {
        &self.x
    }

    /// The second value.
    pub fn y(&self) -> (y: &T)
        ensures
            *y == self.second(),
    {
        &self.y
    }
}

/// A part of a longer text, which must outlive it.
pub struct ImportantExcerpt<'a> {
    pub part: &'a str,
}

impl<'a> ImportantExcerpt<'a> {
    /// How important an excerpt is: always three.
    pub fn level(&self) -> (n: i32)
        ensures
            n == 3,
    {
        3
    }

    /// The part again, the announcement having been made by the caller.
    pub fn announce_and_return_part(&self, announcement: &str) -> (part: &str)
        ensures
            part == self.part,
    {
        self.part
    }
}

} // verus!
