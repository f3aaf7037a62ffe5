//! Rectangles with whole-number sides.

use vstd::prelude::*;

verus! {

/// A rectangle.
#[derive(Debug)]
pub struct Rectangle {
    pub width: u32,
    pub height: u32,
}

impl Rectangle {
    /// The square with side `size`.
    pub fn square(size: u32) -> (r: Rectangle)
        ensures
            r.width == size,
            r.height == size,
    {
        Rectangle { width: size, height: size }
    }

    /// The area as a mathematical number.
    pub open spec fn spec_area(&self) -> int {
        self.width * self.height
    }

    /// The area, where it fits the result type.
    pub fn area(&self) -> (a: u32)
        requires
            self.spec_area() <= u32::MAX,
        ensures
            a == self.spec_area(),
    {
        self.width * self.height
    }

    /// The area, or `None` where it does not fit the result type.
    pub fn checked_area(&self) -> (a: Option<u32>)
        ensures
            match a {
                Some(a) => a == self.spec_area(),
                None => self.spec_area() > u32::MAX,
            },
    {
        let wide: u64 = self.width as u64;
        let high: u64 = self.height as u64;
        assert(wide * high <= 0xffff_ffff * 0xffff_ffff) by (nonlinear_arith)
            requires
                wide <= 0xffff_ffff,
                high <= 0xffff_ffff,
        ;
        let product: u64 = wide * high;
        if product <= u32::MAX as u64 {
            Some(product as u32)
        } else {
            None
        }
    }

    /// `other` fits inside with room to spare on both sides.
    pub fn can_hold(&self, other: &Rectangle) -> (b: bool)
        ensures
            b == (self.width > other.width && self.height > other.height),
    {
        self.width > other.width && self.height > other.height
    }
}

/// The area of a rectangle given by its two sides.
pub fn area(width: u32, height: u32) -> (a: u32)
    requires
        width * height <= u32::MAX,
    ensures
        a == width * height,
{
    width * height
}

/// The area of a rectangle given as a pair of sides.
pub fn area_2(dimensions: (u32, u32)) -> (a: u32)
    requires
        dimensions.0 * dimensions.1 <= u32::MAX,
    ensures
        a == dimensions.0 * dimensions.1,
{
    dimensions.0 * dimensions.1
}

} // verus!
