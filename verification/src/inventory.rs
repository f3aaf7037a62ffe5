//! A shop's stock: shirts to give away and shoes to pick by size.

use vstd::prelude::*;

verus! {

/// The colour of a shirt.
#[derive(Debug, PartialEq, Eq, Copy, Clone, Structural)]
pub enum ShirtColor {
    Red,
    Blue,
}

/// The shirts in stock.
pub struct Inventory {
    pub shirts: Vec<ShirtColor>,
}

/// How many shirts of a colour are among `shirts`.
pub open spec fn count_of(shirts: Seq<ShirtColor>, color: ShirtColor) -> nat
    decreases shirts.len(),
{
    if shirts.len() == 0 {
        0
    } else {
        count_of(shirts.drop_last(), color) + if shirts.last() == color {
            1nat
        } else {
            0nat
        }
    }
}

/// No more shirts of a colour than shirts.
pub proof fn lemma_count_bound(shirts: Seq<ShirtColor>, color: ShirtColor)
    ensures
        count_of(shirts, color) <= shirts.len(),
    decreases shirts.len(),
{
    if shirts.len() > 0 {
        lemma_count_bound(shirts.drop_last(), color);
    }
}

/// The colour of which most is in stock: red if there is more red than
/// blue, else blue.
pub open spec fn most_stocked_of(shirts: Seq<ShirtColor>) -> ShirtColor {
    if count_of(shirts, ShirtColor::Red) > count_of(shirts, ShirtColor::Blue) {
        ShirtColor::Red
    } else {
        ShirtColor::Blue
    }
}

impl Inventory {
    /// The shirt to give away: the colour the user prefers, or without a
    /// preference the colour of which most is in stock.
    pub fn giveaway(&self, user_preference: Option<ShirtColor>) -> (color: ShirtColor)
        ensures
            color == match user_preference {
                Some(c) => c,
                None => most_stocked_of(self.shirts@),
            },
    {
        match user_preference {
            Some(c) => c,
            None => self.most_stocked(),
        }
    }

    /// The colour of which most is in stock.
    pub fn most_stocked(&self) -> (color: ShirtColor)
        ensures
            color == most_stocked_of(self.shirts@),
    {
        let mut num_red: usize = 0;
        let mut num_blue: usize = 0;
        let mut i: usize = 0;
        while i < self.shirts.len()
            invariant
                i <= self.shirts@.len(),
                num_red == count_of(self.shirts@.take(i as int), ShirtColor::Red),
                num_blue == count_of(self.shirts@.take(i as int), ShirtColor::Blue),
            decreases self.shirts.len() - i,
        {
            proof {
                let more = self.shirts@.take(i + 1);
                assert(more.drop_last() =~= self.shirts@.take(i as int));
                lemma_count_bound(more, ShirtColor::Red);
                lemma_count_bound(more, ShirtColor::Blue);
            }
            match self.shirts[i] {
                ShirtColor::Red => {
                    num_red = num_red + 1;
                },
                ShirtColor::Blue => {
                    num_blue = num_blue + 1;
                },
            }
            i = i + 1;
        }
        proof {
            assert(self.shirts@.take(i as int) =~= self.shirts@);
        }
        if num_red > num_blue {
            ShirtColor::Red
        } else {
            ShirtColor::Blue
        }
    }
}

/// A shoe.
#[derive(PartialEq, Debug)]
pub struct Shoe {
    pub size: u32,
    pub style: String,
}

/// The shoes of size `size` among `shoes`, in order.
pub open spec fn in_size(shoes: Seq<Shoe>, size: u32) -> Seq<Shoe>
    decreases shoes.len(),
{
    if shoes.len() == 0 {
        Seq::empty()
    } else if shoes.last().size == size {
        in_size(shoes.drop_last(), size).push(shoes.last())
    } else {
        in_size(shoes.drop_last(), size)
    }
}

/// The shoes of the given size, in the order in which they came.
pub fn shoes_in_size(shoes: Vec<Shoe>, shoe_size: u32) -> (fitting: Vec<Shoe>)
    ensures
        fitting@ == in_size(shoes@, shoe_size),
{
    let mut left = shoes;
    let mut backwards: Vec<Shoe> = Vec::new();
    while left.len() > 0
        invariant
            in_size(left@, shoe_size) + backwards@.reverse() == in_size(shoes@, shoe_size),
        decreases left.len(),
    {
        let ghost before = left@;
        let shoe = left.pop().unwrap();
        if shoe.size == shoe_size {
            backwards.push(shoe);
        }
    }
    let mut fitting: Vec<Shoe> = Vec::new();
    while backwards.len() > 0
        invariant
            fitting@ + backwards@.reverse() == in_size(shoes@, shoe_size),
        decreases backwards.len(),
    {
        let ghost before = backwards@;
        let shoe = backwards.pop().unwrap();
        fitting.push(shoe);
    }
    fitting
}

} // verus!
