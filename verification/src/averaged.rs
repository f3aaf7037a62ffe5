//! A list of numbers that keeps what its average is made of.

use vstd::prelude::*;

verus! {

/// The sum of a list of numbers.
pub open spec fn sum_of(list: Seq<i32>) -> int
    decreases list.len(),
{
    if list.len() == 0 {
        0
    } else {
        sum_of(list.drop_last()) + list.last()
    }
}

/// A sum of `n` numbers lies within `n` times the range of one.
pub proof fn lemma_sum_bounds(list: Seq<i32>)
    ensures
        -0x8000_0000 * list.len() <= sum_of(list) <= 0x7fff_ffff * list.len(),
    decreases list.len(),
{
    if list.len() > 0 {
        lemma_sum_bounds(list.drop_last());
    }
}

/// An average as its two parts: the sum of the numbers and how many they
/// are. The average is their quotient.
#[derive(Clone, Copy, Debug, PartialEq, Eq, Structural)]
pub struct Average {
    pub total: i128,
    pub count: usize,
}

/// A list of numbers together with its average. The average is brought
/// up to date whenever the list changes and is not empty afterwards; of
/// an empty list it is still the one before the last number went.
pub struct AveragedCollection {
    list: Vec<i32>,
    average: Average,
}

impl AveragedCollection {
    /// The numbers.
    pub closed spec fn numbers(&self) -> Seq<i32> {
        self.list@
    }

    /// The average on record.
    pub closed spec fn recorded(&self) -> Average {
        self.average
    }

    /// The average of a list that is not empty.
    pub open spec fn average_of(list: Seq<i32>) -> Average {
        Average { total: sum_of(list) as i128, count: list.len() as usize }
    }

    /// An empty collection, with nothing over nothing for an average.
    pub fn new() -> (c: AveragedCollection)
        ensures
            c.numbers() == Seq::<i32>::empty(),
            c.recorded() == (Average { total: 0, count: 0 }),
    {
        AveragedCollection { list: Vec::new(), average: Average { total: 0, count: 0 } }
    }

    /// Adds a number at the end.
    pub fn add(&mut self, value: i32)
        ensures
            final(self).numbers() == old(self).numbers().push(value),
            final(self).recorded() == Self::average_of(final(self).numbers()),
    {
        self.list.push(value);
        self.update_average();
    }

    /// Takes the last number off, if there is one.
    pub fn remove(&mut self) -> (last: Option<i32>)
        ensures
            match last {
                Some(v) => {
                    &&& old(self).numbers().len() > 0
                    &&& v == old(self).numbers().last()
                    &&& final(self).numbers() == old(self).numbers().drop_last()
                },
                None => old(self).numbers().len() == 0 && final(self).numbers() == old(self).numbers(),
            },
            final(self).recorded() == if final(self).numbers().len() > 0 {
                Self::average_of(final(self).numbers())
            } else {
                old(self).recorded()
            },
    {
        if self.list.len() == 0 {
            return None;
        }
        let result = self.list.pop();
        if self.list.len() > 0 {
            self.update_average();
        }
        result
    }

    /// The average on record.
    pub fn average(&self) -> (a: Average)
        ensures
            a == self.recorded(),
    {
        self.average
    }

    fn update_average(&mut self)
        ensures
            final(self).numbers() == old(self).numbers(),
            final(self).recorded() == Self::average_of(old(self).numbers()),
    {
        let mut total: i128 = 0;
        let mut i: usize = 0;
        while i < self.list.len()
            invariant
                i <= self.list@.len(),
                total == sum_of(self.list@.take(i as int)),
            decreases self.list.len() - i,
        {
            proof {
                let more = self.list@.take(i + 1);
                assert(more.drop_last() =~= self.list@.take(i as int));
                lemma_sum_bounds(more);
            }
            total = total + self.list[i] as i128;
            i = i + 1;
        }
        proof {
            assert(self.list@.take(i as int) =~= self.list@);
        }
        self.average = Average { total, count: self.list.len() };
    }
}

} // verus!
