//! The kitchen side of a restaurant: what is on offer and how an order is
//! put right.

use vstd::prelude::*;
use vstd::string::*;

verus! {

/// A starter.
#[derive(Debug)]
pub enum Appetizer {
    Soup,
    Salad,
}

/// A breakfast: the guest picks the toast, the kitchen picks the fruit.
#[derive(Debug)]
pub struct Breakfast {
    pub toast: String,
    pub seasonal_fruit: String,
}

impl Breakfast {
    /// The summer breakfast with the given toast. The fruit is peaches.
    pub fn summer(toast: &str) -> (b: Breakfast)
        ensures
            b.toast@ == toast@,
            b.seasonal_fruit@ == "peaches"@,
    {
        Breakfast { toast: toast.to_string(), seasonal_fruit: "peaches".to_string() }
    }
}

fn cook_order() {
}

/// Brings the order to the table.
pub fn serve_order() {
}

/// Puts a wrong order right: it is cooked again, then served.
pub fn fix_incorrect_order() {
    cook_order();
    serve_order();
}

} // verus!
