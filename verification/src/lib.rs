//! Shared ownership without a tracing collector, and a shelf of small
//! building blocks, every function with a contract that Verus proves.
//!
//! The core is five modules. [`heap`] is a store of reference-counted
//! allocations with strong and weak handles. [`cell`] is a cell whose
//! borrows are checked while the program runs, and [`shared`] reaches a
//! cell in the store through a handle. [`list`] builds persistent
//! lists with shared tails on the store, and [`tree`] builds trees whose
//! children are owned and whose parents are only observed.
//!
//! The counts and borrow states that such structures usually keep out of
//! sight are plain data here: a handle is a token, and every operation
//! that makes or unmakes one takes the store it belongs to. That is what
//! lets the contracts say exactly what each count is after each call.
//!
//! The rest are independent of the core: text scanning ([`text`]) and
//! line search ([`grep`]), a number guessing game ([`guess`]), a quota
//! tracker ([`quota`]), a post on its way to publication ([`post`]), and
//! smaller pieces.

pub mod advanced;
pub mod averaged;
pub mod basics;
pub mod cell;
pub mod chance;
pub mod decimal;
pub mod generics;
pub mod grep;
pub mod guess;
pub mod heap;
pub mod inventory;
pub mod list;
pub mod messages;
pub mod mybox;
pub mod ownership;
pub mod post;
pub mod quota;
pub mod restaurant;
pub mod screen;
pub mod shared;
pub mod shapes;
pub mod summary;
pub mod text;
pub mod tree;
pub mod user;
