//! A small verified text library.
//!
//! The heart is `scanner`: a streaming balanced-delimiter scanner that finds
//! the shortest nonempty leading prefix of a text whose brackets `{}`, `[]`,
//! `()` and quoted-string regions are fully balanced, treating string
//! interiors and backslash-escaped characters as opaque.  Around it stand a
//! few small text utilities: line search, a pig-latin transform, and some
//! simple generic helpers.

pub mod front_of_house;
pub mod guess;
pub mod pig_latin;
pub mod point;
pub mod scanner;
pub mod search;
pub mod summary;
pub mod util;

pub use front_of_house::hosting;

use vstd::prelude::*;

verus! {

/// Eat at the restaurant: the front of house puts us on the waitlist.
pub fn eat_at_restaurant() {
    hosting::add_to_waitlist();
}

} // verus!
