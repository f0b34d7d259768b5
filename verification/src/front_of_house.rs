//! The front-of-house side of the restaurant.

pub mod hosting;
