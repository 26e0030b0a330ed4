//! Fibonacci numbers of arbitrary size and their decimal rendering.
//!
//! The arithmetic on big numbers is done by `num_bigint`; every contract
//! speaks of the mathematical value of a `BigUint`, written `value(n)`.

pub mod natural;
pub mod digits;
pub mod fib;
pub mod text;
pub mod render;

pub use fib::calculate_fibonacci;
pub use render::{render, scientific_notation, uses_scientific_notation};
pub use text::thousands_separator;
