//! Uniform pseudo-random generators over exact fractions.
//!
//! Every draw is a fraction `r / 2^31` with `0 <= r < 2^31`, handed out as its
//! numerator `r`, so that each generator is a function on integers whose whole
//! output sequence is stated and proved.

pub mod generator;
pub mod congruential;
pub mod shuffle;
pub mod sample;
pub mod moments;
