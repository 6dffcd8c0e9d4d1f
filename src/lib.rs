//! Conversions between RGB colours and SHT colour codes.
//!
//! SHT codes are a human-writable notation for colours: a base-12 shade, a
//! hue made of primary and secondary colour letters, and a base-12 tint.
//! All quantities are exact fractions whose numerators and denominators fit
//! a chosen unsigned integer width; where a computation would not fit, the
//! precision is reduced or an explicit error is returned.
use vstd::prelude::*;

pub mod ratio;
pub mod sht;
pub mod parser;
pub mod format;
pub mod rgb;
pub mod convert;

verus! {

} // verus!
