//! A reverse geocoder: which places of a gazetteer lie nearest to a point on Earth.
use vstd::prelude::*;

pub mod city;
pub mod config;
pub mod distance;
pub mod feature;
pub mod geocoder;
pub mod index;
pub mod parse;
pub mod reload;

verus! {

/// The smaller of two integers.
pub open spec fn min(a: int, b: int) -> int {
    if a <= b {
        a
    } else {
        b
    }
}

} // verus!
