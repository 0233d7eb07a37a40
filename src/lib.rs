//! Decisions of the Web Mercator distortion scan, taken on the exact
//! binary64 encodings of the angles involved.
//!
//! The scan compares a spherical and an ellipsoidal Mercator projection at
//! latitudes from the equator to the pole. Its numeric formulas are computed
//! in floating point by the program around this library; what the library
//! holds is every decision that the scan takes on those floating-point
//! values: whether a requested increment is acceptable, and whether a running
//! latitude still lies inside the scan. Each value is handed over as its
//! IEEE 754 binary64 bit pattern, and each decision is proved against the
//! real number that the pattern denotes.

mod binary64;
mod plan;

pub use binary64::{
    at_most,
    exponent_field,
    fraction_field,
    is_infinite,
    is_nan,
    is_positive,
    is_valid_increment,
    magnitude_at_most,
    scale,
    sign_bit,
    significand,
    valid_increment,
    within_scan,
    LATITUDE_LIMIT_BITS,
};
pub use plan::{plan, Plan};
