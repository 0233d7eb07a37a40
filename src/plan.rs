//! What the program does with its command line.

use crate::binary64::{is_valid_increment, valid_increment};
use vstd::prelude::*;

verus! {

/// The course that the program takes for its one argument, the latitude
/// increment in degrees.
#[derive(PartialEq, Eq, Structural, Debug, Clone, Copy)]
pub enum Plan {
    /// The argument is missing or is not a number: show how to call the program.
    Usage,
    /// The increment is not greater than 0 and at most 90: say so, and scan nothing.
    OutOfRange,
    /// Scan from the equator to the pole in steps of the increment.
    Scan,
}

/// Chooses the course for an increment: `None` where the argument is missing
/// or unparsable, else the encoding of the parsed number.
pub fn plan(increment: Option<u64>) -> (p: Plan)
    ensures
        p == (match increment {
            None => Plan::Usage,
            Some(x) => if valid_increment(x) {
                Plan::Scan
            } else {
                Plan::OutOfRange
            },
        }),
{
    match increment {
        None => Plan::Usage,
        Some(x) => if is_valid_increment(x) {
            Plan::Scan
        } else {
            Plan::OutOfRange
        },
    }
}

} // verus!
