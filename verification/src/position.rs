//! Order sides for position tracking.

use vstd::prelude::*;

verus! {

/// Side of a fill.
#[derive(Clone, Copy, Debug, PartialEq, Eq, Structural)]
pub enum Side {
    Buy,
    Sell,
}

} // verus!
