//! What the grid reports when an operation cannot be carried out in full.

use vstd::prelude::*;

verus! {

/// A bucket had no room left while the entity `id` was being inserted. The
/// cells written before the full bucket was met stay written.
#[derive(Debug, Clone, Copy, PartialEq, Eq, Structural)]
pub struct CapacityExceeded {
    pub id: u32,
}

/// Nothing was recorded for `id`, or a cell recorded for it did not hold it.
#[derive(Debug, Clone, Copy, PartialEq, Eq, Structural)]
pub struct NotFound {
    pub id: u32,
}

} // verus!
