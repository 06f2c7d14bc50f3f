//! The error shared by the fixed-capacity collections.

use vstd::prelude::*;

verus! {

/// Returned by the fixed-capacity collections when an element is offered to a
/// container that has no room left.
#[derive(Debug, Clone, Copy, PartialEq, Eq, Structural)]
pub enum Error {
    Full,
}

} // verus!
