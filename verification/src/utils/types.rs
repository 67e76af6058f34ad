//! Amount units.

use vstd::prelude::*;

verus! {

/// Raw sompi, the smallest atomic unit of Kaspa (10^8 sompi make one KAS).
/// Always a whole number.
#[derive(Debug, Clone, Copy, PartialEq, Eq, PartialOrd, Ord, Structural)]
pub struct Sompi(pub u64);

} // verus!
