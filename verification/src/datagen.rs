//! Generator of random test polygons.
//!
//! Its generating function draws floating point coordinates from a seeded
//! random number generator and lives with the callers of the library.

use vstd::prelude::*;

verus! {

/// Generator of closed, non-intersecting random polygons.
pub struct DataGen;

} // verus!
