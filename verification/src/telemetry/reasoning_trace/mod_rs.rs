//! Room for what this part of the library may grow into.

use vstd::prelude::*;

verus! {

/// Does nothing.
pub fn placeholder() {
}

} // verus!
