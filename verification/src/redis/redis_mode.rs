use vstd::prelude::*;

verus! {

/// A pool used for reads.
pub struct R;

/// A pool used for writes.
pub struct W;

} // verus!
