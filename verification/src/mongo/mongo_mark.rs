use vstd::prelude::*;

verus! {

/// A client connected to the primary.
pub struct Master;

} // verus!
