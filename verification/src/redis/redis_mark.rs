use vstd::prelude::*;

verus! {

/// A pool connected to the master.
pub struct Master;

/// A pool connected to a replica.
pub struct Slave;

} // verus!
