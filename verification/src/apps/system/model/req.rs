use vstd::prelude::*;

verus! {

/// Credentials of a password login.
pub struct Login {
    pub username: String,
    pub password: String,
}

} // verus!
