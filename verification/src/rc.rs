use vstd::prelude::*;

verus! {

/// A cell that owns one value for the life of the service.
pub struct CancerCell<T> {
    value: T,
}

impl<T> CancerCell<T> {
    pub closed spec fn content(&self) -> T {
        self.value
    }

    pub fn new(value: T) -> (r: Self)
        ensures
            r.content() == value,
    {
        CancerCell { value }
    }

    pub fn get(&self) -> (r: &T)
        ensures
            *r == self.content(),
    {
        &self.value
    }
}

} // verus!
