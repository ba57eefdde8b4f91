use vstd::prelude::*;

verus! {

/// A value that remembers its previous value across a change, so that
/// watchers can be told both.
pub struct Global<T> {
    old_value: Option<T>,
    value: T,
}

impl<T> Global<T> {
    pub closed spec fn current(&self) -> T {
        self.value
    }

    pub closed spec fn previous(&self) -> Option<T> {
        self.old_value
    }

    pub fn new(value: T) -> (r: Self)
        ensures
            r.current() == value,
            r.previous() is None,
    {
        Global { old_value: None, value }
    }

    /// Replaces the value, remembering a copy of the one it replaces.
    pub fn change(&mut self, value: T)
        where
            T: Clone,
        ensures
            final(self).current() == value,
            final(self).previous() is Some,
            vstd::pervasive::cloned(old(self).current(), final(self).previous()->Some_0),
    {
        self.old_value = Some(self.value.clone());
        self.value = value;
    }

    pub fn get_value(&self) -> (r: &T)
        ensures
            *r == self.current(),
    {
        &self.value
    }

    /// Gives write access to the value; the previous value is kept.
    pub fn get_value_mut(&mut self) -> (r: &mut T)
        ensures
            *r == old(self).current(),
            final(self).current() == *final(r),
            final(self).previous() == old(self).previous(),
    {
        &mut self.value
    }

    /// Whether the value was changed since it was created.
    pub fn has_changed(&self) -> (r: bool)
        ensures
            r == self.previous() is Some,
    {
        self.old_value.is_some()
    }

    /// The previous and the current value, as watchers are told them after a
    /// change.
    pub fn changed_values(&self) -> (r: (&T, &T))
        requires
            self.previous() is Some,
        ensures
            *r.0 == self.previous()->Some_0,
            *r.1 == self.current(),
    {
        let old_value = self.old_value.as_ref().unwrap();
        (old_value, &self.value)
    }
}

} // verus!
