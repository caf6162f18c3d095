//! A write-once cell for data initialised at startup.
//!
//! Holds nothing until `init`; afterwards `get` reads the value. The
//! uninitialised state is explicit, so no access can happen before
//! initialisation without the verifier seeing it.

use vstd::prelude::*;

verus! {

/// A cell that starts empty and is filled once at startup.
pub struct InitializedData<T> {
    value: Option<T>,
}

impl<T> View for InitializedData<T> {
    type V = Option<T>;

    closed spec fn view(&self) -> Option<T> {
        self.value
    }
}

impl<T> InitializedData<T> {
    pub fn new() -> (r: Self)
        ensures
            r@ is None,
    {
        InitializedData { value: None }
    }

    /// Fill the cell (overwriting any earlier value, as the original cell
    /// semantics allow).
    pub fn init(&mut self, value: T)
        ensures
            final(self)@ == Some(value),
    {
        self.value = Some(value);
    }

    pub fn is_init(&self) -> (r: bool)
        ensures
            r == (self@ is Some),
    {
        self.value.is_some()
    }

    /// The held value; only callable once initialised.
    pub fn get(&self) -> (r: &T)
        requires
            self@ is Some,
        ensures
            *r == self@.unwrap(),
    {
        match &self.value {
            Some(v) => v,
            None => vstd::pervasive::unreached(),
        }
    }
}

impl<T: Default> InitializedData<T> {
    /// Fill the cell with the type's default value if it is still empty.
    pub fn maybe_init_default(&mut self)
        ensures
            final(self)@ is Some,
            old(self)@ is Some ==> final(self)@ == old(self)@,
    {
        if self.value.is_none() {
            self.value = Some(T::default());
        }
    }
}

} // verus!
