//! A thin wrapper that decouples a value from the encoding traits its
//! serialized form needs; the surrounding tooling derives those traits on
//! the wrapper, the value itself stays plain.

use vstd::prelude::*;

verus! {

#[derive(Debug)]
pub struct CodableWrapper<T>(pub T);

impl<T: Clone> CodableWrapper<T> {
    /// A clone of the wrapped value.
    pub fn get(&self) -> (r: T)
        ensures
            vstd::pervasive::cloned::<T>(self.0, r),
    {
        self.0.clone()
    }
}

impl<T> CodableWrapper<T> {
    /// The wrapped value itself.
    pub fn get_ref(&self) -> (r: &T)
        ensures
            r == &self.0,
    {
        &self.0
    }
}

} // verus!
