use vstd::prelude::*;

verus! {

/// A plain new-type wrapper around a value.
#[derive(Debug)]
pub struct Wrapper<T>(pub T);

impl<T> Wrapper<T> {
    /// Borrows the wrapped value.
    pub fn inner(&self) -> (r: &T)
        ensures
            r == &self.0,
    {
        &self.0
    }
}

} // verus!
