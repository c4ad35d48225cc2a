//! A value that is kept out of logs and debug output.
use vstd::prelude::*;

verus! {

/// Holds a sensitive value; it is reachable only through [`Secret::expose`].
pub struct Secret<T>(T);

impl<T> Secret<T> {
    pub closed spec fn inner(&self) -> T {
        self.0
    }

    pub fn new(value: T) -> (r: Self)
        ensures
            r.inner() == value,
    {
        Secret(value)
    }

    pub fn expose(&self) -> (r: &T)
        ensures
            *r == self.inner(),
    {
        &self.0
    }
}

} // verus!
