//! A value together with the most that it may hold.

use vstd::prelude::*;

verus! {

/// A value whose size on the wire may not exceed `MAX`: bytes for raw data,
/// UTF-16 code units for a string. The bound is enforced when the value is
/// encoded and when it is decoded, not when it is built.
#[derive(Debug, Copy, Clone, PartialEq, Eq, PartialOrd, Ord, Hash)]
pub struct Bounded<T, const MAX: usize>(pub T);

impl<T, const MAX: usize> Bounded<T, MAX> {
    /// Applies `f` to the value and keeps the bound.
    pub fn map<U, F: FnOnce(T) -> U>(self, f: F) -> (r: Bounded<U, MAX>)
        requires
            f.requires((self.0,)),
        ensures
            f.ensures((self.0,), r.0),
    {
        Bounded(f(self.0))
    }

    /// Converts the value and keeps the bound.
    pub fn map_into<U: From<T>>(self) -> (r: Bounded<U, MAX>)
        ensures
            call_ensures(U::from, (self.0,), r.0),
    {
        Bounded(U::from(self.0))
    }

    /// The value inside.
    pub fn borrow(&self) -> (r: &T)
        ensures
            *r == self.0,
    {
        &self.0
    }
}

} // verus!
