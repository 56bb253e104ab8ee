use vstd::prelude::*;

verus! {

/// Clones into a possibly different type.
pub trait CloneTo {
    type To;

    fn clone_to(&self) -> Self::To;
}

impl<T: Clone> CloneTo for T {
    type To = T;

    fn clone_to(&self) -> (r: T)
        ensures
            cloned::<T>(*self, r),
    {
        self.clone()
    }
}

} // verus!
