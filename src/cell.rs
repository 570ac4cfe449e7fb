use vstd::prelude::*;

verus! {

/// A cell that hands its contents to a closure, for reading or for
/// mutation in place.
pub struct CausalCell<T> {
    value: T,
}

impl<T> CausalCell<T> {
    /// The value the cell currently holds.
    pub closed spec fn get(&self) -> T {
        self.value
    }

    pub fn new(data: T) -> (r: CausalCell<T>)
        ensures
            r.get() == data,
    {
        CausalCell { value: data }
    }

    /// Runs `f` on a shared reference to the contents.
    pub fn with<F, R>(&self, f: F) -> (r: R)
        where
            F: FnOnce(&T) -> R,
        requires
            f.requires((&self.get(),)),
        ensures
            f.ensures((&self.get(),), r),
    {
        f(&self.value)
    }

    /// Replaces the contents with what `f` makes of them, and returns the
    /// rest of `f`'s result.
    pub fn with_mut<F, R>(&mut self, f: F) -> (r: R)
        where
            F: FnOnce(&T) -> (T, R),
        requires
            f.requires((&old(self).get(),)),
        ensures
            f.ensures((&old(self).get(),), (final(self).get(), r)),
    {
        let (next, r) = f(&self.value);
        self.value = next;
        r
    }
}

} // verus!
