//! Data that is tied to one core.

use vstd::prelude::*;

verus! {

/// The end of the memory that every core sees as its own: core-local data
/// lies below this address.
pub const LOCAL_END: usize = 0x3_0000;

/// Whether data at `address` lies in the memory that is private to a core.
pub fn is_local(address: usize) -> (b: bool)
    ensures
        b == (address < LOCAL_END),
{
    address < LOCAL_END
}

/// Core-local data: it stays on the core that pinned it.
pub struct Local<T> {
    inner: T,
}

impl<T> Local<T> {
    /// The data.
    pub closed spec fn view(&self) -> T {
        self.inner
    }

    /// Pins data that lives at `address`, in the memory that is private to
    /// a core, to the core.
    pub fn pin(value: T, address: usize) -> (local: Local<T>)
        requires
            address < LOCAL_END,
        ensures
            local@ == value,
    {
        Local { inner: value }
    }

    /// Grants temporary access to the data.
    pub fn borrow<R, F: FnOnce(&T) -> R>(&self, f: F) -> (r: R)
        requires
            f.requires((&self@,)),
        ensures
            f.ensures((&self@,), r),
    {
        f(&self.inner)
    }

    /// Grants temporary access to change the data: `f` takes the data and
    /// hands it back.
    pub fn borrow_mut<R, F: FnOnce(T) -> (T, R)>(self, f: F) -> (r: (Local<T>, R))
        requires
            f.requires((self@,)),
        ensures
            f.ensures((self@,), (r.0@, r.1)),
    {
        let (inner, out) = f(self.inner);
        (Local { inner }, out)
    }
}

} // verus!
