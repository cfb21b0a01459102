//! Access to data under mutual exclusion.

use crate::export::{critical, Priority, ICC};
use crate::syntax::MAX_PRIORITY;
use vstd::prelude::*;

verus! {

/// Memory safe access to shared data: the data is reached inside a critical
/// section only.
pub trait Mutex: Sized {
    /// The data that the mutex protects.
    type T;

    /// The protected data.
    spec fn data(&self) -> Self::T;

    /// Runs `f` once, on the protected data, inside a critical section, and
    /// hands back what `f` returns; `f` takes the data and gives it back.
    fn lock<R, F: FnOnce(Self::T) -> (Self::T, R)>(self, f: F) -> (r: (Self, R))
        requires
            f.requires((self.data(),)),
        ensures
            f.ensures((self.data(),), (r.0.data(), r.1)),
    ;
}

/// Data that its holder has for itself. Its lock is free: no critical
/// section is made.
pub struct Exclusive<T>(pub T);

impl<T> Mutex for Exclusive<T> {
    type T = T;

    open spec fn data(&self) -> T {
        self.0
    }

    fn lock<R, F: FnOnce(T) -> (T, R)>(self, f: F) -> (r: (Self, R)) {
        let (data, out) = f(self.0);
        (Exclusive(data), out)
    }
}

/// A resource that is shared between priorities, in the hands of one
/// context: the data, the ceiling of the resource, the priority of the
/// context and the mask of its core. Its lock is the priority-ceiling lock.
pub struct Proxy<T> {
    data: T,
    icc: ICC,
    priority: Priority,
    ceiling: u8,
}

impl<T> Proxy<T> {
    #[verifier::type_invariant]
    spec fn bounded(self) -> bool {
        self.ceiling <= MAX_PRIORITY
    }

    /// The mask of the core.
    pub closed spec fn mask(&self) -> u8 {
        self.icc@
    }

    /// The priority of the context.
    pub closed spec fn level(&self) -> u8 {
        self.priority@
    }

    /// The ceiling of the resource.
    pub closed spec fn top(&self) -> u8 {
        self.ceiling
    }

    /// Hands the resource to a context; `None` when the ceiling is above 31.
    pub fn new(data: T, icc: ICC, priority: Priority, ceiling: u8) -> (r: Option<Proxy<T>>)
        ensures
            r is Some <==> ceiling <= MAX_PRIORITY,
            r matches Some(proxy) ==> proxy.data() == data && proxy.mask() == icc@ && proxy.level()
                == priority@ && proxy.top() == ceiling,
    {
        if ceiling > MAX_PRIORITY {
            None
        } else {
            Some(Proxy { data, icc, priority, ceiling })
        }
    }

    /// Takes the resource apart again.
    pub fn release(self) -> (r: (T, ICC, Priority))
        ensures
            r.0 == self.data(),
            r.1@ == self.mask(),
            r.2@ == self.level(),
    {
        (self.data, self.icc, self.priority)
    }
}

impl<T> Mutex for Proxy<T> {
    type T = T;

    closed spec fn data(&self) -> T {
        self.data
    }

    /// Runs `f` inside a critical section at the ceiling of the resource;
    /// afterwards the context has the priority, and the core the mask, that
    /// it had before.
    fn lock<R, F: FnOnce(T) -> (T, R)>(self, f: F) -> (r: (Self, R))
        ensures
            r.0.mask() == self.mask(),
            r.0.level() == self.level(),
            r.0.top() == self.top(),
    {
        proof {
            use_type_invariant(&self);
        }
        let Proxy { data, mut icc, mut priority, ceiling } = self;
        let (data, out) = critical(&mut icc, &mut priority, ceiling, data, f);
        (Proxy { data, icc, priority, ceiling }, out)
    }
}

} // verus!
