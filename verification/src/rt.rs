//! The interrupt entry: which handler an acknowledged interrupt goes to.

use crate::gic::ICCIAR;
use vstd::prelude::*;

verus! {

/// The exceptions that a program can handle.
#[derive(Clone, Copy, Debug, PartialEq, Eq, Structural)]
pub enum Exception {
    DefaultHandler,
    Undefined,
    SVC,
    PrefetchAbort,
    DataAbort,
    FIQ,
}

/// The interrupts that have a handler of their own.
#[derive(Clone, Copy, Debug, PartialEq, Eq, Structural)]
pub enum Interrupt {
    /// A software-generated interrupt, 0 to 15.
    SG(u8),
    /// Inter-processor interrupt, channel 1: interrupt 65.
    IpiCh1,
    /// Inter-processor interrupt, channel 2: interrupt 66.
    IpiCh2,
}

/// Where an acknowledged interrupt goes.
#[derive(Clone, Copy, Debug, PartialEq, Eq, Structural)]
pub enum Route {
    /// Nothing was pending: the interrupt is dropped silently.
    Spurious,
    /// The handler of this interrupt runs.
    Handler(Interrupt),
    /// No handler is known: the interrupt is reported and ignored.
    Default,
}

impl Route {
    /// Whether the entry signals the end of the interrupt when it returns:
    /// it does for every interrupt but a spurious one.
    pub fn ends_interrupt(&self) -> (eoi: bool)
        ensures
            eoi == !(*self is Spurious),
    {
        match self {
            Route::Spurious => false,
            _ => true,
        }
    }

    /// Whether the interrupt is reported on the debug sink.
    pub fn reported(&self) -> (b: bool)
        ensures
            b == (*self is Default),
    {
        match self {
            Route::Default => true,
            _ => false,
        }
    }
}

/// The route of interrupt number `id`.
pub open spec fn route_of(id: int) -> Route {
    if id == 1023 {
        Route::Spurious
    } else if id < 16 {
        Route::Handler(Interrupt::SG(id as u8))
    } else if id == 65 {
        Route::Handler(Interrupt::IpiCh1)
    } else if id == 66 {
        Route::Handler(Interrupt::IpiCh2)
    } else {
        Route::Default
    }
}

/// Decides where an acknowledged interrupt goes.
pub fn irq(icciar: ICCIAR) -> (route: Route)
    ensures
        route == route_of(icciar@ as int % 1024),
{
    let ackintid = icciar.ackintid();
    if ackintid == 1023 {
        Route::Spurious
    } else if ackintid < 16 {
        Route::Handler(Interrupt::SG(ackintid as u8))
    } else if ackintid == 65 {
        Route::Handler(Interrupt::IpiCh1)
    } else if ackintid == 66 {
        Route::Handler(Interrupt::IpiCh2)
    } else {
        Route::Default
    }
}

} // verus!
