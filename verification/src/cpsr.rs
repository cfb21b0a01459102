//! The current program status register.

use vstd::prelude::*;

verus! {

/// The processor modes.
#[derive(Clone, Copy, Debug, PartialEq, Eq, Structural)]
pub enum Mode {
    User,
    Fiq,
    Irq,
    Supervisor,
    Abort,
    Undefined,
    System,
    Unknown,
}

/// A value of the status register.
#[derive(Clone, Copy, Debug)]
pub struct Cpsr {
    bits: u32,
}

/// The mode that the five mode bits stand for.
pub open spec fn mode_of(field: u32) -> Mode {
    if field == 0b10000 {
        Mode::User
    } else if field == 0b10001 {
        Mode::Fiq
    } else if field == 0b10010 {
        Mode::Irq
    } else if field == 0b10011 {
        Mode::Supervisor
    } else if field == 0b10111 {
        Mode::Abort
    } else if field == 0b11011 {
        Mode::Undefined
    } else if field == 0b11111 {
        Mode::System
    } else {
        Mode::Unknown
    }
}

impl Cpsr {
    /// The content of the register.
    pub closed spec fn view(&self) -> u32 {
        self.bits
    }

    /// Wraps a value read from the register.
    pub fn from_bits(bits: u32) -> (r: Cpsr)
        ensures
            r@ == bits,
    {
        Cpsr { bits }
    }

    /// The content of the register.
    pub fn bits(self) -> (bits: u32)
        ensures
            bits == self@,
    {
        self.bits
    }

    /// Is the E bit (bit 9) set?
    pub fn e(&self) -> (set: bool)
        ensures
            set == (self@ & 0x200 != 0),
    {
        self.bits & 0x200 != 0
    }

    /// Is the A bit (bit 8) set?
    pub fn a(&self) -> (set: bool)
        ensures
            set == (self@ & 0x100 != 0),
    {
        self.bits & 0x100 != 0
    }

    /// Is the I bit (bit 7) set?
    pub fn i(&self) -> (set: bool)
        ensures
            set == (self@ & 0x80 != 0),
    {
        self.bits & 0x80 != 0
    }

    /// Is the F bit (bit 6) set?
    pub fn f(&self) -> (set: bool)
        ensures
            set == (self@ & 0x40 != 0),
    {
        self.bits & 0x40 != 0
    }

    /// Is the T bit (bit 5) set?
    pub fn t(&self) -> (set: bool)
        ensures
            set == (self@ & 0x20 != 0),
    {
        self.bits & 0x20 != 0
    }

    /// The mode that bits 0 to 4 name.
    pub fn mode(&self) -> (mode: Mode)
        ensures
            mode == mode_of(self@ & 0x1f),
    {
        let field: u32 = self.bits & 0x1f;
        if field == 0b10000 {
            Mode::User
        } else if field == 0b10001 {
            Mode::Fiq
        } else if field == 0b10010 {
            Mode::Irq
        } else if field == 0b10011 {
            Mode::Supervisor
        } else if field == 0b10111 {
            Mode::Abort
        } else if field == 0b11011 {
            Mode::Undefined
        } else if field == 0b11111 {
            Mode::System
        } else {
            Mode::Unknown
        }
    }
}

} // verus!
