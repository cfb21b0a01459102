//! The encodings of the generic interrupt controller: the words written to
//! the distributor, and the fields of an interrupt acknowledge.

use vstd::prelude::*;

verus! {

/// The cores that a software-generated interrupt is sent to.
#[derive(Clone, Copy, Debug, PartialEq, Eq, Structural)]
pub enum Target {
    /// Every core but the sender.
    Broadcast,
    /// The sender itself.
    Loopback,
    /// The core with this number; only its low three bits count.
    Unicast(u8),
}

impl Target {
    /// The target-list filter field of the target.
    pub open spec fn filter(self) -> u32 {
        match self {
            Target::Loopback => 2,
            Target::Broadcast => 1,
            Target::Unicast(_) => 0,
        }
    }

    /// The CPU target list field of the target: one bit for a single core,
    /// none otherwise.
    pub open spec fn cpu_list(self) -> u32 {
        match self {
            Target::Unicast(cpu) => 1u32 << ((cpu & 7) as u32),
            _ => 0,
        }
    }
}

/// The word that raises the software-generated interrupt `id` on `target`:
/// the filter in bits 24 and 25, the CPU target list in bits 16 to 23, the
/// interrupt number in bits 0 to 3, all other bits clear.
pub open spec fn sgir_word(target: Target, id: u8) -> u32 {
    (target.filter() << 24) | (target.cpu_list() << 16) | ((id & 15) as u32)
}

/// The distributor, which all cores share.
#[derive(Clone, Copy, Debug)]
pub struct ICD {}

impl ICD {
    /// Hands out the distributor once: `taken` remembers that it was.
    pub fn take(taken: &mut bool) -> (r: Option<ICD>)
        ensures
            r is Some <==> !*old(taken),
            *final(taken),
    {
        if *taken {
            None
        } else {
            *taken = true;
            Some(ICD {  })
        }
    }

    /// Computes the word to write to the software-generated interrupt
    /// register. Each field can be read back from it.
    pub fn icdsgir(target: Target, id: u8) -> (word: u32)
        ensures
            word == sgir_word(target, id),
            (word >> 24) == target.filter(),
            (word >> 16) & 0xff == target.cpu_list(),
            word & 0xffff == (id & 15) as u32,
            target.cpu_list() < 256,
    {
        let sgiintid: u32 = (id & 15) as u32;
        let mut filter: u32 = 0;
        let mut cpulist: u32 = 0;
        match target {
            Target::Loopback => {
                filter = 2;
            },
            Target::Broadcast => {
                filter = 1;
            },
            Target::Unicast(cpu) => {
                let bit: u32 = (cpu & 7) as u32;
                assert(bit < 8) by (bit_vector)
                    requires
                        bit == (cpu & 7) as u32,
                ;
                cpulist = 1u32 << bit;
                assert(cpulist < 256) by (bit_vector)
                    requires
                        cpulist == 1u32 << bit,
                        bit < 8,
                ;
            },
        }
        assert(sgiintid < 16) by (bit_vector)
            requires
                sgiintid == (id & 15) as u32,
        ;
        let word: u32 = (filter << 24) | (cpulist << 16) | sgiintid;
        assert((word >> 24) == filter && (word >> 16) & 0xff == cpulist && word & 0xffff
            == sgiintid) by (bit_vector)
            requires
                word == (filter << 24) | (cpulist << 16) | sgiintid,
                filter < 4,
                cpulist < 256,
                sgiintid < 16,
        ;
        word
    }

    /// Finds the set-enable register and the bit in it that unmasks
    /// interrupt `n`.
    pub fn unmask(n: u16) -> (at: (usize, u32))
        ensures
            at.0 == n / 32,
            at.1 == 1u32 << ((n % 32) as u32),
    {
        let shift: u32 = (n % 32) as u32;
        ((n / 32) as usize, 1u32 << shift)
    }

    /// Finds the set-pending register and the bit in it that pends
    /// interrupt `n`.
    pub fn pend(n: u16) -> (at: (usize, u32))
        ensures
            at.0 == n / 32,
            at.1 == 1u32 << ((n % 32) as u32),
    {
        let shift: u32 = (n % 32) as u32;
        ((n / 32) as usize, 1u32 << shift)
    }
}

/// An interrupt acknowledge: what the CPU interface hands out when a core
/// takes an interrupt.
#[derive(Clone, Copy, Debug)]
pub struct ICCIAR {
    bits: u32,
}

impl ICCIAR {
    /// The content of the register.
    pub closed spec fn view(&self) -> u32 {
        self.bits
    }

    /// Wraps a value read from the register.
    pub fn from_bits(bits: u32) -> (r: ICCIAR)
        ensures
            r@ == bits,
    {
        ICCIAR { bits }
    }

    /// The content of the register.
    pub fn bits(&self) -> (bits: u32)
        ensures
            bits == self@,
    {
        self.bits
    }

    /// The number of the interrupt: bits 0 to 9.
    pub fn ackintid(&self) -> (id: u16)
        ensures
            id == self@ % 1024,
    {
        let bits = self.bits;
        let low: u32 = bits & 1023;
        assert(low == bits % 1024) by (bit_vector)
            requires
                low == bits & 1023,
        ;
        low as u16
    }

    /// The core that raised a software-generated interrupt: bits 10 to 12.
    pub fn cpuid(&self) -> (cpu: u8)
        ensures
            cpu == (self@ / 1024) % 8,
    {
        let bits = self.bits;
        let field: u32 = (bits >> 10) & 7;
        assert(field == (bits / 1024) % 8) by (bit_vector)
            requires
                field == (bits >> 10) & 7,
        ;
        field as u8
    }
}

/// The kinds of interrupt numbers.
#[derive(Clone, Copy, Debug, PartialEq, Eq, Structural)]
pub enum Class {
    /// 0 to 15: software generated.
    Sgi,
    /// 16 to 31: private to a core.
    Ppi,
    /// 32 to 1019: shared between the cores.
    Spi,
    /// Anything above.
    Special,
}

/// Tells the kind of an interrupt number.
pub fn class_of(id: u16) -> (class: Class)
    ensures
        class is Sgi <==> id < 16,
        class is Ppi <==> 16 <= id < 32,
        class is Spi <==> 32 <= id < 1020,
        class is Special <==> id >= 1020,
{
    if id < 16 {
        Class::Sgi
    } else if id < 32 {
        Class::Ppi
    } else if id < 1020 {
        Class::Spi
    } else {
        Class::Special
    }
}

} // verus!
