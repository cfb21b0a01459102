//! What the generated entry points run on: the priority-ceiling lock, the
//! dispatcher's frame, and the encoding of priorities.

use crate::gic::{sgir_word, Target, ICD};
use crate::syntax::MAX_PRIORITY;
use vstd::prelude::*;

verus! {

/// The priority that a context currently runs at.
#[derive(Debug)]
pub struct Priority {
    inner: u8,
}

impl Priority {
    /// The logical priority.
    pub closed spec fn view(&self) -> u8 {
        self.inner
    }

    /// Starts a context at the logical priority `value`.
    pub fn new(value: u8) -> (p: Priority)
        ensures
            p@ == value,
    {
        Priority { inner: value }
    }

    /// Moves the context to the logical priority `value`.
    pub fn set(&mut self, value: u8)
        ensures
            final(self)@ == value,
    {
        self.inner = value;
    }

    /// The logical priority of the context.
    pub fn get(&self) -> (value: u8)
        ensures
            value == self@,
    {
        self.inner
    }
}

/// The CPU interface of one core, reduced to its priority mask: only
/// interrupts whose hardware priority is below the mask are taken.
#[derive(Debug)]
pub struct ICC {
    pmr: u8,
}

impl ICC {
    /// The priority mask.
    pub closed spec fn view(&self) -> u8 {
        self.pmr
    }

    /// Hands out the CPU interface of a core once, with the mask that the
    /// hardware holds: `taken` remembers that it was.
    pub fn take(taken: &mut bool, threshold: u8) -> (r: Option<ICC>)
        ensures
            r is Some <==> !*old(taken),
            r matches Some(icc) ==> icc@ == threshold,
            *final(taken),
    {
        if *taken {
            None
        } else {
            *taken = true;
            Some(ICC { pmr: threshold })
        }
    }

    /// A CPU interface with the given mask.
    pub fn with_mask(threshold: u8) -> (icc: ICC)
        ensures
            icc@ == threshold,
    {
        ICC { pmr: threshold }
    }

    /// Reads the priority mask.
    pub fn get_iccpmr(&self) -> (threshold: u8)
        ensures
            threshold == self@,
    {
        self.pmr
    }

    /// Writes the priority mask.
    pub fn set_iccpmr(&mut self, threshold: u8)
        ensures
            final(self)@ == threshold,
    {
        self.pmr = threshold;
    }
}

/// The hardware encoding of a logical priority: 32 levels in the upper five
/// bits, the highest logical priority encoded lowest.
pub open spec fn hw_priority(logical: u8) -> u8 {
    (((32 - logical) * 8) % 256) as u8
}

/// Encodes a logical priority for the hardware.
pub fn logical2hw(logical: u8) -> (hw: u8)
    requires
        logical <= 32,
    ensures
        hw == hw_priority(logical),
{
    let levels: u8 = 32 - logical;
    let hw: u8 = levels << 3;
    assert(hw == (levels * 8) % 256) by (bit_vector)
        requires
            hw == levels << 3,
            levels <= 32,
    ;
    hw
}

/// Among the priorities 1 to 32, a higher logical priority has a lower
/// encoding, so a raised mask shuts out every priority up to the ceiling.
pub proof fn hw_priority_falls(low: u8, high: u8)
    requires
        1 <= low < high <= 32,
    ensures
        hw_priority(high) < hw_priority(low),
        hw_priority(low) == (32 - low) * 8,
{
}

/// Whether a context at `current` has to raise the mask to reach `ceiling`.
pub open spec fn raises(current: u8, ceiling: u8) -> bool {
    current < ceiling
}

/// What a critical section found when it was entered, to be put back when
/// it is left.
#[derive(Clone, Copy, Debug, PartialEq, Eq, Structural)]
pub struct Saved {
    /// The priority of the context.
    pub priority: u8,
    /// The priority mask.
    pub mask: u8,
}

/// Enters a critical section with the given ceiling. Below the ceiling the
/// context takes the ceiling as its priority and the mask is set to the
/// encoding of the ceiling plus one, which shuts out every task up to the
/// ceiling; the priority and the mask that were found are handed out. At or
/// above the ceiling nothing changes and nothing is handed out.
pub fn lock(icc: &mut ICC, priority: &mut Priority, ceiling: u8) -> (saved: Option<Saved>)
    requires
        ceiling <= MAX_PRIORITY,
    ensures
        raises(old(priority)@, ceiling) ==> {
            &&& saved == Some(Saved { priority: old(priority)@, mask: old(icc)@ })
            &&& final(priority)@ == ceiling
            &&& final(icc)@ == hw_priority((ceiling + 1) as u8)
        },
        !raises(old(priority)@, ceiling) ==> {
            &&& saved is None
            &&& final(priority)@ == old(priority)@
            &&& final(icc)@ == old(icc)@
        },
{
    let current = priority.get();
    if current < ceiling {
        let mask = icc.get_iccpmr();
        priority.set(ceiling);
        icc.set_iccpmr(logical2hw(ceiling + 1));
        Some(Saved { priority: current, mask })
    } else {
        None
    }
}

/// Leaves a critical section: with what `lock` handed out, the context
/// returns to the priority and the mask to the value that were found at
/// entry; with `None` nothing changes.
pub fn unlock(icc: &mut ICC, priority: &mut Priority, saved: Option<Saved>)
    ensures
        saved matches Some(found) ==> final(priority)@ == found.priority && final(icc)@
            == found.mask,
        saved is None ==> final(priority)@ == old(priority)@ && final(icc)@ == old(icc)@,
{
    match saved {
        Some(found) => {
            icc.set_iccpmr(found.mask);
            priority.set(found.priority);
        },
        None => {},
    }
}

/// Runs `f` once, on `data`, inside a critical section with the given
/// ceiling and hands back what `f` returns. Afterwards the context has the
/// priority, and the core the mask, that it had before.
pub fn critical<T, R, F: FnOnce(T) -> (T, R)>(
    icc: &mut ICC,
    priority: &mut Priority,
    ceiling: u8,
    data: T,
    f: F,
) -> (r: (T, R))
    requires
        ceiling <= MAX_PRIORITY,
        f.requires((data,)),
    ensures
        f.ensures((data,), r),
        final(priority)@ == old(priority)@,
        final(icc)@ == old(icc)@,
{
    let saved = lock(icc, priority, ceiling);
    let r = f(data);
    unlock(icc, priority, saved);
    r
}

/// Opens the frame of a handler at priority level `level`: raises the mask
/// to the encoding of the level plus one, so that only handlers of a higher
/// level are taken on top of it, and hands out the mask that it found.
pub fn run_enter(icc: &mut ICC, level: u8) -> (found: u8)
    requires
        level <= MAX_PRIORITY,
    ensures
        found == old(icc)@,
        final(icc)@ == hw_priority((level + 1) as u8),
{
    let found = icc.get_iccpmr();
    icc.set_iccpmr(logical2hw(level + 1));
    found
}

/// Closes the frame of a handler: puts back the mask that `run_enter` found.
pub fn run_exit(icc: &mut ICC, found: u8)
    ensures
        final(icc)@ == found,
{
    icc.set_iccpmr(found);
}

/// Runs the body `f` of a handler at priority level `priority`, once, with
/// the mask raised to that level, and restores the mask that it found.
pub fn run<F: FnOnce()>(icc: &mut ICC, priority: u8, f: F)
    requires
        priority <= MAX_PRIORITY,
        f.requires(()),
    ensures
        f.ensures((), ()),
        final(icc)@ == old(icc)@,
{
    let found = run_enter(icc, priority);
    f();
    run_exit(icc, found);
}

/// The word that raises the software-generated interrupt `n` on `core`, or
/// on the calling core when `core` is `None`.
pub fn sgi(n: u8, core: Option<u8>) -> (word: u32)
    ensures
        word == sgir_word(
            match core {
                Some(c) => Target::Unicast(c),
                None => Target::Loopback,
            },
            n,
        ),
{
    match core {
        Some(c) => ICD::icdsgir(Target::Unicast(c), n),
        None => ICD::icdsgir(Target::Loopback, n),
    }
}

/// Accepts only types that can be sent to another core.
pub fn assert_send<T: Send>() {
}

/// A type that is safe to send between the contexts of one core. Every type
/// that can be sent to another core is.
pub trait LocalSend {

}

impl<T: Send> LocalSend for T {

}

/// Accepts only types that can be sent between the contexts of one core.
pub fn assert_local_send<T: LocalSend>() {
}

/// Accepts only types that can be shared between contexts.
pub fn assert_sync<T: Sync>() {
}

} // verus!
