//! What the generated code is laid out by: which kind of queue connects two
//! cores, how a spawn reaches its receiver, how large a ready queue is, and
//! the hardware priority of a dispatcher.

use crate::analyze::{
    ceiling_after, ceiling_is_highest, contends, ownership_after, ownership_level_is_highest,
    Ownership,
};
use crate::export::{hw_priority, logical2hw};
use crate::gic::Target;
use crate::syntax::{Access, MAX_PRIORITY};
use vstd::prelude::*;

verus! {

/// The two kinds of queue.
#[derive(Clone, Copy, Debug, PartialEq, Eq, Structural)]
pub enum Flavor {
    /// Producer and consumer run on one core; the queue lives in that
    /// core's memory.
    SingleCore,
    /// Producer and consumer run on different cores; the queue lives in
    /// shared memory.
    MultiCore,
}

/// The kind of queue between a sender core and a receiver core.
pub fn queue_flavor(receiver: u8, sender: u8) -> (flavor: Flavor)
    ensures
        flavor is SingleCore <==> receiver == sender,
{
    if receiver == sender {
        Flavor::SingleCore
    } else {
        Flavor::MultiCore
    }
}

/// The interrupt target by which a spawn on `sender` wakes the dispatcher
/// on `receiver`.
pub fn spawn_target(sender: u8, receiver: u8) -> (target: Target)
    ensures
        target == if sender == receiver {
            Target::Loopback
        } else {
            Target::Unicast(receiver)
        },
{
    if sender == receiver {
        Target::Loopback
    } else {
        Target::Unicast(receiver)
    }
}

/// Whether `n` is a power of two that a `u8` holds.
pub open spec fn is_power_of_two(n: int) -> bool {
    n == 1 || n == 2 || n == 4 || n == 8 || n == 16 || n == 32 || n == 64 || n == 128
}

/// The size of a queue for `capacity` items: the capacity itself, or, where
/// a power of two is asked for, the least one that is not below it; `None`
/// when that is above 128.
pub fn queue_size(capacity: u8, power_of_two: bool) -> (size: Option<u8>)
    ensures
        !power_of_two ==> size == Some(capacity),
        power_of_two ==> (size is None <==> capacity > 128),
        power_of_two ==> (size matches Some(p) ==> is_power_of_two(p as int) && capacity <= p
            && forall|q: int| is_power_of_two(q) && capacity <= q ==> p <= q),
{
    if !power_of_two {
        return Some(capacity);
    }
    if capacity > 128 {
        return None;
    }
    let mut p: u8 = 1;
    while p < capacity
        invariant
            capacity <= 128,
            is_power_of_two(p as int),
            forall|q: int| is_power_of_two(q) && capacity <= q ==> p <= q,
        decreases 128 - p,
    {
        p = p * 2;
    }
    Some(p)
}

/// The hardware priority of the dispatcher of a priority level: the
/// encoding of the level plus one, which a mask raised to a ceiling at or
/// above the level shuts out.
pub fn dispatcher_priority(priority: u8) -> (hw: u8)
    requires
        priority <= MAX_PRIORITY,
    ensures
        hw == hw_priority((priority + 1) as u8),
{
    logical2hw(priority + 1)
}

/// A mask raised for a ceiling shuts out the dispatcher of a level exactly
/// when the level is not above the ceiling: only interrupts whose hardware
/// priority is below the mask are taken.
pub proof fn mask_shuts_out_up_to_ceiling(level: u8, ceiling: u8)
    requires
        level <= MAX_PRIORITY,
        ceiling <= MAX_PRIORITY,
    ensures
        hw_priority((level + 1) as u8) >= hw_priority((ceiling + 1) as u8) <==> level <= ceiling,
{
}

/// While a context holds the lock of a shared resource, the mask shuts out
/// the dispatcher of every context that accesses the resource: the mask
/// stands at the encoding of the ceiling plus one, and no accessor lies
/// above the ceiling.
pub proof fn lock_shuts_out_every_accessor(accesses: Seq<Access>, r: usize, j: int)
    requires
        0 <= j < accesses.len(),
        contends(accesses[j], r),
        ownership_after(accesses, accesses.len() as int, r) matches Some(
            Ownership::Shared { ceiling },
        ) && ceiling <= MAX_PRIORITY,
    ensures
        hw_priority((accesses[j].priority.unwrap() + 1) as u8) >= hw_priority(
            (ownership_after(accesses, accesses.len() as int, r).unwrap().level() + 1) as u8,
        ),
{
    ownership_level_is_highest(accesses, accesses.len() as int, r);
    mask_shuts_out_up_to_ceiling(
        accesses[j].priority.unwrap(),
        ownership_after(accesses, accesses.len() as int, r).unwrap().level(),
    );
}

/// While a context holds the lock of a queue, the mask shuts out the
/// dispatcher of every context that spawns through the queue: none of them
/// lies above the ceiling of the queue.
pub proof fn queue_lock_shuts_out_every_spawner(
    spawns: Seq<Access>,
    pick: spec_fn(Access) -> bool,
    j: int,
)
    requires
        0 <= j < spawns.len(),
        pick(spawns[j]),
        spawns[j].priority is Some,
        ceiling_after(spawns, spawns.len() as int, pick) matches Some(c) ==> c <= MAX_PRIORITY,
    ensures
        ceiling_after(spawns, spawns.len() as int, pick) matches Some(c) && hw_priority(
            (spawns[j].priority.unwrap() + 1) as u8,
        ) >= hw_priority((c + 1) as u8),
{
    ceiling_is_highest(spawns, spawns.len() as int, pick);
    let c = ceiling_after(spawns, spawns.len() as int, pick).unwrap();
    mask_shuts_out_up_to_ceiling(spawns[j].priority.unwrap(), c);
}

/// The contexts that access resources.
#[derive(Clone, Copy, Debug, PartialEq, Eq, Structural)]
pub enum Context {
    Init,
    Idle,
    /// A task or an interrupt task.
    Handler,
}

/// The form in which a context gets a resource.
#[derive(Clone, Copy, Debug, PartialEq, Eq, Structural)]
pub enum Handle {
    /// A reference that is pinned to the core.
    Pinned { mutable: bool },
    /// A plain reference; it lasts forever for a context that runs once.
    Reference { mutable: bool, forever: bool },
    /// A proxy that grants access inside a critical section only.
    Proxy,
}

/// The form in which a context at `priority` gets a resource.
/// - `init` gets what only `init` uses as its own, pinned to the core where
///   there are several, and borrows what tasks use too.
/// - Below the ceiling of a shared resource a context gets a proxy to lock
///   if the resource is mutable, and a shared reference if it is not.
/// - Everywhere else it gets a reference, which for `idle` is pinned where
///   there are several cores and the resource lives with one of them.
pub open spec fn handle_of(
    context: Context,
    owner: Option<Ownership>,
    priority: u8,
    mutable: bool,
    cores: u8,
    local: bool,
) -> Handle {
    match context {
        Context::Init => match owner {
            None => if cores != 1 {
                Handle::Pinned { mutable }
            } else {
                Handle::Reference { mutable, forever: true }
            },
            Some(_) => Handle::Reference { mutable: true, forever: false },
        },
        _ => if owner.unwrap().locks(priority) {
            if mutable {
                Handle::Proxy
            } else {
                Handle::Reference { mutable: false, forever: false }
            }
        } else if context is Idle && cores != 1 && local {
            Handle::Pinned { mutable }
        } else {
            Handle::Reference { mutable, forever: context is Idle }
        },
    }
}

/// Decides the form in which a context gets a resource. A lock is asked
/// for exactly where a mutable resource is reached from below its ceiling.
pub fn handle(
    context: Context,
    owner: Option<Ownership>,
    priority: u8,
    mutable: bool,
    cores: u8,
    local: bool,
) -> (h: Handle)
    requires
        !(context is Init) ==> owner is Some,
    ensures
        h == handle_of(context, owner, priority, mutable, cores, local),
        h is Proxy <==> !(context is Init) && mutable && owner.unwrap().locks(priority),
{
    match context {
        Context::Init => match owner {
            None => {
                if cores != 1 {
                    Handle::Pinned { mutable }
                } else {
                    Handle::Reference { mutable, forever: true }
                }
            },
            Some(_) => Handle::Reference { mutable: true, forever: false },
        },
        Context::Idle => match owner {
            Some(o) => {
                if o.needs_lock(priority) {
                    if mutable {
                        Handle::Proxy
                    } else {
                        Handle::Reference { mutable: false, forever: false }
                    }
                } else if cores != 1 && local {
                    Handle::Pinned { mutable }
                } else {
                    Handle::Reference { mutable, forever: true }
                }
            },
            None => Handle::Reference { mutable, forever: true },
        },
        Context::Handler => match owner {
            Some(o) => {
                if o.needs_lock(priority) {
                    if mutable {
                        Handle::Proxy
                    } else {
                        Handle::Reference { mutable: false, forever: false }
                    }
                } else {
                    Handle::Reference { mutable, forever: false }
                }
            },
            None => Handle::Reference { mutable, forever: false },
        },
    }
}

/// The form in which a context gets a `static mut` of its own: a handler
/// borrows it for its run; `init` and `idle`, which run once, keep it
/// forever, pinned to the core where there are several cores and the
/// `static` is not marked as global.
pub open spec fn local_handle_of(context: Context, cores: u8, global: bool) -> Handle {
    if context is Handler {
        Handle::Reference { mutable: true, forever: false }
    } else if cores != 1 && !global {
        Handle::Pinned { mutable: true }
    } else {
        Handle::Reference { mutable: true, forever: true }
    }
}

/// Decides the form in which a context gets a `static mut` of its own.
pub fn local_handle(context: Context, cores: u8, global: bool) -> (h: Handle)
    ensures
        h == local_handle_of(context, cores, global),
{
    match context {
        Context::Handler => Handle::Reference { mutable: true, forever: false },
        _ => {
            if cores != 1 && !global {
                Handle::Pinned { mutable: true }
            } else {
                Handle::Reference { mutable: true, forever: true }
            }
        },
    }
}

} // verus!
