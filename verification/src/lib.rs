//! Core of a multi-core real-time framework.
//!
//! An application is a fixed set of resources, per-core `init` and `idle`
//! routines, interrupt tasks and software tasks. This crate holds
//! - the description of an application (`syntax`), the reading of its
//!   items and their arguments (`args`, `signature`, `items`),
//! - the checker that rejects malformed applications (`check`),
//! - the static analysis: ownership and ceilings, interrupt assignment,
//!   queue ceilings and routes, locations, rendezvous edges (`analyze`),
//! - what the layout of a program follows from it (`plan`, `boot`),
//! - the runtime: message channels and dispatchers (`dispatch`, on the
//!   queues of `queue`), the priority-ceiling lock (`export`), the interrupt
//!   entry (`rt`), the preemption of handlers (`sched`), the encodings of
//!   the interrupt controller and the status register (`gic`, `cpsr`),
//!   core-local data (`local`), mutexes (`mutex`) and cycle counts (`time`).

pub mod analyze;
pub mod args;
pub mod boot;
pub mod check;
pub mod cpsr;
pub mod dispatch;
pub mod export;
pub mod gic;
pub mod items;
pub mod local;
pub mod mutex;
pub mod plan;
pub mod queue;
pub mod rt;
pub mod sched;
pub mod signature;
pub mod syntax;
pub mod time;
