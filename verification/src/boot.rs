//! The boot sequence of one core, and the two rendezvous that order it
//! against the other cores.

use crate::analyze::Analysis;
use crate::syntax::App;
use vstd::prelude::*;

verus! {

/// The stages that a core goes through, in their order.
#[derive(Clone, Copy, Debug, PartialEq, Eq, Structural)]
pub enum Stage {
    PowerOn,
    /// Free queues are filled and the interrupt controller is set up.
    PreInit,
    /// `init` runs.
    Init,
    /// The core waits for the cores that spawn tasks on it.
    PreRendezvous,
    /// The core waits for the cores that initialize what it reads, then
    /// the late resources are published.
    PostInit,
    IrqEnabled,
    /// `idle` runs, forever.
    Idle,
}

impl Stage {
    /// The stage that follows; `Idle` follows itself.
    pub open spec fn succ(self) -> Stage {
        match self {
            Stage::PowerOn => Stage::PreInit,
            Stage::PreInit => Stage::Init,
            Stage::Init => Stage::PreRendezvous,
            Stage::PreRendezvous => Stage::PostInit,
            Stage::PostInit => Stage::IrqEnabled,
            Stage::IrqEnabled => Stage::Idle,
            Stage::Idle => Stage::Idle,
        }
    }

    /// Moves on to the stage that follows.
    pub fn next(self) -> (next: Stage)
        ensures
            next == self.succ(),
    {
        match self {
            Stage::PowerOn => Stage::PreInit,
            Stage::PreInit => Stage::Init,
            Stage::Init => Stage::PreRendezvous,
            Stage::PreRendezvous => Stage::PostInit,
            Stage::PostInit => Stage::IrqEnabled,
            Stage::IrqEnabled => Stage::Idle,
            Stage::Idle => Stage::Idle,
        }
    }
}

/// Whether core `c` has given its signal.
pub open spec fn signalled(signals: Seq<bool>, c: u8) -> bool {
    c < signals.len() && signals[c as int]
}

impl App {
    /// Whether every core that may spawn a task on `core` has given its signal.
    pub open spec fn senders_ready(&self, core: u8, signals: Seq<bool>) -> bool {
        forall|s: u8| #[trigger] self.awaits_sender(core, s) ==> signalled(signals, s)
    }

    /// Whether every core that initializes a late resource that `core`
    /// accesses has given its signal.
    pub open spec fn initializers_ready(&self, core: u8, signals: Seq<bool>) -> bool {
        forall|i: u8| #[trigger] self.awaits_initializer(core, i) ==> signalled(signals, i)
    }

    /// Whether `core` has to stay in `stage`: it stays in the first rendezvous
    /// until all senders have signalled, and before the late resources are
    /// published until all initializers have.
    pub open spec fn held_back(&self, core: u8, stage: Stage, armed: Seq<bool>, done: Seq<bool>) -> bool {
        (stage is PreRendezvous && !self.senders_ready(core, armed)) || (stage is PostInit
            && !self.initializers_ready(core, done))
    }
}

fn has_signalled(signals: &Vec<bool>, c: u8) -> (b: bool)
    ensures
        b == signalled(signals@, c),
{
    let at: usize = c as usize;
    at < signals.len() && signals[at]
}

/// Decides the stage that `core` is in after one step: it waits where a
/// rendezvous holds it back and moves on everywhere else. `armed` says
/// which cores have opened their path for spawns from other cores, `done`
/// which cores have finished their `init`.
pub fn advance(
    analysis: &Analysis,
    app: &App,
    core: u8,
    stage: Stage,
    armed: &Vec<bool>,
    done: &Vec<bool>,
) -> (next: Stage)
    requires
        analysis.accesses@ == app.accesses(),
        analysis.spawns@ == app.spawns(),
    ensures
        next == if app.held_back(core, stage, armed@, done@) {
            stage
        } else {
            stage.succ()
        },
{
    match stage {
        Stage::PreRendezvous => {
            let mut s: usize = 0;
            while s < 256
                invariant
                    s <= 256,
                    stage is PreRendezvous,
                    analysis.spawns@ == app.spawns(),
                    forall|k: u8|
                        k < s && #[trigger] app.awaits_sender(core, k) ==> signalled(armed@, k),
                decreases 256 - s,
            {
                let sender: u8 = s as u8;
                if analysis.pre_rendezvous(app, core, sender) && !has_signalled(armed, sender) {
                    assert(app.awaits_sender(core, sender));
                    return stage;
                }
                s = s + 1;
            }
            stage.next()
        },
        Stage::PostInit => {
            let mut i: usize = 0;
            while i < 256
                invariant
                    i <= 256,
                    stage is PostInit,
                    analysis.accesses@ == app.accesses(),
                    forall|k: u8|
                        k < i && #[trigger] app.awaits_initializer(core, k) ==> signalled(done@, k),
                decreases 256 - i,
            {
                let initializer: u8 = i as u8;
                if analysis.post_rendezvous(app, core, initializer) && !has_signalled(
                    done,
                    initializer,
                ) {
                    assert(app.awaits_initializer(core, initializer));
                    return stage;
                }
                i = i + 1;
            }
            stage.next()
        },
        _ => stage.next(),
    }
}

} // verus!
