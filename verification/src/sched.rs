//! Which handler a core runs: preemptive, by fixed priorities, and held back
//! by the priority mask.

use crate::export::{hw_priority, logical2hw, run_enter, run_exit, ICC};
use crate::syntax::{MAX_PRIORITY, MIN_PRIORITY};
use vstd::prelude::*;

verus! {

/// One core: its priority mask and the handlers that are active on it, the
/// preempted ones first and the running one last, each with the mask that
/// it found when it was entered. `idle` runs at priority 0 below them all.
pub struct Core {
    pub icc: ICC,
    pub active: Vec<u8>,
    pub found: Vec<u8>,
}

impl Core {
    /// The priority of the context that runs.
    pub open spec fn running(&self) -> u8 {
        if self.active@.len() == 0 {
            0
        } else {
            self.active@.last()
        }
    }

    /// The active handlers have priorities from 1 to 31 that rise strictly
    /// from the first preempted one to the running one.
    pub open spec fn wf(&self) -> bool {
        &&& self.found@.len() == self.active@.len()
        &&& forall|i: int|
            0 <= i < self.active@.len() ==> MIN_PRIORITY <= #[trigger] self.active@[i]
                <= MAX_PRIORITY
        &&& forall|i: int, j: int|
            0 <= i < j < self.active@.len() ==> self.active@[i] < self.active@[j]
    }

    /// Whether a pending handler of priority `level` is taken now: it has to
    /// lie above the running context, and its hardware priority below the
    /// mask.
    pub open spec fn takes(&self, level: u8) -> bool {
        &&& MIN_PRIORITY <= level <= MAX_PRIORITY
        &&& level > self.running()
        &&& hw_priority((level + 1) as u8) < self.icc@
    }

    /// A core that runs `idle` with the given mask.
    pub fn new(icc: ICC) -> (core: Core)
        ensures
            core.wf(),
            core.active@.len() == 0,
            core.icc@ == icc@,
    {
        Core { icc, active: Vec::new(), found: Vec::new() }
    }

    /// The priority of the context that runs.
    pub fn current(&self) -> (p: u8)
        ensures
            p == self.running(),
    {
        if self.active.len() == 0 {
            0
        } else {
            self.active[self.active.len() - 1]
        }
    }

    /// Lets a pending handler of priority `level` preempt if it is taken
    /// now; says whether it was. A handler that is taken raises the mask to
    /// its level and keeps the mask that it found.
    pub fn enter(&mut self, level: u8) -> (taken: bool)
        requires
            old(self).wf(),
        ensures
            final(self).wf(),
            taken == old(self).takes(level),
            taken ==> final(self).active@ == old(self).active@.push(level) && final(self).found@
                == old(self).found@.push(old(self).icc@) && final(self).icc@ == hw_priority(
                (level + 1) as u8,
            ),
            !taken ==> final(self).active@ == old(self).active@ && final(self).found@ == old(self).found@ && final(self).icc@ == old(self).icc@,
    {
        if level < MIN_PRIORITY || level > MAX_PRIORITY {
            return false;
        }
        if level <= self.current() {
            return false;
        }
        if logical2hw(level + 1) >= self.icc.get_iccpmr() {
            return false;
        }
        let ghost before = self.active@;
        let mask = run_enter(&mut self.icc, level);
        self.found.push(mask);
        self.active.push(level);
        proof {
            assert forall|i: int, j: int| 0 <= i < j < self.active@.len() implies self.active@[i]
                < self.active@[j] by {
                if j == before.len() {
                    if i < before.len() - 1 {
                        assert(before[i] < before[before.len() - 1]);
                    }
                }
            }
        }
        true
    }

    /// Ends the running handler and resumes what it preempted, with the
    /// mask that the handler found; `None` when only `idle` runs.
    pub fn leave(&mut self) -> (ended: Option<u8>)
        requires
            old(self).wf(),
        ensures
            final(self).wf(),
            old(self).active@.len() == 0 ==> ended is None && final(self).active@ == old(self).active@ && final(self).icc@ == old(self).icc@,
            old(self).active@.len() > 0 ==> ended == Some(old(self).running()) && final(self).active@ == old(self).active@.drop_last() && final(self).found@ == old(self).found@.drop_last() && final(self).icc@ == old(self).found@.last() && final(self).running() < old(self).running(),
    {
        let ghost before = self.active@;
        let ended = self.active.pop();
        match self.found.pop() {
            Some(mask) => {
                run_exit(&mut self.icc, mask);
            },
            None => {},
        }
        proof {
            if before.len() > 1 {
                assert(before[before.len() - 2] < before[before.len() - 1]);
            }
        }
        ended
    }
}

} // verus!
