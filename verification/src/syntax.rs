//! The application description: cores, resources, per-core `init` and `idle`,
//! hardware-interrupt tasks and software tasks.
//!
//! Resources and tasks are named by their position in the description's
//! tables, so a name is a plain index; a name that lies beyond its table
//! refers to nothing that was declared.

use vstd::prelude::*;

verus! {

/// Number of priority bits that the interrupt controller implements.
pub const PRIORITY_BITS: u8 = 5;

/// Number of software-generated interrupts per core.
pub const NSGIS: u8 = 16;

/// Lowest priority that a task or an interrupt task can have.
pub const MIN_PRIORITY: u8 = 1;

/// Highest priority that a task or an interrupt task can have.
pub const MAX_PRIORITY: u8 = 31;

/// Largest number of cores that a description can name.
pub const MAX_CORES: u8 = 8;

/// A named storage cell.
#[derive(Clone, Copy, Debug)]
pub struct Resource {
    /// The core that the resource is assigned to; `None` when it is shared by all cores.
    pub core: Option<u8>,
    /// Whether contexts may write to it.
    pub mutable: bool,
    /// Whether it has no initial value and is written by an `init` instead.
    pub late: bool,
}

/// What an `init` declares.
#[derive(Debug)]
pub struct InitArgs {
    /// Late resources that this `init` initializes; empty means "all that is left".
    pub late: Vec<usize>,
    /// Resources that this `init` accesses.
    pub resources: Vec<usize>,
    /// Tasks that this `init` may spawn.
    pub spawn: Vec<usize>,
}

/// The initialization routine of one core.
#[derive(Debug)]
pub struct Init {
    pub args: InitArgs,
    /// Whether the routine returns a record of late-resource initializers.
    pub returns_late_resources: bool,
}

/// What an `idle` declares.
#[derive(Debug)]
pub struct IdleArgs {
    pub resources: Vec<usize>,
    pub spawn: Vec<usize>,
}

/// The idle loop of one core; it runs at priority 0.
#[derive(Debug)]
pub struct Idle {
    pub args: IdleArgs,
}

/// The two roots of one core.
#[derive(Debug)]
pub struct Main {
    pub init: Option<Init>,
    pub idle: Option<Idle>,
}

/// What an interrupt task declares.
#[derive(Debug)]
pub struct InterruptArgs {
    pub core: u8,
    pub priority: u8,
    pub resources: Vec<usize>,
    pub spawn: Vec<usize>,
}

/// A task bound to a hardware interrupt.
#[derive(Debug)]
pub struct Interrupt {
    pub args: InterruptArgs,
    /// The software-generated interrupt that the handler's name claims, if any.
    pub sgi: Option<u8>,
}

/// What a software task declares.
#[derive(Debug)]
pub struct TaskArgs {
    pub capacity: u8,
    pub core: u8,
    pub priority: u8,
    pub resources: Vec<usize>,
    pub spawn: Vec<usize>,
}

/// A software task.
#[derive(Debug)]
pub struct Task {
    pub args: TaskArgs,
}

/// A whole application.
#[derive(Debug)]
pub struct App {
    pub cores: u8,
    pub mains: Vec<Main>,
    pub resources: Vec<Resource>,
    pub interrupts: Vec<Interrupt>,
    pub tasks: Vec<Task>,
}

/// One use of a name by a context: a resource that the context accesses, or a
/// task that it may spawn.
#[derive(Clone, Copy, Debug, PartialEq, Eq, Structural)]
pub struct Access {
    /// The core that the context runs on.
    pub core: u8,
    /// The priority of the context; `None` means `init`.
    pub priority: Option<u8>,
    /// The resource or task that is used.
    pub name: usize,
}

/// The uses that one list of names stands for.
pub open spec fn list_uses(core: u8, priority: Option<u8>, names: Seq<usize>) -> Seq<Access> {
    Seq::new(names.len(), |i: int| Access { core, priority, name: names[i] })
}

impl Main {
    /// The names that `init` lists: its spawn set or its resources.
    pub open spec fn init_names(&self, spawn: bool) -> Seq<usize> {
        match self.init {
            Some(init) => if spawn {
                init.args.spawn@
            } else {
                init.args.resources@
            },
            None => Seq::empty(),
        }
    }

    /// The names that `idle` lists: its spawn set or its resources.
    pub open spec fn idle_names(&self, spawn: bool) -> Seq<usize> {
        match self.idle {
            Some(idle) => if spawn {
                idle.args.spawn@
            } else {
                idle.args.resources@
            },
            None => Seq::empty(),
        }
    }

    /// The uses of `init`, then those of `idle`, on the given core.
    pub open spec fn uses(&self, core: u8, spawn: bool) -> Seq<Access> {
        list_uses(core, None, self.init_names(spawn)) + list_uses(
            core,
            Some(0u8),
            self.idle_names(spawn),
        )
    }
}

impl Interrupt {
    pub open spec fn uses(&self, spawn: bool) -> Seq<Access> {
        list_uses(
            self.args.core,
            Some(self.args.priority),
            if spawn {
                self.args.spawn@
            } else {
                self.args.resources@
            },
        )
    }
}

impl Task {
    pub open spec fn uses(&self, spawn: bool) -> Seq<Access> {
        list_uses(
            self.args.core,
            Some(self.args.priority),
            if spawn {
                self.args.spawn@
            } else {
                self.args.resources@
            },
        )
    }
}

/// The uses of the first `n` cores, core by core.
pub open spec fn mains_uses(mains: Seq<Main>, n: int, spawn: bool) -> Seq<Access>
    decreases n,
{
    if n <= 0 {
        Seq::empty()
    } else {
        mains_uses(mains, n - 1, spawn) + mains[n - 1].uses((n - 1) as u8, spawn)
    }
}

/// The uses of the first `n` interrupt tasks.
pub open spec fn interrupts_uses(interrupts: Seq<Interrupt>, n: int, spawn: bool) -> Seq<Access>
    decreases n,
{
    if n <= 0 {
        Seq::empty()
    } else {
        interrupts_uses(interrupts, n - 1, spawn) + interrupts[n - 1].uses(spawn)
    }
}

/// The uses of the first `n` software tasks.
pub open spec fn tasks_uses(tasks: Seq<Task>, n: int, spawn: bool) -> Seq<Access>
    decreases n,
{
    if n <= 0 {
        Seq::empty()
    } else {
        tasks_uses(tasks, n - 1, spawn) + tasks[n - 1].uses(spawn)
    }
}

/// Appends the uses that `names` stands for.
fn push_uses(out: &mut Vec<Access>, core: u8, priority: Option<u8>, names: &Vec<usize>)
    ensures
        final(out)@ == old(out)@ + list_uses(core, priority, names@),
{
    let ghost before = out@;
    let mut i: usize = 0;
    while i < names.len()
        invariant
            i <= names.len(),
            out@ == before + list_uses(core, priority, names@).take(i as int),
        decreases names.len() - i,
    {
        out.push(Access { core, priority, name: names[i] });
        proof {
            let all = list_uses(core, priority, names@);
            assert(all.take(i as int + 1) == all.take(i as int).push(all[i as int]));
            assert(out@ == before + all.take(i as int + 1));
        }
        i = i + 1;
    }
    proof {
        let all = list_uses(core, priority, names@);
        assert(all.take(i as int) == all);
    }
}

impl App {
    /// What the parser guarantees of a description: between one and eight
    /// cores, one pair of roots per core, every task and interrupt task on an
    /// existing core with a priority of 1 to 31, every capacity at least 1,
    /// every claimed software-generated interrupt below 16.
    pub open spec fn wf(&self) -> bool {
        &&& 1 <= self.cores <= MAX_CORES
        &&& self.mains@.len() == self.cores
        &&& forall|i: int|
            0 <= i < self.tasks@.len() ==> {
                &&& (#[trigger] self.tasks@[i]).args.core < self.cores
                &&& MIN_PRIORITY <= self.tasks@[i].args.priority <= MAX_PRIORITY
                &&& self.tasks@[i].args.capacity >= 1
            }
        &&& forall|i: int|
            0 <= i < self.interrupts@.len() ==> {
                &&& (#[trigger] self.interrupts@[i]).args.core < self.cores
                &&& MIN_PRIORITY <= self.interrupts@[i].args.priority <= MAX_PRIORITY
                &&& (self.interrupts@[i].sgi matches Some(n) ==> n < NSGIS)
            }
    }

    /// Decides whether the description is well formed.
    pub fn well_formed(&self) -> (b: bool)
        ensures
            b == self.wf(),
    {
        if self.cores < 1 || self.cores > MAX_CORES || self.mains.len() != self.cores as usize {
            return false;
        }
        let mut t: usize = 0;
        while t < self.tasks.len()
            invariant
                t <= self.tasks@.len(),
                forall|i: int|
                    0 <= i < t ==> {
                        &&& (#[trigger] self.tasks@[i]).args.core < self.cores
                        &&& MIN_PRIORITY <= self.tasks@[i].args.priority <= MAX_PRIORITY
                        &&& self.tasks@[i].args.capacity >= 1
                    },
            decreases self.tasks@.len() - t,
        {
            let args = &self.tasks[t].args;
            if args.core >= self.cores || args.priority < MIN_PRIORITY || args.priority
                > MAX_PRIORITY || args.capacity < 1 {
                return false;
            }
            t = t + 1;
        }
        let mut k: usize = 0;
        while k < self.interrupts.len()
            invariant
                k <= self.interrupts@.len(),
                forall|i: int|
                    0 <= i < k ==> {
                        &&& (#[trigger] self.interrupts@[i]).args.core < self.cores
                        &&& MIN_PRIORITY <= self.interrupts@[i].args.priority <= MAX_PRIORITY
                        &&& (self.interrupts@[i].sgi matches Some(n) ==> n < NSGIS)
                    },
            decreases self.interrupts@.len() - k,
        {
            let interrupt = &self.interrupts[k];
            if interrupt.args.core >= self.cores || interrupt.args.priority < MIN_PRIORITY
                || interrupt.args.priority > MAX_PRIORITY {
                return false;
            }
            match interrupt.sgi {
                Some(n) => {
                    if n >= NSGIS {
                        return false;
                    }
                },
                None => {},
            }
            k = k + 1;
        }
        true
    }

    /// Every use of a name in the description: the roots core by core (`init`
    /// before `idle`), then the interrupt tasks, then the software tasks.
    /// With `spawn` the names are the tasks that a context may spawn, without
    /// it the resources that it accesses.
    pub open spec fn uses(&self, spawn: bool) -> Seq<Access> {
        mains_uses(self.mains@, self.mains@.len() as int, spawn) + interrupts_uses(
            self.interrupts@,
            self.interrupts@.len() as int,
            spawn,
        ) + tasks_uses(self.tasks@, self.tasks@.len() as int, spawn)
    }

    /// Every resource access, with the core and the priority it is made at.
    pub open spec fn accesses(&self) -> Seq<Access> {
        self.uses(false)
    }

    /// Every permitted spawn, with the core and the priority of the spawner.
    pub open spec fn spawns(&self) -> Seq<Access> {
        self.uses(true)
    }

    fn collect_uses(&self, spawn: bool) -> (out: Vec<Access>)
        requires
            self.mains@.len() <= 256,
        ensures
            out@ == self.uses(spawn),
    {
        let mut out: Vec<Access> = Vec::new();
        let mut m: usize = 0;
        while m < self.mains.len()
            invariant
                m <= self.mains@.len() <= 256,
                out@ == mains_uses(self.mains@, m as int, spawn),
            decreases self.mains@.len() - m,
        {
            let core: u8 = m as u8;
            let main = &self.mains[m];
            match &main.init {
                Some(init) => {
                    push_uses(
                        &mut out,
                        core,
                        None,
                        if spawn {
                            &init.args.spawn
                        } else {
                            &init.args.resources
                        },
                    );
                },
                None => {
                    assert(out@ + list_uses(core, None, main.init_names(spawn)) == out@);
                },
            }
            match &main.idle {
                Some(idle) => {
                    push_uses(
                        &mut out,
                        core,
                        Some(0u8),
                        if spawn {
                            &idle.args.spawn
                        } else {
                            &idle.args.resources
                        },
                    );
                },
                None => {
                    assert(out@ + list_uses(core, Some(0u8), main.idle_names(spawn)) == out@);
                },
            }
            proof {
                let prev = mains_uses(self.mains@, m as int, spawn);
                let a = list_uses(core, None, main.init_names(spawn));
                let b = list_uses(core, Some(0u8), main.idle_names(spawn));
                assert((prev + a) + b == prev + (a + b));
            }
            m = m + 1;
        }
        let ghost from_mains = out@;
        let mut k: usize = 0;
        while k < self.interrupts.len()
            invariant
                k <= self.interrupts@.len(),
                out@ == from_mains + interrupts_uses(self.interrupts@, k as int, spawn),
            decreases self.interrupts@.len() - k,
        {
            let interrupt = &self.interrupts[k];
            let ghost prev = interrupts_uses(self.interrupts@, k as int, spawn);
            push_uses(
                &mut out,
                interrupt.args.core,
                Some(interrupt.args.priority),
                if spawn {
                    &interrupt.args.spawn
                } else {
                    &interrupt.args.resources
                },
            );
            proof {
                assert((from_mains + prev) + interrupt.uses(spawn) == from_mains + (prev
                    + interrupt.uses(spawn)));
            }
            k = k + 1;
        }
        let ghost from_handlers = out@;
        let mut t: usize = 0;
        while t < self.tasks.len()
            invariant
                t <= self.tasks@.len(),
                out@ == from_handlers + tasks_uses(self.tasks@, t as int, spawn),
            decreases self.tasks@.len() - t,
        {
            let task = &self.tasks[t];
            let ghost prev = tasks_uses(self.tasks@, t as int, spawn);
            push_uses(
                &mut out,
                task.args.core,
                Some(task.args.priority),
                if spawn {
                    &task.args.spawn
                } else {
                    &task.args.resources
                },
            );
            proof {
                assert((from_handlers + prev) + task.uses(spawn) == from_handlers + (prev
                    + task.uses(spawn)));
            }
            t = t + 1;
        }
        out
    }

    /// Lists all resource accesses. A resource may appear more than once.
    pub fn resource_accesses(&self) -> (out: Vec<Access>)
        requires
            self.mains@.len() <= 256,
        ensures
            out@ == self.accesses(),
    {
        self.collect_uses(false)
    }

    /// Lists all permitted spawns. A task may appear more than once.
    pub fn spawn_calls(&self) -> (out: Vec<Access>)
        requires
            self.mains@.len() <= 256,
        ensures
            out@ == self.spawns(),
    {
        self.collect_uses(true)
    }
}

} // verus!
