//! Building an application from its items.

use crate::args::AppArgs;
use crate::syntax::{App, Idle, Init, Interrupt, Main, Resource, Task};
use vstd::prelude::*;

verus! {

/// One item of an application. Interrupt tasks, tasks and resources are
/// numbered by their names: the first name of a kind is 0, every new name
/// is the next number, and a name that comes again keeps its number.
#[derive(Debug)]
pub enum Item {
    Init { core: u8, init: Init },
    Idle { core: u8, idle: Idle },
    Interrupt { name: usize, interrupt: Interrupt },
    Task { name: usize, task: Task },
    Resource { name: usize, resource: Resource },
    /// Anything else.
    Other,
}

/// Why a list of items makes no application.
#[derive(Clone, Copy, Debug, PartialEq, Eq, Structural)]
pub enum ItemError {
    /// A second `init` for this core.
    InitTwice { core: u8 },
    /// A second `idle` for this core.
    IdleTwice { core: u8 },
    /// An interrupt task of that name is defined already.
    InterruptTwice { name: usize },
    /// A task of that name is defined already.
    TaskTwice { name: usize },
    /// A resource of that name is declared already.
    ResourceTwice { name: usize },
    /// The item does not belong into an application.
    Misplaced,
    /// The item names a core that the application does not have.
    NoSuchCore { core: u8 },
    /// The name skips a number.
    Misnumbered { name: usize },
}

/// The `init` of `core` among the first `n` items.
pub open spec fn init_of(items: Seq<Item>, n: int, core: u8) -> Option<Init>
    decreases n,
{
    if n <= 0 {
        None
    } else {
        match items[n - 1] {
            Item::Init { core: c, init } if c == core => Some(init),
            _ => init_of(items, n - 1, core),
        }
    }
}

/// The `idle` of `core` among the first `n` items.
pub open spec fn idle_of(items: Seq<Item>, n: int, core: u8) -> Option<Idle>
    decreases n,
{
    if n <= 0 {
        None
    } else {
        match items[n - 1] {
            Item::Idle { core: c, idle } if c == core => Some(idle),
            _ => idle_of(items, n - 1, core),
        }
    }
}

/// The interrupt tasks among the first `n` items, in their order.
pub open spec fn interrupts_of(items: Seq<Item>, n: int) -> Seq<Interrupt>
    decreases n,
{
    if n <= 0 {
        Seq::empty()
    } else {
        match items[n - 1] {
            Item::Interrupt { name, interrupt } => interrupts_of(items, n - 1).push(interrupt),
            _ => interrupts_of(items, n - 1),
        }
    }
}

/// The tasks among the first `n` items, in their order.
pub open spec fn tasks_of(items: Seq<Item>, n: int) -> Seq<Task>
    decreases n,
{
    if n <= 0 {
        Seq::empty()
    } else {
        match items[n - 1] {
            Item::Task { name, task } => tasks_of(items, n - 1).push(task),
            _ => tasks_of(items, n - 1),
        }
    }
}

/// The resources among the first `n` items, in their order.
pub open spec fn resources_of(items: Seq<Item>, n: int) -> Seq<Resource>
    decreases n,
{
    if n <= 0 {
        Seq::empty()
    } else {
        match items[n - 1] {
            Item::Resource { name, resource } => resources_of(items, n - 1).push(resource),
            _ => resources_of(items, n - 1),
        }
    }
}

/// What is wrong with a name that should be the next number after `count`.
pub open spec fn numbering(name: usize, count: nat) -> Option<bool> {
    if name == count {
        None
    } else {
        Some(name < count)
    }
}

/// What is wrong with item `k`, given the items before it.
pub open spec fn item_error(items: Seq<Item>, k: int, cores: u8) -> Option<ItemError> {
    match items[k] {
        Item::Init { core, init } => if core >= cores {
            Some(ItemError::NoSuchCore { core })
        } else if init_of(items, k, core) is Some {
            Some(ItemError::InitTwice { core })
        } else {
            None
        },
        Item::Idle { core, idle } => if core >= cores {
            Some(ItemError::NoSuchCore { core })
        } else if idle_of(items, k, core) is Some {
            Some(ItemError::IdleTwice { core })
        } else {
            None
        },
        Item::Interrupt { name, interrupt } => match numbering(
            name,
            interrupts_of(items, k).len(),
        ) {
            None => None,
            Some(true) => Some(ItemError::InterruptTwice { name }),
            Some(false) => Some(ItemError::Misnumbered { name }),
        },
        Item::Task { name, task } => match numbering(name, tasks_of(items, k).len()) {
            None => None,
            Some(true) => Some(ItemError::TaskTwice { name }),
            Some(false) => Some(ItemError::Misnumbered { name }),
        },
        Item::Resource { name, resource } => match numbering(name, resources_of(items, k).len()) {
            None => None,
            Some(true) => Some(ItemError::ResourceTwice { name }),
            Some(false) => Some(ItemError::Misnumbered { name }),
        },
        Item::Other => Some(ItemError::Misplaced),
    }
}

/// Whether `app` is what the items make on `cores` cores.
pub open spec fn made_of(app: App, items: Seq<Item>, cores: u8) -> bool {
    &&& app.cores == cores
    &&& app.mains@.len() == cores
    &&& forall|c: int|
        0 <= c < cores ==> (#[trigger] app.mains@[c]).init == init_of(
            items,
            items.len() as int,
            c as u8,
        ) && app.mains@[c].idle == idle_of(items, items.len() as int, c as u8)
    &&& app.interrupts@ == interrupts_of(items, items.len() as int)
    &&& app.tasks@ == tasks_of(items, items.len() as int)
    &&& app.resources@ == resources_of(items, items.len() as int)
}

impl App {
    /// Builds the application from its items. The first item that is wrong
    /// decides the error: a second `init` or `idle` for a core, a name that
    /// is defined twice, or an item of another kind.
    pub fn parse(items: Vec<Item>, args: AppArgs) -> (r: Result<App, ItemError>)
        ensures
            r matches Ok(app) ==> made_of(app, items@, args.cores) && forall|k: int|
                0 <= k < items@.len() ==> item_error(items@, k, args.cores) is None,
            r matches Err(e) ==> exists|k: int|
                0 <= k < items@.len() && item_error(items@, k, args.cores) == Some(e) && forall|
                    j: int,
                |
                    0 <= j < k ==> item_error(items@, j, args.cores) is None,
    {
        let cores = args.cores;
        let total: usize = items.len();
        let ghost all = items@;
        let mut mains: Vec<Main> = Vec::new();
        let mut c: u8 = 0;
        while c < cores
            invariant
                c <= cores,
                mains@.len() == c,
                forall|k: int|
                    0 <= k < c ==> (#[trigger] mains@[k]).init is None && mains@[k].idle is None,
            decreases cores - c,
        {
            mains.push(Main { init: None, idle: None });
            c = c + 1;
        }
        let mut interrupts: Vec<Interrupt> = Vec::new();
        let mut tasks: Vec<Task> = Vec::new();
        let mut resources: Vec<Resource> = Vec::new();
        let mut rest = items;
        let mut i: usize = 0;
        while rest.len() > 0
            invariant
                i <= all.len(),
                all == items@,
                all.len() == total,
                cores == args.cores,
                rest@ == all.skip(i as int),
                mains@.len() == cores,
                forall|k: int|
                    0 <= k < cores ==> (#[trigger] mains@[k]).init == init_of(all, i as int, k as u8)
                        && mains@[k].idle == idle_of(all, i as int, k as u8),
                interrupts@ == interrupts_of(all, i as int),
                tasks@ == tasks_of(all, i as int),
                resources@ == resources_of(all, i as int),
                forall|j: int| 0 <= j < i ==> item_error(all, j, cores) is None,
            decreases rest@.len(),
        {
            let item = rest.remove(0);
            assert(item == all[i as int]);
            assert(rest@ == all.skip(i as int + 1));
            match item {
                Item::Init { core, init } => {
                    if core >= cores {
                        assert(item_error(all, i as int, cores) == Some(ItemError::NoSuchCore { core }));
                        return Err(ItemError::NoSuchCore { core });
                    }
                    let at: usize = core as usize;
                    let mut main = mains.remove(at);
                    if main.init.is_some() {
                        assert(item_error(all, i as int, cores) == Some(ItemError::InitTwice { core }));
                        return Err(ItemError::InitTwice { core });
                    }
                    main.init = Some(init);
                    mains.insert(at, main);
                },
                Item::Idle { core, idle } => {
                    if core >= cores {
                        assert(item_error(all, i as int, cores) == Some(ItemError::NoSuchCore { core }));
                        return Err(ItemError::NoSuchCore { core });
                    }
                    let at: usize = core as usize;
                    let mut main = mains.remove(at);
                    if main.idle.is_some() {
                        assert(item_error(all, i as int, cores) == Some(ItemError::IdleTwice { core }));
                        return Err(ItemError::IdleTwice { core });
                    }
                    main.idle = Some(idle);
                    mains.insert(at, main);
                },
                Item::Interrupt { name, interrupt } => {
                    if name < interrupts.len() {
                        assert(item_error(all, i as int, cores) == Some(ItemError::InterruptTwice { name }));
                        return Err(ItemError::InterruptTwice { name });
                    }
                    if name > interrupts.len() {
                        assert(item_error(all, i as int, cores) == Some(ItemError::Misnumbered { name }));
                        return Err(ItemError::Misnumbered { name });
                    }
                    interrupts.push(interrupt);
                },
                Item::Task { name, task } => {
                    if name < tasks.len() {
                        assert(item_error(all, i as int, cores) == Some(ItemError::TaskTwice { name }));
                        return Err(ItemError::TaskTwice { name });
                    }
                    if name > tasks.len() {
                        assert(item_error(all, i as int, cores) == Some(ItemError::Misnumbered { name }));
                        return Err(ItemError::Misnumbered { name });
                    }
                    tasks.push(task);
                },
                Item::Resource { name, resource } => {
                    if name < resources.len() {
                        assert(item_error(all, i as int, cores) == Some(ItemError::ResourceTwice { name }));
                        return Err(ItemError::ResourceTwice { name });
                    }
                    if name > resources.len() {
                        assert(item_error(all, i as int, cores) == Some(ItemError::Misnumbered { name }));
                        return Err(ItemError::Misnumbered { name });
                    }
                    resources.push(resource);
                },
                Item::Other => {
                    assert(item_error(all, i as int, cores) == Some(ItemError::Misplaced));
                    return Err(ItemError::Misplaced);
                },
            }
            i = i + 1;
        }
        assert(i == all.len());
        Ok(App { cores, mains, resources, interrupts, tasks })
    }
}

} // verus!
