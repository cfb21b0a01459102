use zup_rtfm::analyze::{self, assign_sgis, Location, Ownership, Sgis};
use zup_rtfm::boot::{advance, Stage};
use zup_rtfm::check::{self, CheckError};
use zup_rtfm::syntax::{
    Access, App, Idle, IdleArgs, Init, InitArgs, Interrupt, InterruptArgs, Main, Resource, Task,
    TaskArgs,
};

fn resource(mutable: bool, late: bool) -> Resource {
    Resource { core: None, mutable, late }
}

fn task(core: u8, priority: u8, capacity: u8, resources: Vec<usize>, spawn: Vec<usize>) -> Task {
    Task { args: TaskArgs { capacity, core, priority, resources, spawn } }
}

fn interrupt(core: u8, priority: u8, sgi: Option<u8>, resources: Vec<usize>) -> Interrupt {
    Interrupt { args: InterruptArgs { core, priority, resources, spawn: vec![] }, sgi }
}

fn init(late: Vec<usize>, resources: Vec<usize>, spawn: Vec<usize>, returns: bool) -> Option<Init> {
    Some(Init { args: InitArgs { late, resources, spawn }, returns_late_resources: returns })
}

fn idle(resources: Vec<usize>, spawn: Vec<usize>) -> Option<Idle> {
    Some(Idle { args: IdleArgs { resources, spawn } })
}

fn single(tasks: Vec<Task>, resources: Vec<Resource>) -> App {
    App {
        cores: 1,
        mains: vec![Main { init: init(vec![], vec![], vec![], false), idle: None }],
        resources,
        interrupts: vec![],
        tasks,
    }
}

/// Two tasks at priorities 1 and 2 share one mutable resource.
fn lock_app() -> App {
    single(
        vec![task(0, 1, 1, vec![0], vec![]), task(0, 2, 1, vec![0], vec![]), task(0, 3, 1, vec![], vec![])],
        vec![resource(true, false)],
    )
}

/// `ping` on core 0 and `pong` on core 1 spawn each other; `init` of core 1 starts.
fn ping_pong() -> App {
    App {
        cores: 2,
        mains: vec![
            Main { init: init(vec![], vec![], vec![], false), idle: None },
            Main { init: init(vec![], vec![], vec![1], false), idle: None },
        ],
        resources: vec![],
        interrupts: vec![],
        tasks: vec![task(0, 1, 1, vec![], vec![1]), task(1, 1, 1, vec![], vec![0])],
    }
}

/// Core 1 initializes the late resource 0, which `idle` of core 0 reads.
fn cross_init() -> App {
    App {
        cores: 2,
        mains: vec![
            Main { init: init(vec![], vec![], vec![], false), idle: idle(vec![0], vec![]) },
            Main { init: init(vec![], vec![], vec![], true), idle: None },
        ],
        resources: vec![resource(false, true)],
        interrupts: vec![],
        tasks: vec![],
    }
}

#[test]
fn accesses_are_listed_in_order() {
    let app = App {
        cores: 2,
        mains: vec![
            Main { init: init(vec![], vec![3], vec![0], false), idle: idle(vec![4], vec![]) },
            Main { init: None, idle: idle(vec![5], vec![1]) },
        ],
        resources: vec![],
        interrupts: vec![interrupt(1, 7, None, vec![6])],
        tasks: vec![task(0, 2, 1, vec![8, 9], vec![0])],
    };
    assert_eq!(
        app.resource_accesses(),
        vec![
            Access { core: 0, priority: None, name: 3 },
            Access { core: 0, priority: Some(0), name: 4 },
            Access { core: 1, priority: Some(0), name: 5 },
            Access { core: 1, priority: Some(7), name: 6 },
            Access { core: 0, priority: Some(2), name: 8 },
            Access { core: 0, priority: Some(2), name: 9 },
        ]
    );
    assert_eq!(
        app.spawn_calls(),
        vec![
            Access { core: 0, priority: None, name: 0 },
            Access { core: 1, priority: Some(0), name: 1 },
            Access { core: 0, priority: Some(2), name: 0 },
        ]
    );
}

#[test]
fn well_formedness_is_decided() {
    assert!(lock_app().well_formed());
    assert!(ping_pong().well_formed());
    let mut app = lock_app();
    app.tasks[0].args.priority = 0;
    assert!(!app.well_formed());
    let mut app = lock_app();
    app.tasks[0].args.priority = 32;
    assert!(!app.well_formed());
    let mut app = lock_app();
    app.tasks[0].args.core = 1;
    assert!(!app.well_formed());
    let mut app = lock_app();
    app.tasks[0].args.capacity = 0;
    assert!(!app.well_formed());
    let mut app = lock_app();
    app.cores = 9;
    assert!(!app.well_formed());
    let mut app = lock_app();
    app.interrupts.push(interrupt(0, 1, Some(16), vec![]));
    assert!(!app.well_formed());
}

#[test]
fn checker_accepts_sound_applications() {
    assert_eq!(check::app(&lock_app()), Ok(()));
    assert_eq!(check::app(&ping_pong()), Ok(()));
    assert_eq!(check::app(&cross_init()), Ok(()));
}

#[test]
fn checker_reports_unknown_resource() {
    let app = single(vec![task(0, 1, 1, vec![1], vec![])], vec![resource(false, false)]);
    assert_eq!(check::app(&app), Err(CheckError::UnknownResource { name: 1 }));
}

#[test]
fn checker_reports_foreign_resource() {
    let mut app = ping_pong();
    app.resources.push(Resource { core: Some(0), mutable: false, late: false });
    app.tasks[1].args.resources.push(0);
    assert_eq!(check::app(&app), Err(CheckError::ForeignResource { name: 0 }));
    app.resources[0].core = Some(1);
    assert_eq!(check::app(&app), Ok(()));
}

#[test]
fn checker_reports_cross_core_mutation() {
    let mut app = ping_pong();
    app.resources.push(resource(true, false));
    app.tasks[0].args.resources.push(0);
    app.tasks[1].args.resources.push(0);
    assert_eq!(check::app(&app), Err(CheckError::SharedMutable { name: 0 }));
    app.resources[0].mutable = false;
    assert_eq!(check::app(&app), Ok(()));
}

#[test]
fn checker_reports_late_resource_in_init() {
    let mut app = single(vec![], vec![resource(false, true)]);
    app.mains[0].init = init(vec![], vec![0], vec![], true);
    assert_eq!(check::app(&app), Err(CheckError::LateInInit { name: 0 }));
}

#[test]
fn checker_reports_unclear_late_partition() {
    // nobody initializes the late resource
    let mut app = cross_init();
    app.mains[1].init = init(vec![], vec![], vec![], false);
    assert_eq!(check::app(&app), Err(CheckError::LatePartition));
    // two cores take "the rest"
    let mut app = cross_init();
    app.mains[0].init = init(vec![], vec![], vec![], true);
    assert_eq!(check::app(&app), Err(CheckError::LatePartition));
    // two cores list the same resource
    let mut app = cross_init();
    app.mains[0].init = init(vec![0], vec![], vec![], true);
    app.mains[1].init = init(vec![0], vec![], vec![], true);
    assert_eq!(check::app(&app), Err(CheckError::LatePartition));
    // a resource that is not late is listed
    let mut app = cross_init();
    app.resources.push(resource(false, false));
    app.mains[1].init = init(vec![0, 1], vec![], vec![], true);
    assert_eq!(check::app(&app), Err(CheckError::LatePartition));
    // an explicit split is fine
    let mut app = cross_init();
    app.resources.push(resource(false, true));
    app.mains[0].init = init(vec![1], vec![], vec![], true);
    app.mains[1].init = init(vec![0], vec![], vec![], true);
    assert_eq!(check::app(&app), Ok(()));
    // a single core initializes everything
    let app = single(vec![], vec![resource(false, true)]);
    assert_eq!(check::app(&app), Ok(()));
}

#[test]
fn checker_reports_unknown_task() {
    let app = single(vec![task(0, 1, 1, vec![], vec![3])], vec![]);
    assert_eq!(check::app(&app), Err(CheckError::UnknownTask { name: 3 }));
}

#[test]
fn checker_counts_priorities_against_free_sgis() {
    let mut tasks = vec![];
    for p in 1..=16u8 {
        tasks.push(task(0, p, 1, vec![], vec![]));
    }
    // the same priority twice counts once
    tasks.push(task(0, 16, 1, vec![], vec![]));
    let mut app = single(tasks, vec![]);
    assert_eq!(check::app(&app), Ok(()));
    app.interrupts.push(interrupt(0, 1, Some(3), vec![]));
    assert_eq!(check::app(&app), Err(CheckError::TooManyPriorities { core: 0 }));
    app.tasks.pop();
    app.tasks.pop();
    assert_eq!(check::app(&app), Ok(()));
    app.tasks.push(task(0, 17, 1, vec![], vec![]));
    assert_eq!(check::app(&app), Err(CheckError::TooManyPriorities { core: 0 }));
    // an interrupt that claims no SGI does not count
    app.interrupts[0].sgi = None;
    assert_eq!(check::app(&app), Ok(()));
}

#[test]
fn ownership_follows_the_lattice() {
    let app = single(
        vec![
            task(0, 1, 1, vec![0, 1, 2], vec![]),
            task(0, 1, 1, vec![1], vec![]),
            task(0, 3, 1, vec![2], vec![]),
            task(0, 2, 1, vec![2], vec![]),
        ],
        vec![resource(true, false), resource(true, false), resource(false, false), resource(true, false)],
    );
    assert_eq!(check::app(&app), Ok(()));
    let analysis = analyze::app(&app);
    assert_eq!(analysis.ownerships[0], Some(Ownership::Owned { priority: 1 }));
    assert_eq!(analysis.ownerships[1], Some(Ownership::CoOwned { priority: 1 }));
    assert_eq!(analysis.ownerships[2], Some(Ownership::Shared { ceiling: 3 }));
    assert_eq!(analysis.ownerships[3], None);
    assert!(analysis.ownerships[0].unwrap().is_owned());
    assert!(!analysis.ownerships[1].unwrap().is_owned());
    assert!(!analysis.resource_needs_sync(&app, 0));
    assert!(analysis.resource_needs_sync(&app, 2));
}

#[test]
fn lock_is_needed_strictly_below_the_ceiling() {
    let app = lock_app();
    let analysis = analyze::app(&app);
    let owner = analysis.ownerships[0].unwrap();
    assert_eq!(owner, Ownership::Shared { ceiling: 2 });
    assert!(owner.needs_lock(1));
    assert!(!owner.needs_lock(2));
    assert!(!Ownership::Owned { priority: 3 }.needs_lock(1));
    assert!(!Ownership::CoOwned { priority: 3 }.needs_lock(1));
    // a mutable resource shared between priorities needs no Sync
    assert!(!analysis.resource_needs_sync(&app, 0));
}

#[test]
fn sgis_go_to_priorities_in_rising_order() {
    let mut app = single(
        vec![task(0, 5, 1, vec![], vec![]), task(0, 2, 1, vec![], vec![]), task(0, 9, 1, vec![], vec![])],
        vec![],
    );
    app.interrupts.push(interrupt(0, 1, Some(0), vec![]));
    app.interrupts.push(interrupt(0, 1, Some(2), vec![]));
    assert_eq!(check::app(&app), Ok(()));
    let analysis = analyze::app(&app);
    assert_eq!(analysis.sgis.len(), 1);
    assert_eq!(analysis.sgis[0][2], Some(1));
    assert_eq!(analysis.sgis[0][5], Some(3));
    assert_eq!(analysis.sgis[0][9], Some(4));
    assert_eq!(analysis.sgis[0][1], None);
    assert_eq!(analysis.sgis[0].iter().filter(|s| s.is_some()).count(), 3);
}

#[test]
fn cross_core_spawns_are_analyzed() {
    let app = ping_pong();
    assert_eq!(check::app(&app), Ok(()));
    let analysis = analyze::app(&app);
    // each core waits for the other before it dispatches
    assert!(analysis.pre_rendezvous(&app, 0, 1));
    assert!(analysis.pre_rendezvous(&app, 1, 0));
    assert!(!analysis.pre_rendezvous(&app, 0, 0));
    // ping is spawned from core 1 only, by a task of priority 1
    assert_eq!(analysis.free_queue(&app, 0, 1), Some(Some(1)));
    assert_eq!(analysis.free_queue(&app, 0, 0), None);
    // pong is spawned by init of core 1 and by ping on core 0
    assert_eq!(analysis.free_queue(&app, 1, 1), Some(None));
    assert_eq!(analysis.free_queue(&app, 1, 0), Some(Some(1)));
    assert!(analysis.task_needs_send(&app, 0));
    assert!(analysis.task_needs_send(&app, 1));
    assert!(!analysis.task_needs_local_send(&app, 0));
    assert!(analysis.task_needs_local_send(&app, 1));
    let route = analysis.route(&app, 0, 1, 1);
    assert_eq!(route.tasks, vec![true, false]);
    assert_eq!(route.ceiling, Some(1));
    assert_eq!(route.capacity(&app), Some(1));
    let route = analysis.route(&app, 1, 1, 1);
    assert_eq!(route.tasks, vec![false, true]);
    assert_eq!(route.ceiling, None);
    let route = analysis.route(&app, 1, 2, 0);
    assert_eq!(route.tasks, vec![false, false]);
    assert_eq!(route.capacity(&app), Some(0));
}

#[test]
fn ceilings_are_the_highest_spawner() {
    let app = single(
        vec![
            task(0, 1, 200, vec![], vec![]),
            task(0, 4, 1, vec![], vec![0, 3]),
            task(0, 7, 1, vec![], vec![0]),
            task(0, 1, 100, vec![], vec![]),
        ],
        vec![],
    );
    assert_eq!(check::app(&app), Ok(()));
    let analysis = analyze::app(&app);
    assert_eq!(analysis.free_queue(&app, 0, 0), Some(Some(7)));
    assert_eq!(analysis.free_queue(&app, 3, 0), Some(Some(4)));
    let route = analysis.route(&app, 0, 1, 0);
    assert_eq!(route.tasks, vec![true, false, false, true]);
    assert_eq!(route.ceiling, Some(7));
    // 200 + 100 slots do not fit a queue
    assert_eq!(route.capacity(&app), None);
    assert!(analysis.task_needs_local_send(&app, 0));
    assert!(!analysis.task_needs_send(&app, 0));
}

#[test]
fn late_resource_initialized_on_another_core() {
    let app = cross_init();
    assert_eq!(check::app(&app), Ok(()));
    let analysis = analyze::app(&app);
    assert!(app.initialized_by(1, 0));
    assert!(!app.initialized_by(0, 0));
    assert_eq!(analysis.location(&app, 0), Some(Location::Shared));
    assert!(analysis.post_rendezvous(&app, 0, 1));
    assert!(!analysis.post_rendezvous(&app, 1, 0));
    assert!(analysis.resource_needs_send(&app, 0));
    assert!(!analysis.resource_needs_local_send(&app, 0));
    assert_eq!(analysis.ownerships[0], Some(Ownership::Owned { priority: 0 }));
}

#[test]
fn locations_follow_the_cores_that_touch() {
    let mut app = ping_pong();
    app.resources = vec![resource(false, false), resource(true, false), resource(false, false), resource(false, true)];
    app.tasks[0].args.resources = vec![0, 1];
    app.tasks[1].args.resources = vec![0];
    app.mains[1].init = init(vec![], vec![], vec![1], true);
    assert_eq!(check::app(&app), Ok(()));
    let analysis = analyze::app(&app);
    assert_eq!(analysis.location(&app, 0), Some(Location::Shared));
    assert_eq!(analysis.location(&app, 1), Some(Location::Core(0)));
    assert_eq!(analysis.location(&app, 2), None);
    // the late resource that nobody reads lives with its initializer
    assert_eq!(analysis.location(&app, 3), Some(Location::Core(1)));
    assert!(analysis.resource_needs_sync(&app, 0));
    assert!(!analysis.resource_needs_sync(&app, 1));
    assert!(analysis.resource_needs_local_send(&app, 3));
    assert!(!analysis.resource_needs_send(&app, 3));
}

#[test]
fn boot_waits_at_the_rendezvous() {
    let app = cross_init();
    let analysis = analyze::app(&app);
    let none = vec![false, false];
    let core1 = vec![false, true];
    assert_eq!(advance(&analysis, &app, 0, Stage::PowerOn, &none, &none), Stage::PreInit);
    assert_eq!(advance(&analysis, &app, 0, Stage::PreInit, &none, &none), Stage::Init);
    assert_eq!(advance(&analysis, &app, 0, Stage::Init, &none, &none), Stage::PreRendezvous);
    // nobody spawns on core 0
    assert_eq!(advance(&analysis, &app, 0, Stage::PreRendezvous, &none, &none), Stage::PostInit);
    // core 0 reads what core 1 initializes
    assert_eq!(advance(&analysis, &app, 0, Stage::PostInit, &none, &none), Stage::PostInit);
    assert_eq!(advance(&analysis, &app, 0, Stage::PostInit, &none, &core1), Stage::IrqEnabled);
    assert_eq!(advance(&analysis, &app, 1, Stage::PostInit, &none, &none), Stage::IrqEnabled);
    assert_eq!(advance(&analysis, &app, 0, Stage::IrqEnabled, &none, &none), Stage::Idle);
    assert_eq!(advance(&analysis, &app, 0, Stage::Idle, &none, &none), Stage::Idle);

    let app = ping_pong();
    let analysis = analyze::app(&app);
    assert_eq!(advance(&analysis, &app, 0, Stage::PreRendezvous, &none, &none), Stage::PreRendezvous);
    assert_eq!(advance(&analysis, &app, 0, Stage::PreRendezvous, &core1, &none), Stage::PostInit);
    assert_eq!(advance(&analysis, &app, 1, Stage::PreRendezvous, &core1, &none), Stage::PreRendezvous);
}

#[test]
fn sgis_skip_claimed_interrupts() {
    let mut claimed = vec![false; 16];
    claimed[0] = true;
    claimed[2] = true;
    let mut sgis = Sgis::new();
    assert_eq!(sgis.next, 0);
    sgis.insert(5, &claimed);
    assert_eq!(sgis.map[5], Some(1));
    assert_eq!(sgis.next, 2);
    // a level keeps its interrupt
    sgis.insert(5, &claimed);
    assert_eq!(sgis.map[5], Some(1));
    assert_eq!(sgis.next, 2);
    sgis.insert(2, &claimed);
    assert_eq!(sgis.map[2], Some(3));
    assert_eq!(sgis.next, 4);
    assert_eq!(sgis.map.len(), 256);

    let mut levels = vec![false; 256];
    levels[2] = true;
    levels[5] = true;
    let table = assign_sgis(&levels, &claimed);
    assert_eq!(table[2], Some(1));
    assert_eq!(table[5], Some(3));
    assert_eq!(table[3], None);
}
