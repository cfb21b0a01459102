use zup_rtfm::args::{
    check_capacity, check_core, check_cores, check_priority, parse_args, parse_idents,
    parse_init_idle_args, parse_interrupt_or_task_args, sgi_binding, AppArgs, Arg, Key, LitInt,
    ParseError, Rules, Value,
};
use zup_rtfm::cpsr::{Cpsr, Mode};
use zup_rtfm::items::{Item, ItemError};
use zup_rtfm::signature::{
    check_statics, extract_statics, Kind, Output, Signature, SignatureError, Statement, StaticError,
};
use zup_rtfm::analyze::Ownership;
use zup_rtfm::plan::{
    dispatcher_priority, handle, local_handle, queue_flavor, queue_size, spawn_target, Context,
    Flavor, Handle,
};
use zup_rtfm::gic::Target;
use zup_rtfm::syntax::{App, Idle, IdleArgs, Init, InitArgs, Resource, Task, TaskArgs};
use zup_rtfm::time::Instant;

fn number(value: u64) -> Value {
    Value::Int(LitInt { value, suffixed: false })
}

fn arg(key: Key, value: Value) -> Arg {
    Arg { key, value }
}

#[test]
fn literals_are_held_to_their_ranges() {
    let lit = |value| LitInt { value, suffixed: false };
    assert_eq!(check_cores(lit(1)), Err(ParseError::CoresOutOfRange));
    assert_eq!(check_cores(lit(2)), Ok(2));
    assert_eq!(check_cores(lit(8)), Ok(8));
    assert_eq!(check_cores(lit(9)), Err(ParseError::CoresOutOfRange));
    assert_eq!(check_cores(LitInt { value: 2, suffixed: true }), Err(ParseError::Suffixed));
    assert_eq!(check_core(lit(0), 2), Ok(0));
    assert_eq!(check_core(lit(1), 2), Ok(1));
    assert_eq!(check_core(lit(2), 2), Err(ParseError::CoreOutOfRange));
    assert_eq!(check_core(lit(1 << 40), 2), Err(ParseError::CoreOutOfRange));
    assert_eq!(check_capacity(lit(0)), Err(ParseError::CapacityOutOfRange));
    assert_eq!(check_capacity(lit(1)), Ok(1));
    assert_eq!(check_capacity(lit(255)), Ok(255));
    assert_eq!(check_capacity(lit(256)), Err(ParseError::CapacityOutOfRange));
    assert_eq!(check_priority(lit(0)), Err(ParseError::PriorityOutOfRange));
    assert_eq!(check_priority(lit(1)), Ok(1));
    assert_eq!(check_priority(lit(31)), Ok(31));
    assert_eq!(check_priority(lit(32)), Err(ParseError::PriorityOutOfRange));
    assert_eq!(check_priority(LitInt { value: 3, suffixed: true }), Err(ParseError::Suffixed));
}

#[test]
fn lists_hold_each_name_once() {
    assert!(parse_idents(&vec![]));
    assert!(parse_idents(&vec![4, 2, 9]));
    assert!(!parse_idents(&vec![4, 2, 4]));
    assert!(!parse_idents(&vec![1, 1]));
}

#[test]
fn application_arguments() {
    assert_eq!(AppArgs::parse(&vec![]), Ok(AppArgs { cores: 1 }));
    assert_eq!(AppArgs::parse(&vec![arg(Key::Cores, number(2))]), Ok(AppArgs { cores: 2 }));
    assert_eq!(
        AppArgs::parse(&vec![arg(Key::Cores, number(2)), arg(Key::Cores, number(2))]),
        Err(ParseError::Repeated)
    );
    assert_eq!(AppArgs::parse(&vec![arg(Key::Cores, number(1))]), Err(ParseError::CoresOutOfRange));
    assert_eq!(AppArgs::parse(&vec![arg(Key::Priority, number(1))]), Err(ParseError::Unexpected));
    assert_eq!(
        AppArgs::parse(&vec![arg(Key::Cores, Value::Name(1))]),
        Err(ParseError::Malformed)
    );
    // the first wrong argument decides
    assert_eq!(
        AppArgs::parse(&vec![arg(Key::Other, number(1)), arg(Key::Cores, number(99))]),
        Err(ParseError::Unexpected)
    );
}

#[test]
fn task_arguments() {
    let args = vec![
        arg(Key::Core, number(1)),
        arg(Key::Priority, number(3)),
        arg(Key::Capacity, number(4)),
        arg(Key::Resources, Value::List(vec![7, 8])),
        arg(Key::Spawn, Value::List(vec![2])),
        arg(Key::Priority, number(5)),
    ];
    let parsed = parse_interrupt_or_task_args(&args, 2, false, true).unwrap();
    assert_eq!(parsed.binds, None);
    assert_eq!(parsed.capacity, Some(4));
    assert_eq!(parsed.core, 1);
    assert_eq!(parsed.priority, 5);
    assert_eq!(parsed.resources, vec![7, 8]);
    assert_eq!(parsed.spawn, vec![2]);

    let parsed = parse_interrupt_or_task_args(&vec![], 1, false, true).unwrap();
    assert_eq!(parsed.capacity, None);
    assert_eq!(parsed.core, 0);
    assert_eq!(parsed.priority, 1);
    assert!(parsed.resources.is_empty());
    assert!(parsed.spawn.is_empty());

    let err = |args: Vec<Arg>, cores, binds, capacity| {
        parse_interrupt_or_task_args(&args, cores, binds, capacity).err()
    };
    assert_eq!(err(vec![], 2, false, true), Some(ParseError::MissingCore));
    assert_eq!(err(vec![arg(Key::Core, number(0))], 1, false, true), Some(ParseError::Unexpected));
    assert_eq!(err(vec![arg(Key::Core, number(2))], 2, false, true), Some(ParseError::CoreOutOfRange));
    assert_eq!(
        err(vec![arg(Key::Core, number(0)), arg(Key::Core, number(1))], 2, false, true),
        Some(ParseError::Repeated)
    );
    assert_eq!(err(vec![arg(Key::Capacity, number(2))], 1, true, false), Some(ParseError::Unexpected));
    assert_eq!(err(vec![arg(Key::Binds, Value::Name(2))], 1, false, true), Some(ParseError::Unexpected));
    assert_eq!(err(vec![arg(Key::Late, Value::List(vec![]))], 1, true, true), Some(ParseError::Unexpected));
    assert_eq!(err(vec![arg(Key::Capacity, number(0))], 1, false, true), Some(ParseError::CapacityOutOfRange));
    assert_eq!(err(vec![arg(Key::Priority, number(32))], 1, false, true), Some(ParseError::PriorityOutOfRange));
    assert_eq!(
        err(vec![arg(Key::Resources, Value::List(vec![1, 1]))], 1, false, true),
        Some(ParseError::DuplicateElement)
    );
    assert_eq!(
        err(
            vec![arg(Key::Spawn, Value::List(vec![1])), arg(Key::Spawn, Value::List(vec![2]))],
            1,
            false,
            true
        ),
        Some(ParseError::Repeated)
    );
    assert_eq!(err(vec![arg(Key::Priority, Value::List(vec![]))], 1, false, true), Some(ParseError::Malformed));

    let parsed = parse_interrupt_or_task_args(&vec![arg(Key::Binds, Value::Name(6))], 1, true, false).unwrap();
    assert_eq!(parsed.binds, Some(6));
}

#[test]
fn root_arguments() {
    let args = vec![
        arg(Key::Late, Value::List(vec![3])),
        arg(Key::Core, number(0)),
        arg(Key::Spawn, Value::List(vec![1, 2])),
    ];
    let parsed = parse_init_idle_args(&args, 2, true).unwrap();
    assert_eq!(parsed.core, 0);
    assert_eq!(parsed.late, vec![3]);
    assert!(parsed.resources.is_empty());
    assert_eq!(parsed.spawn, vec![1, 2]);
    assert_eq!(parse_init_idle_args(&args, 2, false).err(), Some(ParseError::Unexpected));
    assert_eq!(parse_init_idle_args(&vec![], 2, true).err(), Some(ParseError::MissingCore));
    assert_eq!(
        parse_init_idle_args(&vec![arg(Key::Priority, number(1))], 1, true).err(),
        Some(ParseError::Unexpected)
    );
    let rules = Rules { cores: 2, binds: false, capacity: false, late: true, priority: false };
    let state = parse_args(&args, &rules).unwrap();
    assert_eq!(state.late, Some(0));
    assert_eq!(state.core, Some(0));
    assert_eq!(state.spawn, Some(2));
    assert_eq!(state.resources, None);
}

#[test]
fn handler_names_claim_sgis() {
    assert_eq!(sgi_binding(&b"SG0".to_vec()), Some(0));
    assert_eq!(sgi_binding(&b"SG15".to_vec()), Some(15));
    assert_eq!(sgi_binding(&b"SG007".to_vec()), Some(7));
    assert_eq!(sgi_binding(&b"SG16".to_vec()), None);
    assert_eq!(sgi_binding(&b"SG99999999999999999999999".to_vec()), None);
    assert_eq!(sgi_binding(&b"SG".to_vec()), None);
    assert_eq!(sgi_binding(&b"SG1a".to_vec()), None);
    assert_eq!(sgi_binding(&b"sg1".to_vec()), None);
    assert_eq!(sgi_binding(&b"IPI_CH1".to_vec()), None);
}

fn a_task() -> Task {
    Task { args: TaskArgs { capacity: 1, core: 0, priority: 1, resources: vec![], spawn: vec![] } }
}

fn an_init() -> Init {
    Init { args: InitArgs { late: vec![], resources: vec![], spawn: vec![0] }, returns_late_resources: false }
}

#[test]
fn items_make_an_application() {
    let items = vec![
        Item::Task { name: 0, task: a_task() },
        Item::Init { core: 1, init: an_init() },
        Item::Resource { name: 0, resource: Resource { core: None, mutable: true, late: false } },
        Item::Idle { core: 0, idle: Idle { args: IdleArgs { resources: vec![0], spawn: vec![] } } },
        Item::Task { name: 1, task: a_task() },
    ];
    let app = App::parse(items, AppArgs { cores: 2 }).unwrap();
    assert_eq!(app.cores, 2);
    assert_eq!(app.mains.len(), 2);
    assert!(app.mains[0].init.is_none());
    assert!(app.mains[0].idle.is_some());
    assert_eq!(app.mains[1].init.as_ref().unwrap().args.spawn, vec![0]);
    assert!(app.mains[1].idle.is_none());
    assert_eq!(app.tasks.len(), 2);
    assert_eq!(app.resources.len(), 1);
    assert!(app.interrupts.is_empty());
    assert!(app.well_formed());
}

#[test]
fn items_are_rejected() {
    let parse = |items: Vec<Item>, cores| App::parse(items, AppArgs { cores }).err();
    assert_eq!(
        parse(vec![Item::Init { core: 0, init: an_init() }, Item::Init { core: 0, init: an_init() }], 1),
        Some(ItemError::InitTwice { core: 0 })
    );
    assert_eq!(
        parse(
            vec![
                Item::Idle { core: 1, idle: Idle { args: IdleArgs { resources: vec![], spawn: vec![] } } },
                Item::Idle { core: 1, idle: Idle { args: IdleArgs { resources: vec![], spawn: vec![] } } }
            ],
            2
        ),
        Some(ItemError::IdleTwice { core: 1 })
    );
    assert_eq!(parse(vec![Item::Init { core: 1, init: an_init() }], 1), Some(ItemError::NoSuchCore { core: 1 }));
    assert_eq!(
        parse(vec![Item::Task { name: 0, task: a_task() }, Item::Task { name: 0, task: a_task() }], 1),
        Some(ItemError::TaskTwice { name: 0 })
    );
    assert_eq!(parse(vec![Item::Task { name: 1, task: a_task() }], 1), Some(ItemError::Misnumbered { name: 1 }));
    let res = || Resource { core: None, mutable: false, late: false };
    assert_eq!(
        parse(vec![Item::Resource { name: 0, resource: res() }, Item::Resource { name: 0, resource: res() }], 1),
        Some(ItemError::ResourceTwice { name: 0 })
    );
    assert_eq!(parse(vec![Item::Other, Item::Task { name: 5, task: a_task() }], 1), Some(ItemError::Misplaced));
}

#[test]
fn status_register_fields() {
    let cpsr = Cpsr::from_bits(0b10_1001_0011);
    assert_eq!(cpsr.bits(), 0x293);
    assert!(cpsr.e());
    assert!(!cpsr.a());
    assert!(cpsr.i());
    assert!(!cpsr.f());
    assert!(!cpsr.t());
    assert_eq!(cpsr.mode(), Mode::Supervisor);
    assert_eq!(Cpsr::from_bits(0x1_0170).mode(), Mode::User);
    assert!(Cpsr::from_bits(0x170).a());
    assert!(Cpsr::from_bits(0x170).f());
    assert!(Cpsr::from_bits(0x170).t());
    assert_eq!(Cpsr::from_bits(0b10001).mode(), Mode::Fiq);
    assert_eq!(Cpsr::from_bits(0b10010).mode(), Mode::Irq);
    assert_eq!(Cpsr::from_bits(0b10111).mode(), Mode::Abort);
    assert_eq!(Cpsr::from_bits(0b11011).mode(), Mode::Undefined);
    assert_eq!(Cpsr::from_bits(0b11111).mode(), Mode::System);
    assert_eq!(Cpsr::from_bits(0).mode(), Mode::Unknown);
}

#[test]
fn durations_between_instants() {
    let early = Instant::from_cycles(-5);
    let late = Instant::from_cycles(37);
    assert_eq!(late.checked_duration_since(early).unwrap().as_cycles(), 42);
    assert!(early.checked_duration_since(late).is_none());
    assert_eq!(late.checked_duration_since(late).unwrap().as_cycles(), 0);
    assert_eq!(late.duration_since(early).as_cycles(), 42);
}

#[test]
fn layout_decisions() {
    assert_eq!(queue_flavor(0, 0), Flavor::SingleCore);
    assert_eq!(queue_flavor(0, 1), Flavor::MultiCore);
    assert_eq!(spawn_target(1, 1), Target::Loopback);
    assert_eq!(spawn_target(0, 1), Target::Unicast(1));
    assert_eq!(queue_size(5, false), Some(5));
    assert_eq!(queue_size(0, true), Some(1));
    assert_eq!(queue_size(1, true), Some(1));
    assert_eq!(queue_size(5, true), Some(8));
    assert_eq!(queue_size(64, true), Some(64));
    assert_eq!(queue_size(65, true), Some(128));
    assert_eq!(queue_size(128, true), Some(128));
    assert_eq!(queue_size(129, true), None);
    assert_eq!(dispatcher_priority(1), 240);
    assert_eq!(dispatcher_priority(31), 0);
}

#[test]
fn signatures_are_checked() {
    let plain = Signature {
        private: true,
        is_const: false,
        is_async: false,
        is_unsafe: false,
        has_abi: false,
        generic: false,
        has_where: false,
        variadic: false,
        inputs: 1,
        first_is_context: true,
        rest_named: true,
        output: Output::Default,
        reserved_name: false,
    };
    assert_eq!(plain.check(Kind::Init), Ok(()));
    assert_eq!(plain.check(Kind::Interrupt), Ok(()));
    assert_eq!(plain.check(Kind::Task), Ok(()));
    assert_eq!(plain.check(Kind::Idle), Err(SignatureError::BadSignature));
    assert_eq!(Signature { output: Output::Never, ..plain }.check(Kind::Idle), Ok(()));
    assert_eq!(Signature { output: Output::Never, ..plain }.check(Kind::Task), Err(SignatureError::BadSignature));
    assert_eq!(Signature { output: Output::LateResources, ..plain }.check(Kind::Init), Ok(()));
    assert_eq!(
        Signature { output: Output::LateResources, ..plain }.check(Kind::Task),
        Err(SignatureError::BadSignature)
    );
    assert_eq!(Signature { output: Output::Other, ..plain }.check(Kind::Init), Err(SignatureError::BadSignature));
    assert_eq!(Signature { inputs: 3, ..plain }.check(Kind::Task), Ok(()));
    assert_eq!(Signature { inputs: 2, ..plain }.check(Kind::Init), Err(SignatureError::BadSignature));
    assert_eq!(Signature { inputs: 0, ..plain }.check(Kind::Task), Err(SignatureError::BadSignature));
    assert_eq!(Signature { is_unsafe: true, ..plain }.check(Kind::Task), Err(SignatureError::BadSignature));
    assert_eq!(Signature { private: false, ..plain }.check(Kind::Init), Err(SignatureError::BadSignature));
    assert_eq!(Signature { generic: true, ..plain }.check(Kind::Init), Err(SignatureError::BadSignature));
    assert_eq!(
        Signature { first_is_context: false, ..plain }.check(Kind::Task),
        Err(SignatureError::BadSignature)
    );
    assert_eq!(
        Signature { inputs: 2, rest_named: false, ..plain }.check(Kind::Task),
        Err(SignatureError::UnnamedInput)
    );
    assert_eq!(Signature { reserved_name: true, ..plain }.check(Kind::Task), Err(SignatureError::ReservedName));
    assert_eq!(
        Signature { reserved_name: true, ..plain }.check(Kind::Interrupt),
        Err(SignatureError::ReservedName)
    );
    assert_eq!(Signature { reserved_name: true, ..plain }.check(Kind::Init), Ok(()));
    assert!(!plain.returns_late_resources());
    assert!(Signature { output: Output::Unit, ..plain }.returns_late_resources());
    assert!(Signature { output: Output::LateResources, ..plain }.returns_late_resources());
}

#[test]
fn resource_handles() {
    let shared = Some(Ownership::Shared { ceiling: 3 });
    let owned = Some(Ownership::Owned { priority: 2 });
    let co_owned = Some(Ownership::CoOwned { priority: 2 });
    // below the ceiling: a proxy for a mutable resource, a plain reference otherwise
    assert_eq!(handle(Context::Handler, shared, 2, true, 1, true), Handle::Proxy);
    assert_eq!(
        handle(Context::Handler, shared, 2, false, 1, true),
        Handle::Reference { mutable: false, forever: false }
    );
    // at the ceiling: no lock
    assert_eq!(
        handle(Context::Handler, shared, 3, true, 1, true),
        Handle::Reference { mutable: true, forever: false }
    );
    assert_eq!(
        handle(Context::Handler, owned, 2, true, 2, true),
        Handle::Reference { mutable: true, forever: false }
    );
    assert_eq!(
        handle(Context::Handler, co_owned, 2, false, 2, true),
        Handle::Reference { mutable: false, forever: false }
    );
    // idle runs once
    assert_eq!(handle(Context::Idle, shared, 0, true, 2, true), Handle::Proxy);
    let idle_owned = Some(Ownership::Owned { priority: 0 });
    assert_eq!(handle(Context::Idle, idle_owned, 0, true, 2, true), Handle::Pinned { mutable: true });
    assert_eq!(
        handle(Context::Idle, idle_owned, 0, true, 2, false),
        Handle::Reference { mutable: true, forever: true }
    );
    assert_eq!(
        handle(Context::Idle, idle_owned, 0, false, 1, true),
        Handle::Reference { mutable: false, forever: true }
    );
    // init
    assert_eq!(handle(Context::Init, None, 0, false, 2, true), Handle::Pinned { mutable: false });
    assert_eq!(
        handle(Context::Init, None, 0, true, 1, true),
        Handle::Reference { mutable: true, forever: true }
    );
    assert_eq!(
        handle(Context::Init, owned, 0, false, 2, true),
        Handle::Reference { mutable: true, forever: false }
    );
}

#[test]
fn leading_statics_are_counted() {
    let (other, local) = (Statement::Other, Statement::StaticMut);
    assert_eq!(extract_statics(&vec![]), 0);
    assert_eq!(extract_statics(&vec![other, local]), 0);
    assert_eq!(extract_statics(&vec![local, local, other, local]), 2);
    assert_eq!(extract_statics(&vec![local, local]), 2);
}

#[test]
fn global_statics_are_held_to_their_places() {
    assert_eq!(check_statics(Kind::Init, 1, &vec![false, false]), Ok(()));
    assert_eq!(check_statics(Kind::Init, 1, &vec![false, true]), Err(StaticError::GlobalOnSingleCore));
    assert_eq!(check_statics(Kind::Idle, 1, &vec![true]), Err(StaticError::GlobalOnSingleCore));
    assert_eq!(check_statics(Kind::Task, 1, &vec![true]), Err(StaticError::GlobalOnSingleCore));
    assert_eq!(check_statics(Kind::Task, 2, &vec![true]), Err(StaticError::GlobalInTask));
    assert_eq!(check_statics(Kind::Task, 2, &vec![false]), Ok(()));
    assert_eq!(check_statics(Kind::Init, 2, &vec![true]), Ok(()));
    assert_eq!(check_statics(Kind::Idle, 2, &vec![true, false]), Ok(()));
    assert_eq!(check_statics(Kind::Interrupt, 1, &vec![true]), Ok(()));
    assert_eq!(check_statics(Kind::Task, 2, &vec![]), Ok(()));
}

#[test]
fn local_state_handles() {
    let borrowed = Handle::Reference { mutable: true, forever: false };
    let kept = Handle::Reference { mutable: true, forever: true };
    let pinned = Handle::Pinned { mutable: true };
    assert_eq!(local_handle(Context::Handler, 1, false), borrowed);
    assert_eq!(local_handle(Context::Handler, 2, true), borrowed);
    assert_eq!(local_handle(Context::Init, 1, false), kept);
    assert_eq!(local_handle(Context::Idle, 2, false), pinned);
    assert_eq!(local_handle(Context::Init, 2, false), pinned);
    assert_eq!(local_handle(Context::Idle, 2, true), kept);
}
