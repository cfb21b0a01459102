//! The arguments of the items of a description: `core = 1, priority = 2,
//! resources = [A, B]` and the like, already split into keys and values.

use crate::syntax::{MAX_CORES, MAX_PRIORITY, MIN_PRIORITY};
use vstd::prelude::*;

verus! {

/// An integer literal.
#[derive(Clone, Copy, Debug, PartialEq, Eq, Structural)]
pub struct LitInt {
    pub value: u64,
    /// Whether a type suffix follows the digits, as in `2u8`.
    pub suffixed: bool,
}

/// The keys that an argument list can hold.
#[derive(Clone, Copy, Debug, PartialEq, Eq, Structural)]
pub enum Key {
    Binds,
    Capacity,
    Core,
    Cores,
    Late,
    Priority,
    Resources,
    Spawn,
    /// Any other word.
    Other,
}

/// What stands behind the `=` of an argument.
#[derive(Debug)]
pub enum Value {
    Int(LitInt),
    Name(usize),
    List(Vec<usize>),
}

/// One `key = value` of an argument list.
#[derive(Debug)]
pub struct Arg {
    pub key: Key,
    pub value: Value,
}

/// Why an argument list is rejected.
#[derive(Clone, Copy, Debug, PartialEq, Eq, Structural)]
pub enum ParseError {
    /// An argument appears more than once.
    Repeated,
    /// An integer carries a type suffix.
    Suffixed,
    /// The number of cores is not in 2..=8.
    CoresOutOfRange,
    /// A core number is not below the number of cores.
    CoreOutOfRange,
    /// A capacity is not in 1..=255.
    CapacityOutOfRange,
    /// A priority is not in 1..=31.
    PriorityOutOfRange,
    /// A name appears more than once in a list.
    DuplicateElement,
    /// The key is not accepted here.
    Unexpected,
    /// Several cores, and the item does not say which one it runs on.
    MissingCore,
    /// The value has not the form that the key asks for.
    Malformed,
}

/// Which keys an item accepts.
#[derive(Clone, Copy, Debug)]
pub struct Rules {
    /// The number of cores of the application; `core` is accepted with more than one.
    pub cores: u8,
    pub binds: bool,
    pub capacity: bool,
    pub late: bool,
    pub priority: bool,
}

/// What has been read of an argument list. A list is recorded by the
/// position of the argument that holds it.
#[derive(Clone, Copy, Debug, PartialEq, Eq, Structural)]
pub struct Partial {
    pub binds: Option<usize>,
    pub capacity: Option<u8>,
    pub core: Option<u8>,
    pub priority: Option<u8>,
    pub late: Option<usize>,
    pub resources: Option<usize>,
    pub spawn: Option<usize>,
}

/// Nothing read yet.
pub open spec fn nothing() -> Partial {
    Partial {
        binds: None,
        capacity: None,
        core: None,
        priority: None,
        late: None,
        resources: None,
        spawn: None,
    }
}

/// The number of cores that a literal stands for: unsuffixed and in 2..=8.
pub open spec fn cores_of(lit: LitInt) -> Result<u8, ParseError> {
    if lit.suffixed {
        Err(ParseError::Suffixed)
    } else if lit.value < 2 || lit.value > MAX_CORES {
        Err(ParseError::CoresOutOfRange)
    } else {
        Ok(lit.value as u8)
    }
}

/// The core that a literal stands for: unsuffixed and below `cores`.
pub open spec fn core_of(lit: LitInt, cores: u8) -> Result<u8, ParseError> {
    if lit.suffixed {
        Err(ParseError::Suffixed)
    } else if lit.value >= cores {
        Err(ParseError::CoreOutOfRange)
    } else {
        Ok(lit.value as u8)
    }
}

/// The capacity that a literal stands for: unsuffixed and in 1..=255.
pub open spec fn capacity_of(lit: LitInt) -> Result<u8, ParseError> {
    if lit.suffixed {
        Err(ParseError::Suffixed)
    } else if lit.value > 255 || lit.value == 0 {
        Err(ParseError::CapacityOutOfRange)
    } else {
        Ok(lit.value as u8)
    }
}

/// The priority that a literal stands for: unsuffixed and in 1..=31.
pub open spec fn priority_of(lit: LitInt) -> Result<u8, ParseError> {
    if lit.suffixed {
        Err(ParseError::Suffixed)
    } else if lit.value > MAX_PRIORITY || lit.value < MIN_PRIORITY {
        Err(ParseError::PriorityOutOfRange)
    } else {
        Ok(lit.value as u8)
    }
}

/// Reads the number of cores of an application.
pub fn check_cores(lit: LitInt) -> (r: Result<u8, ParseError>)
    ensures
        r == cores_of(lit),
{
    if lit.suffixed {
        Err(ParseError::Suffixed)
    } else if lit.value < 2 || lit.value > 8 {
        Err(ParseError::CoresOutOfRange)
    } else {
        Ok(lit.value as u8)
    }
}

/// Reads the core that an item runs on.
pub fn check_core(lit: LitInt, cores: u8) -> (r: Result<u8, ParseError>)
    ensures
        r == core_of(lit, cores),
{
    if lit.suffixed {
        Err(ParseError::Suffixed)
    } else if lit.value >= cores as u64 {
        Err(ParseError::CoreOutOfRange)
    } else {
        Ok(lit.value as u8)
    }
}

/// Reads the capacity of a task.
pub fn check_capacity(lit: LitInt) -> (r: Result<u8, ParseError>)
    ensures
        r == capacity_of(lit),
{
    if lit.suffixed {
        Err(ParseError::Suffixed)
    } else if lit.value > 255 || lit.value == 0 {
        Err(ParseError::CapacityOutOfRange)
    } else {
        Ok(lit.value as u8)
    }
}

/// Reads the priority of a task or an interrupt task.
pub fn check_priority(lit: LitInt) -> (r: Result<u8, ParseError>)
    ensures
        r == priority_of(lit),
{
    if lit.suffixed {
        Err(ParseError::Suffixed)
    } else if lit.value > 31 || lit.value < 1 {
        Err(ParseError::PriorityOutOfRange)
    } else {
        Ok(lit.value as u8)
    }
}

/// Decides whether no name occurs twice in a list.
pub fn parse_idents(list: &Vec<usize>) -> (distinct: bool)
    ensures
        distinct == list@.no_duplicates(),
{
    let mut i: usize = 0;
    while i < list.len()
        invariant
            i <= list@.len(),
            forall|a: int, b: int| 0 <= a < b < i ==> list@[a] != list@[b],
        decreases list@.len() - i,
    {
        let mut j: usize = 0;
        while j < i
            invariant
                j <= i < list@.len(),
                forall|a: int| 0 <= a < j ==> list@[a] != list@[i as int],
            decreases i - j,
        {
            if list[j] == list[i] {
                return false;
            }
            j = j + 1;
        }
        i = i + 1;
    }
    true
}

/// What one more argument, at position `at`, makes of what was read.
/// A key that the item does not accept is unexpected; `binds`, `core`,
/// `late`, `resources` and `spawn` may appear once; of several `capacity`
/// or `priority` the last one counts.
pub open spec fn step(state: Partial, arg: Arg, at: usize, rules: Rules) -> Result<
    Partial,
    ParseError,
> {
    match arg.key {
        Key::Binds if rules.binds => if state.binds is Some {
            Err(ParseError::Repeated)
        } else {
            match arg.value {
                Value::Name(name) => Ok(Partial { binds: Some(name), ..state }),
                _ => Err(ParseError::Malformed),
            }
        },
        Key::Capacity if rules.capacity => match arg.value {
            Value::Int(lit) => match capacity_of(lit) {
                Ok(capacity) => Ok(Partial { capacity: Some(capacity), ..state }),
                Err(e) => Err(e),
            },
            _ => Err(ParseError::Malformed),
        },
        Key::Core if rules.cores != 1 => if state.core is Some {
            Err(ParseError::Repeated)
        } else {
            match arg.value {
                Value::Int(lit) => match core_of(lit, rules.cores) {
                    Ok(core) => Ok(Partial { core: Some(core), ..state }),
                    Err(e) => Err(e),
                },
                _ => Err(ParseError::Malformed),
            }
        },
        Key::Late if rules.late => if state.late is Some {
            Err(ParseError::Repeated)
        } else {
            match arg.value {
                Value::List(list) => if list@.no_duplicates() {
                    Ok(Partial { late: Some(at), ..state })
                } else {
                    Err(ParseError::DuplicateElement)
                },
                _ => Err(ParseError::Malformed),
            }
        },
        Key::Priority if rules.priority => match arg.value {
            Value::Int(lit) => match priority_of(lit) {
                Ok(priority) => Ok(Partial { priority: Some(priority), ..state }),
                Err(e) => Err(e),
            },
            _ => Err(ParseError::Malformed),
        },
        Key::Resources => match arg.value {
            Value::List(list) => if !list@.no_duplicates() {
                Err(ParseError::DuplicateElement)
            } else if state.resources is Some {
                Err(ParseError::Repeated)
            } else {
                Ok(Partial { resources: Some(at), ..state })
            },
            _ => Err(ParseError::Malformed),
        },
        Key::Spawn => match arg.value {
            Value::List(list) => if !list@.no_duplicates() {
                Err(ParseError::DuplicateElement)
            } else if state.spawn is Some {
                Err(ParseError::Repeated)
            } else {
                Ok(Partial { spawn: Some(at), ..state })
            },
            _ => Err(ParseError::Malformed),
        },
        _ => Err(ParseError::Unexpected),
    }
}

/// What the first `n` arguments amount to: the first argument that is wrong
/// decides the error.
pub open spec fn parsed(args: Seq<Arg>, n: int, rules: Rules) -> Result<Partial, ParseError>
    decreases n,
{
    if n <= 0 {
        Ok(nothing())
    } else {
        match parsed(args, n - 1, rules) {
            Ok(state) => step(state, args[n - 1], (n - 1) as usize, rules),
            Err(e) => Err(e),
        }
    }
}

/// The list that the argument at `at` holds; empty without such an argument.
pub open spec fn list_at(args: Seq<Arg>, at: Option<usize>) -> Seq<usize> {
    match at {
        Some(i) => if i < args.len() {
            match args[i as int].value {
                Value::List(list) => list@,
                _ => Seq::empty(),
            }
        } else {
            Seq::empty()
        },
        None => Seq::empty(),
    }
}

fn read_arg(state: Partial, arg: &Arg, at: usize, rules: &Rules) -> (r: Result<Partial, ParseError>)
    ensures
        r == step(state, *arg, at, *rules),
{
    let mut next = state;
    match arg.key {
        Key::Binds => {
            if !rules.binds {
                return Err(ParseError::Unexpected);
            }
            if state.binds.is_some() {
                return Err(ParseError::Repeated);
            }
            match &arg.value {
                Value::Name(name) => {
                    next.binds = Some(*name);
                },
                _ => {
                    return Err(ParseError::Malformed);
                },
            }
        },
        Key::Capacity => {
            if !rules.capacity {
                return Err(ParseError::Unexpected);
            }
            match &arg.value {
                Value::Int(lit) => match check_capacity(*lit) {
                    Ok(capacity) => {
                        next.capacity = Some(capacity);
                    },
                    Err(e) => {
                        return Err(e);
                    },
                },
                _ => {
                    return Err(ParseError::Malformed);
                },
            }
        },
        Key::Core => {
            if rules.cores == 1 {
                return Err(ParseError::Unexpected);
            }
            if state.core.is_some() {
                return Err(ParseError::Repeated);
            }
            match &arg.value {
                Value::Int(lit) => match check_core(*lit, rules.cores) {
                    Ok(core) => {
                        next.core = Some(core);
                    },
                    Err(e) => {
                        return Err(e);
                    },
                },
                _ => {
                    return Err(ParseError::Malformed);
                },
            }
        },
        Key::Late => {
            if !rules.late {
                return Err(ParseError::Unexpected);
            }
            if state.late.is_some() {
                return Err(ParseError::Repeated);
            }
            match &arg.value {
                Value::List(list) => {
                    if !parse_idents(list) {
                        return Err(ParseError::DuplicateElement);
                    }
                    next.late = Some(at);
                },
                _ => {
                    return Err(ParseError::Malformed);
                },
            }
        },
        Key::Priority => {
            if !rules.priority {
                return Err(ParseError::Unexpected);
            }
            match &arg.value {
                Value::Int(lit) => match check_priority(*lit) {
                    Ok(priority) => {
                        next.priority = Some(priority);
                    },
                    Err(e) => {
                        return Err(e);
                    },
                },
                _ => {
                    return Err(ParseError::Malformed);
                },
            }
        },
        Key::Resources => match &arg.value {
            Value::List(list) => {
                if !parse_idents(list) {
                    return Err(ParseError::DuplicateElement);
                }
                if state.resources.is_some() {
                    return Err(ParseError::Repeated);
                }
                next.resources = Some(at);
            },
            _ => {
                return Err(ParseError::Malformed);
            },
        },
        Key::Spawn => match &arg.value {
            Value::List(list) => {
                if !parse_idents(list) {
                    return Err(ParseError::DuplicateElement);
                }
                if state.spawn.is_some() {
                    return Err(ParseError::Repeated);
                }
                next.spawn = Some(at);
            },
            _ => {
                return Err(ParseError::Malformed);
            },
        },
        Key::Cores | Key::Other => {
            return Err(ParseError::Unexpected);
        },
    }
    Ok(next)
}

/// Reads an argument list under the given rules.
pub fn parse_args(args: &Vec<Arg>, rules: &Rules) -> (r: Result<Partial, ParseError>)
    ensures
        r == parsed(args@, args@.len() as int, *rules),
{
    let mut state = Partial {
        binds: None,
        capacity: None,
        core: None,
        priority: None,
        late: None,
        resources: None,
        spawn: None,
    };
    let mut i: usize = 0;
    while i < args.len()
        invariant
            i <= args@.len(),
            parsed(args@, i as int, *rules) == Ok::<Partial, ParseError>(state),
        decreases args@.len() - i,
    {
        match read_arg(state, &args[i], i, rules) {
            Ok(next) => {
                state = next;
            },
            Err(e) => {
                proof {
                    parsed_error_stays(args@, i as int + 1, args@.len() as int, *rules);
                }
                return Err(e);
            },
        }
        i = i + 1;
    }
    Ok(state)
}

/// Once an argument is wrong, the arguments behind it change nothing.
pub proof fn parsed_error_stays(args: Seq<Arg>, n: int, m: int, rules: Rules)
    requires
        0 <= n <= m,
        parsed(args, n, rules) is Err,
    ensures
        parsed(args, m, rules) == parsed(args, n, rules),
    decreases m - n,
{
    if n < m {
        parsed_error_stays(args, n, m - 1, rules);
    }
}

/// Copies the list that the argument at `at` holds.
fn copy_list(args: &Vec<Arg>, at: Option<usize>) -> (list: Vec<usize>)
    ensures
        list@ == list_at(args@, at),
{
    let mut out: Vec<usize> = Vec::new();
    match at {
        Some(i) => {
            if i < args.len() {
                match &args[i].value {
                    Value::List(list) => {
                        let mut k: usize = 0;
                        while k < list.len()
                            invariant
                                k <= list@.len(),
                                out@ == list@.take(k as int),
                            decreases list@.len() - k,
                        {
                            out.push(list[k]);
                            assert(list@.take(k as int + 1) == list@.take(k as int).push(
                                list@[k as int],
                            ));
                            k = k + 1;
                        }
                        assert(list@.take(k as int) == list@);
                    },
                    _ => {},
                }
            }
        },
        None => {},
    }
    out
}

/// The arguments of a task or an interrupt task.
#[derive(Debug)]
pub struct Args {
    pub binds: Option<usize>,
    pub capacity: Option<u8>,
    pub core: u8,
    pub priority: u8,
    pub resources: Vec<usize>,
    pub spawn: Vec<usize>,
}

/// The arguments of an `init` or an `idle`.
#[derive(Debug)]
pub struct RootArgs {
    pub core: u8,
    pub late: Vec<usize>,
    pub resources: Vec<usize>,
    pub spawn: Vec<usize>,
}

/// The rules for a task (`accepts_capacity`) or an interrupt task
/// (`accepts_binds`).
pub open spec fn handler_rules(cores: u8, accepts_binds: bool, accepts_capacity: bool) -> Rules {
    Rules { cores, binds: accepts_binds, capacity: accepts_capacity, late: false, priority: true }
}

/// The rules for an `init` (`accepts_late`) or an `idle`.
pub open spec fn root_rules(cores: u8, accepts_late: bool) -> Rules {
    Rules { cores, binds: false, capacity: false, late: accepts_late, priority: false }
}

/// The core of an item: 0 on a single core, else the one that was given.
pub open spec fn core_given(state: Partial, cores: u8) -> Result<u8, ParseError> {
    if cores == 1 {
        Ok(0u8)
    } else {
        match state.core {
            Some(core) => Ok(core),
            None => Err(ParseError::MissingCore),
        }
    }
}

/// Reads the arguments of a task or an interrupt task. The priority is 1
/// unless given; on several cores the core has to be given.
pub fn parse_interrupt_or_task_args(
    args: &Vec<Arg>,
    cores: u8,
    accepts_binds: bool,
    accepts_capacity: bool,
) -> (r: Result<Args, ParseError>)
    ensures
        match parsed(
            args@,
            args@.len() as int,
            handler_rules(cores, accepts_binds, accepts_capacity),
        ) {
            Err(e) => r matches Err(f) && f == e,
            Ok(state) => match core_given(state, cores) {
                Err(e) => r matches Err(f) && f == e,
                Ok(core) => r matches Ok(a) && a.binds == state.binds && a.capacity
                    == state.capacity && a.core == core && a.priority == (match state.priority {
                    Some(p) => p,
                    None => MIN_PRIORITY,
                }) && a.resources@ == list_at(args@, state.resources) && a.spawn@ == list_at(
                    args@,
                    state.spawn,
                ),
            },
        },
{
    let rules = Rules {
        cores,
        binds: accepts_binds,
        capacity: accepts_capacity,
        late: false,
        priority: true,
    };
    let state = match parse_args(args, &rules) {
        Ok(state) => state,
        Err(e) => {
            return Err(e);
        },
    };
    let core: u8 = if cores == 1 {
        0
    } else {
        match state.core {
            Some(core) => core,
            None => {
                return Err(ParseError::MissingCore);
            },
        }
    };
    Ok(
        Args {
            binds: state.binds,
            capacity: state.capacity,
            core,
            priority: match state.priority {
                Some(p) => p,
                None => MIN_PRIORITY,
            },
            resources: copy_list(args, state.resources),
            spawn: copy_list(args, state.spawn),
        },
    )
}

/// Reads the arguments of an `init` or an `idle`. On several cores the core
/// has to be given.
pub fn parse_init_idle_args(args: &Vec<Arg>, cores: u8, accepts_late: bool) -> (r: Result<
    RootArgs,
    ParseError,
>)
    ensures
        match parsed(args@, args@.len() as int, root_rules(cores, accepts_late)) {
            Err(e) => r matches Err(f) && f == e,
            Ok(state) => match core_given(state, cores) {
                Err(e) => r matches Err(f) && f == e,
                Ok(core) => r matches Ok(a) && a.core == core && a.late@ == list_at(
                    args@,
                    state.late,
                ) && a.resources@ == list_at(args@, state.resources) && a.spawn@ == list_at(
                    args@,
                    state.spawn,
                ),
            },
        },
{
    let rules = Rules { cores, binds: false, capacity: false, late: accepts_late, priority: false };
    let state = match parse_args(args, &rules) {
        Ok(state) => state,
        Err(e) => {
            return Err(e);
        },
    };
    let core: u8 = if cores == 1 {
        0
    } else {
        match state.core {
            Some(core) => core,
            None => {
                return Err(ParseError::MissingCore);
            },
        }
    };
    Ok(
        RootArgs {
            core,
            late: copy_list(args, state.late),
            resources: copy_list(args, state.resources),
            spawn: copy_list(args, state.spawn),
        },
    )
}

/// The arguments of the application itself.
#[derive(Clone, Copy, Debug, PartialEq, Eq, Structural)]
pub struct AppArgs {
    pub cores: u8,
}

/// What one more argument makes of the number of cores read so far: only
/// `cores` is accepted, once, with an unsuffixed number in 2..=8.
pub open spec fn cores_step(seen: Option<u8>, arg: Arg) -> Result<Option<u8>, ParseError> {
    match arg.key {
        Key::Cores => if seen is Some {
            Err(ParseError::Repeated)
        } else {
            match arg.value {
                Value::Int(lit) => match cores_of(lit) {
                    Ok(cores) => Ok(Some(cores)),
                    Err(e) => Err(e),
                },
                _ => Err(ParseError::Malformed),
            }
        },
        _ => Err(ParseError::Unexpected),
    }
}

/// The number of cores that the first `n` arguments give.
pub open spec fn cores_parsed(args: Seq<Arg>, n: int) -> Result<Option<u8>, ParseError>
    decreases n,
{
    if n <= 0 {
        Ok(None)
    } else {
        match cores_parsed(args, n - 1) {
            Ok(seen) => cores_step(seen, args[n - 1]),
            Err(e) => Err(e),
        }
    }
}

/// Once an argument is wrong, the arguments behind it change nothing.
pub proof fn cores_error_stays(args: Seq<Arg>, n: int, m: int)
    requires
        0 <= n <= m,
        cores_parsed(args, n) is Err,
    ensures
        cores_parsed(args, m) == cores_parsed(args, n),
    decreases m - n,
{
    if n < m {
        cores_error_stays(args, n, m - 1);
    }
}

impl AppArgs {
    /// Reads the arguments of the application: one core unless `cores` says more.
    pub fn parse(args: &Vec<Arg>) -> (r: Result<AppArgs, ParseError>)
        ensures
            match cores_parsed(args@, args@.len() as int) {
                Err(e) => r == Err::<AppArgs, ParseError>(e),
                Ok(Some(cores)) => r == Ok::<AppArgs, ParseError>(AppArgs { cores }),
                Ok(None) => r == Ok::<AppArgs, ParseError>(AppArgs { cores: 1 }),
            },
    {
        let mut seen: Option<u8> = None;
        let mut i: usize = 0;
        while i < args.len()
            invariant
                i <= args@.len(),
                cores_parsed(args@, i as int) == Ok::<Option<u8>, ParseError>(seen),
            decreases args@.len() - i,
        {
            let arg = &args[i];
            let step: Result<Option<u8>, ParseError> = match arg.key {
                Key::Cores => {
                    if seen.is_some() {
                        Err(ParseError::Repeated)
                    } else {
                        match &arg.value {
                            Value::Int(lit) => match check_cores(*lit) {
                                Ok(cores) => Ok(Some(cores)),
                                Err(e) => Err(e),
                            },
                            _ => Err(ParseError::Malformed),
                        }
                    }
                },
                _ => Err(ParseError::Unexpected),
            };
            match step {
                Ok(next) => {
                    seen = next;
                },
                Err(e) => {
                    proof {
                        cores_error_stays(args@, i as int + 1, args@.len() as int);
                    }
                    return Err(e);
                },
            }
            i = i + 1;
        }
        match seen {
            Some(cores) => Ok(AppArgs { cores }),
            None => Ok(AppArgs { cores: 1 }),
        }
    }
}

/// The software-generated interrupt that a handler named `name` claims: the
/// name is `SG` and a decimal number below 16, written with digits only.
pub open spec fn sgi_named(name: Seq<u8>) -> Option<u8> {
    if name.len() >= 3 && name[0] == 83 && name[1] == 71 && all_digits(name, 2, name.len() as int)
        && decimal(name, 2, name.len() as int) < 16 {
        Some(decimal(name, 2, name.len() as int) as u8)
    } else {
        None
    }
}

/// Whether the bytes from `from` up to `to` are ASCII digits.
pub open spec fn all_digits(name: Seq<u8>, from: int, to: int) -> bool {
    forall|i: int| from <= i < to ==> 48 <= #[trigger] name[i] <= 57
}

/// The number that the digits from `from` up to `to` spell.
pub open spec fn decimal(name: Seq<u8>, from: int, to: int) -> int
    decreases to - from,
{
    if to <= from {
        0
    } else {
        decimal(name, from, to - 1) * 10 + (name[to - 1] - 48)
    }
}

/// Finds the software-generated interrupt that a handler's name claims.
pub fn sgi_binding(name: &Vec<u8>) -> (sgi: Option<u8>)
    ensures
        sgi == sgi_named(name@),
{
    if name.len() < 3 || name[0] != 83 || name[1] != 71 {
        return None;
    }
    let mut value: u64 = 0;
    let mut large = false;
    let mut i: usize = 2;
    while i < name.len()
        invariant
            2 <= i <= name@.len(),
            all_digits(name@, 2, i as int),
            !large ==> value == decimal(name@, 2, i as int) && value < 16,
            large ==> decimal(name@, 2, i as int) >= 16,
        decreases name@.len() - i,
    {
        let c = name[i];
        if c < 48 || c > 57 {
            return None;
        }
        if !large {
            value = value * 10 + (c - 48) as u64;
            if value >= 16 {
                large = true;
            }
        }
        i = i + 1;
    }
    if large {
        None
    } else {
        Some(value as u8)
    }
}

} // verus!
