//! The checker: rejects a malformed application before it is analyzed.

use crate::syntax::{Access, App, Resource, NSGIS};
use vstd::prelude::*;

verus! {

/// Why an application is rejected.
#[derive(Clone, Copy, Debug, PartialEq, Eq, Structural)]
pub enum CheckError {
    /// A context names a resource that was not declared.
    UnknownResource { name: usize },
    /// A context names a resource that is assigned to another core.
    ForeignResource { name: usize },
    /// A mutable resource is named by contexts on two different cores.
    SharedMutable { name: usize },
    /// An `init` names a late resource among its resources.
    LateInInit { name: usize },
    /// It is unclear which `init` initializes which late resource.
    LatePartition,
    /// A context may spawn a task that was not declared.
    UnknownTask { name: usize },
    /// A core has more task priorities than free software-generated interrupts.
    TooManyPriorities { core: u8 },
}

/// Number of `true` entries among the first `n` of `table`.
pub open spec fn count_true(table: Seq<bool>, n: int) -> int
    decreases n,
{
    if n <= 0 {
        0
    } else {
        count_true(table, n - 1) + if table[n - 1] {
            1int
        } else {
            0int
        }
    }
}

/// `count_true` grows with the number of entries looked at, by at most one per entry.
pub proof fn count_true_monotonic(table: Seq<bool>, a: int, b: int)
    requires
        0 <= a <= b,
    ensures
        0 <= count_true(table, a) <= count_true(table, b),
        count_true(table, b) - count_true(table, a) <= b - a,
    decreases b,
{
    if a < b {
        count_true_monotonic(table, a, b - 1);
    } else if a > 0 {
        count_true_monotonic(table, a - 1, a - 1);
    }
}

/// Whether use `i` is the first that names something outside a table of
/// `len` entries.
pub open spec fn first_beyond(uses: Seq<Access>, len: int, i: int) -> bool {
    &&& 0 <= i < uses.len()
    &&& uses[i].name >= len
    &&& forall|j: int| 0 <= j < i ==> (#[trigger] uses[j]).name < len
}

/// Whether `name` is the first name in `uses` that lies outside a table of
/// `len` entries.
pub open spec fn names_beyond(uses: Seq<Access>, len: int, name: usize) -> bool {
    exists|i: int| #[trigger] first_beyond(uses, len, i) && uses[i].name == name
}

/// Every name that is used lies within a table of `len` entries.
pub open spec fn names_within(uses: Seq<Access>, len: int) -> bool {
    forall|i: int| 0 <= i < uses.len() ==> (#[trigger] uses[i]).name < len
}

/// Whether `a` is made from a core other than the one its resource is assigned to.
pub open spec fn foreign(resources: Seq<Resource>, a: Access) -> bool {
    resources[a.name as int].core matches Some(c) && c != a.core
}

/// Whether `a` is an access by `init` to a late resource.
pub open spec fn late_in_init(resources: Seq<Resource>, a: Access) -> bool {
    a.priority is None && resources[a.name as int].late
}

/// Whether `a` and `b` are accesses to one mutable resource from two cores.
pub open spec fn cross_core_mutation(resources: Seq<Resource>, a: Access, b: Access) -> bool {
    a.name == b.name && resources[a.name as int].mutable && a.core != b.core
}

/// Whether access `i` is the first that is made from a foreign core.
pub open spec fn first_foreign(resources: Seq<Resource>, accesses: Seq<Access>, i: int) -> bool {
    &&& 0 <= i < accesses.len()
    &&& foreign(resources, accesses[i])
    &&& forall|j: int| 0 <= j < i ==> !foreign(resources, #[trigger] accesses[j])
}

/// Whether access `i` is the first by which `init` reaches a late resource.
pub open spec fn first_late_in_init(resources: Seq<Resource>, accesses: Seq<Access>, i: int) -> bool {
    &&& 0 <= i < accesses.len()
    &&& late_in_init(resources, accesses[i])
    &&& forall|j: int| 0 <= j < i ==> !late_in_init(resources, #[trigger] accesses[j])
}

/// Whether access `i` is the first that reaches a mutable resource from
/// another core than an access before it.
pub open spec fn first_cross(resources: Seq<Resource>, accesses: Seq<Access>, i: int) -> bool {
    &&& 0 <= i < accesses.len()
    &&& exists|j: int|
        0 <= j < i && cross_core_mutation(resources, accesses[i], #[trigger] accesses[j])
    &&& forall|a: int, b: int|
        0 <= b < a < i ==> !cross_core_mutation(
            resources,
            #[trigger] accesses[a],
            #[trigger] accesses[b],
        )
}

impl App {
    /// Every resource that a context names was declared.
    pub open spec fn resources_declared(&self) -> bool {
        names_within(self.accesses(), self.resources@.len() as int)
    }

    /// No context names a resource that is assigned to another core.
    pub open spec fn cores_respected(&self) -> bool {
        forall|i: int|
            0 <= i < self.accesses().len() ==> !foreign(
                self.resources@,
                #[trigger] self.accesses()[i],
            )
    }

    /// No mutable resource is named from two different cores.
    pub open spec fn mutable_unshared(&self) -> bool {
        forall|i: int, j: int|
            0 <= i < self.accesses().len() && 0 <= j < self.accesses().len()
                ==> !cross_core_mutation(
                self.resources@,
                #[trigger] self.accesses()[i],
                #[trigger] self.accesses()[j],
            )
    }

    /// No `init` names a late resource among its resources.
    pub open spec fn init_without_late(&self) -> bool {
        forall|i: int|
            0 <= i < self.accesses().len() ==> !late_in_init(
                self.resources@,
                #[trigger] self.accesses()[i],
            )
    }

    /// Every task that a context may spawn was declared.
    pub open spec fn tasks_declared(&self) -> bool {
        names_within(self.spawns(), self.tasks@.len() as int)
    }
}

/// Looks for a use that names something outside a table of `len` entries.
fn find_beyond(uses: &Vec<Access>, len: usize) -> (found: Option<usize>)
    ensures
        found is None <==> names_within(uses@, len as int),
        found matches Some(name) ==> names_beyond(uses@, len as int, name),
{
    let mut i: usize = 0;
    while i < uses.len()
        invariant
            i <= uses@.len(),
            forall|j: int| 0 <= j < i ==> (#[trigger] uses@[j]).name < len,
        decreases uses@.len() - i,
    {
        if uses[i].name >= len {
            assert(first_beyond(uses@, len as int, i as int));
            return Some(uses[i].name);
        }
        i = i + 1;
    }
    None
}

/// Looks for an access from a core other than the one its resource is assigned to.
fn find_foreign(accesses: &Vec<Access>, resources: &Vec<Resource>) -> (found: Option<usize>)
    requires
        names_within(accesses@, resources@.len() as int),
    ensures
        found is None <==> forall|i: int|
            0 <= i < accesses@.len() ==> !foreign(resources@, #[trigger] accesses@[i]),
        found matches Some(name) ==> exists|i: int| #[trigger]
            first_foreign(resources@, accesses@, i) && accesses@[i].name == name,
{
    let mut i: usize = 0;
    while i < accesses.len()
        invariant
            i <= accesses@.len(),
            names_within(accesses@, resources@.len() as int),
            forall|j: int| 0 <= j < i ==> !foreign(resources@, #[trigger] accesses@[j]),
        decreases accesses@.len() - i,
    {
        let a = accesses[i];
        assert(accesses@[i as int].name < resources@.len());
        match resources[a.name].core {
            Some(c) => {
                if c != a.core {
                    assert(first_foreign(resources@, accesses@, i as int));
                    return Some(a.name);
                }
            },
            None => {},
        }
        i = i + 1;
    }
    None
}

/// Looks for an access by `init` to a late resource.
fn find_late_in_init(accesses: &Vec<Access>, resources: &Vec<Resource>) -> (found: Option<usize>)
    requires
        names_within(accesses@, resources@.len() as int),
    ensures
        found is None <==> forall|i: int|
            0 <= i < accesses@.len() ==> !late_in_init(resources@, #[trigger] accesses@[i]),
        found matches Some(name) ==> exists|i: int| #[trigger]
            first_late_in_init(resources@, accesses@, i) && accesses@[i].name == name,
{
    let mut i: usize = 0;
    while i < accesses.len()
        invariant
            i <= accesses@.len(),
            names_within(accesses@, resources@.len() as int),
            forall|j: int| 0 <= j < i ==> !late_in_init(resources@, #[trigger] accesses@[j]),
        decreases accesses@.len() - i,
    {
        let a = accesses[i];
        assert(accesses@[i as int].name < resources@.len());
        if a.priority.is_none() && resources[a.name].late {
            assert(first_late_in_init(resources@, accesses@, i as int));
            return Some(a.name);
        }
        i = i + 1;
    }
    None
}

/// Looks for a mutable resource that is accessed from two different cores.
fn find_shared_mutable(accesses: &Vec<Access>, resources: &Vec<Resource>) -> (found: Option<usize>)
    requires
        names_within(accesses@, resources@.len() as int),
    ensures
        found is None <==> forall|i: int, j: int|
            0 <= i < accesses@.len() && 0 <= j < accesses@.len() ==> !cross_core_mutation(
                resources@,
                #[trigger] accesses@[i],
                #[trigger] accesses@[j],
            ),
        found matches Some(name) ==> exists|i: int| #[trigger]
            first_cross(resources@, accesses@, i) && accesses@[i].name == name,
{
    let mut first: Vec<Option<u8>> = Vec::new();
    let mut r: usize = 0;
    while r < resources.len()
        invariant
            r <= resources@.len(),
            first@.len() == r,
            forall|k: int| 0 <= k < r ==> first@[k] is None,
        decreases resources@.len() - r,
    {
        first.push(None);
        r = r + 1;
    }
    let mut i: usize = 0;
    while i < accesses.len()
        invariant
            i <= accesses@.len(),
            names_within(accesses@, resources@.len() as int),
            first@.len() == resources@.len(),
            forall|k: int|
                0 <= k < first@.len() ==> (#[trigger] first@[k] matches Some(c) ==> exists|j: int|
                    0 <= j < i && (#[trigger] accesses@[j]).name == k && accesses@[j].core == c),
            forall|j: int|
                0 <= j < i && resources@[(#[trigger] accesses@[j]).name as int].mutable
                    ==> first@[accesses@[j].name as int] == Some(accesses@[j].core),
        decreases accesses@.len() - i,
    {
        let a = accesses[i];
        assert(accesses@[i as int].name < resources@.len());
        if resources[a.name].mutable {
            match first[a.name] {
                Some(c) => {
                    if c != a.core {
                        proof {
                            let j = choose|j: int|
                                0 <= j < i && (#[trigger] accesses@[j]).name == a.name
                                    && accesses@[j].core == c;
                            assert(cross_core_mutation(
                                resources@,
                                accesses@[i as int],
                                accesses@[j],
                            ));
                            assert forall|a: int, b: int| 0 <= b < a < i implies !cross_core_mutation(
                                resources@,
                                #[trigger] accesses@[a],
                                #[trigger] accesses@[b],
                            ) by {
                                if accesses@[a].name == accesses@[b].name
                                    && resources@[accesses@[a].name as int].mutable {
                                    assert(first@[accesses@[a].name as int] == Some(
                                        accesses@[a].core,
                                    ));
                                    assert(first@[accesses@[b].name as int] == Some(
                                        accesses@[b].core,
                                    ));
                                }
                            }
                            assert(first_cross(resources@, accesses@, i as int));
                        }
                        return Some(a.name);
                    }
                },
                None => {
                    first.set(a.name, Some(a.core));
                },
            }
        }
        i = i + 1;
    }
    proof {
        assert forall|i: int, j: int|
            0 <= i < accesses@.len() && 0 <= j < accesses@.len() implies !cross_core_mutation(
            resources@,
            #[trigger] accesses@[i],
            #[trigger] accesses@[j],
        ) by {
            if accesses@[i].name == accesses@[j].name && resources@[accesses@[i].name as int].mutable {
                assert(first@[accesses@[i].name as int] == Some(accesses@[i].core));
                assert(first@[accesses@[j].name as int] == Some(accesses@[j].core));
            }
        }
    }
    None
}

impl App {
    /// Whether some resource is late.
    pub open spec fn has_late(&self) -> bool {
        exists|r: int| 0 <= r < self.resources@.len() && (#[trigger] self.resources@[r]).late
    }

    /// Whether core `c` has an `init` that returns late resources.
    pub open spec fn returning(&self, c: int) -> bool {
        0 <= c < self.mains@.len() && (self.mains@[c].init matches Some(init)
            && init.returns_late_resources)
    }

    /// The late resources that the `init` of core `c` lists for itself.
    pub open spec fn claims(&self, c: int) -> Seq<usize> {
        if self.returning(c) {
            self.mains@[c].init.unwrap().args.late@
        } else {
            Seq::empty()
        }
    }

    /// Whether entry `i` of the list of core `c` is the resource `r`.
    pub open spec fn claimed(&self, c: int, i: int, r: usize) -> bool {
        self.returning(c) && 0 <= i < self.claims(c).len() && self.claims(c)[i] == r
    }

    /// Whether the `init` of core `c` takes every late resource that nobody lists.
    pub open spec fn catch_all(&self, c: int) -> bool {
        self.returning(c) && self.claims(c).len() == 0
    }

    /// The late resources are split between the cores without doubt: only
    /// late resources are listed, none is listed twice, at most one `init`
    /// takes the rest, and every late resource is listed or falls to that one.
    pub open spec fn late_partitioned(&self) -> bool {
        &&& forall|c: int, i: int, r: usize| #[trigger]
            self.claimed(c, i, r) ==> r < self.resources@.len() && self.resources@[r as int].late
        &&& forall|c1: int, e1: int, c2: int, e2: int, r: usize|
            #[trigger] self.claimed(c1, e1, r) && #[trigger] self.claimed(c2, e2, r) ==> c1 == c2
                && e1 == e2
        &&& forall|c1: int, c2: int| #[trigger]
            self.catch_all(c1) && #[trigger] self.catch_all(c2) ==> c1 == c2
        &&& forall|r: usize|
            r < self.resources@.len() && (#[trigger] self.resources@[r as int]).late ==> (exists|
                c: int,
                i: int,
            | #[trigger]
                self.claimed(c, i, r)) || (exists|c: int| #[trigger] self.catch_all(c))
    }

    /// Every late resource gets initialized: a single core does it all, and
    /// several cores split the late resources without doubt.
    pub open spec fn late_initialized(&self) -> bool {
        !self.has_late() || self.cores == 1 || self.late_partitioned()
    }

    /// Whether some task on `core` has priority `p`.
    pub open spec fn priority_used(&self, core: u8, p: int) -> bool {
        exists|t: int|
            0 <= t < self.tasks@.len() && (#[trigger] self.tasks@[t]).args.core == core
                && self.tasks@[t].args.priority == p
    }

    /// For each priority, whether some task on `core` has it.
    pub open spec fn priorities_on(&self, core: u8) -> Seq<bool> {
        Seq::new(256, |p: int| self.priority_used(core, p))
    }

    /// Whether some interrupt task claims the software-generated interrupt `n`.
    pub open spec fn sgi_bound(&self, n: int) -> bool {
        exists|k: int|
            0 <= k < self.interrupts@.len() && (#[trigger] self.interrupts@[k]).sgi is Some
                && self.interrupts@[k].sgi.unwrap() == n
    }

    /// For each software-generated interrupt, whether an interrupt task claims it.
    pub open spec fn bound_sgis(&self) -> Seq<bool> {
        Seq::new(NSGIS as nat, |n: int| self.sgi_bound(n))
    }

    /// The distinct task priorities of `core` and the claimed software-generated
    /// interrupts together are at most 16.
    pub open spec fn dispatchers_fit(&self, core: u8) -> bool {
        count_true(self.priorities_on(core), 256) + count_true(self.bound_sgis(), NSGIS as int)
            <= NSGIS
    }

    /// Every core has enough software-generated interrupts for its priorities.
    pub open spec fn enough_sgis(&self) -> bool {
        forall|core: u8| core < self.cores ==> #[trigger] self.dispatchers_fit(core)
    }

    /// What the checker accepts.
    pub open spec fn accepted(&self) -> bool {
        &&& self.resources_declared()
        &&& self.cores_respected()
        &&& self.mutable_unshared()
        &&& self.init_without_late()
        &&& self.late_initialized()
        &&& self.tasks_declared()
        &&& self.enough_sgis()
    }

    /// Decides whether the late resources are split without doubt.
    fn late_partition_clear(&self) -> (clear: bool)
        ensures
            clear == self.late_partitioned(),
    {
        let nres = self.resources.len();
        let mut owner: Vec<Option<(usize, usize)>> = Vec::new();
        let mut r: usize = 0;
        while r < nres
            invariant
                r <= nres,
                owner@.len() == r,
                forall|k: int| 0 <= k < r ==> owner@[k] is None,
            decreases nres - r,
        {
            owner.push(None);
            r = r + 1;
        }
        let mut rest: Option<usize> = None;
        let mut c: usize = 0;
        while c < self.mains.len()
            invariant
                c <= self.mains@.len(),
                nres == self.resources@.len(),
                owner@.len() == nres,
                forall|k: int|
                    0 <= k < nres ==> (#[trigger] owner@[k] matches Some(at) ==> at.0 < c
                        && self.claimed(at.0 as int, at.1 as int, k as usize)),
                forall|c1: int, e1: int, k: usize| #[trigger]
                    self.claimed(c1, e1, k) && c1 < c ==> k < nres && self.resources@[k as int].late
                        && owner@[k as int] is Some && owner@[k as int].unwrap().0 == c1
                        && owner@[k as int].unwrap().1 == e1,
                rest matches Some(c1) ==> c1 < c && self.catch_all(c1 as int),
                forall|c1: int| #[trigger]
                    self.catch_all(c1) && c1 < c ==> rest is Some && rest.unwrap() == c1,
            decreases self.mains@.len() - c,
        {
            match &self.mains[c].init {
                Some(init) => {
                    if init.returns_late_resources {
                        assert(self.returning(c as int));
                        if init.args.late.len() == 0 {
                            assert(self.catch_all(c as int));
                            match rest {
                                Some(c1) => {
                                    assert(self.catch_all(c1 as int));
                                    return false;
                                },
                                None => {
                                    rest = Some(c);
                                },
                            }
                        } else {
                            let mut i: usize = 0;
                            while i < init.args.late.len()
                                invariant
                                    c < self.mains@.len(),
                                    self.returning(c as int),
                                    init.args.late@ == self.claims(c as int),
                                    i <= init.args.late@.len(),
                                    nres == self.resources@.len(),
                                    owner@.len() == nres,
                                    forall|k: int|
                                        0 <= k < nres ==> (#[trigger] owner@[k] matches Some(at)
                                            ==> (at.0 < c || (at.0 == c && at.1 < i))
                                            && self.claimed(at.0 as int, at.1 as int, k as usize)),
                                    forall|c1: int, e1: int, k: usize| #[trigger]
                                        self.claimed(c1, e1, k) && (c1 < c || (c1 == c && e1 < i))
                                            ==> k < nres && self.resources@[k as int].late
                                            && owner@[k as int] is Some
                                            && owner@[k as int].unwrap().0 == c1
                                            && owner@[k as int].unwrap().1 == e1,
                                decreases init.args.late@.len() - i,
                            {
                                let name = init.args.late[i];
                                assert(self.claimed(c as int, i as int, name));
                                if name >= nres {
                                    return false;
                                }
                                if !self.resources[name].late {
                                    return false;
                                }
                                match owner[name] {
                                    Some(at) => {
                                        assert(self.claimed(at.0 as int, at.1 as int, name));
                                        return false;
                                    },
                                    None => {},
                                }
                                owner.set(name, Some((c, i)));
                                i = i + 1;
                            }
                        }
                    }
                },
                None => {},
            }
            c = c + 1;
        }
        let mut k: usize = 0;
        while k < nres
            invariant
                k <= nres,
                c == self.mains@.len(),
                nres == self.resources@.len(),
                owner@.len() == nres,
                forall|j: int|
                    0 <= j < nres ==> (#[trigger] owner@[j] matches Some(at) ==> self.claimed(
                        at.0 as int,
                        at.1 as int,
                        j as usize,
                    )),
                forall|c1: int, e1: int, j: usize| #[trigger]
                    self.claimed(c1, e1, j) && c1 < c ==> j < nres && self.resources@[j as int].late
                        && owner@[j as int] is Some && owner@[j as int].unwrap().0 == c1
                        && owner@[j as int].unwrap().1 == e1,
                rest matches Some(c1) ==> self.catch_all(c1 as int),
                forall|c1: int| #[trigger]
                    self.catch_all(c1) && c1 < c ==> rest is Some && rest.unwrap() == c1,
                forall|j: int|
                    0 <= j < k && (#[trigger] self.resources@[j]).late ==> owner@[j] is Some
                        || rest is Some,
            decreases nres - k,
        {
            if self.resources[k].late && owner[k].is_none() && rest.is_none() {
                proof {
                    assert forall|c1: int, e1: int| !self.claimed(c1, e1, k) by {
                        if self.claimed(c1, e1, k) {
                            assert(c1 < self.mains@.len());
                        }
                    }
                    assert forall|c1: int| !self.catch_all(c1) by {
                        if self.catch_all(c1) {
                            assert(c1 < self.mains@.len());
                        }
                    }
                    assert(self.resources@[k as int].late);
                }
                return false;
            }
            k = k + 1;
        }
        proof {
            assert forall|j: usize|
                j < self.resources@.len() && (#[trigger] self.resources@[j as int]).late implies (
            exists|c1: int, e1: int| #[trigger] self.claimed(c1, e1, j)) || (exists|c1: int| #[trigger]
                self.catch_all(c1)) by {
                if owner@[j as int] is Some {
                    let at = owner@[j as int].unwrap();
                    assert(self.claimed(at.0 as int, at.1 as int, j));
                } else {
                    assert(self.catch_all(rest.unwrap() as int));
                }
            }
        }
        true
    }

    /// Decides whether some resource is late.
    pub fn late_somewhere(&self) -> (any: bool)
        ensures
            any == self.has_late(),
    {
        let mut r: usize = 0;
        while r < self.resources.len()
            invariant
                r <= self.resources@.len(),
                forall|k: int| 0 <= k < r ==> !(#[trigger] self.resources@[k]).late,
            decreases self.resources@.len() - r,
        {
            if self.resources[r].late {
                return true;
            }
            r = r + 1;
        }
        false
    }

    /// Marks the priorities that the tasks on `core` have.
    pub fn priority_table(&self, core: u8) -> (table: Vec<bool>)
        ensures
            table@ == self.priorities_on(core),
    {
        let mut table: Vec<bool> = Vec::new();
        let mut p: usize = 0;
        while p < 256
            invariant
                p <= 256,
                table@.len() == p,
                forall|q: int| 0 <= q < p ==> !table@[q],
            decreases 256 - p,
        {
            table.push(false);
            p = p + 1;
        }
        let mut t: usize = 0;
        while t < self.tasks.len()
            invariant
                t <= self.tasks@.len(),
                table@.len() == 256,
                forall|q: int|
                    0 <= q < 256 ==> (#[trigger] table@[q] <==> exists|u: int|
                        0 <= u < t && (#[trigger] self.tasks@[u]).args.core == core
                            && self.tasks@[u].args.priority == q),
            decreases self.tasks@.len() - t,
        {
            let task = &self.tasks[t];
            if task.args.core == core {
                let slot: usize = task.args.priority as usize;
                table.set(slot, true);
            }
            proof {
                assert forall|q: int| 0 <= q < 256 implies (#[trigger] table@[q] <==> exists|u: int|
                    0 <= u < t + 1 && (#[trigger] self.tasks@[u]).args.core == core
                        && self.tasks@[u].args.priority == q) by {
                    if table@[q] {
                        if self.tasks@[t as int].args.core == core
                            && self.tasks@[t as int].args.priority == q {
                        } else {
                            let u = choose|u: int|
                                0 <= u < t && (#[trigger] self.tasks@[u]).args.core == core
                                    && self.tasks@[u].args.priority == q;
                            assert(0 <= u < t + 1);
                        }
                    }
                }
            }
            t = t + 1;
        }
        assert(table@ =~= self.priorities_on(core));
        table
    }

    /// Marks the software-generated interrupts that interrupt tasks claim.
    pub fn sgi_table(&self) -> (table: Vec<bool>)
        ensures
            table@ == self.bound_sgis(),
    {
        let mut table: Vec<bool> = Vec::new();
        let mut n: usize = 0;
        while n < 16
            invariant
                n <= 16,
                table@.len() == n,
                forall|q: int| 0 <= q < n ==> !table@[q],
            decreases 16 - n,
        {
            table.push(false);
            n = n + 1;
        }
        let mut k: usize = 0;
        while k < self.interrupts.len()
            invariant
                k <= self.interrupts@.len(),
                table@.len() == 16,
                forall|q: int|
                    0 <= q < 16 ==> (#[trigger] table@[q] <==> exists|u: int|
                        0 <= u < k && (#[trigger] self.interrupts@[u]).sgi is Some
                            && self.interrupts@[u].sgi.unwrap() == q),
            decreases self.interrupts@.len() - k,
        {
            match self.interrupts[k].sgi {
                Some(id) => {
                    if id < NSGIS {
                        let slot: usize = id as usize;
                        table.set(slot, true);
                    }
                },
                None => {},
            }
            proof {
                assert forall|q: int| 0 <= q < 16 implies (#[trigger] table@[q] <==> exists|u: int|
                    0 <= u < k + 1 && (#[trigger] self.interrupts@[u]).sgi is Some
                        && self.interrupts@[u].sgi.unwrap() == q) by {
                    if table@[q] {
                        if self.interrupts@[k as int].sgi is Some
                            && self.interrupts@[k as int].sgi.unwrap() == q {
                        } else {
                            let u = choose|u: int|
                                0 <= u < k && (#[trigger] self.interrupts@[u]).sgi is Some
                                    && self.interrupts@[u].sgi.unwrap() == q;
                            assert(0 <= u < k + 1);
                        }
                    }
                }
            }
            k = k + 1;
        }
        assert(table@ =~= self.bound_sgis());
        table
    }
}

/// Counts the marked entries of a table.
pub fn count_marked(table: &Vec<bool>) -> (n: usize)
    ensures
        n == count_true(table@, table@.len() as int),
{
    let mut n: usize = 0;
    let mut i: usize = 0;
    while i < table.len()
        invariant
            i <= table@.len(),
            n <= i,
            n == count_true(table@, i as int),
        decreases table@.len() - i,
    {
        if table[i] {
            n = n + 1;
        }
        i = i + 1;
    }
    n
}

impl CheckError {
    /// Whether the error names the first rule that `app` breaks, and the
    /// first use or core that breaks it.
    pub open spec fn describes(self, app: App) -> bool {
        match self {
            CheckError::UnknownResource { name } => names_beyond(
                app.accesses(),
                app.resources@.len() as int,
                name,
            ),
            CheckError::ForeignResource { name } => app.resources_declared() && exists|i: int| #[trigger]
                first_foreign(app.resources@, app.accesses(), i) && app.accesses()[i].name == name,
            CheckError::SharedMutable { name } => app.resources_declared() && app.cores_respected()
                && exists|i: int| #[trigger]
                first_cross(app.resources@, app.accesses(), i) && app.accesses()[i].name == name,
            CheckError::LateInInit { name } => app.resources_declared() && app.cores_respected()
                && app.mutable_unshared() && exists|i: int| #[trigger]
                first_late_in_init(app.resources@, app.accesses(), i) && app.accesses()[i].name
                    == name,
            CheckError::LatePartition => app.resources_declared() && app.cores_respected()
                && app.mutable_unshared() && app.init_without_late() && !app.late_initialized(),
            CheckError::UnknownTask { name } => app.resources_declared() && app.cores_respected()
                && app.mutable_unshared() && app.init_without_late() && app.late_initialized()
                && names_beyond(app.spawns(), app.tasks@.len() as int, name),
            CheckError::TooManyPriorities { core } => app.resources_declared()
                && app.cores_respected() && app.mutable_unshared() && app.init_without_late()
                && app.late_initialized() && app.tasks_declared() && core < app.cores
                && !app.dispatchers_fit(core) && forall|c: u8|
                c < core ==> #[trigger] app.dispatchers_fit(c),
        }
    }
}

/// An application has one verdict only: two errors that both describe it are
/// the same error, and none describes an application that is accepted.
pub proof fn verdict_is_unique(app: App, e1: CheckError, e2: CheckError)
    requires
        e1.describes(app),
    ensures
        !app.accepted(),
        e2.describes(app) ==> e1 == e2,
{
    let accesses = app.accesses();
    let spawns = app.spawns();
    let resources = app.resources@;
    match e1 {
        CheckError::UnknownResource { name } => {
            let i = choose|i: int| #[trigger]
                first_beyond(accesses, resources.len() as int, i) && accesses[i].name == name;
            assert(accesses[i].name >= resources.len());
            if e2.describes(app) {
                if let CheckError::UnknownResource { name: other } = e2 {
                    let k = choose|k: int| #[trigger]
                        first_beyond(accesses, resources.len() as int, k) && accesses[k].name
                            == other;
                    assert(i == k);
                }
            }
        },
        CheckError::ForeignResource { name } => {
            let i = choose|i: int| #[trigger]
                first_foreign(resources, accesses, i) && accesses[i].name == name;
            assert(foreign(resources, accesses[i]));
            if e2.describes(app) {
                if let CheckError::ForeignResource { name: other } = e2 {
                    let k = choose|k: int| #[trigger]
                        first_foreign(resources, accesses, k) && accesses[k].name == other;
                    assert(i == k);
                }
            }
        },
        CheckError::SharedMutable { name } => {
            let i = choose|i: int| #[trigger]
                first_cross(resources, accesses, i) && accesses[i].name == name;
            let j = choose|j: int|
                0 <= j < i && cross_core_mutation(resources, accesses[i], #[trigger] accesses[j]);
            assert(cross_core_mutation(resources, accesses[i], accesses[j]));
            if e2.describes(app) {
                if let CheckError::SharedMutable { name: other } = e2 {
                    let k = choose|k: int| #[trigger]
                        first_cross(resources, accesses, k) && accesses[k].name == other;
                    let l = choose|l: int|
                        0 <= l < k && cross_core_mutation(
                            resources,
                            accesses[k],
                            #[trigger] accesses[l],
                        );
                    assert(cross_core_mutation(resources, accesses[k], accesses[l]));
                    assert(i == k);
                }
            }
        },
        CheckError::LateInInit { name } => {
            let i = choose|i: int| #[trigger]
                first_late_in_init(resources, accesses, i) && accesses[i].name == name;
            assert(late_in_init(resources, accesses[i]));
            if e2.describes(app) {
                if let CheckError::LateInInit { name: other } = e2 {
                    let k = choose|k: int| #[trigger]
                        first_late_in_init(resources, accesses, k) && accesses[k].name == other;
                    assert(i == k);
                }
            }
        },
        CheckError::LatePartition => {},
        CheckError::UnknownTask { name } => {
            let i = choose|i: int| #[trigger]
                first_beyond(spawns, app.tasks@.len() as int, i) && spawns[i].name == name;
            assert(spawns[i].name >= app.tasks@.len());
            if e2.describes(app) {
                if let CheckError::UnknownTask { name: other } = e2 {
                    let k = choose|k: int| #[trigger]
                        first_beyond(spawns, app.tasks@.len() as int, k) && spawns[k].name == other;
                    assert(i == k);
                }
            }
        },
        CheckError::TooManyPriorities { core } => {
            assert(!app.dispatchers_fit(core));
            if e2.describes(app) {
                if let CheckError::TooManyPriorities { core: other } = e2 {
                    if core < other {
                        assert(app.dispatchers_fit(core));
                    } else if other < core {
                        assert(app.dispatchers_fit(other));
                    }
                }
            }
        },
    }
    if e2.describes(app) && e1 != e2 {
        match e2 {
            CheckError::UnknownResource { name } => {
                let i = choose|i: int| #[trigger]
                    first_beyond(accesses, resources.len() as int, i) && accesses[i].name == name;
                assert(accesses[i].name >= resources.len());
            },
            CheckError::ForeignResource { name } => {
                let i = choose|i: int| #[trigger]
                    first_foreign(resources, accesses, i) && accesses[i].name == name;
                assert(foreign(resources, accesses[i]));
            },
            CheckError::SharedMutable { name } => {
                let i = choose|i: int| #[trigger]
                    first_cross(resources, accesses, i) && accesses[i].name == name;
                let j = choose|j: int|
                    0 <= j < i && cross_core_mutation(
                        resources,
                        accesses[i],
                        #[trigger] accesses[j],
                    );
                assert(cross_core_mutation(resources, accesses[i], accesses[j]));
            },
            CheckError::LateInInit { name } => {
                let i = choose|i: int| #[trigger]
                    first_late_in_init(resources, accesses, i) && accesses[i].name == name;
                assert(late_in_init(resources, accesses[i]));
            },
            CheckError::LatePartition => {},
            CheckError::UnknownTask { name } => {
                let i = choose|i: int| #[trigger]
                    first_beyond(spawns, app.tasks@.len() as int, i) && spawns[i].name == name;
                assert(spawns[i].name >= app.tasks@.len());
            },
            CheckError::TooManyPriorities { core } => {
                assert(!app.dispatchers_fit(core));
            },
        }
    }
}

/// Checks an application. It is accepted exactly when every resource and
/// task that is named was declared, no context reaches for a resource of
/// another core, no mutable resource is reached from two cores, no `init`
/// lists a late resource, the late resources are initialized without doubt,
/// and every core has enough software-generated interrupts. The error names
/// the first of these rules that is broken.
pub fn app(description: &App) -> (r: Result<(), CheckError>)
    requires
        description.wf(),
    ensures
        r is Ok <==> description.accepted(),
        r matches Err(e) ==> e.describes(*description),
{
    let accesses = description.resource_accesses();
    match find_beyond(&accesses, description.resources.len()) {
        Some(name) => {
            return Err(CheckError::UnknownResource { name });
        },
        None => {},
    }
    match find_foreign(&accesses, &description.resources) {
        Some(name) => {
            return Err(CheckError::ForeignResource { name });
        },
        None => {},
    }
    match find_shared_mutable(&accesses, &description.resources) {
        Some(name) => {
            return Err(CheckError::SharedMutable { name });
        },
        None => {},
    }
    match find_late_in_init(&accesses, &description.resources) {
        Some(name) => {
            return Err(CheckError::LateInInit { name });
        },
        None => {},
    }
    if description.late_somewhere() && description.cores != 1 && !description.late_partition_clear() {
        return Err(CheckError::LatePartition);
    }
    let spawns = description.spawn_calls();
    match find_beyond(&spawns, description.tasks.len()) {
        Some(name) => {
            return Err(CheckError::UnknownTask { name });
        },
        None => {},
    }
    let used = count_marked(&description.sgi_table());
    let mut core: u8 = 0;
    while core < description.cores
        invariant
            core <= description.cores,
            used == count_true(description.bound_sgis(), NSGIS as int),
            forall|c: u8| c < core ==> #[trigger] description.dispatchers_fit(c),
            description.resources_declared(),
            description.cores_respected(),
            description.mutable_unshared(),
            description.init_without_late(),
            description.late_initialized(),
            description.tasks_declared(),
        decreases description.cores - core,
    {
        let levels = count_marked(&description.priority_table(core));
        proof {
            count_true_monotonic(description.priorities_on(core), 0, 256);
            count_true_monotonic(description.bound_sgis(), 0, 16);
        }
        if levels + used > 16 {
            assert(!description.dispatchers_fit(core));
            return Err(CheckError::TooManyPriorities { core });
        }
        core = core + 1;
    }
    Ok(())
}

} // verus!
