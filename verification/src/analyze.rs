//! The static analysis of a checked application: resource ownership and
//! priority ceilings, the software-generated interrupt of each priority
//! level, queue ceilings and routes, resource locations, rendezvous edges and
//! the duties to be sendable or shareable.

use crate::check::{count_true, count_true_monotonic, names_within};
use crate::syntax::{Access, App, Task, NSGIS};
use vstd::prelude::*;

verus! {

/// How the tasks share a resource. Priorities and ceilings are logical:
/// 0 is the lowest.
#[derive(Clone, Copy, Debug, PartialEq, Eq, Structural)]
pub enum Ownership {
    /// One access, at this priority.
    Owned { priority: u8 },
    /// Several accesses, all at this priority.
    CoOwned { priority: u8 },
    /// Accesses at different priorities, of which this is the highest.
    Shared { ceiling: u8 },
}

impl Ownership {
    /// The priority, or the ceiling, that the ownership records.
    pub open spec fn level(self) -> u8 {
        match self {
            Ownership::Owned { priority } => priority,
            Ownership::CoOwned { priority } => priority,
            Ownership::Shared { ceiling } => ceiling,
        }
    }

    /// The ownership after one more access at priority `p`.
    pub open spec fn join(prev: Option<Ownership>, p: u8) -> Ownership {
        match prev {
            None => Ownership::Owned { priority: p },
            Some(Ownership::Owned { priority }) | Some(Ownership::CoOwned { priority }) => if p
                == priority {
                Ownership::CoOwned { priority }
            } else if p > priority {
                Ownership::Shared { ceiling: p }
            } else {
                Ownership::Shared { ceiling: priority }
            },
            Some(Ownership::Shared { ceiling }) => if p > ceiling {
                Ownership::Shared { ceiling: p }
            } else {
                Ownership::Shared { ceiling }
            },
        }
    }

    /// Whether a context at `priority` has to lock the resource: only below
    /// the ceiling of a shared resource.
    pub open spec fn locks(self, priority: u8) -> bool {
        self matches Ownership::Shared { ceiling } && priority < ceiling
    }

    /// Whether a context at `priority` has to lock the resource.
    pub fn needs_lock(&self, priority: u8) -> (b: bool)
        ensures
            b == self.locks(priority),
    {
        match *self {
            Ownership::Owned { .. } | Ownership::CoOwned { .. } => false,
            Ownership::Shared { ceiling } => priority < ceiling,
        }
    }

    /// Whether a single access holds the resource.
    pub fn is_owned(&self) -> (b: bool)
        ensures
            b == (*self is Owned),
    {
        match *self {
            Ownership::Owned { .. } => true,
            _ => false,
        }
    }
}

/// Whether `a` is an access to `r` by a context that has a priority.
pub open spec fn contends(a: Access, r: usize) -> bool {
    a.name == r && a.priority is Some
}

/// The ownership of resource `r` after the first `n` accesses; `init`
/// accesses do not count.
pub open spec fn ownership_after(accesses: Seq<Access>, n: int, r: usize) -> Option<Ownership>
    decreases n,
{
    if n <= 0 {
        None
    } else {
        let prev = ownership_after(accesses, n - 1, r);
        if contends(accesses[n - 1], r) {
            Some(Ownership::join(prev, accesses[n - 1].priority.unwrap()))
        } else {
            prev
        }
    }
}

/// The level of an ownership is the highest priority at which the resource
/// is accessed: no access lies above it and one access lies at it. A
/// resource has no ownership exactly when no context with a priority
/// accesses it.
pub proof fn ownership_level_is_highest(accesses: Seq<Access>, n: int, r: usize)
    requires
        0 <= n <= accesses.len(),
    ensures
        ownership_after(accesses, n, r) is None <==> forall|i: int|
            0 <= i < n ==> !contends(#[trigger] accesses[i], r),
        ownership_after(accesses, n, r) matches Some(o) ==> {
            &&& forall|i: int|
                0 <= i < n && contends(#[trigger] accesses[i], r) ==> accesses[i].priority.unwrap()
                    <= o.level()
            &&& exists|i: int|
                0 <= i < n && contends(#[trigger] accesses[i], r) && accesses[i].priority.unwrap()
                    == o.level()
        },
    decreases n,
{
    if n > 0 {
        ownership_level_is_highest(accesses, n - 1, r);
        let prev = ownership_after(accesses, n - 1, r);
        if contends(accesses[n - 1], r) {
            let o = ownership_after(accesses, n, r).unwrap();
            if prev is Some {
                let j = choose|i: int|
                    0 <= i < n - 1 && contends(#[trigger] accesses[i], r)
                        && accesses[i].priority.unwrap() == prev.unwrap().level();
                if o.level() == prev.unwrap().level() {
                    assert(contends(accesses[j], r) && accesses[j].priority.unwrap() == o.level());
                } else {
                    assert(contends(accesses[n - 1], r));
                }
            } else {
                assert(contends(accesses[n - 1], r));
            }
        } else if prev is Some {
            let j = choose|i: int|
                0 <= i < n - 1 && contends(#[trigger] accesses[i], r)
                    && accesses[i].priority.unwrap() == prev.unwrap().level();
            assert(contends(accesses[j], r));
        }
    }
}

/// Of the contexts that access a shared resource, those below its ceiling
/// lock it and the one at the ceiling does not; no context lies above.
pub proof fn lock_below_ceiling_only(accesses: Seq<Access>, r: usize, i: int)
    requires
        0 <= i < accesses.len(),
        contends(accesses[i], r),
        ownership_after(accesses, accesses.len() as int, r) matches Some(
            Ownership::Shared { .. },
        ),
    ensures
        ({
            let owner = ownership_after(accesses, accesses.len() as int, r).unwrap();
            let p = accesses[i].priority.unwrap();
            &&& p <= owner.level()
            &&& owner.locks(p) <==> p < owner.level()
            &&& !owner.locks(owner.level())
        }),
{
    ownership_level_is_highest(accesses, accesses.len() as int, r);
}

/// A resource is shared exactly when it is accessed at two different
/// priorities.
pub proof fn shared_means_two_priorities(accesses: Seq<Access>, n: int, r: usize)
    requires
        0 <= n <= accesses.len(),
    ensures
        ownership_after(accesses, n, r) matches Some(Ownership::Shared { .. }) <==> exists|
            i: int,
            j: int,
        |
            0 <= i < n && 0 <= j < n && contends(#[trigger] accesses[i], r) && contends(
                #[trigger] accesses[j],
                r,
            ) && accesses[i].priority != accesses[j].priority,
    decreases n,
{
    if n > 0 {
        shared_means_two_priorities(accesses, n - 1, r);
        ownership_level_is_highest(accesses, n - 1, r);
        let prev = ownership_after(accesses, n - 1, r);
        let now = ownership_after(accesses, n, r);
        let two_before = exists|i: int, j: int|
            0 <= i < n - 1 && 0 <= j < n - 1 && contends(#[trigger] accesses[i], r) && contends(
                #[trigger] accesses[j],
                r,
            ) && accesses[i].priority != accesses[j].priority;
        let two_now = exists|i: int, j: int|
            0 <= i < n && 0 <= j < n && contends(#[trigger] accesses[i], r) && contends(
                #[trigger] accesses[j],
                r,
            ) && accesses[i].priority != accesses[j].priority;
        if two_before {
            let (i, j) = choose|i: int, j: int|
                0 <= i < n - 1 && 0 <= j < n - 1 && contends(#[trigger] accesses[i], r) && contends(
                    #[trigger] accesses[j],
                    r,
                ) && accesses[i].priority != accesses[j].priority;
            assert(contends(accesses[i], r) && contends(accesses[j], r));
            assert(two_now);
        }
        if now matches Some(Ownership::Shared { .. }) {
            if !(prev matches Some(Ownership::Shared { .. })) {
                // the last access differs from the level kept so far
                let k = choose|i: int|
                    0 <= i < n - 1 && contends(#[trigger] accesses[i], r)
                        && accesses[i].priority.unwrap() == prev.unwrap().level();
                assert(contends(accesses[k], r) && contends(accesses[n - 1], r));
                assert(two_now);
            }
        }
        if two_now && !two_before {
            let (i, j) = choose|i: int, j: int|
                0 <= i < n && 0 <= j < n && contends(#[trigger] accesses[i], r) && contends(
                    #[trigger] accesses[j],
                    r,
                ) && accesses[i].priority != accesses[j].priority;
            assert(i == n - 1 || j == n - 1);
            let other = if i == n - 1 {
                j
            } else {
                i
            };
            assert(contends(accesses[other], r));
            assert(prev is Some);
            if !(prev matches Some(Ownership::Shared { .. })) {
                // every earlier access lies at one priority
                let k = choose|i: int|
                    0 <= i < n - 1 && contends(#[trigger] accesses[i], r)
                        && accesses[i].priority.unwrap() == prev.unwrap().level();
                if accesses[other].priority.unwrap() != prev.unwrap().level() {
                    assert(contends(accesses[other], r) && contends(accesses[k], r));
                    assert(two_before);
                }
            }
        }
    }
}

/// Whether access `i` is the only one among the first `n` that a context
/// with a priority makes to `r`.
pub open spec fn only_access(accesses: Seq<Access>, n: int, r: usize, i: int) -> bool {
    &&& 0 <= i < n
    &&& contends(accesses[i], r)
    &&& forall|j: int| 0 <= j < n && contends(#[trigger] accesses[j], r) ==> j == i
}

/// A resource is owned exactly when a single access with a priority is made
/// to it.
pub proof fn owned_means_single_access(accesses: Seq<Access>, n: int, r: usize)
    requires
        0 <= n <= accesses.len(),
    ensures
        ownership_after(accesses, n, r) matches Some(Ownership::Owned { .. }) <==> exists|i: int|
            #[trigger] only_access(accesses, n, r, i),
    decreases n,
{
    if n > 0 {
        owned_means_single_access(accesses, n - 1, r);
        ownership_level_is_highest(accesses, n - 1, r);
        let prev = ownership_after(accesses, n - 1, r);
        if contends(accesses[n - 1], r) {
            if prev is None {
                assert(only_access(accesses, n, r, n - 1));
            } else {
                let k = choose|i: int|
                    0 <= i < n - 1 && contends(#[trigger] accesses[i], r)
                        && accesses[i].priority.unwrap() == prev.unwrap().level();
                assert forall|i: int| !(#[trigger] only_access(accesses, n, r, i)) by {
                    if only_access(accesses, n, r, i) {
                        assert(contends(accesses[k], r));
                        assert(contends(accesses[n - 1], r));
                    }
                }
            }
        } else {
            assert forall|i: int| #[trigger]
                only_access(accesses, n, r, i) <==> only_access(accesses, n - 1, r, i) by {
                if only_access(accesses, n, r, i) {
                    assert(i != n - 1);
                }
            }
            if prev matches Some(Ownership::Owned { .. }) {
                let i = choose|i: int| #[trigger] only_access(accesses, n - 1, r, i);
                assert(only_access(accesses, n, r, i));
            }
            if exists|i: int| #[trigger] only_access(accesses, n, r, i) {
                let i = choose|i: int| #[trigger] only_access(accesses, n, r, i);
                assert(only_access(accesses, n - 1, r, i));
            }
        }
    }
}

/// Two contexts that reach a resource without a lock run at one priority,
/// so neither can preempt the other.
pub proof fn unlocked_contexts_share_priority(accesses: Seq<Access>, r: usize, i: int, j: int)
    requires
        0 <= i < accesses.len(),
        0 <= j < accesses.len(),
        contends(accesses[i], r),
        contends(accesses[j], r),
        !ownership_after(accesses, accesses.len() as int, r).unwrap().locks(
            accesses[i].priority.unwrap(),
        ),
        !ownership_after(accesses, accesses.len() as int, r).unwrap().locks(
            accesses[j].priority.unwrap(),
        ),
    ensures
        accesses[i].priority == accesses[j].priority,
{
    ownership_level_is_highest(accesses, accesses.len() as int, r);
    shared_means_two_priorities(accesses, accesses.len() as int, r);
}

/// Computes the ownership of each of `count` resources.
pub fn ownerships(accesses: &Vec<Access>, count: usize) -> (table: Vec<Option<Ownership>>)
    requires
        names_within(accesses@, count as int),
    ensures
        table@.len() == count,
        forall|r: int|
            0 <= r < count ==> #[trigger] table@[r] == ownership_after(
                accesses@,
                accesses@.len() as int,
                r as usize,
            ),
{
    let mut table: Vec<Option<Ownership>> = Vec::new();
    let mut r: usize = 0;
    while r < count
        invariant
            r <= count,
            table@.len() == r,
            forall|k: int| 0 <= k < r ==> table@[k] is None,
        decreases count - r,
    {
        table.push(None);
        r = r + 1;
    }
    let mut i: usize = 0;
    while i < accesses.len()
        invariant
            i <= accesses@.len(),
            names_within(accesses@, count as int),
            table@.len() == count,
            forall|r: int|
                0 <= r < count ==> #[trigger] table@[r] == ownership_after(
                    accesses@,
                    i as int,
                    r as usize,
                ),
        decreases accesses@.len() - i,
    {
        let a = accesses[i];
        assert(accesses@[i as int].name < count);
        match a.priority {
            Some(p) => {
                let next = match table[a.name] {
                    None => Ownership::Owned { priority: p },
                    Some(Ownership::Owned { priority }) | Some(Ownership::CoOwned { priority }) => {
                        if p == priority {
                            Ownership::CoOwned { priority }
                        } else if p > priority {
                            Ownership::Shared { ceiling: p }
                        } else {
                            Ownership::Shared { ceiling: priority }
                        }
                    },
                    Some(Ownership::Shared { ceiling }) => {
                        if p > ceiling {
                            Ownership::Shared { ceiling: p }
                        } else {
                            Ownership::Shared { ceiling }
                        }
                    },
                };
                table.set(a.name, Some(next));
            },
            None => {},
        }
        i = i + 1;
    }
    table
}

/// Whether `s` is the software-generated interrupt of priority level `p`: it
/// is unclaimed, and as many unclaimed interrupts lie below it as priority
/// levels in use lie below `p`. The lowest level gets the lowest free
/// interrupt.
pub open spec fn sgi_of_level(levels: Seq<bool>, claimed: Seq<bool>, p: int, s: int) -> bool {
    &&& 0 <= s < NSGIS
    &&& !claimed[s]
    &&& s - count_true(claimed, s) == count_true(levels, p)
}

proof fn free_below_rises(claimed: Seq<bool>, a: int, b: int)
    requires
        0 <= a <= b,
    ensures
        a - count_true(claimed, a) <= b - count_true(claimed, b),
        !claimed[a] && a < b ==> a - count_true(claimed, a) < b - count_true(claimed, b),
{
    count_true_monotonic(claimed, a, b);
    if a < b {
        count_true_monotonic(claimed, a + 1, b);
    }
}

/// A priority level has one software-generated interrupt only.
pub proof fn sgi_of_level_unique(levels: Seq<bool>, claimed: Seq<bool>, p: int, s1: int, s2: int)
    requires
        sgi_of_level(levels, claimed, p, s1),
        sgi_of_level(levels, claimed, p, s2),
    ensures
        s1 == s2,
{
    if s1 < s2 {
        free_below_rises(claimed, s1, s2);
    } else if s2 < s1 {
        free_below_rises(claimed, s2, s1);
    }
}

/// The interrupts rise with the levels: of two priority levels in use the
/// higher one has the higher software-generated interrupt, so no two
/// dispatchers share one.
pub proof fn sgis_rise_with_levels(
    levels: Seq<bool>,
    claimed: Seq<bool>,
    p1: int,
    s1: int,
    p2: int,
    s2: int,
)
    requires
        0 <= p1 < p2,
        levels[p1],
        sgi_of_level(levels, claimed, p1, s1),
        sgi_of_level(levels, claimed, p2, s2),
    ensures
        s1 < s2,
{
    count_true_monotonic(levels, p1 + 1, p2);
    if s2 <= s1 {
        free_below_rises(claimed, s2, s1);
    }
}

/// The software-generated interrupts that were given to the priority levels
/// of one core.
#[derive(Debug)]
pub struct Sgis {
    /// No interrupt below this one is left.
    pub next: u8,
    /// For each priority level, its interrupt.
    pub map: Vec<Option<u8>>,
}

/// Whether `s` is the first unclaimed interrupt at or above `from`.
pub open spec fn first_free(claimed: Seq<bool>, from: int, s: int) -> bool {
    &&& from <= s < NSGIS
    &&& !claimed[s]
    &&& forall|t: int| from <= t < s ==> claimed[t]
}

proof fn claimed_run(claimed: Seq<bool>, a: int, b: int)
    requires
        0 <= a <= b,
        forall|t: int| a <= t < b ==> claimed[t],
    ensures
        count_true(claimed, b) - count_true(claimed, a) == b - a,
    decreases b - a,
{
    if a < b {
        claimed_run(claimed, a, b - 1);
    }
}

impl Sgis {
    /// One entry for each priority level. Every interrupt that was given
    /// lies below `next` and is claimed by no interrupt task, and no two
    /// levels have the same one.
    pub open spec fn wf(&self, claimed: Seq<bool>) -> bool {
        &&& self.map@.len() == 256
        &&& self.next <= NSGIS
        &&& forall|p: int|
            0 <= p < 256 ==> (#[trigger] self.map@[p] matches Some(s) ==> s < self.next
                && !claimed[s as int])
        &&& forall|p: int, q: int|
            0 <= p < 256 && 0 <= q < 256 && p != q && (#[trigger] self.map@[p]) is Some ==> (
            #[trigger] self.map@[q]) != self.map@[p]
    }

    /// No level has an interrupt yet: well formed whatever is claimed.
    pub fn new() -> (sgis: Sgis)
        ensures
            sgis.map@.len() == 256,
            sgis.next == 0,
            forall|p: int| 0 <= p < 256 ==> sgis.map@[p] is None,
    {
        let mut map: Vec<Option<u8>> = Vec::new();
        let mut p: usize = 0;
        while p < 256
            invariant
                p <= 256,
                map@.len() == p,
                forall|q: int| 0 <= q < p ==> map@[q] is None,
            decreases 256 - p,
        {
            map.push(None);
            p = p + 1;
        }
        Sgis { next: 0, map }
    }

    /// Gives the priority level its interrupt, unless it has one: the first
    /// one from `next` on that no interrupt task claims. The interrupts that
    /// were given stay distinct and unclaimed.
    pub fn insert(&mut self, priority: u8, claimed: &Vec<bool>)
        requires
            old(self).wf(claimed@),
            claimed@.len() == NSGIS,
            old(self).map@[priority as int] is None ==> exists|s: int|
                old(self).next <= s < NSGIS && !claimed@[s],
        ensures
            final(self).wf(claimed@),
            old(self).map@[priority as int] is Some ==> final(self).map@ == old(self).map@ && final(self).next == old(self).next,
            old(self).map@[priority as int] is None ==> (final(self).map@[priority as int] matches Some(
                s,
            ) && first_free(claimed@, old(self).next as int, s as int) && final(self).next == s + 1
                && final(self).map@ == old(self).map@.update(priority as int, Some(s))),
    {
        let at: usize = priority as usize;
        if self.map[at].is_some() {
            return ;
        }
        let ghost from = self.next;
        let mut next: usize = self.next as usize;
        while next < 16 && claimed[next]
            invariant
                from <= next <= NSGIS,
                claimed@.len() == NSGIS,
                exists|s: int| next <= s < NSGIS && !claimed@[s],
                forall|t: int| from <= t < next ==> claimed@[t],
            decreases NSGIS - next,
        {
            proof {
                let s = choose|s: int| next <= s < NSGIS && !claimed@[s];
                assert(next + 1 <= s < NSGIS && !claimed@[s]);
            }
            next = next + 1;
        }
        let id: u8 = next as u8;
        self.map.set(at, Some(id));
        self.next = id + 1;
    }
}

/// Assigns a free software-generated interrupt to every priority level in
/// use, in rising order.
pub fn assign_sgis(levels: &Vec<bool>, claimed: &Vec<bool>) -> (table: Vec<Option<u8>>)
    requires
        levels@.len() == 256,
        claimed@.len() == NSGIS,
        count_true(levels@, 256) + count_true(claimed@, NSGIS as int) <= NSGIS,
    ensures
        table@.len() == 256,
        forall|p: int|
            0 <= p < 256 ==> (if levels@[p] {
                (#[trigger] table@[p]) matches Some(s) && sgi_of_level(
                    levels@,
                    claimed@,
                    p,
                    s as int,
                )
            } else {
                table@[p] is None
            }),
{
    let mut sgis = Sgis::new();
    let mut p: usize = 0;
    while p < 256
        invariant
            p <= 256,
            sgis.wf(claimed@),
            levels@.len() == 256,
            claimed@.len() == NSGIS,
            count_true(levels@, 256) + count_true(claimed@, NSGIS as int) <= NSGIS,
            sgis.next - count_true(claimed@, sgis.next as int) == count_true(levels@, p as int),
            forall|q: int| p <= q < 256 ==> sgis.map@[q] is None,
            forall|q: int|
                0 <= q < p ==> (if levels@[q] {
                    (#[trigger] sgis.map@[q]) matches Some(s) && sgi_of_level(
                        levels@,
                        claimed@,
                        q,
                        s as int,
                    )
                } else {
                    sgis.map@[q] is None
                }),
        decreases 256 - p,
    {
        if levels[p] {
            let ghost from = sgis.next as int;
            proof {
                count_true_monotonic(levels@, p as int + 1, 256);
                if !(exists|s: int| from <= s < NSGIS && !claimed@[s]) {
                    claimed_run(claimed@, from, NSGIS as int);
                }
            }
            let level: u8 = p as u8;
            sgis.insert(level, claimed);
            proof {
                let s = sgis.map@[p as int].unwrap() as int;
                claimed_run(claimed@, from, s);
            }
        }
        p = p + 1;
    }
    sgis.map
}

/// The highest priority among the first `n` uses that `pick` selects and
/// that are not made by `init`; `None` when there is none.
pub open spec fn ceiling_after(uses: Seq<Access>, n: int, pick: spec_fn(Access) -> bool) -> Option<
    u8,
>
    decreases n,
{
    if n <= 0 {
        None
    } else {
        let prev = ceiling_after(uses, n - 1, pick);
        let a = uses[n - 1];
        if pick(a) && a.priority is Some {
            match prev {
                None => a.priority,
                Some(c) => if a.priority.unwrap() > c {
                    a.priority
                } else {
                    prev
                },
            }
        } else {
            prev
        }
    }
}

/// A ceiling is the highest priority among the selected uses: none lies
/// above it and one lies at it. There is no ceiling exactly when only `init`
/// makes the selected uses, or nobody.
pub proof fn ceiling_is_highest(uses: Seq<Access>, n: int, pick: spec_fn(Access) -> bool)
    requires
        0 <= n <= uses.len(),
    ensures
        ceiling_after(uses, n, pick) is None <==> forall|i: int|
            0 <= i < n ==> !(pick(#[trigger] uses[i]) && uses[i].priority is Some),
        ceiling_after(uses, n, pick) matches Some(c) ==> {
            &&& forall|i: int|
                0 <= i < n && pick(#[trigger] uses[i]) && uses[i].priority is Some
                    ==> uses[i].priority.unwrap() <= c
            &&& exists|i: int|
                0 <= i < n && pick(#[trigger] uses[i]) && uses[i].priority == Some(c)
        },
    decreases n,
{
    if n > 0 {
        ceiling_is_highest(uses, n - 1, pick);
        let prev = ceiling_after(uses, n - 1, pick);
        let now = ceiling_after(uses, n, pick);
        if now is Some {
            if now == prev {
                let j = choose|i: int|
                    0 <= i < n - 1 && pick(#[trigger] uses[i]) && uses[i].priority == prev;
                assert(pick(uses[j]) && uses[j].priority == now);
            } else {
                assert(pick(uses[n - 1]) && uses[n - 1].priority == now);
            }
        }
    }
}

/// Where a resource lives.
#[derive(Clone, Copy, Debug, PartialEq, Eq, Structural)]
pub enum Location {
    /// In the private memory of this core.
    Core(u8),
    /// In the memory that all cores reach.
    Shared,
}

/// Whether `a` takes a message slot of `task` on the core `sender`.
pub open spec fn feeds(a: Access, task: usize, sender: u8) -> bool {
    a.name == task && a.core == sender
}

impl App {
    /// Whether the spawn `a`, made on core `sender`, is delivered on core
    /// `receiver` at priority level `priority`.
    pub open spec fn routed(&self, a: Access, receiver: u8, priority: u8, sender: u8) -> bool {
        &&& a.core == sender
        &&& a.name < self.tasks@.len()
        &&& self.tasks@[a.name as int].args.core == receiver
        &&& self.tasks@[a.name as int].args.priority == priority
    }

    /// Whether the spawn `a` reaches a task on another core.
    pub open spec fn crosses(&self, a: Access) -> bool {
        a.name < self.tasks@.len() && self.tasks@[a.name as int].args.core != a.core
    }

    /// Whether the spawn `a` stays on its core but comes from `init` or from
    /// a context whose priority differs from that of the task.
    pub open spec fn changes_level(&self, a: Access) -> bool {
        &&& a.name < self.tasks@.len()
        &&& self.tasks@[a.name as int].args.core == a.core
        &&& a.priority != Some(self.tasks@[a.name as int].args.priority)
    }

    /// Whether some core lists `r` among the late resources that it initializes.
    pub open spec fn claimed_somewhere(&self, r: usize) -> bool {
        exists|c: int| 0 <= c < self.mains@.len() && (#[trigger] self.claims(c)).contains(r)
    }

    /// Whether the `init` of core `c` initializes the late resource `r`:
    /// it lists `r`, or it takes what nobody lists and `r` is among that.
    pub open spec fn initializes(&self, c: int, r: usize) -> bool {
        &&& self.has_late()
        &&& self.returning(c)
        &&& (self.claims(c).contains(r) || (self.catch_all(c) && r < self.resources@.len()
            && self.resources@[r as int].late && !self.claimed_somewhere(r)))
    }

    /// Whether core `c` touches resource `r`: a context on it accesses `r`,
    /// or its `init` initializes `r`.
    pub open spec fn touches(&self, r: usize, c: u8) -> bool {
        (exists|i: int|
            0 <= i < self.accesses().len() && (#[trigger] self.accesses()[i]).name == r
                && self.accesses()[i].core == c) || self.initializes(c as int, r)
    }

    /// Where resource `r` lives: nowhere if no core touches it, in shared
    /// memory if two cores do, else with the one core that does.
    pub open spec fn location_of(&self, r: usize) -> Option<Location> {
        if exists|c1: u8, c2: u8| c1 != c2 && #[trigger] self.touches(r, c1) && #[trigger] self.touches(r, c2) {
            Some(Location::Shared)
        } else if exists|c: u8| #[trigger] self.touches(r, c) {
            Some(Location::Core(choose|c: u8| #[trigger] self.touches(r, c)))
        } else {
            None
        }
    }

    /// Whether core `user` has to wait for core `initializer` before it reads
    /// late resources: a context on `user` accesses a resource that the other
    /// core initializes.
    pub open spec fn awaits_initializer(&self, user: u8, initializer: u8) -> bool {
        user != initializer && exists|i: int|
            0 <= i < self.accesses().len() && (#[trigger] self.accesses()[i]).core == user
                && self.initializes(initializer as int, self.accesses()[i].name)
    }

    /// Whether core `receiver` has to wait for core `sender` before it
    /// dispatches: a context on `sender` may spawn a task of `receiver`.
    pub open spec fn awaits_sender(&self, receiver: u8, sender: u8) -> bool {
        receiver != sender && exists|i: int|
            0 <= i < self.spawns().len() && (#[trigger] self.spawns()[i]).core == sender
                && self.spawns()[i].name < self.tasks@.len()
                && self.tasks@[self.spawns()[i].name as int].args.core == receiver
    }

    /// Decides whether some core lists `r` among its late resources.
    fn late_listed(&self, r: usize) -> (listed: bool)
        ensures
            listed == self.claimed_somewhere(r),
    {
        let mut c: usize = 0;
        while c < self.mains.len()
            invariant
                c <= self.mains@.len(),
                forall|k: int| 0 <= k < c ==> !(#[trigger] self.claims(k)).contains(r),
            decreases self.mains@.len() - c,
        {
            match &self.mains[c].init {
                Some(init) => {
                    if init.returns_late_resources && list_has(&init.args.late, r) {
                        assert(self.claims(c as int).contains(r));
                        return true;
                    }
                },
                None => {},
            }
            c = c + 1;
        }
        false
    }

    /// Decides whether the `init` of `core` initializes the late resource `r`.
    pub fn initialized_by(&self, core: u8, r: usize) -> (b: bool)
        ensures
            b == self.initializes(core as int, r),
    {
        let c: usize = core as usize;
        if c >= self.mains.len() {
            return false;
        }
        if !self.late_somewhere() {
            return false;
        }
        match &self.mains[c].init {
            Some(init) => {
                if !init.returns_late_resources {
                    false
                } else if init.args.late.len() == 0 {
                    r < self.resources.len() && self.resources[r].late && !self.late_listed(r)
                } else {
                    list_has(&init.args.late, r)
                }
            },
            None => false,
        }
    }
}

/// Decides whether `name` occurs in `list`.
pub fn list_has(list: &Vec<usize>, name: usize) -> (b: bool)
    ensures
        b == list@.contains(name),
{
    let mut i: usize = 0;
    while i < list.len()
        invariant
            i <= list@.len(),
            forall|j: int| 0 <= j < i ==> list@[j] != name,
        decreases list@.len() - i,
    {
        if list[i] == name {
            return true;
        }
        i = i + 1;
    }
    false
}

/// Selects the spawns that take a message slot of `task` on core `sender`.
pub open spec fn feeding(task: usize, sender: u8) -> spec_fn(Access) -> bool {
    |a: Access| feeds(a, task, sender)
}

/// Selects the spawns made on `sender` that are delivered on `receiver` at `priority`.
pub open spec fn routing(app: App, receiver: u8, priority: u8, sender: u8) -> spec_fn(
    Access,
) -> bool {
    |a: Access| app.routed(a, receiver, priority, sender)
}

/// The sum of the capacities of those of the first `n` tasks that are marked.
pub open spec fn capacity_sum(marked: Seq<bool>, tasks: Seq<Task>, n: int) -> int
    decreases n,
{
    if n <= 0 {
        0
    } else {
        capacity_sum(marked, tasks, n - 1) + if marked[n - 1] {
            tasks[n - 1].args.capacity as int
        } else {
            0int
        }
    }
}

/// The ready queue between one sender core and one dispatcher.
#[derive(Debug)]
pub struct Route {
    /// For each task, whether it is dispatched through this route.
    pub tasks: Vec<bool>,
    /// The highest priority of a context that spawns through this route;
    /// `None` when only `init` does.
    pub ceiling: Option<u8>,
}

impl Route {
    /// Whether this is the route from `sender` to the dispatcher of
    /// `priority` on `receiver`.
    pub open spec fn serves(&self, app: App, receiver: u8, priority: u8, sender: u8) -> bool {
        &&& self.tasks@.len() == app.tasks@.len()
        &&& forall|t: int|
            0 <= t < app.tasks@.len() ==> (#[trigger] self.tasks@[t] <==> exists|i: int|
                0 <= i < app.spawns().len() && (#[trigger] app.spawns()[i]).name == t && app.routed(
                    app.spawns()[i],
                    receiver,
                    priority,
                    sender,
                ))
        &&& self.ceiling == ceiling_after(
            app.spawns(),
            app.spawns().len() as int,
            routing(app, receiver, priority, sender),
        )
    }

    /// The number of messages that the ready queue has to hold: the sum of
    /// the capacities of its tasks, or `None` when that exceeds 255.
    pub fn capacity(&self, app: &App) -> (total: Option<u8>)
        requires
            self.tasks@.len() == app.tasks@.len(),
        ensures
            total matches Some(n) ==> n == capacity_sum(
                self.tasks@,
                app.tasks@,
                app.tasks@.len() as int,
            ),
            total is None <==> capacity_sum(self.tasks@, app.tasks@, app.tasks@.len() as int)
                > 255,
    {
        let mut sum: u8 = 0;
        let mut t: usize = 0;
        while t < self.tasks.len()
            invariant
                t <= self.tasks@.len(),
                self.tasks@.len() == app.tasks@.len(),
                sum == capacity_sum(self.tasks@, app.tasks@, t as int),
            decreases self.tasks@.len() - t,
        {
            if self.tasks[t] {
                let cap = app.tasks[t].args.capacity;
                if cap > 255 - sum {
                    proof {
                        capacity_sum_monotonic(
                            self.tasks@,
                            app.tasks@,
                            t as int + 1,
                            app.tasks@.len() as int,
                        );
                    }
                    return None;
                }
                sum = sum + cap;
            }
            t = t + 1;
        }
        Some(sum)
    }
}

/// A capacity sum does not shrink when more tasks are looked at.
pub proof fn capacity_sum_monotonic(marked: Seq<bool>, tasks: Seq<Task>, a: int, b: int)
    requires
        0 <= a <= b,
    ensures
        capacity_sum(marked, tasks, a) <= capacity_sum(marked, tasks, b),
    decreases b - a,
{
    if a < b {
        capacity_sum_monotonic(marked, tasks, a, b - 1);
    }
}

/// What the analysis found out about an application.
#[derive(Debug)]
pub struct Analysis {
    /// Every resource access of the application.
    pub accesses: Vec<Access>,
    /// Every permitted spawn of the application.
    pub spawns: Vec<Access>,
    /// The ownership of each resource; `None` for one that no task accesses.
    pub ownerships: Vec<Option<Ownership>>,
    /// For each core and priority level, the software-generated interrupt
    /// that dispatches the level.
    pub sgis: Vec<Vec<Option<u8>>>,
}

impl Analysis {
    /// Whether this is the analysis of `app`.
    pub open spec fn describes(&self, app: App) -> bool {
        &&& self.accesses@ == app.accesses()
        &&& self.spawns@ == app.spawns()
        &&& self.ownerships@.len() == app.resources@.len()
        &&& forall|r: int|
            0 <= r < app.resources@.len() ==> #[trigger] self.ownerships@[r] == ownership_after(
                app.accesses(),
                app.accesses().len() as int,
                r as usize,
            )
        &&& self.sgis@.len() == app.cores
        &&& forall|c: int|
            0 <= c < app.cores ==> (#[trigger] self.sgis@[c])@.len() == 256
        &&& forall|c: int, p: int|
            0 <= c < app.cores && 0 <= p < 256 ==> (if app.priority_used(c as u8, p) {
                (#[trigger] self.sgis@[c]@[p]) matches Some(s) && sgi_of_level(
                    app.priorities_on(c as u8),
                    app.bound_sgis(),
                    p,
                    s as int,
                )
            } else {
                self.sgis@[c]@[p] is None
            })
    }

    /// Decides whether core `c` touches resource `r`.
    fn core_touches(&self, app: &App, r: usize, c: u8) -> (b: bool)
        requires
            self.accesses@ == app.accesses(),
        ensures
            b == app.touches(r, c),
    {
        let mut i: usize = 0;
        while i < self.accesses.len()
            invariant
                i <= self.accesses@.len(),
                self.accesses@ == app.accesses(),
                forall|j: int|
                    0 <= j < i ==> !((#[trigger] self.accesses@[j]).name == r
                        && self.accesses@[j].core == c),
            decreases self.accesses@.len() - i,
        {
            if self.accesses[i].name == r && self.accesses[i].core == c {
                return true;
            }
            i = i + 1;
        }
        app.initialized_by(c, r)
    }

    /// Where resource `r` lives: `None` for one that no core touches.
    pub fn location(&self, app: &App, r: usize) -> (place: Option<Location>)
        requires
            self.accesses@ == app.accesses(),
        ensures
            place == app.location_of(r),
    {
        let mut first: Option<u8> = None;
        let mut c: usize = 0;
        while c < 256
            invariant
                c <= 256,
                self.accesses@ == app.accesses(),
                first matches Some(c0) ==> c0 < c && app.touches(r, c0),
                forall|k: u8| k < c && #[trigger] app.touches(r, k) ==> first == Some(k),
            decreases 256 - c,
        {
            let core: u8 = c as u8;
            if self.core_touches(app, r, core) {
                match first {
                    Some(c0) => {
                        assert(c0 != core);
                        assert(app.touches(r, c0) && app.touches(r, core));
                        return Some(Location::Shared);
                    },
                    None => {
                        first = Some(core);
                    },
                }
            }
            c = c + 1;
        }
        match first {
            Some(c0) => {
                assert(app.touches(r, c0));
                Some(Location::Core(c0))
            },
            None => None,
        }
    }

    /// Whether core `user` waits for core `initializer` before it reads late
    /// resources.
    pub fn post_rendezvous(&self, app: &App, user: u8, initializer: u8) -> (b: bool)
        requires
            self.accesses@ == app.accesses(),
        ensures
            b == app.awaits_initializer(user, initializer),
    {
        if user == initializer {
            return false;
        }
        let mut i: usize = 0;
        while i < self.accesses.len()
            invariant
                i <= self.accesses@.len(),
                self.accesses@ == app.accesses(),
                user != initializer,
                forall|j: int|
                    0 <= j < i ==> !((#[trigger] self.accesses@[j]).core == user
                        && app.initializes(initializer as int, self.accesses@[j].name)),
            decreases self.accesses@.len() - i,
        {
            if self.accesses[i].core == user && app.initialized_by(
                initializer,
                self.accesses[i].name,
            ) {
                assert(app.accesses()[i as int].core == user && app.initializes(
                    initializer as int,
                    app.accesses()[i as int].name,
                ));
                return true;
            }
            i = i + 1;
        }
        false
    }

    /// Whether core `receiver` waits for core `sender` before it dispatches.
    pub fn pre_rendezvous(&self, app: &App, receiver: u8, sender: u8) -> (b: bool)
        requires
            self.spawns@ == app.spawns(),
        ensures
            b == app.awaits_sender(receiver, sender),
    {
        if receiver == sender {
            return false;
        }
        let mut i: usize = 0;
        while i < self.spawns.len()
            invariant
                i <= self.spawns@.len(),
                self.spawns@ == app.spawns(),
                receiver != sender,
                forall|j: int|
                    0 <= j < i ==> !((#[trigger] self.spawns@[j]).core == sender
                        && self.spawns@[j].name < app.tasks@.len()
                        && app.tasks@[self.spawns@[j].name as int].args.core == receiver),
            decreases self.spawns@.len() - i,
        {
            let a = self.spawns[i];
            if a.core == sender && a.name < app.tasks.len() && app.tasks[a.name].args.core
                == receiver {
                assert(app.spawns()[i as int].core == sender && app.spawns()[i as int].name
                    < app.tasks@.len());
                return true;
            }
            i = i + 1;
        }
        false
    }

    /// The free queue of `task` for spawns from core `sender`: `None` when
    /// no context on that core may spawn the task, else its ceiling, which
    /// is `None` when only `init` spawns it there.
    pub fn free_queue(&self, app: &App, task: usize, sender: u8) -> (queue: Option<Option<u8>>)
        requires
            self.spawns@ == app.spawns(),
        ensures
            queue is Some <==> exists|i: int|
                0 <= i < app.spawns().len() && feeds(#[trigger] app.spawns()[i], task, sender),
            queue matches Some(c) ==> c == ceiling_after(
                app.spawns(),
                app.spawns().len() as int,
                feeding(task, sender),
            ),
    {
        let mut any = false;
        let mut ceiling: Option<u8> = None;
        let mut i: usize = 0;
        while i < self.spawns.len()
            invariant
                i <= self.spawns@.len(),
                self.spawns@ == app.spawns(),
                any <==> exists|j: int| 0 <= j < i && feeds(#[trigger] self.spawns@[j], task, sender),
                ceiling == ceiling_after(self.spawns@, i as int, feeding(task, sender)),
            decreases self.spawns@.len() - i,
        {
            let a = self.spawns[i];
            if a.name == task && a.core == sender {
                any = true;
                match a.priority {
                    Some(p) => {
                        ceiling =
                        match ceiling {
                            None => Some(p),
                            Some(c) => if p > c {
                                Some(p)
                            } else {
                                Some(c)
                            },
                        };
                    },
                    None => {},
                }
            }
            i = i + 1;
        }
        if any {
            Some(ceiling)
        } else {
            None
        }
    }

    /// The route from core `sender` to the dispatcher of `priority` on core
    /// `receiver`. A route without tasks does not exist.
    pub fn route(&self, app: &App, receiver: u8, priority: u8, sender: u8) -> (route: Route)
        requires
            self.spawns@ == app.spawns(),
        ensures
            route.serves(*app, receiver, priority, sender),
    {
        let mut tasks: Vec<bool> = Vec::new();
        let mut t: usize = 0;
        while t < app.tasks.len()
            invariant
                t <= app.tasks@.len(),
                tasks@.len() == t,
                forall|k: int| 0 <= k < t ==> !tasks@[k],
            decreases app.tasks@.len() - t,
        {
            tasks.push(false);
            t = t + 1;
        }
        let mut ceiling: Option<u8> = None;
        let mut i: usize = 0;
        while i < self.spawns.len()
            invariant
                i <= self.spawns@.len(),
                self.spawns@ == app.spawns(),
                tasks@.len() == app.tasks@.len(),
                forall|t: int|
                    0 <= t < app.tasks@.len() ==> (#[trigger] tasks@[t] <==> exists|j: int|
                        0 <= j < i && (#[trigger] self.spawns@[j]).name == t && app.routed(
                            self.spawns@[j],
                            receiver,
                            priority,
                            sender,
                        )),
                ceiling == ceiling_after(
                    self.spawns@,
                    i as int,
                    routing(*app, receiver, priority, sender),
                ),
            decreases self.spawns@.len() - i,
        {
            let a = self.spawns[i];
            let ghost before = tasks@;
            if a.core == sender && a.name < app.tasks.len() && app.tasks[a.name].args.core
                == receiver && app.tasks[a.name].args.priority == priority {
                tasks.set(a.name, true);
                match a.priority {
                    Some(p) => {
                        ceiling =
                        match ceiling {
                            None => Some(p),
                            Some(c) => if p > c {
                                Some(p)
                            } else {
                                Some(c)
                            },
                        };
                    },
                    None => {},
                }
            }
            proof {
                assert forall|t: int| 0 <= t < app.tasks@.len() implies (#[trigger] tasks@[t]
                    <==> exists|j: int|
                    0 <= j < i + 1 && (#[trigger] self.spawns@[j]).name == t && app.routed(
                        self.spawns@[j],
                        receiver,
                        priority,
                        sender,
                    )) by {
                    if tasks@[t] {
                        if before[t] {
                            let j = choose|j: int|
                                0 <= j < i && (#[trigger] self.spawns@[j]).name == t && app.routed(
                                    self.spawns@[j],
                                    receiver,
                                    priority,
                                    sender,
                                );
                            assert(0 <= j < i + 1);
                        } else {
                            assert(self.spawns@[i as int].name == t);
                        }
                    }
                }
            }
            i = i + 1;
        }
        Route { tasks, ceiling }
    }
}

impl App {
    /// The ownership of resource `r`.
    pub open spec fn ownership_of(&self, r: usize) -> Option<Ownership> {
        ownership_after(self.accesses(), self.accesses().len() as int, r)
    }

    /// Whether the messages of task `t` have to be sendable between cores:
    /// some context on another core may spawn it.
    pub open spec fn send_task(&self, t: usize) -> bool {
        exists|i: int|
            0 <= i < self.spawns().len() && (#[trigger] self.spawns()[i]).name == t && self.crosses(
                self.spawns()[i],
            )
    }

    /// Whether the messages of task `t` have to be sendable within a core:
    /// `init`, or a context of another priority on its core, may spawn it.
    pub open spec fn local_send_task(&self, t: usize) -> bool {
        exists|i: int|
            0 <= i < self.spawns().len() && (#[trigger] self.spawns()[i]).name == t
                && self.changes_level(self.spawns()[i])
    }

    /// Whether contexts on two different cores access resource `r`.
    pub open spec fn accessed_across(&self, r: usize) -> bool {
        exists|i: int, j: int|
            0 <= i < self.accesses().len() && 0 <= j < self.accesses().len() && (
            #[trigger] self.accesses()[i]).name == r && (#[trigger] self.accesses()[j]).name == r
                && self.accesses()[i].core != self.accesses()[j].core
    }

    /// Whether `init` accesses resource `r`.
    pub open spec fn accessed_by_init(&self, r: usize) -> bool {
        exists|i: int|
            0 <= i < self.accesses().len() && (#[trigger] self.accesses()[i]).name == r
                && self.accesses()[i].priority is None
    }

    /// Whether the type of resource `r` has to be shareable: two cores read
    /// it, or it is read-only and accessed at two priorities.
    pub open spec fn sync_resource(&self, r: usize) -> bool {
        self.accessed_across(r) || (r < self.resources@.len() && !self.resources@[r as int].mutable
            && self.ownership_of(r) matches Some(Ownership::Shared { .. }))
    }

    /// Whether the type of resource `r` has to be sendable between cores: it
    /// is late and lives in shared memory.
    pub open spec fn send_resource(&self, r: usize) -> bool {
        r < self.resources@.len() && self.resources@[r as int].late && self.location_of(r) == Some(
            Location::Shared,
        )
    }

    /// Whether the type of resource `r` has to be sendable within a core: it
    /// is not owned by `idle`, and it is late and lives with one core, or
    /// `init` shares it with a task.
    pub open spec fn local_send_resource(&self, r: usize) -> bool {
        &&& r < self.resources@.len()
        &&& self.ownership_of(r) != Some(Ownership::Owned { priority: 0 })
        &&& ((self.resources@[r as int].late && self.location_of(r) matches Some(
            Location::Core(_),
        )) || (self.ownership_of(r) is Some && self.accessed_by_init(r)))
    }
}

impl Analysis {
    /// Whether the messages of task `t` have to be sendable between cores.
    pub fn task_needs_send(&self, app: &App, t: usize) -> (b: bool)
        requires
            self.spawns@ == app.spawns(),
        ensures
            b == app.send_task(t),
    {
        let mut i: usize = 0;
        while i < self.spawns.len()
            invariant
                i <= self.spawns@.len(),
                self.spawns@ == app.spawns(),
                forall|j: int|
                    0 <= j < i ==> !((#[trigger] self.spawns@[j]).name == t && app.crosses(
                        self.spawns@[j],
                    )),
            decreases self.spawns@.len() - i,
        {
            let a = self.spawns[i];
            if a.name == t && a.name < app.tasks.len() && app.tasks[a.name].args.core != a.core {
                assert(app.spawns()[i as int].name == t && app.crosses(app.spawns()[i as int]));
                return true;
            }
            i = i + 1;
        }
        false
    }

    /// Whether the messages of task `t` have to be sendable within a core.
    pub fn task_needs_local_send(&self, app: &App, t: usize) -> (b: bool)
        requires
            self.spawns@ == app.spawns(),
        ensures
            b == app.local_send_task(t),
    {
        let mut i: usize = 0;
        while i < self.spawns.len()
            invariant
                i <= self.spawns@.len(),
                self.spawns@ == app.spawns(),
                forall|j: int|
                    0 <= j < i ==> !((#[trigger] self.spawns@[j]).name == t && app.changes_level(
                        self.spawns@[j],
                    )),
            decreases self.spawns@.len() - i,
        {
            let a = self.spawns[i];
            if a.name == t && a.name < app.tasks.len() && app.tasks[a.name].args.core == a.core {
                let same = match a.priority {
                    Some(p) => p == app.tasks[a.name].args.priority,
                    None => false,
                };
                if !same {
                    assert(app.spawns()[i as int].name == t && app.changes_level(
                        app.spawns()[i as int],
                    ));
                    return true;
                }
            }
            i = i + 1;
        }
        false
    }

    /// Decides whether contexts on two different cores access resource `r`.
    fn crosses_cores(&self, app: &App, r: usize) -> (b: bool)
        requires
            self.accesses@ == app.accesses(),
        ensures
            b == app.accessed_across(r),
    {
        let mut first: Option<u8> = None;
        let mut i: usize = 0;
        while i < self.accesses.len()
            invariant
                i <= self.accesses@.len(),
                self.accesses@ == app.accesses(),
                first matches Some(c0) ==> exists|j: int|
                    0 <= j < i && (#[trigger] self.accesses@[j]).name == r && self.accesses@[j].core
                        == c0,
                forall|j: int|
                    0 <= j < i && (#[trigger] self.accesses@[j]).name == r ==> first == Some(
                        self.accesses@[j].core,
                    ),
            decreases self.accesses@.len() - i,
        {
            let a = self.accesses[i];
            if a.name == r {
                match first {
                    Some(c0) => {
                        if c0 != a.core {
                            proof {
                                let j = choose|j: int|
                                    0 <= j < i && (#[trigger] self.accesses@[j]).name == r
                                        && self.accesses@[j].core == c0;
                                assert(app.accesses()[j].name == r && app.accesses()[i as int].name
                                    == r && app.accesses()[i as int].core != app.accesses()[j].core);
                            }
                            return true;
                        }
                    },
                    None => {
                        first = Some(a.core);
                    },
                }
            }
            i = i + 1;
        }
        proof {
            assert forall|i: int, j: int|
                0 <= i < app.accesses().len() && 0 <= j < app.accesses().len() && (
                #[trigger] app.accesses()[i]).name == r && (#[trigger] app.accesses()[j]).name
                    == r implies app.accesses()[i].core == app.accesses()[j].core by {
                assert(first == Some(self.accesses@[i].core));
                assert(first == Some(self.accesses@[j].core));
            }
        }
        false
    }

    /// Decides whether `init` accesses resource `r`.
    fn seen_by_init(&self, app: &App, r: usize) -> (b: bool)
        requires
            self.accesses@ == app.accesses(),
        ensures
            b == app.accessed_by_init(r),
    {
        let mut i: usize = 0;
        while i < self.accesses.len()
            invariant
                i <= self.accesses@.len(),
                self.accesses@ == app.accesses(),
                forall|j: int|
                    0 <= j < i ==> !((#[trigger] self.accesses@[j]).name == r
                        && self.accesses@[j].priority is None),
            decreases self.accesses@.len() - i,
        {
            if self.accesses[i].name == r && self.accesses[i].priority.is_none() {
                assert(app.accesses()[i as int].name == r);
                return true;
            }
            i = i + 1;
        }
        false
    }

    /// Whether the type of resource `r` has to be shareable.
    pub fn resource_needs_sync(&self, app: &App, r: usize) -> (b: bool)
        requires
            self.describes(*app),
        ensures
            b == app.sync_resource(r),
    {
        if self.crosses_cores(app, r) {
            return true;
        }
        if r >= app.resources.len() || app.resources[r].mutable {
            return false;
        }
        assert(self.ownerships@[r as int] == app.ownership_of(r));
        match self.ownerships[r] {
            Some(Ownership::Shared { .. }) => true,
            _ => false,
        }
    }

    /// Whether the type of resource `r` has to be sendable between cores.
    pub fn resource_needs_send(&self, app: &App, r: usize) -> (b: bool)
        requires
            self.describes(*app),
        ensures
            b == app.send_resource(r),
    {
        if r >= app.resources.len() || !app.resources[r].late {
            return false;
        }
        match self.location(app, r) {
            Some(Location::Shared) => true,
            _ => false,
        }
    }

    /// Whether the type of resource `r` has to be sendable within a core.
    pub fn resource_needs_local_send(&self, app: &App, r: usize) -> (b: bool)
        requires
            self.describes(*app),
        ensures
            b == app.local_send_resource(r),
    {
        if r >= app.resources.len() {
            return false;
        }
        assert(self.ownerships@[r as int] == app.ownership_of(r));
        let owner = self.ownerships[r];
        match owner {
            Some(Ownership::Owned { priority }) => {
                if priority == 0 {
                    return false;
                }
            },
            _ => {},
        }
        if app.resources[r].late {
            match self.location(app, r) {
                Some(Location::Core(_)) => {
                    return true;
                },
                _ => {},
            }
        }
        owner.is_some() && self.seen_by_init(app, r)
    }
}

/// Analyzes a checked application: lists its accesses and spawns, finds the
/// ownership of every resource, and gives every priority level of every core
/// its software-generated interrupt.
pub fn app(description: &App) -> (analysis: Analysis)
    requires
        description.wf(),
        description.accepted(),
    ensures
        analysis.describes(*description),
{
    let accesses = description.resource_accesses();
    let spawns = description.spawn_calls();
    let owners = ownerships(&accesses, description.resources.len());
    let claimed = description.sgi_table();
    let mut sgis: Vec<Vec<Option<u8>>> = Vec::new();
    let mut core: u8 = 0;
    while core < description.cores
        invariant
            core <= description.cores,
            description.accepted(),
            claimed@ == description.bound_sgis(),
            sgis@.len() == core,
            forall|c: int| 0 <= c < core ==> (#[trigger] sgis@[c])@.len() == 256,
            forall|c: int, p: int|
                0 <= c < core && 0 <= p < 256 ==> (if description.priority_used(c as u8, p) {
                    (#[trigger] sgis@[c]@[p]) matches Some(s) && sgi_of_level(
                        description.priorities_on(c as u8),
                        description.bound_sgis(),
                        p,
                        s as int,
                    )
                } else {
                    sgis@[c]@[p] is None
                }),
        decreases description.cores - core,
    {
        let levels = description.priority_table(core);
        assert(description.dispatchers_fit(core));
        let table = assign_sgis(&levels, &claimed);
        proof {
            assert forall|p: int| 0 <= p < 256 implies (if description.priority_used(core, p) {
                (#[trigger] table@[p]) matches Some(s) && sgi_of_level(
                    description.priorities_on(core),
                    description.bound_sgis(),
                    p,
                    s as int,
                )
            } else {
                table@[p] is None
            }) by {
                assert(levels@[p] == description.priority_used(core, p));
            }
        }
        sgis.push(table);
        core = core + 1;
    }
    Analysis { accesses, spawns, ownerships: owners, sgis }
}

} // verus!
