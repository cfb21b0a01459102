//! Message passing between the contexts of one sender core and the
//! dispatcher of one priority level.
//!
//! Every task of the dispatcher has a fixed number of message slots. A free
//! queue holds the indices of its idle slots; the ready queue holds, in the
//! order of the spawns, a token (task tag, slot index) for every message that
//! waits to be delivered. A slot is idle, reserved by a spawn that is under
//! way, pending with a message, or running while its message is handed over.

use crate::export::{hw_priority, lock, run_enter, run_exit, unlock, Priority, ICC};
use crate::gic::{sgir_word, Target, ICD};
use crate::queue::{
    index_items, index_queue_dequeue, index_queue_enqueue, index_queue_new, token_items,
    token_queue_dequeue, token_queue_enqueue, token_queue_new,
};
use crate::syntax::MAX_PRIORITY;
use vstd::prelude::*;

verus! {

/// The states of a message slot.
pub enum Slot<T> {
    /// Empty; its index is in the free queue.
    Idle,
    /// Taken out of the free queue; the message is being written.
    Reserved,
    /// Holds a message; its index is in the ready queue.
    Pending(T),
    /// The message was read; the index is on its way back to the free queue.
    Running,
}

impl<T> Slot<T> {
    /// Whether the slot is in neither queue.
    pub open spec fn in_flight(self) -> bool {
        self is Reserved || self is Running
    }

    /// The message of a pending slot.
    pub open spec fn payload(self) -> T {
        match self {
            Slot::Pending(message) => message,
            _ => arbitrary(),
        }
    }
}

/// The number of slots in flight among the first `n`.
pub open spec fn flying<T>(slots: Seq<Slot<T>>, n: int) -> int
    decreases n,
{
    if n <= 0 {
        0
    } else {
        flying(slots, n - 1) + if slots[n - 1].in_flight() {
            1int
        } else {
            0int
        }
    }
}

proof fn flying_after_update<T>(slots: Seq<Slot<T>>, k: int, v: Slot<T>, n: int)
    requires
        0 <= k < slots.len(),
        0 <= n <= slots.len(),
    ensures
        flying(slots.update(k, v), n) == flying(slots, n) + if k < n {
            (if v.in_flight() {
                1int
            } else {
                0int
            }) - (if slots[k].in_flight() {
                1int
            } else {
                0int
            })
        } else {
            0int
        },
    decreases n,
{
    if n > 0 {
        flying_after_update(slots, k, v, n - 1);
    }
}

proof fn flying_bounds<T>(slots: Seq<Slot<T>>, n: int, k: int)
    ensures
        flying(slots, n) >= 0,
        0 <= k < n && slots[k].in_flight() ==> flying(slots, n) >= 1,
    decreases n,
{
    if n > 0 {
        flying_bounds(slots, n - 1, k);
    }
}

/// The message slots of one task and the queue of its free slot indices.
pub struct Mailbox<T> {
    pub free: heapless::spsc::Queue<u8, 256>,
    pub slots: Vec<Slot<T>>,
}

impl<T> Mailbox<T> {
    /// The indices of the idle slots, next to be taken first.
    pub open spec fn free_indices(&self) -> Seq<u8> {
        index_items(self.free)
    }

    /// The number of slots in flight.
    pub open spec fn in_flight(&self) -> int {
        flying(self.slots@, self.slots@.len() as int)
    }

    /// Between 1 and 255 slots; the free queue holds the indices of the
    /// idle slots, each once, and nothing else.
    pub open spec fn wf(&self) -> bool {
        &&& 1 <= self.slots@.len() <= 255
        &&& self.free_indices().no_duplicates()
        &&& forall|j: int|
            0 <= j < self.free_indices().len() ==> (#[trigger] self.free_indices()[j])
                < self.slots@.len() && self.slots@[self.free_indices()[j] as int] is Idle
        &&& forall|k: int|
            0 <= k < self.slots@.len() && (#[trigger] self.slots@[k]) is Idle
                ==> self.free_indices().contains(k as u8)
    }
}

/// The number of free slots of the first `n` mailboxes.
pub open spec fn free_total<T>(boxes: Seq<Mailbox<T>>, n: int) -> int
    decreases n,
{
    if n <= 0 {
        0
    } else {
        free_total(boxes, n - 1) + boxes[n - 1].free_indices().len()
    }
}

/// The number of slots in flight of the first `n` mailboxes.
pub open spec fn flying_total<T>(boxes: Seq<Mailbox<T>>, n: int) -> int
    decreases n,
{
    if n <= 0 {
        0
    } else {
        flying_total(boxes, n - 1) + boxes[n - 1].in_flight()
    }
}

/// The number of slots of the first `n` mailboxes.
pub open spec fn slot_total<T>(boxes: Seq<Mailbox<T>>, n: int) -> int
    decreases n,
{
    if n <= 0 {
        0
    } else {
        slot_total(boxes, n - 1) + boxes[n - 1].slots@.len()
    }
}

/// The sum of the first `n` capacities.
pub open spec fn capacity_total(capacities: Seq<u8>, n: int) -> int
    decreases n,
{
    if n <= 0 {
        0
    } else {
        capacity_total(capacities, n - 1) + capacities[n - 1]
    }
}

/// The number of tokens with the tag `tag` among the first `n`.
pub open spec fn waiting(tokens: Seq<(u8, u8)>, tag: int, n: int) -> int
    decreases n,
{
    if n <= 0 {
        0
    } else {
        waiting(tokens, tag, n - 1) + if tokens[n - 1].0 == tag {
            1int
        } else {
            0int
        }
    }
}

proof fn waiting_of_prefix(a: Seq<(u8, u8)>, b: Seq<(u8, u8)>, tag: int, n: int)
    requires
        0 <= n <= a.len(),
        n <= b.len(),
        forall|i: int| 0 <= i < n ==> a[i] == b[i],
    ensures
        waiting(a, tag, n) == waiting(b, tag, n),
    decreases n,
{
    if n > 0 {
        waiting_of_prefix(a, b, tag, n - 1);
    }
}

proof fn waiting_without_first(tokens: Seq<(u8, u8)>, tag: int, n: int)
    requires
        1 <= n <= tokens.len(),
    ensures
        waiting(tokens.drop_first(), tag, n - 1) == waiting(tokens, tag, n) - if tokens[0].0 == tag {
            1int
        } else {
            0int
        },
    decreases n,
{
    if n > 1 {
        waiting_without_first(tokens, tag, n - 1);
        assert(tokens.drop_first()[n - 2] == tokens[n - 1]);
    } else {
        assert(waiting(tokens, tag, 0) == 0);
        assert(waiting(tokens.drop_first(), tag, 0) == 0);
    }
}

proof fn waiting_positive(tokens: Seq<(u8, u8)>, tag: int, n: int)
    ensures
        waiting(tokens, tag, n) >= 0,
    decreases n,
{
    if n > 0 {
        waiting_positive(tokens, tag, n - 1);
    }
}

proof fn totals_positive<T>(boxes: Seq<Mailbox<T>>, n: int)
    ensures
        free_total(boxes, n) >= 0,
        flying_total(boxes, n) >= 0,
    decreases n,
{
    if n > 0 {
        totals_positive(boxes, n - 1);
        flying_bounds(boxes[n - 1].slots@, boxes[n - 1].slots@.len() as int, 0);
    }
}

proof fn totals_after_change<T>(before: Seq<Mailbox<T>>, after: Seq<Mailbox<T>>, at: int, n: int)
    requires
        before.len() == after.len(),
        0 <= at < before.len(),
        0 <= n <= before.len(),
        forall|k: int|
            0 <= k < before.len() && k != at ==> (#[trigger] after[k]).free_indices()
                == before[k].free_indices() && after[k].slots@ == before[k].slots@,
        after[at].slots@.len() == before[at].slots@.len(),
    ensures
        slot_total(after, n) == slot_total(before, n),
        free_total(after, n) == free_total(before, n) + if at < n {
            after[at].free_indices().len() - before[at].free_indices().len()
        } else {
            0
        },
        flying_total(after, n) == flying_total(before, n) + if at < n {
            after[at].in_flight() - before[at].in_flight()
        } else {
            0
        },
        free_total(before, n) >= if at < n {
            before[at].free_indices().len() as int
        } else {
            0
        },
        flying_total(before, n) >= if at < n {
            before[at].in_flight()
        } else {
            0
        },
    decreases n,
{
    if n > 0 {
        totals_after_change(before, after, at, n - 1);
        if n - 1 != at {
            assert(after[n - 1].free_indices() == before[n - 1].free_indices());
            assert(after[n - 1].slots@ == before[n - 1].slots@);
        }
        totals_positive(before, n - 1);
        flying_bounds(before[n - 1].slots@, before[n - 1].slots@.len() as int, 0);
    }
}

/// The ready queue of one route and the mailboxes of its tasks. A task's
/// tag is the position of its mailbox.
pub struct Channel<T> {
    pub ready: heapless::spsc::Queue<(u8, u8), 256>,
    pub boxes: Vec<Mailbox<T>>,
}

impl<T> Channel<T> {
    /// The tokens of the waiting messages, oldest first.
    pub open spec fn tokens(&self) -> Seq<(u8, u8)> {
        token_items(self.ready)
    }

    /// The slot that `token` names.
    pub open spec fn slot(&self, token: (u8, u8)) -> Slot<T> {
        self.boxes@[token.0 as int].slots@[token.1 as int]
    }

    /// The waiting messages, oldest first, each with the tag of its task.
    pub open spec fn pending(&self) -> Seq<(u8, T)> {
        Seq::new(
            self.tokens().len(),
            |i: int| (self.tokens()[i].0, self.slot(self.tokens()[i]).payload()),
        )
    }

    /// The free slot indices of the task `tag`.
    pub open spec fn free_indices(&self, tag: int) -> Seq<u8> {
        self.boxes@[tag].free_indices()
    }

    /// The number of slots of the task `tag`.
    pub open spec fn capacity(&self, tag: int) -> nat {
        self.boxes@[tag].slots@.len()
    }

    /// The number of messages that wait for the task `tag`.
    pub open spec fn outstanding(&self, tag: int) -> int {
        waiting(self.tokens(), tag, self.tokens().len() as int)
    }

    /// The number of slots of the task `tag` that are in flight.
    pub open spec fn in_flight(&self, tag: int) -> int {
        self.boxes@[tag].in_flight()
    }

    /// Whether slot `k` of task `b`, if it is pending, has its token queued.
    pub open spec fn placed(&self, b: int, k: int) -> bool {
        self.boxes@[b].slots@[k] is Pending ==> self.tokens().contains((b as u8, k as u8))
    }

    /// Whether the free slots of task `b`, the messages that wait for it
    /// and its slots in flight make up its capacity.
    pub open spec fn balanced(&self, b: int) -> bool {
        self.free_indices(b).len() + self.outstanding(b) + self.in_flight(b) == self.capacity(b)
    }

    /// At most 256 tasks with at most 255 slots in all. The free queue of a
    /// task holds exactly its idle slots and the ready queue exactly the
    /// pending slots, each once: every slot is in one queue or in flight,
    /// and no token names a slot that does not exist.
    pub open spec fn wf(&self) -> bool {
        &&& self.boxes@.len() <= 256
        &&& forall|b: int| 0 <= b < self.boxes@.len() ==> (#[trigger] self.boxes@[b]).wf()
        &&& self.tokens().no_duplicates()
        &&& forall|i: int|
            0 <= i < self.tokens().len() ==> {
                &&& (#[trigger] self.tokens()[i]).0 < self.boxes@.len()
                &&& self.tokens()[i].1 < self.capacity(self.tokens()[i].0 as int)
                &&& self.slot(self.tokens()[i]) is Pending
            }
        &&& forall|b: int, k: int|
            0 <= b < self.boxes@.len() && 0 <= k < self.capacity(b) ==> #[trigger] self.placed(b, k)
        &&& forall|b: int| 0 <= b < self.boxes@.len() ==> #[trigger] self.balanced(b)
        &&& free_total(self.boxes@, self.boxes@.len() as int) + self.tokens().len() + flying_total(
            self.boxes@,
            self.boxes@.len() as int,
        ) == slot_total(self.boxes@, self.boxes@.len() as int)
        &&& slot_total(self.boxes@, self.boxes@.len() as int) <= 255
    }

    /// Whether `capacities` can make a channel: at most 256 tasks, each with
    /// at least one slot, and at most 255 slots in all.
    pub open spec fn fits(capacities: Seq<u8>) -> bool {
        &&& capacities.len() <= 256
        &&& forall|b: int| 0 <= b < capacities.len() ==> capacities[b] >= 1
        &&& capacity_total(capacities, capacities.len() as int) <= 255
    }

    /// Whether `other` has the same queues and slots.
    pub open spec fn same_as(&self, other: Channel<T>) -> bool {
        &&& self.boxes@.len() == other.boxes@.len()
        &&& self.tokens() == other.tokens()
        &&& forall|b: int|
            0 <= b < self.boxes@.len() ==> (#[trigger] self.boxes@[b]).free_indices()
                == other.boxes@[b].free_indices() && self.boxes@[b].slots@ == other.boxes@[b].slots@
    }

    /// Number of tasks.
    pub fn tasks(&self) -> (n: usize)
        ensures
            n == self.boxes@.len(),
    {
        self.boxes.len()
    }
}

proof fn wf_transfers<T>(before: Channel<T>, after: Channel<T>)
    requires
        before.wf(),
        after.same_as(before),
    ensures
        after.wf(),
        after.pending() == before.pending(),
{
    let n = before.boxes@.len() as int;
    assert forall|b: int| 0 <= b < after.boxes@.len() implies (#[trigger] after.boxes@[b]).wf() by {
        assert(before.boxes@[b].wf());
        assert(after.boxes@[b].free_indices() == before.boxes@[b].free_indices());
    }
    assert forall|i: int| 0 <= i < after.tokens().len() implies {
        &&& (#[trigger] after.tokens()[i]).0 < after.boxes@.len()
        &&& after.tokens()[i].1 < after.capacity(after.tokens()[i].0 as int)
        &&& after.slot(after.tokens()[i]) is Pending
    } by {
        let t = before.tokens()[i];
        assert(before.slot(t) is Pending);
        assert(after.boxes@[t.0 as int].slots@ == before.boxes@[t.0 as int].slots@);
    }
    assert forall|b: int, k: int|
        0 <= b < after.boxes@.len() && 0 <= k < after.capacity(b) implies #[trigger] after.placed(
        b,
        k,
    ) by {
        assert(after.boxes@[b].slots@ == before.boxes@[b].slots@);
        assert(before.placed(b, k));
    }
    assert forall|b: int| 0 <= b < after.boxes@.len() implies #[trigger] after.balanced(b) by {
        assert(after.boxes@[b].slots@ == before.boxes@[b].slots@);
        assert(before.balanced(b));
    }
    if n > 0 {
        totals_after_change(before.boxes@, after.boxes@, 0, n);
        assert(after.boxes@[0].slots@ == before.boxes@[0].slots@);
    }
    assert(after.pending() =~= before.pending()) by {
        assert forall|i: int| 0 <= i < before.tokens().len() implies after.slot(after.tokens()[i])
            == before.slot(before.tokens()[i]) by {
            let t = before.tokens()[i];
            assert(t.0 < before.boxes@.len());
            assert(after.boxes@[t.0 as int].slots@ == before.boxes@[t.0 as int].slots@);
        }
    }
}

impl<T> Channel<T> {
    /// Takes a free slot of the task `tag` out of its free queue: the slot
    /// is reserved for the caller. `None` when the task has no free slot;
    /// nothing changes then.
    pub fn reserve(&mut self, tag: u8) -> (r: Option<u8>)
        requires
            old(self).wf(),
            tag < old(self).boxes@.len(),
        ensures
            final(self).wf(),
            final(self).boxes@.len() == old(self).boxes@.len(),
            final(self).tokens() == old(self).tokens(),
            final(self).pending() == old(self).pending(),
            forall|b: int|
                0 <= b < old(self).boxes@.len() && b != tag ==> (#[trigger] final(self).boxes@[b]).free_indices()
                    == old(self).boxes@[b].free_indices() && final(self).boxes@[b].slots@ == old(self).boxes@[b].slots@,
            r is None <==> old(self).free_indices(tag as int).len() == 0,
            r is None ==> final(self).same_as(*old(self)),
            r matches Some(index) ==> {
                &&& index == old(self).free_indices(tag as int)[0]
                &&& final(self).free_indices(tag as int) == old(self).free_indices(
                    tag as int,
                ).drop_first()
                &&& index < old(self).capacity(tag as int)
                &&& final(self).boxes@[tag as int].slots@ == old(self).boxes@[tag as int].slots@.update(
                    index as int,
                    Slot::Reserved,
                )
            },
    {
        let ghost before = *self;
        let at: usize = tag as usize;
        let mut mailbox = self.boxes.remove(at);
        let ghost free0 = mailbox.free_indices();
        let ghost slots0 = mailbox.slots@;
        assert(mailbox == before.boxes@[at as int]);
        assert(mailbox.wf());
        match index_queue_dequeue(&mut mailbox.free) {
            None => {
                self.boxes.insert(at, mailbox);
                proof {
                    assert forall|b: int| 0 <= b < self.boxes@.len() implies (
                    #[trigger] self.boxes@[b]).free_indices() == before.boxes@[b].free_indices()
                        && self.boxes@[b].slots@ == before.boxes@[b].slots@ by {}
                    wf_transfers(before, *self);
                }
                None
            },
            Some(index) => {
                let slot: usize = index as usize;
                assert(index == free0[0]);
                mailbox.slots.set(slot, Slot::Reserved);
                self.boxes.insert(at, mailbox);
                proof {
                    let free1 = free0.drop_first();
                    let slots1 = slots0.update(slot as int, Slot::<T>::Reserved);
                    assert(self.boxes@.len() == before.boxes@.len());
                    assert forall|k: int|
                        0 <= k < before.boxes@.len() && k != at implies #[trigger] self.boxes@[k]
                        == before.boxes@[k] by {}
                    assert(self.boxes@[at as int].free_indices() == free1);
                    assert(self.boxes@[at as int].slots@ == slots1);
                    assert(slots0[slot as int] is Idle);
                    assert forall|j: int| 0 <= j < free1.len() implies (#[trigger] free1[j])
                        < slots1.len() && slots1[free1[j] as int] is Idle by {
                        assert(free1[j] == free0[j + 1]);
                        assert(free0[j + 1] != free0[0]);
                    }
                    assert(free1.no_duplicates()) by {
                        assert forall|i: int, j: int|
                            0 <= i < free1.len() && 0 <= j < free1.len() && i != j implies free1[i]
                            != free1[j] by {
                            assert(free1[i] == free0[i + 1]);
                            assert(free1[j] == free0[j + 1]);
                        }
                    }
                    assert forall|k: int|
                        0 <= k < slots1.len() && (#[trigger] slots1[k]) is Idle implies free1.contains(
                        k as u8,
                    ) by {
                        assert(slots0[k] is Idle);
                        let j = choose|j: int| 0 <= j < free0.len() && free0[j] == k as u8;
                        assert(j != 0);
                        assert(free1[j - 1] == k as u8);
                    }
                    assert(self.boxes@[at as int].wf());
                    assert forall|b: int| 0 <= b < self.boxes@.len() implies (
                    #[trigger] self.boxes@[b]).wf() by {
                        if b != at {
                            assert(self.boxes@[b] == before.boxes@[b]);
                        }
                    }
                    assert forall|i: int| 0 <= i < self.tokens().len() implies {
                        &&& (#[trigger] self.tokens()[i]).0 < self.boxes@.len()
                        &&& self.tokens()[i].1 < self.capacity(self.tokens()[i].0 as int)
                        &&& self.slot(self.tokens()[i]) is Pending
                        &&& self.slot(self.tokens()[i]) == before.slot(before.tokens()[i])
                    } by {
                        assert(before.slot(before.tokens()[i]) is Pending);
                    }
                    assert forall|b: int, k: int|
                        0 <= b < self.boxes@.len() && 0 <= k < self.capacity(
                            b,
                        ) implies #[trigger] self.placed(b, k) by {
                        assert(before.placed(b, k));
                    }
                    flying_after_update(slots0, slot as int, Slot::<T>::Reserved, slots0.len() as int);
                    assert forall|b: int| 0 <= b < self.boxes@.len() implies #[trigger] self.balanced(
                        b,
                    ) by {
                        assert(before.balanced(b));
                    }
                    totals_after_change(
                        before.boxes@,
                        self.boxes@,
                        at as int,
                        before.boxes@.len() as int,
                    );
                    assert(self.pending() =~= before.pending());
                }
                Some(index)
            },
        }
    }

    /// Writes `input` into the reserved slot `index` of the task `tag` and
    /// queues its token behind those that wait. The input comes back, and
    /// nothing changes, when that slot is not reserved.
    pub fn publish(&mut self, tag: u8, index: u8, input: T) -> (r: Result<(), T>)
        requires
            old(self).wf(),
        ensures
            final(self).wf(),
            final(self).boxes@.len() == old(self).boxes@.len(),
            r is Ok <==> tag < old(self).boxes@.len() && index < old(self).capacity(tag as int)
                && old(self).slot((tag, index)) is Reserved,
            r matches Err(back) ==> back == input && final(self).same_as(*old(self))
                && final(self).pending() == old(self).pending(),
            r is Ok ==> {
                &&& final(self).pending() == old(self).pending().push((tag, input))
                &&& final(self).tokens() == old(self).tokens().push((tag, index))
                &&& forall|b: int|
                    0 <= b < old(self).boxes@.len() ==> (#[trigger] final(self).boxes@[b]).free_indices()
                        == old(self).boxes@[b].free_indices()
                &&& forall|b: int|
                    0 <= b < old(self).boxes@.len() && b != tag ==> (#[trigger] final(self).boxes@[b]).slots@ == old(self).boxes@[b].slots@
                &&& final(self).boxes@[tag as int].slots@ == old(self).boxes@[tag as int].slots@.update(
                    index as int,
                    Slot::Pending(input),
                )
            },
    {
        let ghost before = *self;
        let at: usize = tag as usize;
        let slot: usize = index as usize;
        if at >= self.boxes.len() {
            proof {
                wf_transfers(before, *self);
            }
            return Err(input);
        }
        let mut mailbox = self.boxes.remove(at);
        let ghost free0 = mailbox.free_indices();
        let ghost slots0 = mailbox.slots@;
        assert(mailbox == before.boxes@[at as int]);
        assert(mailbox.wf());
        let reserved = slot < mailbox.slots.len() && match &mailbox.slots[slot] {
            Slot::Reserved => true,
            _ => false,
        };
        if !reserved {
            self.boxes.insert(at, mailbox);
            proof {
                assert(self.boxes@ =~= before.boxes@);
                wf_transfers(before, *self);
            }
            return Err(input);
        }
        mailbox.slots.set(slot, Slot::Pending(input));
        self.boxes.insert(at, mailbox);
        proof {
            assert forall|k: int|
                0 <= k < before.boxes@.len() && k != at implies (#[trigger] self.boxes@[k]).free_indices()
                == before.boxes@[k].free_indices() && self.boxes@[k].slots@
                == before.boxes@[k].slots@ by {}
            flying_bounds(slots0, slots0.len() as int, slot as int);
            totals_after_change(
                before.boxes@,
                self.boxes@,
                at as int,
                before.boxes@.len() as int,
            );
            assert(before.tokens().len() < 255);
        }
        let rejected = token_queue_enqueue(&mut self.ready, (tag, index));
        proof {
            let token = (tag, index);
            let slots1 = slots0.update(slot as int, Slot::Pending(input));
            assert(rejected.is_none());
            assert(self.boxes@.len() == before.boxes@.len());
            assert forall|k: int|
                0 <= k < before.boxes@.len() && k != at implies #[trigger] self.boxes@[k]
                == before.boxes@[k] by {}
            assert(self.boxes@[at as int].free_indices() == free0);
            assert(self.boxes@[at as int].slots@ == slots1);
            assert(self.tokens() == before.tokens().push(token));
            assert forall|i: int| 0 <= i < before.tokens().len() implies before.tokens()[i]
                != token by {
                assert(before.slot(before.tokens()[i]) is Pending);
            }
            assert(self.tokens().no_duplicates());
            assert forall|j: int| 0 <= j < free0.len() implies (#[trigger] free0[j]) < slots1.len()
                && slots1[free0[j] as int] is Idle by {
                assert(slots0[free0[j] as int] is Idle);
            }
            assert forall|k: int|
                0 <= k < slots1.len() && (#[trigger] slots1[k]) is Idle implies free0.contains(
                k as u8,
            ) by {
                assert(slots0[k] is Idle);
            }
            assert(self.boxes@[at as int].wf());
            assert forall|b: int| 0 <= b < self.boxes@.len() implies (#[trigger] self.boxes@[b]).wf() by {
                if b != at {
                    assert(self.boxes@[b] == before.boxes@[b]);
                }
            }
            assert forall|i: int| 0 <= i < self.tokens().len() implies {
                &&& (#[trigger] self.tokens()[i]).0 < self.boxes@.len()
                &&& self.tokens()[i].1 < self.capacity(self.tokens()[i].0 as int)
                &&& self.slot(self.tokens()[i]) is Pending
            } by {
                if i < before.tokens().len() {
                    assert(self.tokens()[i] == before.tokens()[i]);
                    assert(before.slot(before.tokens()[i]) is Pending);
                    assert(before.tokens()[i] != token);
                    assert(self.slot(self.tokens()[i]) == before.slot(before.tokens()[i]));
                }
            }
            assert forall|b: int, k: int|
                0 <= b < self.boxes@.len() && 0 <= k < self.capacity(
                    b,
                ) implies #[trigger] self.placed(b, k) by {
                assert(before.placed(b, k));
                if b == at && k == index {
                    assert(self.tokens()[before.tokens().len() as int] == token);
                } else if self.boxes@[b].slots@[k] is Pending {
                    let i = choose|i: int|
                        0 <= i < before.tokens().len() && before.tokens()[i] == (b as u8, k as u8);
                    assert(self.tokens()[i] == (b as u8, k as u8));
                }
            }
            flying_after_update(slots0, slot as int, Slot::Pending(input), slots0.len() as int);
            assert forall|b: int| 0 <= b < self.boxes@.len() implies #[trigger] self.balanced(b) by {
                assert(before.balanced(b));
                waiting_of_prefix(self.tokens(), before.tokens(), b, before.tokens().len() as int);
                assert(self.tokens()[before.tokens().len() as int] == token);
            }
            assert(self.pending() =~= before.pending().push((tag, input))) by {
                assert forall|i: int| 0 <= i < before.tokens().len() implies self.slot(
                    self.tokens()[i],
                ) == before.slot(before.tokens()[i]) by {
                    assert(self.tokens()[i] == before.tokens()[i]);
                    assert(before.tokens()[i] != token);
                    assert(before.tokens()[i].0 < before.boxes@.len());
                }
            }
        }
        Ok(())
    }

    /// Takes the token of the oldest waiting message out of the ready queue
    /// and reads the message out of its slot, which is running from then on:
    /// hands out the tag, the slot index and the message. `None` when no
    /// message waits; nothing changes then.
    pub fn take(&mut self) -> (r: Option<(u8, u8, T)>)
        requires
            old(self).wf(),
        ensures
            final(self).wf(),
            final(self).boxes@.len() == old(self).boxes@.len(),
            r is None <==> old(self).tokens().len() == 0,
            r is None ==> final(self).same_as(*old(self)) && final(self).pending() == old(self).pending(),
            r matches Some(taken) ==> {
                &&& (taken.0, taken.1) == old(self).tokens()[0]
                &&& (taken.0, taken.2) == old(self).pending()[0]
                &&& final(self).tokens() == old(self).tokens().drop_first()
                &&& final(self).pending() == old(self).pending().drop_first()
                &&& taken.0 < old(self).boxes@.len()
                &&& taken.1 < old(self).capacity(taken.0 as int)
                &&& forall|b: int|
                    0 <= b < old(self).boxes@.len() ==> (#[trigger] final(self).boxes@[b]).free_indices()
                        == old(self).boxes@[b].free_indices()
                &&& forall|b: int|
                    0 <= b < old(self).boxes@.len() && b != taken.0 ==> (#[trigger] final(self).boxes@[b]).slots@ == old(self).boxes@[b].slots@
                &&& final(self).boxes@[taken.0 as int].slots@ == old(self).boxes@[taken.0 as int].slots@.update(taken.1 as int, Slot::Running)
            },
    {
        let ghost before = *self;
        match token_queue_dequeue(&mut self.ready) {
            None => {
                proof {
                    wf_transfers(before, *self);
                }
                None
            },
            Some(token) => {
                let tag = token.0;
                let index = token.1;
                assert(before.tokens()[0] == token);
                assert(before.slot(before.tokens()[0]) is Pending);
                let at: usize = tag as usize;
                let slot: usize = index as usize;
                let mut mailbox = self.boxes.remove(at);
                let ghost free0 = mailbox.free_indices();
                let ghost slots0 = mailbox.slots@;
                assert(mailbox == before.boxes@[at as int]);
                assert(mailbox.wf());
                mailbox.slots.push(Slot::Running);
                let taken = mailbox.slots.swap_remove(slot);
                assert(mailbox.slots@ =~= slots0.update(slot as int, Slot::Running));
                self.boxes.insert(at, mailbox);
                proof {
                    let slots1 = slots0.update(slot as int, Slot::<T>::Running);
                    assert(self.boxes@.len() == before.boxes@.len());
                    assert forall|k: int|
                        0 <= k < before.boxes@.len() && k != at implies #[trigger] self.boxes@[k]
                        == before.boxes@[k] by {}
                    assert(self.boxes@[at as int].free_indices() == free0);
                    assert(self.boxes@[at as int].slots@ == slots1);
                    assert(self.tokens() == before.tokens().drop_first());
                    assert forall|i: int| 0 <= i < self.tokens().len() implies (
                    #[trigger] self.tokens()[i]) == before.tokens()[i + 1] && self.tokens()[i]
                        != token by {
                        assert(before.tokens()[i + 1] != before.tokens()[0]);
                    }
                    assert(self.tokens().no_duplicates()) by {
                        assert forall|i: int, j: int|
                            0 <= i < self.tokens().len() && 0 <= j < self.tokens().len() && i
                                != j implies self.tokens()[i] != self.tokens()[j] by {
                            assert(self.tokens()[i] == before.tokens()[i + 1]);
                            assert(self.tokens()[j] == before.tokens()[j + 1]);
                        }
                    }
                    assert forall|j: int| 0 <= j < free0.len() implies (#[trigger] free0[j])
                        < slots1.len() && slots1[free0[j] as int] is Idle by {
                        assert(slots0[free0[j] as int] is Idle);
                    }
                    assert forall|k: int|
                        0 <= k < slots1.len() && (#[trigger] slots1[k]) is Idle implies free0.contains(
                        k as u8,
                    ) by {
                        assert(slots0[k] is Idle);
                    }
                    assert(self.boxes@[at as int].wf());
                    assert forall|b: int| 0 <= b < self.boxes@.len() implies (
                    #[trigger] self.boxes@[b]).wf() by {
                        if b != at {
                            assert(self.boxes@[b] == before.boxes@[b]);
                        }
                    }
                    assert forall|i: int| 0 <= i < self.tokens().len() implies {
                        &&& (#[trigger] self.tokens()[i]).0 < self.boxes@.len()
                        &&& self.tokens()[i].1 < self.capacity(self.tokens()[i].0 as int)
                        &&& self.slot(self.tokens()[i]) is Pending
                        &&& self.slot(self.tokens()[i]) == before.slot(before.tokens()[i + 1])
                    } by {
                        assert(self.tokens()[i] == before.tokens()[i + 1]);
                        assert(before.slot(before.tokens()[i + 1]) is Pending);
                    }
                    assert forall|b: int, k: int|
                        0 <= b < self.boxes@.len() && 0 <= k < self.capacity(
                            b,
                        ) implies #[trigger] self.placed(b, k) by {
                        assert(before.placed(b, k));
                        if self.boxes@[b].slots@[k] is Pending {
                            let i = choose|i: int|
                                0 <= i < before.tokens().len() && before.tokens()[i] == (
                                    b as u8,
                                    k as u8,
                                );
                            assert(i != 0);
                            assert(self.tokens()[i - 1] == (b as u8, k as u8));
                        }
                    }
                    flying_after_update(slots0, slot as int, Slot::<T>::Running, slots0.len() as int);
                    assert forall|b: int| 0 <= b < self.boxes@.len() implies #[trigger] self.balanced(
                        b,
                    ) by {
                        assert(before.balanced(b));
                        waiting_without_first(before.tokens(), b, before.tokens().len() as int);
                    }
                    totals_after_change(
                        before.boxes@,
                        self.boxes@,
                        at as int,
                        before.boxes@.len() as int,
                    );
                    assert(self.pending() =~= before.pending().drop_first());
                    assert(taken == before.slot(token));
                }
                match taken {
                    Slot::Pending(message) => Some((tag, index, message)),
                    _ => None,
                }
            },
        }
    }

    /// Returns the running slot `index` of the task `tag` to the task's free
    /// queue. Says whether it did: nothing changes when that slot is not
    /// running.
    pub fn release(&mut self, tag: u8, index: u8) -> (done: bool)
        requires
            old(self).wf(),
        ensures
            final(self).wf(),
            final(self).boxes@.len() == old(self).boxes@.len(),
            final(self).tokens() == old(self).tokens(),
            final(self).pending() == old(self).pending(),
            done <==> tag < old(self).boxes@.len() && index < old(self).capacity(tag as int)
                && old(self).slot((tag, index)) is Running,
            !done ==> final(self).same_as(*old(self)),
            done ==> {
                &&& final(self).free_indices(tag as int) == old(self).free_indices(tag as int).push(
                    index,
                )
                &&& final(self).boxes@[tag as int].slots@ == old(self).boxes@[tag as int].slots@.update(
                    index as int,
                    Slot::Idle,
                )
                &&& forall|b: int|
                    0 <= b < old(self).boxes@.len() && b != tag ==> (#[trigger] final(self).boxes@[b]).free_indices() == old(self).boxes@[b].free_indices() && final(self).boxes@[b].slots@ == old(self).boxes@[b].slots@
            },
    {
        let ghost before = *self;
        let at: usize = tag as usize;
        let slot: usize = index as usize;
        if at >= self.boxes.len() {
            proof {
                wf_transfers(before, *self);
            }
            return false;
        }
        let mut mailbox = self.boxes.remove(at);
        let ghost free0 = mailbox.free_indices();
        let ghost slots0 = mailbox.slots@;
        assert(mailbox == before.boxes@[at as int]);
        assert(mailbox.wf());
        let running = slot < mailbox.slots.len() && match &mailbox.slots[slot] {
            Slot::Running => true,
            _ => false,
        };
        if !running {
            self.boxes.insert(at, mailbox);
            proof {
                assert(self.boxes@ =~= before.boxes@);
                wf_transfers(before, *self);
            }
            return false;
        }
        mailbox.slots.set(slot, Slot::Idle);
        proof {
            assert(before.balanced(at as int));
            flying_bounds(slots0, slots0.len() as int, slot as int);
            waiting_positive(before.tokens(), at as int, before.tokens().len() as int);
            assert(free0.len() < 255);
        }
        let rejected = index_queue_enqueue(&mut mailbox.free, index);
        self.boxes.insert(at, mailbox);
        proof {
            let free1 = free0.push(index);
            let slots1 = slots0.update(slot as int, Slot::<T>::Idle);
            assert(rejected.is_none());
            assert(self.boxes@.len() == before.boxes@.len());
            assert forall|k: int|
                0 <= k < before.boxes@.len() && k != at implies #[trigger] self.boxes@[k]
                == before.boxes@[k] by {}
            assert(self.boxes@[at as int].free_indices() == free1);
            assert(self.boxes@[at as int].slots@ == slots1);
            assert forall|j: int| 0 <= j < free0.len() implies free0[j] != index by {
                assert(slots0[free0[j] as int] is Idle);
            }
            assert(free1.no_duplicates()) by {
                assert forall|i: int, j: int|
                    0 <= i < free1.len() && 0 <= j < free1.len() && i != j implies free1[i]
                    != free1[j] by {
                    if i < free0.len() && j < free0.len() {
                        assert(free0[i] != free0[j]);
                    }
                }
            }
            assert forall|j: int| 0 <= j < free1.len() implies (#[trigger] free1[j]) < slots1.len()
                && slots1[free1[j] as int] is Idle by {
                if j < free0.len() {
                    assert(free1[j] == free0[j]);
                    assert(slots0[free0[j] as int] is Idle);
                }
            }
            assert forall|k: int|
                0 <= k < slots1.len() && (#[trigger] slots1[k]) is Idle implies free1.contains(
                k as u8,
            ) by {
                if k == slot {
                    assert(free1[free0.len() as int] == index);
                } else {
                    assert(slots0[k] is Idle);
                    let j = choose|j: int| 0 <= j < free0.len() && free0[j] == k as u8;
                    assert(free1[j] == k as u8);
                }
            }
            assert(self.boxes@[at as int].wf());
            assert forall|b: int| 0 <= b < self.boxes@.len() implies (#[trigger] self.boxes@[b]).wf() by {
                if b != at {
                    assert(self.boxes@[b] == before.boxes@[b]);
                }
            }
            assert forall|i: int| 0 <= i < self.tokens().len() implies {
                &&& (#[trigger] self.tokens()[i]).0 < self.boxes@.len()
                &&& self.tokens()[i].1 < self.capacity(self.tokens()[i].0 as int)
                &&& self.slot(self.tokens()[i]) is Pending
                &&& self.slot(self.tokens()[i]) == before.slot(before.tokens()[i])
            } by {
                assert(before.slot(before.tokens()[i]) is Pending);
            }
            assert forall|b: int, k: int|
                0 <= b < self.boxes@.len() && 0 <= k < self.capacity(
                    b,
                ) implies #[trigger] self.placed(b, k) by {
                assert(before.placed(b, k));
            }
            flying_after_update(slots0, slot as int, Slot::<T>::Idle, slots0.len() as int);
            assert forall|b: int| 0 <= b < self.boxes@.len() implies #[trigger] self.balanced(b) by {
                assert(before.balanced(b));
            }
            totals_after_change(
                before.boxes@,
                self.boxes@,
                at as int,
                before.boxes@.len() as int,
            );
            assert(self.pending() =~= before.pending());
        }
        true
    }

    /// Spawns the task `tag`: reserves a free slot, puts `input` in it and
    /// queues its token behind those that wait. When the task has no free
    /// slot, the input comes back and nothing changes.
    pub fn spawn(&mut self, tag: u8, input: T) -> (r: Result<(), T>)
        requires
            old(self).wf(),
            tag < old(self).boxes@.len(),
        ensures
            final(self).wf(),
            final(self).boxes@.len() == old(self).boxes@.len(),
            forall|b: int|
                0 <= b < old(self).boxes@.len() ==> #[trigger] final(self).capacity(b) == old(self).capacity(b),
            forall|b: int|
                0 <= b < old(self).boxes@.len() ==> #[trigger] final(self).in_flight(b) == old(self).in_flight(b),
            forall|b: int|
                0 <= b < old(self).boxes@.len() && b != tag ==> #[trigger] final(self).free_indices(
                    b,
                ) == old(self).free_indices(b),
            r is Err <==> old(self).outstanding(tag as int) + old(self).in_flight(tag as int)
                == old(self).capacity(tag as int),
            old(self).free_indices(tag as int).len() == 0 ==> {
                &&& r == Err::<(), T>(input)
                &&& final(self).same_as(*old(self))
                &&& final(self).pending() == old(self).pending()
            },
            old(self).free_indices(tag as int).len() > 0 ==> {
                &&& r is Ok
                &&& final(self).pending() == old(self).pending().push((tag, input))
                &&& final(self).tokens() == old(self).tokens().push(
                    (tag, old(self).free_indices(tag as int)[0]),
                )
                &&& final(self).free_indices(tag as int) == old(self).free_indices(
                    tag as int,
                ).drop_first()
            },
    {
        let ghost before = *self;
        proof {
            assert(before.balanced(tag as int));
        }
        match self.reserve(tag) {
            None => Err(input),
            Some(index) => {
                let ghost reserved = *self;
                let r = self.publish(tag, index, input);
                proof {
                    let slots0 = before.boxes@[tag as int].slots@;
                    assert(slots0[index as int] is Idle) by {
                        assert(before.boxes@[tag as int].wf());
                        assert(before.boxes@[tag as int].free_indices()[0] == index);
                    }
                    assert(self.boxes@[tag as int].slots@ =~= slots0.update(
                        index as int,
                        Slot::Pending(input),
                    ));
                    flying_after_update(
                        slots0,
                        index as int,
                        Slot::Pending(input),
                        slots0.len() as int,
                    );
                    assert forall|b: int| 0 <= b < before.boxes@.len() implies #[trigger] self.in_flight(
                        b,
                    ) == before.in_flight(b) by {
                        if b != tag {
                            assert(self.boxes@[b].slots@ == reserved.boxes@[b].slots@);
                            assert(reserved.boxes@[b].slots@ == before.boxes@[b].slots@);
                        }
                    }
                    assert forall|b: int| 0 <= b < before.boxes@.len() implies #[trigger] self.capacity(
                        b,
                    ) == before.capacity(b) by {
                        if b != tag {
                            assert(self.boxes@[b].slots@ == reserved.boxes@[b].slots@);
                            assert(reserved.boxes@[b].slots@ == before.boxes@[b].slots@);
                        }
                    }
                    assert forall|b: int|
                        0 <= b < before.boxes@.len() && b != tag implies #[trigger] self.free_indices(
                        b,
                    ) == before.free_indices(b) by {
                        assert(self.boxes@[b].free_indices() == reserved.boxes@[b].free_indices());
                    }
                    assert(self.boxes@[tag as int].free_indices() == reserved.boxes@[tag as int].free_indices());
                }
                r
            },
        }
    }

    /// Takes the oldest waiting message: hands out its task's tag and the
    /// message, and returns its slot to the task's free queue. Without a
    /// waiting message nothing changes.
    pub fn dispatch(&mut self) -> (r: Option<(u8, T)>)
        requires
            old(self).wf(),
        ensures
            final(self).wf(),
            final(self).boxes@.len() == old(self).boxes@.len(),
            forall|b: int|
                0 <= b < old(self).boxes@.len() ==> #[trigger] final(self).capacity(b) == old(self).capacity(b),
            forall|b: int|
                0 <= b < old(self).boxes@.len() ==> #[trigger] final(self).in_flight(b) == old(self).in_flight(b),
            old(self).pending().len() == 0 ==> {
                &&& r is None
                &&& final(self).same_as(*old(self))
                &&& final(self).pending() == old(self).pending()
            },
            old(self).pending().len() > 0 ==> {
                &&& r == Some(old(self).pending()[0])
                &&& final(self).pending() == old(self).pending().drop_first()
                &&& final(self).tokens() == old(self).tokens().drop_first()
                &&& forall|b: int|
                    0 <= b < old(self).boxes@.len() ==> #[trigger] final(self).free_indices(b)
                        == if b == old(self).tokens()[0].0 {
                        old(self).free_indices(b).push(old(self).tokens()[0].1)
                    } else {
                        old(self).free_indices(b)
                    }
            },
    {
        let ghost before = *self;
        match self.take() {
            None => None,
            Some(taken) => {
                let ghost running = *self;
                let tag = taken.0;
                let index = taken.1;
                let done = self.release(tag, index);
                proof {
                    let slots0 = before.boxes@[tag as int].slots@;
                    assert(before.slot(before.tokens()[0]) is Pending);
                    assert(done);
                    assert(self.boxes@[tag as int].slots@ =~= slots0.update(
                        index as int,
                        Slot::Idle,
                    ));
                    flying_after_update(slots0, index as int, Slot::<T>::Idle, slots0.len() as int);
                    assert forall|b: int| 0 <= b < before.boxes@.len() implies #[trigger] self.in_flight(
                        b,
                    ) == before.in_flight(b) by {
                        if b != tag {
                            assert(self.boxes@[b].slots@ == running.boxes@[b].slots@);
                            assert(running.boxes@[b].slots@ == before.boxes@[b].slots@);
                        }
                    }
                    assert forall|b: int| 0 <= b < before.boxes@.len() implies #[trigger] self.capacity(
                        b,
                    ) == before.capacity(b) by {
                        if b != tag {
                            assert(self.boxes@[b].slots@ == running.boxes@[b].slots@);
                            assert(running.boxes@[b].slots@ == before.boxes@[b].slots@);
                        }
                    }
                    assert forall|b: int| 0 <= b < before.boxes@.len() implies #[trigger] self.free_indices(
                        b,
                    ) == if b == before.tokens()[0].0 {
                        before.free_indices(b).push(before.tokens()[0].1)
                    } else {
                        before.free_indices(b)
                    } by {
                        assert(running.boxes@[b].free_indices() == before.boxes@[b].free_indices());
                        if b != tag {
                            assert(self.boxes@[b].free_indices() == running.boxes@[b].free_indices());
                        }
                    }
                }
                Some((tag, taken.2))
            },
        }
    }

    /// Makes a channel for tasks with the given capacities, with no message
    /// waiting and every slot idle: the free queue of each task holds the
    /// indices from 0 up to its capacity, in rising order. `None` when the
    /// capacities do not fit a channel.
    pub fn new(capacities: &Vec<u8>) -> (r: Option<Channel<T>>)
        ensures
            r is Some <==> Self::fits(capacities@),
            r matches Some(channel) ==> {
                &&& channel.wf()
                &&& channel.boxes@.len() == capacities@.len()
                &&& channel.pending().len() == 0
                &&& forall|b: int|
                    0 <= b < capacities@.len() ==> #[trigger] channel.capacity(b) == capacities@[b]
                        && channel.in_flight(b) == 0 && channel.free_indices(b) == Seq::new(
                        capacities@[b] as nat,
                        |k: int| k as u8,
                    )
            },
    {
        if capacities.len() > 256 {
            return None;
        }
        let mut boxes: Vec<Mailbox<T>> = Vec::new();
        let mut total: usize = 0;
        let mut b: usize = 0;
        while b < capacities.len()
            invariant
                b <= capacities@.len() <= 256,
                boxes@.len() == b,
                total == capacity_total(capacities@, b as int),
                total <= 255,
                forall|k: int| 0 <= k < b ==> capacities@[k] >= 1,
                forall|k: int|
                    0 <= k < b ==> (#[trigger] boxes@[k]).wf() && boxes@[k].slots@.len()
                        == capacities@[k] && boxes@[k].in_flight() == 0 && boxes@[k].free_indices()
                        == Seq::new(capacities@[k] as nat, |j: int| j as u8),
                free_total(boxes@, b as int) == total,
                slot_total(boxes@, b as int) == total,
                flying_total(boxes@, b as int) == 0,
            decreases capacities@.len() - b,
        {
            let capacity = capacities[b];
            if capacity < 1 {
                return None;
            }
            if capacity as usize > 255 - total {
                proof {
                    capacity_total_monotonic(capacities@, b as int + 1, capacities@.len() as int);
                }
                return None;
            }
            let mut free = index_queue_new();
            let mut slots: Vec<Slot<T>> = Vec::new();
            let mut k: u8 = 0;
            while k < capacity
                invariant
                    k <= capacity,
                    slots@.len() == k,
                    forall|j: int| 0 <= j < k ==> slots@[j] is Idle,
                    flying(slots@, k as int) == 0,
                    index_items(free) == Seq::new(k as nat, |j: int| j as u8),
                decreases capacity - k,
            {
                let ghost held = index_items(free);
                let ghost sofar = slots@;
                let rejected = index_queue_enqueue(&mut free, k);
                slots.push(Slot::Idle);
                proof {
                    assert(held.push(k) =~= Seq::new((k + 1) as nat, |j: int| j as u8));
                    flying_of_prefix(slots@, sofar, k as int);
                }
                k = k + 1;
            }
            let mailbox = Mailbox { free, slots };
            proof {
                assert forall|j: int|
                    0 <= j < mailbox.slots@.len() && (#[trigger] mailbox.slots@[j]) is Idle implies mailbox.free_indices().contains(
                    j as u8,
                ) by {
                    assert(mailbox.free_indices()[j] == j as u8);
                }
            }
            let ghost built = boxes@;
            boxes.push(mailbox);
            proof {
                assert forall|k: int| 0 <= k < b implies #[trigger] boxes@[k] == built[k] by {}
                totals_extend(built, boxes@, b as int);
            }
            total = total + capacity as usize;
            b = b + 1;
        }
        let channel = Channel { ready: token_queue_new(), boxes };
        proof {
            assert forall|b: int, k: int|
                0 <= b < channel.boxes@.len() && 0 <= k < channel.capacity(
                    b,
                ) implies #[trigger] channel.placed(b, k) by {
                assert(channel.boxes@[b].wf());
                assert(channel.free_indices(b)[k] == k as u8);
                assert(channel.boxes@[b].slots@[channel.free_indices(b)[k] as int] is Idle);
            }
            assert forall|b: int| 0 <= b < channel.boxes@.len() implies #[trigger] channel.balanced(
                b,
            ) by {
                assert(channel.boxes@[b].wf());
            }
        }
        Some(channel)
    }

    /// Takes every waiting message, oldest first, as the dispatcher does
    /// before it returns: afterwards no message waits.
    pub fn drain(&mut self) -> (delivered: Vec<(u8, T)>)
        requires
            old(self).wf(),
        ensures
            final(self).wf(),
            delivered@ == old(self).pending(),
            final(self).pending().len() == 0,
            final(self).boxes@.len() == old(self).boxes@.len(),
            forall|b: int|
                0 <= b < old(self).boxes@.len() ==> #[trigger] final(self).capacity(b) == old(self).capacity(b),
            forall|b: int|
                0 <= b < old(self).boxes@.len() ==> #[trigger] final(self).in_flight(b) == old(self).in_flight(b),
            forall|b: int|
                0 <= b < old(self).boxes@.len() ==> #[trigger] final(self).free_indices(b).len()
                    + old(self).in_flight(b) == old(self).capacity(b),
    {
        let ghost before = *self;
        let mut delivered: Vec<(u8, T)> = Vec::new();
        loop
            invariant
                self.wf(),
                delivered@ + self.pending() == before.pending(),
                self.boxes@.len() == before.boxes@.len(),
                forall|b: int|
                    0 <= b < before.boxes@.len() ==> #[trigger] self.capacity(b) == before.capacity(b),
                forall|b: int|
                    0 <= b < before.boxes@.len() ==> #[trigger] self.in_flight(b) == before.in_flight(b),
            ensures
                self.pending().len() == 0,
                delivered@ == before.pending(),
            decreases self.pending().len(),
        {
            let ghost waiting = self.pending();
            let ghost sofar = delivered@;
            match self.dispatch() {
                Some(message) => {
                    delivered.push(message);
                    assert(sofar.push(waiting[0]) + waiting.drop_first() =~= sofar + waiting);
                },
                None => {
                    assert(self.pending().len() == 0);
                    assert(delivered@ + self.pending() =~= delivered@);
                    break;
                },
            }
        }
        proof {
            assert forall|b: int| 0 <= b < before.boxes@.len() implies #[trigger] self.free_indices(
                b,
            ).len() + before.in_flight(b) == before.capacity(b) by {
                assert(self.balanced(b));
                assert(self.capacity(b) == before.capacity(b));
                assert(self.in_flight(b) == before.in_flight(b));
                assert(waiting(self.tokens(), b, 0) == 0);
            }
        }
        delivered
    }
}

/// Every slot is in exactly one place: an idle slot, and no other, has its
/// index in the free queue of its task; a pending slot, and no other, has
/// its token in the ready queue; a reserved or running slot is in neither.
pub proof fn slot_in_one_place<T>(channel: Channel<T>, tag: u8, index: u8)
    requires
        channel.wf(),
        tag < channel.boxes@.len(),
        index < channel.capacity(tag as int),
    ensures
        channel.free_indices(tag as int).contains(index) <==> channel.slot((tag, index)) is Idle,
        channel.tokens().contains((tag, index)) <==> channel.slot((tag, index)) is Pending,
{
    assert(channel.placed(tag as int, index as int));
    assert(channel.boxes@[tag as int].wf());
    if channel.free_indices(tag as int).contains(index) {
        let j = choose|j: int|
            0 <= j < channel.free_indices(tag as int).len() && channel.free_indices(tag as int)[j]
                == index;
        assert(channel.boxes@[tag as int].slots@[channel.boxes@[tag as int].free_indices()[j] as int] is Idle);
    }
    if channel.slot((tag, index)) is Idle {
        assert(channel.boxes@[tag as int].slots@[index as int] is Idle);
    }
    if channel.tokens().contains((tag, index)) {
        let i = choose|i: int| 0 <= i < channel.tokens().len() && channel.tokens()[i] == (tag, index);
        assert(channel.slot(channel.tokens()[i]) is Pending);
    }
}

/// The free slots of a task, the messages that wait for it and its slots in
/// flight make up its capacity; none of the three numbers is negative, so
/// never more messages wait for a task than it has slots.
pub proof fn outstanding_within_capacity<T>(channel: Channel<T>, tag: u8)
    requires
        channel.wf(),
        tag < channel.boxes@.len(),
    ensures
        channel.free_indices(tag as int).len() + channel.outstanding(tag as int) + channel.in_flight(
            tag as int,
        ) == channel.capacity(tag as int),
        0 <= channel.outstanding(tag as int) <= channel.capacity(tag as int),
        0 <= channel.in_flight(tag as int) <= channel.capacity(tag as int),
{
    assert(channel.balanced(tag as int));
    waiting_positive(channel.tokens(), tag as int, channel.tokens().len() as int);
    flying_bounds(
        channel.boxes@[tag as int].slots@,
        channel.boxes@[tag as int].slots@.len() as int,
        0,
    );
}

/// No token names a slot that its task does not have.
pub proof fn token_within_capacity<T>(channel: Channel<T>, i: int)
    requires
        channel.wf(),
        0 <= i < channel.tokens().len(),
    ensures
        channel.tokens()[i].0 < channel.boxes@.len(),
        channel.tokens()[i].1 < channel.capacity(channel.tokens()[i].0 as int),
{
}

proof fn flying_of_prefix<T>(a: Seq<Slot<T>>, b: Seq<Slot<T>>, n: int)
    requires
        0 <= n <= b.len(),
        n < a.len(),
        forall|i: int| 0 <= i < n ==> a[i] == b[i],
        !a[n].in_flight(),
    ensures
        flying(a, n + 1) == flying(b, n),
    decreases n,
{
    flying_same(a, b, n);
}

proof fn flying_same<T>(a: Seq<Slot<T>>, b: Seq<Slot<T>>, n: int)
    requires
        0 <= n <= b.len(),
        n <= a.len(),
        forall|i: int| 0 <= i < n ==> a[i] == b[i],
    ensures
        flying(a, n) == flying(b, n),
    decreases n,
{
    if n > 0 {
        flying_same(a, b, n - 1);
    }
}

proof fn totals_extend<T>(before: Seq<Mailbox<T>>, after: Seq<Mailbox<T>>, n: int)
    requires
        0 <= n <= before.len(),
        n <= after.len(),
        forall|k: int| 0 <= k < n ==> #[trigger] after[k] == before[k],
    ensures
        free_total(after, n) == free_total(before, n),
        slot_total(after, n) == slot_total(before, n),
        flying_total(after, n) == flying_total(before, n),
    decreases n,
{
    if n > 0 {
        totals_extend(before, after, n - 1);
        assert(after[n - 1] == before[n - 1]);
    }
}

/// A sum of capacities does not shrink when more of them are added.
pub proof fn capacity_total_monotonic(capacities: Seq<u8>, a: int, b: int)
    requires
        0 <= a <= b,
    ensures
        capacity_total(capacities, a) <= capacity_total(capacities, b),
    decreases b - a,
{
    if a < b {
        capacity_total_monotonic(capacities, a, b - 1);
    }
}

/// The dispatcher of one priority level on one core: one channel for every
/// sender core, and the pending state of its software-generated interrupt.
pub struct Dispatcher<T> {
    pub routes: Vec<Channel<T>>,
    pub pended: bool,
}

/// The messages that wait in the first `n` channels, channel by channel,
/// each with its sender core and the tag of its task.
pub open spec fn waiting_in<T>(routes: Seq<Channel<T>>, n: int) -> Seq<(u8, u8, T)>
    decreases n,
{
    if n <= 0 {
        Seq::empty()
    } else {
        waiting_in(routes, n - 1) + from_sender((n - 1) as u8, routes[n - 1].pending())
    }
}

/// The messages of one channel, marked with their sender core.
pub open spec fn from_sender<T>(sender: u8, messages: Seq<(u8, T)>) -> Seq<(u8, u8, T)> {
    Seq::new(messages.len(), |i: int| (sender, messages[i].0, messages[i].1))
}

impl<T> Dispatcher<T> {
    /// Whether a message waits in some channel.
    pub open spec fn busy(&self) -> bool {
        exists|s: int| 0 <= s < self.routes@.len() && (#[trigger] self.routes@[s]).pending().len() > 0
    }

    /// At most 256 sender cores, every channel well formed, and the
    /// interrupt pending exactly when a message waits.
    pub open spec fn wf(&self) -> bool {
        &&& self.routes@.len() <= 256
        &&& forall|s: int| 0 <= s < self.routes@.len() ==> (#[trigger] self.routes@[s]).wf()
        &&& self.pended <==> self.busy()
    }

    /// Makes a dispatcher from its channels; none of them may hold a message.
    pub fn new(routes: Vec<Channel<T>>) -> (r: Option<Dispatcher<T>>)
        requires
            forall|s: int| 0 <= s < routes@.len() ==> (#[trigger] routes@[s]).wf()
                && routes@[s].pending().len() == 0,
        ensures
            r is Some <==> routes@.len() <= 256,
            r matches Some(d) ==> d.wf() && d.routes@ == routes@ && !d.pended,
    {
        if routes.len() > 256 {
            return None;
        }
        Some(Dispatcher { routes, pended: false })
    }

    /// Spawns the task `tag` from core `sender`: on success the message
    /// waits behind those of the same sender and the interrupt is pended;
    /// when the task has no free slot for this sender the input comes back
    /// and nothing changes.
    pub fn spawn(&mut self, sender: u8, tag: u8, input: T) -> (r: Result<(), T>)
        requires
            old(self).wf(),
            sender < old(self).routes@.len(),
            tag < old(self).routes@[sender as int].boxes@.len(),
        ensures
            final(self).wf(),
            final(self).routes@.len() == old(self).routes@.len(),
            forall|s: int|
                0 <= s < old(self).routes@.len() && s != sender ==> #[trigger] final(self).routes@[s] == old(self).routes@[s],
            r is Err <==> old(self).routes@[sender as int].outstanding(tag as int) + old(self).routes@[sender as int].in_flight(tag as int) == old(self).routes@[sender as int].capacity(
                tag as int,
            ),
            r matches Err(back) ==> back == input && final(self).pended == old(self).pended
                && final(self).routes@[sender as int].pending() == old(self).routes@[sender as int].pending(),
            r is Ok ==> final(self).pended && final(self).routes@[sender as int].pending() == old(self).routes@[sender as int].pending().push((tag, input)),
    {
        let ghost before = *self;
        let at: usize = sender as usize;
        let mut channel = self.routes.remove(at);
        assert(channel == before.routes@[at as int]);
        let r = channel.spawn(tag, input);
        self.routes.insert(at, channel);
        proof {
            assert(self.routes@.len() == before.routes@.len());
            assert forall|s: int|
                0 <= s < before.routes@.len() && s != sender implies #[trigger] self.routes@[s]
                == before.routes@[s] by {}
            assert(before.routes@[at as int].wf());
            assert(before.routes@[at as int].balanced(tag as int));
        }
        match r {
            Ok(()) => {
                self.pended = true;
                proof {
                    assert(self.routes@[at as int].pending().len() > 0);
                    assert(self.busy());
                }
                Ok(())
            },
            Err(back) => {
                proof {
                    if before.busy() {
                        let s = choose|s: int|
                            0 <= s < before.routes@.len() && (#[trigger] before.routes@[s]).pending().len()
                                > 0;
                        assert(self.routes@[s].pending().len() > 0);
                    }
                    if self.busy() {
                        let s = choose|s: int|
                            0 <= s < self.routes@.len() && (#[trigger] self.routes@[s]).pending().len()
                                > 0;
                        assert(before.routes@[s].pending().len() > 0);
                    }
                }
                Err(back)
            },
        }
    }

    /// Runs the dispatcher: takes every waiting message, sender by sender
    /// and oldest first within a sender, and hands them out in that order.
    /// Afterwards no message waits and the interrupt is not pending.
    pub fn run(&mut self) -> (delivered: Vec<(u8, u8, T)>)
        requires
            old(self).wf(),
        ensures
            final(self).wf(),
            !final(self).pended,
            delivered@ == waiting_in(old(self).routes@, old(self).routes@.len() as int),
            final(self).routes@.len() == old(self).routes@.len(),
            forall|s: int|
                0 <= s < old(self).routes@.len() ==> (#[trigger] final(self).routes@[s]).pending().len()
                    == 0,
    {
        let ghost before = *self;
        let mut delivered: Vec<(u8, u8, T)> = Vec::new();
        let mut s: usize = 0;
        while s < self.routes.len()
            invariant
                s <= self.routes@.len(),
                self.routes@.len() == before.routes@.len(),
                before.routes@.len() <= 256,
                forall|k: int| 0 <= k < self.routes@.len() ==> (#[trigger] self.routes@[k]).wf(),
                forall|k: int| 0 <= k < s ==> (#[trigger] self.routes@[k]).pending().len() == 0,
                forall|k: int|
                    s <= k < self.routes@.len() ==> #[trigger] self.routes@[k] == before.routes@[k],
                delivered@ == waiting_in(before.routes@, s as int),
            decreases self.routes@.len() - s,
        {
            let ghost held = self.routes@;
            let sender: u8 = s as u8;
            let mut channel = self.routes.remove(s);
            assert(channel == before.routes@[s as int]);
            let mut messages = channel.drain();
            self.routes.insert(s, channel);
            assert forall|k: int| 0 <= k < self.routes@.len() && k != s implies #[trigger] self.routes@[k]
                == held[k] by {}
            let ghost all = messages@;
            let ghost sofar = delivered@;
            let count: usize = messages.len();
            let mut i: usize = 0;
            while messages.len() > 0
                invariant
                    messages@ == all.skip(i as int),
                    i <= all.len(),
                    all.len() == count,
                    delivered@ == sofar + from_sender(sender, all).take(i as int),
                decreases messages@.len(),
            {
                let message = messages.remove(0);
                assert(message == all[i as int]);
                delivered.push((sender, message.0, message.1));
                proof {
                    let marked = from_sender(sender, all);
                    assert(marked.take(i as int + 1) =~= marked.take(i as int).push(marked[i as int]));
                    assert(messages@ =~= all.skip(i as int + 1));
                    assert(delivered@ =~= sofar + marked.take(i as int + 1));
                }
                i = i + 1;
            }
            proof {
                let marked = from_sender(sender, all);
                assert(i == all.len());
                assert(marked.take(i as int) =~= marked);
            }
            s = s + 1;
        }
        self.pended = false;
        proof {
            if self.busy() {
                let k = choose|k: int|
                    0 <= k < self.routes@.len() && (#[trigger] self.routes@[k]).pending().len() > 0;
                assert(self.routes@[k].pending().len() == 0);
            }
        }
        delivered
    }
}

impl<T> Dispatcher<T> {
    /// Reserves a free slot of the task `tag` for a spawn from core
    /// `sender`. No message waits for it yet: the interrupt stays as it is.
    pub fn reserve(&mut self, sender: u8, tag: u8) -> (r: Option<u8>)
        requires
            old(self).wf(),
            sender < old(self).routes@.len(),
            tag < old(self).routes@[sender as int].boxes@.len(),
        ensures
            final(self).wf(),
            final(self).pended == old(self).pended,
            final(self).routes@.len() == old(self).routes@.len(),
            forall|s: int|
                0 <= s < old(self).routes@.len() ==> (#[trigger] final(self).routes@[s]).pending()
                    == old(self).routes@[s].pending(),
            final(self).routes@[sender as int].boxes@.len() == old(self).routes@[sender as int].boxes@.len(),
            r is None <==> old(self).routes@[sender as int].free_indices(tag as int).len() == 0,
            r matches Some(index) ==> final(self).routes@[sender as int].slot((tag, index)) is Reserved
                && index < final(self).routes@[sender as int].capacity(tag as int),
    {
        let ghost before = *self;
        let at: usize = sender as usize;
        let mut channel = self.routes.remove(at);
        assert(channel == before.routes@[at as int]);
        let r = channel.reserve(tag);
        self.routes.insert(at, channel);
        proof {
            assert forall|s: int|
                0 <= s < before.routes@.len() && s != sender implies #[trigger] self.routes@[s]
                == before.routes@[s] by {}
            assert forall|s: int| 0 <= s < before.routes@.len() implies (#[trigger] self.routes@[s]).pending()
                == before.routes@[s].pending() by {}
            same_pending_same_busy(before, *self);
        }
        r
    }

    /// Publishes `input` in the slot that was reserved for it and pends the
    /// interrupt. The input comes back, and nothing changes, when the slot
    /// is not reserved.
    pub fn publish(&mut self, sender: u8, tag: u8, index: u8, input: T) -> (r: Result<(), T>)
        requires
            old(self).wf(),
            sender < old(self).routes@.len(),
        ensures
            final(self).wf(),
            final(self).routes@.len() == old(self).routes@.len(),
            forall|s: int|
                0 <= s < old(self).routes@.len() && s != sender ==> (#[trigger] final(self).routes@[s]).pending() == old(self).routes@[s].pending(),
            r is Ok <==> tag < old(self).routes@[sender as int].boxes@.len() && index < old(self).routes@[sender as int].capacity(tag as int) && old(self).routes@[sender as int].slot(
                (tag, index),
            ) is Reserved,
            r matches Err(back) ==> back == input && final(self).pended == old(self).pended
                && final(self).routes@[sender as int].pending() == old(self).routes@[sender as int].pending(),
            r is Ok ==> final(self).pended && final(self).routes@[sender as int].pending() == old(self).routes@[sender as int].pending().push((tag, input)),
    {
        let ghost before = *self;
        let at: usize = sender as usize;
        let mut channel = self.routes.remove(at);
        assert(channel == before.routes@[at as int]);
        let r = channel.publish(tag, index, input);
        self.routes.insert(at, channel);
        proof {
            assert forall|s: int|
                0 <= s < before.routes@.len() && s != sender implies #[trigger] self.routes@[s]
                == before.routes@[s] by {}
        }
        match r {
            Ok(()) => {
                self.pended = true;
                proof {
                    assert(self.routes@[at as int].pending().len() > 0);
                    assert(self.busy());
                }
                Ok(())
            },
            Err(back) => {
                proof {
                    assert forall|s: int| 0 <= s < before.routes@.len() implies (
                    #[trigger] self.routes@[s]).pending() == before.routes@[s].pending() by {}
                    same_pending_same_busy(before, *self);
                }
                Err(back)
            },
        }
    }
}

proof fn same_pending_same_busy<T>(before: Dispatcher<T>, after: Dispatcher<T>)
    requires
        before.routes@.len() == after.routes@.len(),
        forall|s: int|
            0 <= s < before.routes@.len() ==> (#[trigger] after.routes@[s]).pending()
                == before.routes@[s].pending(),
    ensures
        after.busy() == before.busy(),
{
    if before.busy() {
        let s = choose|s: int|
            0 <= s < before.routes@.len() && (#[trigger] before.routes@[s]).pending().len() > 0;
        assert(after.routes@[s].pending().len() > 0);
    }
    if after.busy() {
        let s = choose|s: int|
            0 <= s < after.routes@.len() && (#[trigger] after.routes@[s]).pending().len() > 0;
        assert(before.routes@[s].pending().len() > 0);
    }
}

/// The entry point of a spawn from core `sender` to the task `tag` of a
/// dispatcher on core `receiver`, in the order of its steps: the free queue
/// is locked at its ceiling and a slot index taken; the input is written
/// and, with the ready queue locked at its ceiling, its token queued; the
/// word that raises the dispatcher's interrupt on the receiver is handed
/// out, for the sender itself as a loopback. Without a free slot the input
/// comes back and no message is queued. Afterwards the context has the
/// priority, and the core the mask, that it had before.
pub fn spawn_entry<T>(
    dispatcher: &mut Dispatcher<T>,
    icc: &mut ICC,
    priority: &mut Priority,
    free_ceiling: Option<u8>,
    ready_ceiling: Option<u8>,
    sender: u8,
    receiver: u8,
    sgi: u8,
    tag: u8,
    input: T,
) -> (r: Result<u32, T>)
    requires
        old(dispatcher).wf(),
        sender < old(dispatcher).routes@.len(),
        tag < old(dispatcher).routes@[sender as int].boxes@.len(),
        free_ceiling matches Some(c) ==> c <= MAX_PRIORITY,
        ready_ceiling matches Some(c) ==> c <= MAX_PRIORITY,
    ensures
        final(dispatcher).wf(),
        final(dispatcher).routes@.len() == old(dispatcher).routes@.len(),
        final(priority)@ == old(priority)@,
        forall|s: int|
            0 <= s < old(dispatcher).routes@.len() && s != sender ==> (#[trigger] final(dispatcher).routes@[s]).pending() == old(dispatcher).routes@[s].pending(),
        r is Err <==> old(dispatcher).routes@[sender as int].free_indices(tag as int).len() == 0,
        r matches Err(back) ==> back == input && final(dispatcher).pended == old(dispatcher).pended
            && final(dispatcher).routes@[sender as int].pending() == old(dispatcher).routes@[sender as int].pending(),
        r matches Ok(word) ==> final(dispatcher).pended && final(dispatcher).routes@[sender as int].pending() == old(dispatcher).routes@[sender as int].pending().push(
            (tag, input),
        ) && word == sgir_word(
            if sender == receiver {
                Target::Loopback
            } else {
                Target::Unicast(receiver)
            },
            sgi,
        ),
        final(icc)@ == old(icc)@,
{
    let saved = match free_ceiling {
        Some(ceiling) => lock(icc, priority, ceiling),
        None => None,
    };
    let reserved = dispatcher.reserve(sender, tag);
    unlock(icc, priority, saved);
    let index = match reserved {
        Some(index) => index,
        None => {
            return Err(input);
        },
    };
    let saved = match ready_ceiling {
        Some(ceiling) => lock(icc, priority, ceiling),
        None => None,
    };
    let published = dispatcher.publish(sender, tag, index, input);
    unlock(icc, priority, saved);
    match published {
        Ok(()) => {
            let target = if sender == receiver {
                Target::Loopback
            } else {
                Target::Unicast(receiver)
            };
            Ok(ICD::icdsgir(target, sgi))
        },
        Err(back) => Err(back),
    }
}

/// The handler of a dispatcher's interrupt at priority level `level`: it
/// raises the mask to its level, delivers every waiting message, sender by
/// sender, and restores the mask that it found.
pub fn dispatcher_entry<T>(dispatcher: &mut Dispatcher<T>, icc: &mut ICC, level: u8) -> (delivered:
    Vec<(u8, u8, T)>)
    requires
        old(dispatcher).wf(),
        level <= MAX_PRIORITY,
    ensures
        final(dispatcher).wf(),
        !final(dispatcher).pended,
        delivered@ == waiting_in(old(dispatcher).routes@, old(dispatcher).routes@.len() as int),
        final(dispatcher).routes@.len() == old(dispatcher).routes@.len(),
        forall|s: int|
            0 <= s < old(dispatcher).routes@.len() ==> (#[trigger] final(dispatcher).routes@[s]).pending().len()
                == 0,
        final(icc)@ == old(icc)@,
{
    let found = run_enter(icc, level);
    // the messages are delivered behind the raised mask
    assert(icc@ == hw_priority((level + 1) as u8));
    let delivered = dispatcher.run();
    run_exit(icc, found);
    delivered
}

} // verus!
