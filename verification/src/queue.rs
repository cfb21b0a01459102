//! Bounded FIFO queues of slot indices and of dispatch tokens.

use vstd::prelude::*;

verus! {

/// `heapless::spsc::Queue`, a first-in first-out queue in a fixed buffer of
/// `N` cells that holds up to `N - 1` items. Nothing inside it is visible
/// here: what it holds is named by `index_items` and `token_items`.
#[verifier::external_type_specification]
#[verifier::external_body]
#[verifier::reject_recursive_types(T)]
pub struct ExQueue<T, const N: usize>(heapless::spsc::Queue<T, N>);

/// The slot indices held by an index queue, front first.
pub uninterp spec fn index_items(q: heapless::spsc::Queue<u8, 256>) -> Seq<u8>;

/// `heapless::spsc::Queue::new`: the new queue holds nothing.
#[verifier::external_body]
pub(crate) fn index_queue_new() -> (q: heapless::spsc::Queue<u8, 256>)
    ensures
        index_items(q) == Seq::<u8>::empty(),
{
    heapless::spsc::Queue::new()
}

/// `heapless::spsc::Queue::enqueue`: appends at the back unless 255 items are
/// held; a full queue stays as it was and the item comes back.
#[verifier::external_body]
pub(crate) fn index_queue_enqueue(q: &mut heapless::spsc::Queue<u8, 256>, val: u8) -> (rejected:
    Option<u8>)
    ensures
        index_items(*old(q)).len() < 255 ==> rejected.is_none() && index_items(*final(q))
            == index_items(*old(q)).push(val),
        index_items(*old(q)).len() >= 255 ==> rejected == Some(val) && index_items(*final(q))
            == index_items(*old(q)),
{
    q.enqueue(val).err()
}

/// `heapless::spsc::Queue::dequeue`: removes and returns the front item, or
/// returns `None` and changes nothing when the queue is empty.
#[verifier::external_body]
pub(crate) fn index_queue_dequeue(q: &mut heapless::spsc::Queue<u8, 256>) -> (r: Option<u8>)
    ensures
        index_items(*old(q)).len() == 0 ==> r.is_none() && index_items(*final(q)) == index_items(*old(q)),
        index_items(*old(q)).len() > 0 ==> r == Some(index_items(*old(q))[0]) && index_items(*final(q)) == index_items(*old(q)).drop_first(),
{
    q.dequeue()
}

/// The dispatch tokens held by a token queue, front first: each is a task
/// tag and a slot index.
pub uninterp spec fn token_items(q: heapless::spsc::Queue<(u8, u8), 256>) -> Seq<(u8, u8)>;

/// `heapless::spsc::Queue::new`: the new queue holds nothing.
#[verifier::external_body]
pub(crate) fn token_queue_new() -> (q: heapless::spsc::Queue<(u8, u8), 256>)
    ensures
        token_items(q) == Seq::<(u8, u8)>::empty(),
{
    heapless::spsc::Queue::new()
}

/// `heapless::spsc::Queue::enqueue`: appends at the back unless 255 items are
/// held; a full queue stays as it was and the item comes back.
#[verifier::external_body]
pub(crate) fn token_queue_enqueue(q: &mut heapless::spsc::Queue<(u8, u8), 256>, val: (u8, u8)) -> (rejected:
    Option<(u8, u8)>)
    ensures
        token_items(*old(q)).len() < 255 ==> rejected.is_none() && token_items(*final(q))
            == token_items(*old(q)).push(val),
        token_items(*old(q)).len() >= 255 ==> rejected == Some(val) && token_items(*final(q))
            == token_items(*old(q)),
{
    q.enqueue(val).err()
}

/// `heapless::spsc::Queue::dequeue`: removes and returns the front item, or
/// returns `None` and changes nothing when the queue is empty.
#[verifier::external_body]
pub(crate) fn token_queue_dequeue(q: &mut heapless::spsc::Queue<(u8, u8), 256>) -> (r: Option<
    (u8, u8),
>)
    ensures
        token_items(*old(q)).len() == 0 ==> r.is_none() && token_items(*final(q)) == token_items(
            *old(q),
        ),
        token_items(*old(q)).len() > 0 ==> r == Some(token_items(*old(q))[0]) && token_items(
            *final(q),
        ) == token_items(*old(q)).drop_first(),
{
    q.dequeue()
}

} // verus!
