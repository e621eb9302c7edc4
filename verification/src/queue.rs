//! Work queues that the game loop drains once per tick, and the allocator of
//! entity ids.

use std::collections::VecDeque;
use vstd::prelude::*;

verus! {

/// Identifier of an entity in the game world.
pub type EntityId = u64;

/// A first-in first-out queue of pending work items, filled during a tick and
/// drained by the game loop.
pub struct GameQueue<T> {
    queue: VecDeque<T>,
}

impl<T> View for GameQueue<T> {
    type V = Seq<T>;

    /// The items waiting in the queue, oldest first.
    closed spec fn view(&self) -> Seq<T> {
        self.queue@
    }
}

impl<T> GameQueue<T> {
    /// An empty queue.
    pub fn new() -> (q: GameQueue<T>)
        ensures
            q@ == Seq::<T>::empty(),
    {
        GameQueue { queue: VecDeque::new() }
    }

    /// Adds `item` behind every item already waiting.
    pub fn push(&mut self, item: T)
        ensures
            final(self)@ == old(self)@.push(item),
    {
        self.queue.push_back(item);
    }

    /// Takes out the oldest waiting item, or gives `None` when nothing waits.
    pub fn pop_front(&mut self) -> (r: Option<T>)
        ensures
            old(self)@.len() == 0 ==> r is None && final(self)@ == old(self)@,
            old(self)@.len() > 0 ==> r == Some(old(self)@[0]) && final(self)@
                == old(self)@.drop_first(),
    {
        self.queue.pop_front()
    }

    /// Hands out the waiting items one by one, oldest first, each leaving the
    /// queue as it is handed out: when the drain is dropped early, the items
    /// not handed out stay in the queue.
    pub fn drain(&mut self) -> (d: GameQueueDrain<'_, T>)
        ensures
            d@ == old(self)@,
            *final(self) == *final(d.queue),
    {
        GameQueueDrain { queue: self }
    }
}

/// Takes the items out of a `GameQueue` one by one, oldest first, while it
/// holds the queue borrowed.
pub struct GameQueueDrain<'a, T> {
    /// The queue being drained.
    pub queue: &'a mut GameQueue<T>,
}

impl<'a, T> View for GameQueueDrain<'a, T> {
    type V = Seq<T>;

    /// The items still in the queue, oldest first.
    closed spec fn view(&self) -> Seq<T> {
        self.queue@
    }
}

impl<'a, T> GameQueueDrain<'a, T> {
    /// Hands out the oldest item still in the queue and takes it out of the
    /// queue, or gives `None` once the queue is empty.
    pub fn next(&mut self) -> (r: Option<T>)
        ensures
            old(self)@.len() == 0 ==> r is None && final(self)@ == old(self)@,
            old(self)@.len() > 0 ==> r == Some(old(self)@[0]) && final(self)@
                == old(self)@.drop_first(),
            *final(final(self).queue) == *final(old(self).queue),
    {
        self.queue.pop_front()
    }
}

/// Hands out entity ids, counting up from 1.
pub struct EntityIdGenerator {
    next: EntityId,
}

impl View for EntityIdGenerator {
    type V = nat;

    /// The id that the next call of `next` hands out.
    closed spec fn view(&self) -> nat {
        self.next as nat
    }
}

impl EntityIdGenerator {
    /// A generator whose first id is 1.
    pub fn new() -> (g: EntityIdGenerator)
        ensures
            g@ == 1,
    {
        EntityIdGenerator { next: 1 }
    }

    /// Hands out the current id and moves on to the one after it.
    pub fn next(&mut self) -> (id: EntityId)
        requires
            old(self)@ < EntityId::MAX,
        ensures
            id == old(self)@,
            final(self)@ == old(self)@ + 1,
    {
        let id = self.next;
        self.next = id + 1;
        id
    }

    /// The id that the next call of `next` hands out.
    pub fn peek(&self) -> (id: EntityId)
        ensures
            id == self@,
    {
        self.next
    }
}

/// The ids that `count` successive calls of `next` hand out, starting from a
/// generator whose view is `start`.
pub open spec fn issued_ids(start: nat, count: nat) -> Seq<nat> {
    Seq::new(count, |i: int| (start + i) as nat)
}

/// Ids handed out by one generator never repeat: one more call of `next`
/// extends the ids handed out so far by the generator's current view, and the
/// ids come out strictly increasing, so no two calls give the same id.
pub proof fn lemma_ids_never_repeat(start: nat, count: nat)
    ensures
        issued_ids(start, count + 1) == issued_ids(start, count).push(start + count),
        forall|i: int, j: int|
            0 <= i < j < count ==> #[trigger] issued_ids(start, count)[i] < #[trigger] issued_ids(
                start,
                count,
            )[j],
{
    assert(issued_ids(start, count + 1) =~= issued_ids(start, count).push(start + count));
}

/// The items waiting in a queue that held `waiting` once `items` are pushed
/// one by one, in order.
pub open spec fn after_pushes<T>(waiting: Seq<T>, items: Seq<T>) -> Seq<T>
    decreases items.len(),
{
    if items.len() == 0 {
        waiting
    } else {
        after_pushes(waiting, items.drop_last()).push(items.last())
    }
}

/// The queue is first-in first-out: pushing `items` one by one behind the
/// waiting ones leaves them behind those, in push order, so `drain` hands out
/// the waiting items first and then `items` as they were pushed.
pub proof fn lemma_queue_fifo<T>(waiting: Seq<T>, items: Seq<T>)
    ensures
        after_pushes(waiting, items) == waiting + items,
    decreases items.len(),
{
    if items.len() > 0 {
        lemma_queue_fifo(waiting, items.drop_last());
        assert(waiting + items =~= (waiting + items.drop_last()).push(items.last()));
    } else {
        assert(waiting + items =~= waiting);
    }
}


/// A drain that is dropped leaves in the queue exactly the items it did not
/// hand out: once the drain is done with (resolved), the queue's final
/// contents, which `drain` and every `next` keep tied to the drain, are the
/// items still in it.
pub proof fn lemma_dropped_drain_keeps_rest<'a, T>(d: GameQueueDrain<'a, T>)
    requires
        has_resolved(d),
    ensures
        (*final(d.queue))@ == d@,
{
}

} // verus!
