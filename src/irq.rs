use vstd::prelude::*;

use heapless::spsc::Queue;

verus! {

/// How many pending edge notifications the bridge queue holds.
pub const IRQ_CAPACITY: usize = 8;

/// Slots of the backing ring; one slot always stays free, so it holds
/// `IRQ_CAPACITY` items.
pub const IRQ_SLOTS: usize = 9;

#[verifier::external_type_specification]
#[verifier::external_body]
#[verifier::reject_recursive_types(T)]
pub struct ExQueue<T, const N: usize>(Queue<T, N>);

/// The pins a bridge queue holds, oldest first.
pub uninterp spec fn queued_pins(q: Queue<i32, IRQ_SLOTS>) -> Seq<i32>;

/// Relies on `heapless::spsc::Queue::new`: the new queue is empty.
#[verifier::external_body]
fn queue_new() -> (q: Queue<i32, IRQ_SLOTS>)
    ensures
        queued_pins(q) == Seq::<i32>::empty(),
{
    Queue::new()
}

/// Relies on `heapless::spsc::Queue::enqueue`: the item goes to the back
/// when fewer than `N - 1` items are held, else it is handed back and the
/// queue is left as it was.
#[verifier::external_body]
fn queue_enqueue(q: &mut Queue<i32, IRQ_SLOTS>, pin: i32) -> (r: bool)
    requires
        queued_pins(*old(q)).len() <= IRQ_CAPACITY,
    ensures
        r == (queued_pins(*old(q)).len() < IRQ_CAPACITY),
        r ==> queued_pins(*final(q)) == queued_pins(*old(q)).push(pin),
        !r ==> queued_pins(*final(q)) == queued_pins(*old(q)),
{
    q.enqueue(pin).is_ok()
}

/// Relies on `heapless::spsc::Queue::dequeue`: the front item is removed
/// and returned, `None` when the queue is empty.
#[verifier::external_body]
fn queue_dequeue(q: &mut Queue<i32, IRQ_SLOTS>) -> (r: Option<i32>)
    ensures
        queued_pins(*old(q)).len() == 0 ==> r == None::<i32> && queued_pins(*final(q)) == queued_pins(*old(q)),
        queued_pins(*old(q)).len() > 0 ==> r == Some(queued_pins(*old(q))[0])
            && queued_pins(*final(q)) == queued_pins(*old(q)).drop_first(),
{
    q.dequeue()
}

/// The queue after an attempt to add `pin`: it goes to the back when there
/// is room, and is dropped otherwise.
pub open spec fn enqueued(q: Seq<i32>, pin: i32) -> Seq<i32> {
    if q.len() < IRQ_CAPACITY {
        q.push(pin)
    } else {
        q
    }
}

/// The queue after attempts to add each of `pins`, in order.
pub open spec fn enqueued_all(q: Seq<i32>, pins: Seq<i32>) -> Seq<i32>
    decreases pins.len(),
{
    if pins.len() == 0 {
        q
    } else {
        enqueued(enqueued_all(q, pins.drop_last()), pins.last())
    }
}

/// The items that repeated dequeues return until the queue is empty.
pub open spec fn drain_order(q: Seq<i32>) -> Seq<i32>
    decreases q.len(),
{
    if q.len() == 0 {
        Seq::empty()
    } else {
        seq![q[0]] + drain_order(q.drop_first())
    }
}

/// Repeated dequeues hand out exactly what the queue holds, front first.
pub proof fn lemma_drain_order(q: Seq<i32>)
    ensures
        drain_order(q) == q,
    decreases q.len(),
{
    if q.len() > 0 {
        lemma_drain_order(q.drop_first());
        assert(seq![q[0]] + q.drop_first() =~= q);
    }
}

/// Bounded drop: adding pins to a queue keeps every item already held and
/// the earliest added pins up to the capacity, in order, and drops the
/// newest ones beyond it; the queue never holds more than its capacity.
pub proof fn lemma_bounded_drop(q: Seq<i32>, pins: Seq<i32>)
    requires
        q.len() <= IRQ_CAPACITY,
    ensures
        enqueued_all(q, pins).len() <= IRQ_CAPACITY,
        q.len() + pins.len() <= IRQ_CAPACITY ==> enqueued_all(q, pins) == q + pins,
        q.len() + pins.len() > IRQ_CAPACITY ==> enqueued_all(q, pins) == (q + pins).take(IRQ_CAPACITY as int),
    decreases pins.len(),
{
    if pins.len() > 0 {
        let prev = pins.drop_last();
        lemma_bounded_drop(q, prev);
        if q.len() + prev.len() < IRQ_CAPACITY {
            assert((q + prev).push(pins.last()) =~= q + pins);
        } else if q.len() + prev.len() == IRQ_CAPACITY {
            assert(q + prev =~= (q + pins).take(IRQ_CAPACITY as int));
        } else {
            assert((q + prev).take(IRQ_CAPACITY as int) =~= (q + pins).take(IRQ_CAPACITY as int));
        }
    } else {
        assert(q + pins =~= q);
    }
}

/// FIFO: pins added to a queue with room for all of them come out of a
/// drain after the items already held, in the order they were added.
pub proof fn lemma_fifo(q: Seq<i32>, pins: Seq<i32>)
    requires
        q.len() + pins.len() <= IRQ_CAPACITY,
    ensures
        drain_order(enqueued_all(q, pins)) == q + pins,
{
    lemma_bounded_drop(q, pins);
    lemma_drain_order(q + pins);
}

/// A capability bound to one pin: all the notification context may do with
/// it is signal that pin's edge.
#[derive(Debug, Clone, Copy)]
pub struct Notifier {
    pin: i32,
}

impl Notifier {
    pub closed spec fn pin(self) -> i32 {
        self.pin
    }

    /// Queues this notifier's pin on `handler`; `false` when the queue was
    /// full and the notification was dropped.
    pub fn notify(&self, handler: &mut InterruptHandler) -> (r: bool)
        requires
            old(handler).wf(),
        ensures
            final(handler).wf(),
            final(handler).pending() == enqueued(old(handler).pending(), self.pin()),
            r == (old(handler).pending().len() < IRQ_CAPACITY),
    {
        handler.enqueue(self.pin)
    }
}

/// The bounded FIFO that carries pin ids from the notification context to
/// the poll context.
pub struct InterruptHandler {
    queue: Queue<i32, IRQ_SLOTS>,
}

impl InterruptHandler {
    /// The pins waiting to be handled, oldest first.
    pub closed spec fn pending(&self) -> Seq<i32> {
        queued_pins(self.queue)
    }

    pub closed spec fn wf(&self) -> bool {
        self.pending().len() <= IRQ_CAPACITY
    }

    pub fn new() -> (r: InterruptHandler)
        ensures
            r.wf(),
            r.pending() == Seq::<i32>::empty(),
    {
        InterruptHandler { queue: queue_new() }
    }

    /// A notifier bound to `pin`.
    pub fn register(&self, pin: i32) -> (r: Notifier)
        ensures
            r.pin() == pin,
    {
        Notifier { pin }
    }

    /// Adds `pin` to the back of the queue without blocking. When the queue
    /// is full the pin is dropped and `false` comes back.
    pub fn enqueue(&mut self, pin: i32) -> (r: bool)
        requires
            old(self).wf(),
        ensures
            final(self).wf(),
            final(self).pending() == enqueued(old(self).pending(), pin),
            r == (old(self).pending().len() < IRQ_CAPACITY),
    {
        queue_enqueue(&mut self.queue, pin)
    }

    /// Removes and returns the oldest pending pin, `None` when none is pending.
    pub fn dequeue(&mut self) -> (r: Option<i32>)
        requires
            old(self).wf(),
        ensures
            final(self).wf(),
            old(self).pending().len() == 0 ==> r == None::<i32> && final(self).pending() == old(self).pending(),
            old(self).pending().len() > 0 ==> r == Some(old(self).pending()[0])
                && final(self).pending() == old(self).pending().drop_first(),
    {
        queue_dequeue(&mut self.queue)
    }
}

} // verus!
