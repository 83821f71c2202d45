//! The queue of a connection: outside concurrent mode its requests are carried
//! out one at a time, in the order of their arrival.
use vstd::prelude::*;

use crate::types::FramedDataUnit;

verus! {

/// The queue of one connection. `R` is the handle by which a request is answered.
pub struct Queue<R> {
    pub items: Seq<(FramedDataUnit, R)>,
    /// The queue is being worked off.
    pub processing: bool,
}

/// The requests that wait.
pub open spec fn waiting<R>(queue: Option<Queue<R>>) -> Seq<(FramedDataUnit, R)> {
    match queue {
        Some(q) => q.items,
        None => Seq::empty(),
    }
}

/// The queue is being worked off.
pub open spec fn under_way<R>(queue: Option<Queue<R>>) -> bool {
    queue matches Some(q) && q.processing
}

/// The queue after a request arrived.
pub open spec fn enqueued<R>(queue: Option<Queue<R>>, request: (FramedDataUnit, R)) -> Option<
    Queue<R>,
> {
    Some(Queue { items: waiting(queue).push(request), processing: true })
}

/// The request that is carried out next.
pub open spec fn next_of<R>(queue: Option<Queue<R>>) -> Option<(FramedDataUnit, R)> {
    if waiting(queue).len() == 0 {
        None
    } else {
        Some(waiting(queue)[0])
    }
}

/// The queue after the next request was taken off. A queue without one is given
/// up.
pub open spec fn dequeued<R>(queue: Option<Queue<R>>) -> Option<Queue<R>> {
    if waiting(queue).len() == 0 {
        None
    } else {
        Some(Queue { items: waiting(queue).drop_first(), processing: under_way(queue) })
    }
}

/// The queue after its connection went down: what waits is dropped. Whoever works
/// it off finds it empty and gives it up.
pub open spec fn abandoned<R>(queue: Option<Queue<R>>) -> Option<Queue<R>> {
    if under_way(queue) {
        Some(Queue { items: Seq::empty(), processing: true })
    } else {
        None
    }
}

/// What happens to a queue.
pub enum QueueStep<R> {
    /// A request arrives. If the queue is not worked off, that begins.
    Arrival(FramedDataUnit, R),
    /// Whoever works the queue off asks for the next request, and is done if
    /// there is none.
    Next,
    /// The connection goes down.
    ConnectionClosed,
}

/// The queue after one step.
pub open spec fn queue_step<R>(queue: Option<Queue<R>>, step: QueueStep<R>) -> Option<Queue<R>> {
    match step {
        QueueStep::Arrival(frame, response) => enqueued(queue, (frame, response)),
        QueueStep::Next => dequeued(queue),
        QueueStep::ConnectionClosed => abandoned(queue),
    }
}

/// The queue after `steps`.
pub open spec fn queue_after<R>(queue: Option<Queue<R>>, steps: Seq<QueueStep<R>>) -> Option<
    Queue<R>,
>
    decreases steps.len(),
{
    if steps.len() == 0 {
        queue
    } else {
        queue_step(queue_after(queue, steps.drop_last()), steps.last())
    }
}

/// The requests that arrive in the course of `steps`.
pub open spec fn arrivals<R>(steps: Seq<QueueStep<R>>) -> Seq<(FramedDataUnit, R)>
    decreases steps.len(),
{
    if steps.len() == 0 {
        Seq::empty()
    } else {
        let before = arrivals(steps.drop_last());
        match steps.last() {
            QueueStep::Arrival(frame, response) => before.push((frame, response)),
            _ => before,
        }
    }
}

/// The requests that are handed out to be carried out in the course of `steps`.
pub open spec fn handed_out<R>(queue: Option<Queue<R>>, steps: Seq<QueueStep<R>>) -> Seq<
    (FramedDataUnit, R),
>
    decreases steps.len(),
{
    if steps.len() == 0 {
        Seq::empty()
    } else {
        let before = handed_out(queue, steps.drop_last());
        match (steps.last(), next_of(queue_after(queue, steps.drop_last()))) {
            (QueueStep::Next, Some(request)) => before.push(request),
            _ => before,
        }
    }
}

/// How many work the queue off after `steps`, of a connection that is new.
pub open spec fn workers<R>(steps: Seq<QueueStep<R>>) -> int
    decreases steps.len(),
{
    if steps.len() == 0 {
        0
    } else {
        let before = workers(steps.drop_last());
        let queue = queue_after(None, steps.drop_last());
        match steps.last() {
            QueueStep::Arrival(frame, response) => if under_way(queue) {
                before
            } else {
                before + 1
            },
            QueueStep::Next => if next_of(queue) is None {
                before - 1
            } else {
                before
            },
            QueueStep::ConnectionClosed => before,
        }
    }
}

/// Only who works the queue off asks for its next request.
pub open spec fn asked_by_workers<R>(steps: Seq<QueueStep<R>>) -> bool {
    forall|i: int|
        0 <= i < steps.len() && (#[trigger] steps[i]) is Next ==> workers(steps.take(i)) > 0
}

/// The requests of a connection are carried out in the order of their arrival,
/// each one once: those that were handed out and those that wait are together
/// those that waited at first and those that arrived, in this order.
pub proof fn law_requests_are_first_in_first_out<R>(
    queue: Option<Queue<R>>,
    steps: Seq<QueueStep<R>>,
)
    requires
        forall|i: int| 0 <= i < steps.len() ==> !((#[trigger] steps[i]) is ConnectionClosed),
    ensures
        handed_out(queue, steps) + waiting(queue_after(queue, steps)) == waiting(queue) + arrivals(
            steps,
        ),
    decreases steps.len(),
{
    if steps.len() == 0 {
        assert(handed_out(queue, steps) + waiting(queue_after(queue, steps)) =~= waiting(queue)
            + arrivals(steps));
    } else {
        let init = steps.drop_last();
        assert forall|i: int| 0 <= i < init.len() implies !((
        #[trigger] init[i]) is ConnectionClosed) by {
            assert(init[i] == steps[i]);
        }
        law_requests_are_first_in_first_out(queue, init);
        let before = queue_after(queue, init);
        assert(steps[steps.len() - 1] == steps.last());
        match steps.last() {
            QueueStep::Arrival(frame, response) => {
                assert(handed_out(queue, init) + waiting(before).push((frame, response)) =~= (
                handed_out(queue, init) + waiting(before)).push((frame, response)));
                assert(waiting(queue) + arrivals(init).push((frame, response)) =~= (waiting(queue)
                    + arrivals(init)).push((frame, response)));
            },
            QueueStep::Next => {
                assert(handed_out(queue, steps) + waiting(queue_after(queue, steps))
                    =~= handed_out(queue, init) + waiting(before));
            },
            QueueStep::ConnectionClosed => {},
        }
    }
}

/// At no time do two work off the queue of one connection, and while it has a
/// queue one does: its requests are carried out one at a time, and none is left
/// behind.
pub proof fn law_one_request_at_a_time<R>(steps: Seq<QueueStep<R>>)
    requires
        asked_by_workers(steps),
    ensures
        workers(steps) == if queue_after(None, steps) is Some {
            1int
        } else {
            0int
        },
        queue_after(None, steps) is Some ==> under_way(queue_after(None, steps)),
    decreases steps.len(),
{
    if steps.len() > 0 {
        let init = steps.drop_last();
        assert forall|i: int| 0 <= i < init.len() && (#[trigger] init[i]) is Next implies workers(
            init.take(i),
        ) > 0 by {
            assert(init[i] == steps[i]);
            assert(init.take(i) =~= steps.take(i));
        }
        law_one_request_at_a_time(init);
        assert(steps.take(steps.len() - 1) =~= init);
        assert(steps[steps.len() - 1] == steps.last());
    }
}

/// When a connection goes down, what waits is dropped: after that only requests are
/// handed out that arrive after that, in the order of their arrival.
pub proof fn law_closing_drops_what_waits<R>(
    queue: Option<Queue<R>>,
    before: Seq<QueueStep<R>>,
    after: Seq<QueueStep<R>>,
)
    requires
        forall|i: int| 0 <= i < after.len() ==> !((#[trigger] after[i]) is ConnectionClosed),
    ensures
        ({
            let steps = before.push(QueueStep::ConnectionClosed) + after;
            handed_out(queue, steps) + waiting(queue_after(queue, steps)) == handed_out(
                queue,
                before,
            ) + arrivals(after)
        }),
{
    let closed = before.push(QueueStep::ConnectionClosed);
    let middle = queue_after(queue, closed);
    assert(closed.drop_last() =~= before);
    lemma_steps_join(queue, closed, after);
    law_requests_are_first_in_first_out(middle, after);
    let steps = closed + after;
    assert(handed_out(queue, closed) == handed_out(queue, before));
    assert(waiting(middle) =~= Seq::empty());
    assert(Seq::<(FramedDataUnit, R)>::empty() + arrivals(after) =~= arrivals(after));
    assert(handed_out(queue, steps) + waiting(queue_after(queue, steps)) =~= handed_out(
        queue,
        closed,
    ) + (handed_out(middle, after) + waiting(queue_after(middle, after))));
}

proof fn lemma_steps_join<R>(
    queue: Option<Queue<R>>,
    a: Seq<QueueStep<R>>,
    b: Seq<QueueStep<R>>,
)
    ensures
        queue_after(queue, a + b) == queue_after(queue_after(queue, a), b),
        handed_out(queue, a + b) == handed_out(queue, a) + handed_out(queue_after(queue, a), b),
    decreases b.len(),
{
    let middle = queue_after(queue, a);
    if b.len() == 0 {
        assert(a + b =~= a);
        assert(handed_out(queue, a) + handed_out(middle, b) =~= handed_out(queue, a));
    } else {
        lemma_steps_join(queue, a, b.drop_last());
        assert((a + b).drop_last() =~= a + b.drop_last());
        assert((a + b).last() == b.last());
        assert(handed_out(queue, a + b) =~= handed_out(queue, a) + handed_out(middle, b));
    }
}

// ----- all connections -----
/// A step on the queue of one connection.
pub struct ConnectionStep<R> {
    pub connection: Seq<char>,
    pub step: QueueStep<R>,
}

/// The queue of connection `c` of an open slave after `steps` on its connections,
/// where at first no connection has a queue: a step changes the queue of its own
/// connection.
pub open spec fn queue_of_slave<R>(steps: Seq<ConnectionStep<R>>, c: Seq<char>) -> Option<Queue<R>>
    decreases steps.len(),
{
    if steps.len() == 0 {
        None
    } else {
        let before = queue_of_slave(steps.drop_last(), c);
        if steps.last().connection == c {
            queue_step(before, steps.last().step)
        } else {
            before
        }
    }
}

/// The steps on connection `c`.
pub open spec fn steps_on<R>(steps: Seq<ConnectionStep<R>>, c: Seq<char>) -> Seq<QueueStep<R>>
    decreases steps.len(),
{
    if steps.len() == 0 {
        Seq::empty()
    } else {
        let before = steps_on(steps.drop_last(), c);
        if steps.last().connection == c {
            before.push(steps.last().step)
        } else {
            before
        }
    }
}

/// The requests of a connection do not wait for those of another one: its queue is
/// what its own steps make of it. So, of each connection of a slave by itself: its
/// requests are carried out in the order of their arrival and one at a time, one is
/// under way while any waits, and what waits when the connection goes down is not
/// carried out.
pub proof fn law_connections_do_not_wait_for_each_other<R>(
    steps: Seq<ConnectionStep<R>>,
    c: Seq<char>,
)
    requires
        asked_by_workers(steps_on(steps, c)),
    ensures
        queue_of_slave(steps, c) == queue_after(None, steps_on(steps, c)),
        workers(steps_on(steps, c)) == if queue_of_slave(steps, c) is Some {
            1int
        } else {
            0int
        },
        (forall|i: int|
            0 <= i < steps_on(steps, c).len() ==> !((#[trigger] steps_on(
                steps,
                c,
            )[i]) is ConnectionClosed)) ==> handed_out(None, steps_on(steps, c)) + waiting(
            queue_of_slave(steps, c),
        ) == arrivals(steps_on(steps, c)),
{
    lemma_queue_of_slave(steps, c);
    let own = steps_on(steps, c);
    law_one_request_at_a_time(own);
    if forall|i: int| 0 <= i < own.len() ==> !((#[trigger] own[i]) is ConnectionClosed) {
        law_requests_are_first_in_first_out(None, own);
        assert(waiting(None::<Queue<R>>) + arrivals(own) =~= arrivals(own));
    }
}

proof fn lemma_queue_of_slave<R>(steps: Seq<ConnectionStep<R>>, c: Seq<char>)
    ensures
        queue_of_slave(steps, c) == queue_after(None, steps_on(steps, c)),
    decreases steps.len(),
{
    if steps.len() > 0 {
        lemma_queue_of_slave(steps.drop_last(), c);
        if steps.last().connection == c {
            let own = steps_on(steps, c);
            assert(own.drop_last() =~= steps_on(steps.drop_last(), c));
        }
    }
}

} // verus!
