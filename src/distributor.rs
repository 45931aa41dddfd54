use vstd::prelude::*;
use crate::event::Event;

verus! {

/// The one ordered queue of captured events, drained once per tick into
/// every guest container.
pub struct EventDistributor {
    events: Vec<Event>,
}

/// One hand-over of an event to a guest container, by its index in order of
/// registration.
#[derive(Clone, Copy, Debug, PartialEq, Eq)]
pub struct Delivery {
    pub container: usize,
    pub event: Event,
}

/// The position in a delivery plan of event `i` for container `j`, with `m`
/// containers.
pub open spec fn slot(i: int, j: int, m: int) -> int {
    i * m + j
}

/// `plan` hands every event of `queue` to each of `m` containers: event by
/// event in order of capture, and for each event container by container in
/// order of registration.
pub open spec fn event_major(plan: Seq<Delivery>, queue: Seq<Event>, m: int) -> bool {
    &&& plan.len() == queue.len() * m
    &&& forall|i: int, j: int| 0 <= i < queue.len() && 0 <= j < m
        ==> #[trigger] plan[slot(i, j, m)] == (Delivery { container: j as usize, event: queue[i] })
}

/// The events that `plan` hands to container `j`, in order.
pub open spec fn received_by(plan: Seq<Delivery>, j: usize) -> Seq<Event>
    decreases plan.len(),
{
    if plan.len() == 0 {
        Seq::empty()
    } else {
        let earlier = received_by(plan.drop_last(), j);
        if plan.last().container == j {
            earlier.push(plan.last().event)
        } else {
            earlier
        }
    }
}

proof fn lemma_slot_bound(i2: int, j2: int, i: int, m: int)
    requires
        0 <= i2 < i,
        0 <= j2 < m,
    ensures
        0 <= slot(i2, j2, m) < i * m,
{
    assert(0 <= i2 * m + j2 < i * m) by (nonlinear_arith)
        requires
            0 <= i2 < i,
            0 <= j2 < m,
    ;
}

impl EventDistributor {
    /// The captured events not yet distributed, oldest first.
    pub closed spec fn pending(&self) -> Seq<Event> {
        self.events@
    }

    /// A distributor with an empty queue.
    pub fn new() -> (d: Self)
        ensures
            d.pending().len() == 0,
    {
        EventDistributor { events: Vec::new() }
    }

    /// Captures `event` at the end of the queue.
    pub fn send(&mut self, event: Event)
        ensures
            final(self).pending() == old(self).pending().push(event),
    {
        self.events.push(event);
    }

    /// Drains the queue into a plan of hand-overs to `containers` guest
    /// containers: each event, in order of capture, goes to every container
    /// in order of registration before the next event goes to any. Every
    /// container thus receives exactly the captured events, in order.
    pub fn distribute_events(&mut self, containers: usize) -> (plan: Vec<Delivery>)
        ensures
            final(self).pending().len() == 0,
            event_major(plan@, old(self).pending(), containers as int),
            forall|j: int| 0 <= j < containers ==> #[trigger] received_by(plan@, j as usize) == old(self).pending(),
    {
        let m = containers;
        let mut queue: Vec<Event> = Vec::new();
        std::mem::swap(&mut queue, &mut self.events);
        let mut plan: Vec<Delivery> = Vec::new();
        let mut i: usize = 0;
        assert(0 * (m as int) == 0) by (nonlinear_arith);
        while i < queue.len()
            invariant
                i <= queue@.len(),
                queue@ == old(self).pending(),
                self.pending().len() == 0,
                plan@.len() == i * m,
                forall|i2: int, j2: int| 0 <= i2 < i && 0 <= j2 < m
                    ==> #[trigger] plan@[slot(i2, j2, m as int)] == (Delivery { container: j2 as usize, event: queue@[i2] }),
                forall|j: int| 0 <= j < m ==> #[trigger] received_by(plan@, j as usize) == queue@.subrange(0, i as int),
            decreases queue@.len() - i,
        {
            let event = queue[i];
            let mut k: usize = 0;
            while k < m
                invariant
                    i < queue@.len(),
                    event == queue@[i as int],
                    k <= m,
                    plan@.len() == i * m + k,
                    forall|i2: int, j2: int| 0 <= i2 < i && 0 <= j2 < m
                        ==> #[trigger] plan@[slot(i2, j2, m as int)] == (Delivery { container: j2 as usize, event: queue@[i2] }),
                    forall|j2: int| 0 <= j2 < k ==> #[trigger] plan@[slot(i as int, j2, m as int)] == (Delivery { container: j2 as usize, event: event }),
                    forall|j: int| 0 <= j < m ==> #[trigger] received_by(plan@, j as usize) == if j < k {
                        queue@.subrange(0, i as int).push(event)
                    } else {
                        queue@.subrange(0, i as int)
                    },
                decreases m - k,
            {
                let ghost before = plan@;
                plan.push(Delivery { container: k, event });
                assert(plan@.drop_last() == before);
                assert(plan@.last() == (Delivery { container: k, event }));
                assert forall|j: int| 0 <= j < m implies #[trigger] received_by(plan@, j as usize) == if j == k {
                    received_by(before, j as usize).push(event)
                } else {
                    received_by(before, j as usize)
                } by {
                    assert(received_by(plan@, j as usize) == if plan@.last().container == j as usize {
                        received_by(plan@.drop_last(), j as usize).push(plan@.last().event)
                    } else {
                        received_by(plan@.drop_last(), j as usize)
                    });
                }
                assert forall|i2: int, j2: int| 0 <= i2 < i && 0 <= j2 < m
                    implies #[trigger] plan@[slot(i2, j2, m as int)] == (Delivery { container: j2 as usize, event: queue@[i2] }) by {
                    lemma_slot_bound(i2, j2, i as int, m as int);
                    assert(plan@[slot(i2, j2, m as int)] == before[slot(i2, j2, m as int)]);
                }
                assert forall|j2: int| 0 <= j2 < k + 1 implies #[trigger] plan@[slot(i as int, j2, m as int)] == (Delivery { container: j2 as usize, event: event }) by {
                    if j2 < k {
                        assert(plan@[slot(i as int, j2, m as int)] == before[slot(i as int, j2, m as int)]);
                    }
                }
                k = k + 1;
            }
            assert(queue@.subrange(0, i + 1) =~= queue@.subrange(0, i as int).push(event));
            assert(plan@.len() == (i + 1) * m) by (nonlinear_arith)
                requires
                    plan@.len() == i * m + m,
            ;
            assert forall|i2: int, j2: int| 0 <= i2 < i + 1 && 0 <= j2 < m
                implies #[trigger] plan@[slot(i2, j2, m as int)] == (Delivery { container: j2 as usize, event: queue@[i2] }) by {
            }
            i = i + 1;
        }
        assert(queue@.subrange(0, queue@.len() as int) =~= queue@);
        plan
    }
}

} // verus!
