//! Shutdown coordination: on the termination signal, broadcast cancellation
//! once, wait until every background activity has stopped, and only then
//! release the one forced flush of the remaining batches.
//!
//! The runtime performs the waiting and the flushing; the coordinator holds
//! the bookkeeping that makes the order safe: the flush is released at most
//! once, and never before the last activity has stopped — otherwise a still
//! running ingestion activity could add an entry after the forced flush took
//! its snapshot.

use vstd::prelude::*;

verus! {

/// Bookkeeping of the shutdown sequence.
pub struct ShutdownCoordinator {
    tasks_running: usize,
    cancel_sent: bool,
    flushed: bool,
}

impl ShutdownCoordinator {
    /// How many background activities have not stopped yet.
    pub closed spec fn spec_tasks_running(self) -> int {
        self.tasks_running as int
    }

    /// Whether cancellation has been broadcast.
    pub closed spec fn spec_cancel_sent(self) -> bool {
        self.cancel_sent
    }

    /// Whether the forced flush has been released.
    pub closed spec fn spec_flushed(self) -> bool {
        self.flushed
    }

    /// The coordinator's invariant: the flush is released only after
    /// cancellation went out and every activity stopped.
    pub open spec fn wf(self) -> bool {
        self.spec_flushed() ==> (self.spec_cancel_sent() && self.spec_tasks_running() == 0)
    }

    /// Starts coordinating `task_count` background activities.
    pub fn new(task_count: usize) -> (c: ShutdownCoordinator)
        ensures
            c.spec_tasks_running() == task_count as int,
            !c.spec_cancel_sent(),
            !c.spec_flushed(),
            c.wf(),
    {
        ShutdownCoordinator { tasks_running: task_count, cancel_sent: false, flushed: false }
    }

    /// The termination signal arrived: `broadcast` says whether cancellation
    /// must be sent now — true exactly on the first signal.
    pub fn on_signal(&mut self) -> (broadcast: bool)
        requires
            old(self).wf(),
        ensures
            final(self).wf(),
            broadcast == !old(self).spec_cancel_sent(),
            final(self).spec_cancel_sent(),
            final(self).spec_tasks_running() == old(self).spec_tasks_running(),
            final(self).spec_flushed() == old(self).spec_flushed(),
    {
        let first = !self.cancel_sent;
        self.cancel_sent = true;
        first
    }

    /// One background activity reported that it has fully stopped.
    pub fn on_task_stopped(&mut self)
        requires
            old(self).wf(),
            old(self).spec_tasks_running() > 0,
        ensures
            final(self).wf(),
            final(self).spec_tasks_running() == old(self).spec_tasks_running() - 1,
            final(self).spec_cancel_sent() == old(self).spec_cancel_sent(),
            final(self).spec_flushed() == old(self).spec_flushed(),
    {
        self.tasks_running = self.tasks_running - 1;
    }

    /// Asks for the forced flush: granted exactly once, and only once
    /// cancellation went out and every activity has stopped.
    pub fn begin_flush(&mut self) -> (granted: bool)
        requires
            old(self).wf(),
        ensures
            final(self).wf(),
            granted == (old(self).spec_cancel_sent() && old(self).spec_tasks_running() == 0
                && !old(self).spec_flushed()),
            final(self).spec_flushed() == (old(self).spec_flushed() || granted),
            final(self).spec_cancel_sent() == old(self).spec_cancel_sent(),
            final(self).spec_tasks_running() == old(self).spec_tasks_running(),
    {
        if self.cancel_sent && self.tasks_running == 0 && !self.flushed {
            self.flushed = true;
            true
        } else {
            false
        }
    }
}

/// One happening the coordinator is told about, in the order it is told.
#[derive(Debug, Clone, Copy, PartialEq, Eq, Structural)]
pub enum CoordinatorEvent {
    /// The termination signal arrived ([`ShutdownCoordinator::on_signal`]).
    Signal,
    /// An activity stopped ([`ShutdownCoordinator::on_task_stopped`]).
    TaskStopped,
    /// The runtime asked for the flush ([`ShutdownCoordinator::begin_flush`]).
    FlushRequest,
}

/// The coordinator after one event, exactly as the methods leave it.
pub closed spec fn apply_event(c: ShutdownCoordinator, e: CoordinatorEvent) -> ShutdownCoordinator {
    match e {
        CoordinatorEvent::Signal => ShutdownCoordinator {
            tasks_running: c.tasks_running,
            cancel_sent: true,
            flushed: c.flushed,
        },
        CoordinatorEvent::TaskStopped => ShutdownCoordinator {
            tasks_running: if c.tasks_running > 0 {
                (c.tasks_running - 1) as usize
            } else {
                c.tasks_running
            },
            cancel_sent: c.cancel_sent,
            flushed: c.flushed,
        },
        CoordinatorEvent::FlushRequest => ShutdownCoordinator {
            tasks_running: c.tasks_running,
            cancel_sent: c.cancel_sent,
            flushed: c.flushed || (c.cancel_sent && c.tasks_running == 0),
        },
    }
}

/// Whether this event is a flush request that the coordinator grants.
pub open spec fn flush_granted(c: ShutdownCoordinator, e: CoordinatorEvent) -> bool {
    &&& e is FlushRequest
    &&& c.spec_cancel_sent()
    &&& c.spec_tasks_running() == 0
    &&& !c.spec_flushed()
}

/// The coordinator after a whole run of events.
pub open spec fn run_events(c: ShutdownCoordinator, evs: Seq<CoordinatorEvent>) -> ShutdownCoordinator
    decreases evs.len(),
{
    if evs.len() == 0 {
        c
    } else {
        run_events(apply_event(c, evs[0]), evs.drop_first())
    }
}

/// A run of events extended by one more ends with that event applied last.
proof fn lemma_run_events_push(c: ShutdownCoordinator, evs: Seq<CoordinatorEvent>, e: CoordinatorEvent)
    ensures
        run_events(c, evs.push(e)) == apply_event(run_events(c, evs), e),
    decreases evs.len(),
{
    if evs.len() == 0 {
        assert(evs.push(e)[0] == e);
        assert(evs.push(e).drop_first() =~= Seq::<CoordinatorEvent>::empty());
        assert(run_events(c, evs.push(e)) == run_events(
            apply_event(c, e),
            Seq::<CoordinatorEvent>::empty(),
        ));
        assert(run_events(c, evs) == c);
    } else {
        assert(evs.push(e)[0] == evs[0]);
        assert(evs.push(e).drop_first() =~= evs.drop_first().push(e));
        assert(run_events(c, evs.push(e)) == run_events(
            apply_event(c, evs[0]),
            evs.drop_first().push(e),
        ));
        lemma_run_events_push(apply_event(c, evs[0]), evs.drop_first(), e);
        assert(run_events(c, evs) == run_events(apply_event(c, evs[0]), evs.drop_first()));
    }
}

/// No event ever takes the released flush back.
proof fn lemma_flushed_is_monotone(c: ShutdownCoordinator, evs: Seq<CoordinatorEvent>)
    requires
        c.spec_flushed(),
    ensures
        run_events(c, evs).spec_flushed(),
    decreases evs.len(),
{
    if evs.len() > 0 {
        lemma_flushed_is_monotone(apply_event(c, evs[0]), evs.drop_first());
    }
}

/// The forced flush is granted at most once: over any run of events, once a
/// flush request was granted, every later flush request is refused —
/// whatever happened in between.
pub proof fn lemma_flush_granted_at_most_once(
    c: ShutdownCoordinator,
    evs: Seq<CoordinatorEvent>,
    i: int,
    j: int,
)
    requires
        0 <= i < j < evs.len(),
        flush_granted(run_events(c, evs.take(i)), evs[i]),
    ensures
        !flush_granted(run_events(c, evs.take(j)), evs[j]),
{
    let ci = run_events(c, evs.take(i));
    let ci1 = apply_event(ci, evs[i]);
    assert(evs.take(i).push(evs[i]) =~= evs.take(i + 1));
    lemma_run_events_push(c, evs.take(i), evs[i]);
    assert(ci1 == run_events(c, evs.take(i + 1)));
    assert(ci1.spec_flushed());
    lemma_run_between(c, evs, i + 1, j);
    assert(run_events(c, evs.take(j)) == run_events(ci1, evs.subrange(i + 1, j)));
    lemma_flushed_is_monotone(ci1, evs.subrange(i + 1, j));
}

/// The state after `j` events is the state after `m` of them, run forward
/// over the events between.
proof fn lemma_run_between(c: ShutdownCoordinator, evs: Seq<CoordinatorEvent>, m: int, j: int)
    requires
        0 <= m <= j <= evs.len(),
    ensures
        run_events(c, evs.take(j)) == run_events(run_events(c, evs.take(m)), evs.subrange(m, j)),
    decreases j - m,
{
    if m == j {
        assert(evs.subrange(m, j) =~= Seq::<CoordinatorEvent>::empty());
    } else {
        lemma_run_between(c, evs, m + 1, j);
        assert(evs.take(m).push(evs[m]) =~= evs.take(m + 1));
        lemma_run_events_push(c, evs.take(m), evs[m]);
        let cm = run_events(c, evs.take(m));
        let sub = evs.subrange(m, j);
        assert(sub[0] == evs[m]);
        assert(sub.drop_first() =~= evs.subrange(m + 1, j));
        assert(run_events(cm, sub) == run_events(apply_event(cm, evs[m]), evs.subrange(m + 1, j)));
    }
}

} // verus!
