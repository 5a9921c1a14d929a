//! Counting the tasks that are still owed an ending.
//!
//! Every task is registered before it may run and reports its own end exactly
//! once. When the last registered task ends, the run is over; the manager says
//! so once and never again.

use vstd::prelude::*;

verus! {

/// Mathematical value of a [`JobManager`].
pub struct JobsView {
    /// Tasks registered and not yet ended.
    pub count: nat,
    /// Tasks registered so far.
    pub registered: nat,
    /// Tasks that have ended so far.
    pub completed: nat,
    /// Whether the end of the run has been announced.
    pub fired: bool,
}

impl JobsView {
    /// No task is counted twice and none is lost: what is outstanding is what
    /// was registered and has not ended.
    pub open spec fn wf(self) -> bool {
        self.count + self.completed == self.registered
    }

    /// The state before any task is registered.
    pub open spec fn initial() -> JobsView {
        JobsView { count: 0, registered: 0, completed: 0, fired: false }
    }

    /// The state after one more task is registered.
    pub open spec fn allocated(self) -> JobsView {
        JobsView { count: self.count + 1, registered: self.registered + 1, ..self }
    }

    /// Whether the end of one task now ends the run: it is the last one
    /// outstanding and the end has not been announced before.
    pub open spec fn last_one(self) -> bool {
        self.count == 1 && !self.fired
    }

    /// The state after one task has ended.
    pub open spec fn deallocated(self) -> JobsView {
        JobsView {
            count: (self.count - 1) as nat,
            completed: self.completed + 1,
            fired: self.fired || self.count == 1,
            ..self
        }
    }
}

/// The count of outstanding tasks, with the one-time signal that all are done.
pub struct JobManager {
    count: usize,
    fired: bool,
    registered: Ghost<nat>,
    completed: Ghost<nat>,
}

impl View for JobManager {
    type V = JobsView;

    closed spec fn view(&self) -> JobsView {
        JobsView {
            count: self.count as nat,
            registered: self.registered@,
            completed: self.completed@,
            fired: self.fired,
        }
    }
}

impl JobManager {
    /// No task is counted twice and none is lost.
    #[verifier::type_invariant]
    spec fn conserved(self) -> bool {
        self.count + self.completed@ == self.registered@
    }

    /// A manager with no task registered.
    pub fn new() -> (jobs: JobManager)
        ensures
            jobs@ == JobsView::initial(),
            jobs@.wf(),
    {
        JobManager { count: 0, fired: false, registered: Ghost(0), completed: Ghost(0) }
    }

    /// Registers one task. To be called before the task may run.
    pub fn allocate(&mut self)
        requires
            old(self)@.count < usize::MAX,
        ensures
            final(self)@ == old(self)@.allocated(),
            old(self)@.wf(),
            final(self)@.wf(),
    {
        proof {
            use_type_invariant(&*self);
        }
        *self = JobManager {
            count: self.count + 1,
            fired: self.fired,
            registered: Ghost((self.registered@ + 1) as nat),
            completed: self.completed,
        };
    }

    /// Records that one task has ended. The result is `true` where this was
    /// the last outstanding task and the end of the run had not been
    /// announced yet: the caller then announces it.
    pub fn deallocate(&mut self) -> (done: bool)
        requires
            old(self)@.count > 0,
        ensures
            final(self)@ == old(self)@.deallocated(),
            old(self)@.wf(),
            final(self)@.wf(),
            done == old(self)@.last_one(),
    {
        proof {
            use_type_invariant(&*self);
        }
        let done = self.count == 1 && !self.fired;
        *self = JobManager {
            count: self.count - 1,
            fired: self.fired || done,
            registered: self.registered,
            completed: Ghost((self.completed@ + 1) as nat),
        };
        done
    }

    /// Number of tasks registered and not yet ended.
    pub fn count(&self) -> (count: usize)
        ensures
            count == self@.count,
            self@.wf(),
    {
        proof {
            use_type_invariant(self);
        }
        self.count
    }

    /// Whether the end of the run has been announced.
    pub fn has_fired(&self) -> (fired: bool)
        ensures
            fired == self@.fired,
    {
        self.fired
    }
}

/// What a task can do to the count.
pub enum JobEvent {
    /// A task is registered.
    Allocate,
    /// A task ends.
    Deallocate,
}

impl JobsView {
    /// The state after the event. The end of a task where none is
    /// outstanding does not happen, so it changes nothing here.
    pub open spec fn step(self, event: JobEvent) -> JobsView {
        match event {
            JobEvent::Allocate => self.allocated(),
            JobEvent::Deallocate => if self.count > 0 {
                self.deallocated()
            } else {
                self
            },
        }
    }

    /// Whether the event has the end of the run announced.
    pub open spec fn fires(self, event: JobEvent) -> bool {
        event is Deallocate && self.last_one()
    }

    /// The state after the events, one after the other.
    pub open spec fn run(self, events: Seq<JobEvent>) -> JobsView
        decreases events.len(),
    {
        if events.len() == 0 {
            self
        } else {
            self.step(events[0]).run(events.drop_first())
        }
    }

    /// How many of the events, taken one after the other, have the end of
    /// the run announced.
    pub open spec fn announcements(self, events: Seq<JobEvent>) -> nat
        decreases events.len(),
    {
        if events.len() == 0 {
            0
        } else {
            let rest = self.step(events[0]).announcements(events.drop_first());
            if self.fires(events[0]) {
                rest + 1
            } else {
                rest
            }
        }
    }
}

/// Whatever tasks do, none is counted twice and none is lost, and nothing is
/// outstanding exactly when every registered task has ended.
pub proof fn lemma_jobs_conserved(jobs: JobsView, events: Seq<JobEvent>)
    requires
        jobs.wf(),
    ensures
        jobs.run(events).wf(),
        jobs.run(events).count == 0 <==> jobs.run(events).completed == jobs.run(events).registered,
    decreases events.len(),
{
    if events.len() > 0 {
        lemma_jobs_conserved(jobs.step(events[0]), events.drop_first());
    }
}

/// The end of the run is announced at most once, however often the count
/// comes back to zero: never after it has been announced, and exactly once
/// where the count first goes from one to zero.
pub proof fn lemma_jobs_fire_once(jobs: JobsView, events: Seq<JobEvent>)
    ensures
        jobs.announcements(events) <= 1,
        jobs.fired ==> jobs.announcements(events) == 0,
        jobs.run(events).fired <==> jobs.fired || jobs.announcements(events) == 1,
    decreases events.len(),
{
    if events.len() > 0 {
        lemma_jobs_fire_once(jobs.step(events[0]), events.drop_first());
    }
}

} // verus!
