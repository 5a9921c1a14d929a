//! A run of the dispatcher as a mathematical state machine: its states, the
//! events that move it, and what it answers.

use crate::fetch::ClientView;
use crate::job_manager::JobsView;
use crate::parsers::article::article_page;
use crate::parsers::day::day_page;
use crate::parsers::listing::listing_page;
use crate::records::{ErrorView, FailRecord, SuccessRecord, TargetType};
use vstd::prelude::*;

verus! {

/// Mathematical value of a [`Task`](crate::dispatcher::Task).
pub struct TaskView {
    pub id: nat,
    pub url: Seq<char>,
    pub kind: TargetType,
}

/// Mathematical value of a [`PageOutcome`](crate::dispatcher::PageOutcome).
pub enum OutcomeView {
    Children(Seq<Seq<char>>),
    Records(Seq<SuccessRecord>),
    Failed(ErrorView),
}

impl OutcomeView {
    /// What the page at `url`, a page of level `kind`, comes to.
    pub open spec fn of_page(
        kind: TargetType,
        url: Seq<char>,
        fetched: Result<Seq<char>, ErrorView>,
        entries: Seq<char>,
    ) -> OutcomeView {
        match kind {
            TargetType::Index | TargetType::Year | TargetType::Month => OutcomeView::of_listing(
                fetched,
                entries,
            ),
            TargetType::Day => OutcomeView::of_day(fetched),
            TargetType::Article => OutcomeView::of_article(fetched, url),
        }
    }

    /// What a page that lists pages of the level below comes to: its
    /// children where it was fetched and read, a failure otherwise.
    pub open spec fn of_listing(fetched: Result<Seq<char>, ErrorView>, entries: Seq<char>) -> OutcomeView {
        match fetched {
            Ok(content) => match listing_page(content, entries) {
                Ok(urls) => OutcomeView::Children(urls),
                Err(error) => OutcomeView::Failed(error),
            },
            Err(error) => OutcomeView::Failed(error),
        }
    }

    /// What the page of a day comes to: the articles it lists where it was
    /// fetched and read, a failure otherwise.
    pub open spec fn of_day(fetched: Result<Seq<char>, ErrorView>) -> OutcomeView {
        match fetched {
            Ok(content) => match day_page(content) {
                Ok(articles) => OutcomeView::Records(articles),
                Err(error) => OutcomeView::Failed(error),
            },
            Err(error) => OutcomeView::Failed(error),
        }
    }

    /// What the page of the article at `url` comes to: that one article
    /// where the page was fetched and read, a failure otherwise.
    pub open spec fn of_article(fetched: Result<Seq<char>, ErrorView>, url: Seq<char>) -> OutcomeView {
        match fetched {
            Ok(content) => match article_page(content, url) {
                Ok(article) => OutcomeView::Records(seq![article]),
                Err(error) => OutcomeView::Failed(error),
            },
            Err(error) => OutcomeView::Failed(error),
        }
    }
}

impl OutcomeView {
    /// Whether the outcome is one that a program can hold: its list is no
    /// longer than a list can be. Every [`PageOutcome`](crate::dispatcher::PageOutcome)
    /// is.
    pub open spec fn holdable(self) -> bool {
        match self {
            OutcomeView::Children(urls) => urls.len() <= usize::MAX,
            OutcomeView::Records(records) => records.len() <= usize::MAX,
            OutcomeView::Failed(_) => true,
        }
    }
}

/// Mathematical value of a [`Step`](crate::dispatcher::Step).
pub struct StepView {
    pub started: Seq<TaskView>,
    pub terminated: bool,
}

impl StepView {
    /// Nothing to fetch, nothing to announce.
    pub open spec fn idle() -> StepView {
        StepView { started: Seq::empty(), terminated: false }
    }
}

/// What can happen to a run.
pub enum Event {
    /// A new entry page is handed in.
    Seed(Seq<char>),
    /// The task with this handle is reported back with this outcome.
    Finish(nat, OutcomeView),
    /// The operator asks for the run to stop.
    Cancel,
}

/// Mathematical value of a [`Dispatcher`](crate::dispatcher::Dispatcher).
pub struct CrawlView {
    /// The permits.
    pub client: ClientView,
    /// The count of outstanding tasks.
    pub jobs: JobsView,
    /// Tasks that wait for a permit; the last one is admitted first.
    pub waiting: Seq<TaskView>,
    /// Tasks that hold a permit, in the order of their admission.
    pub running: Seq<TaskView>,
    /// Articles that matched a keyword.
    pub successes: Seq<SuccessRecord>,
    /// Pages that could not be fetched or read.
    pub failures: Seq<FailRecord>,
    /// Articles examined and pages failed so far.
    pub processed: nat,
    /// Handle of the next task.
    pub next_id: nat,
    /// Whether the operator has stopped the run.
    pub cancelled: bool,
}

impl CrawlView {
    /// The state of a fresh run with `throttle` permits.
    pub open spec fn initial(throttle: nat) -> CrawlView {
        CrawlView {
            client: ClientView { throttle, in_use: 0 },
            jobs: JobsView::initial(),
            waiting: Seq::empty(),
            running: Seq::empty(),
            successes: Seq::empty(),
            failures: Seq::empty(),
            processed: 0,
            next_id: 0,
            cancelled: false,
        }
    }

    /// Whether the run is over: all work is done, or the operator stopped it.
    pub open spec fn terminated(self) -> bool {
        self.jobs.fired || self.cancelled
    }

    /// Whether a task with handle `id` waits for a permit.
    pub open spec fn waits(self, id: nat) -> bool {
        exists|i: int| 0 <= i < self.waiting.len() && (#[trigger] self.waiting[i]).id == id
    }

    /// Whether a task with handle `id` holds a permit.
    pub open spec fn runs(self, id: nat) -> bool {
        exists|i: int| 0 <= i < self.running.len() && (#[trigger] self.running[i]).id == id
    }

    /// Position among the running tasks of the one with handle `id`.
    pub open spec fn slot(self, id: nat) -> int {
        choose|i: int| 0 <= i < self.running.len() && (#[trigger] self.running[i]).id == id
    }

    /// No handle is in use twice, and none that is in use will be given out
    /// again.
    pub open spec fn handles_distinct(self) -> bool {
        &&& forall|i: int| 0 <= i < self.waiting.len() ==> (#[trigger] self.waiting[i]).id < self.next_id
        &&& forall|i: int| 0 <= i < self.running.len() ==> (#[trigger] self.running[i]).id < self.next_id
        &&& forall|i: int, j: int|
            0 <= i < j < self.waiting.len() ==> (#[trigger] self.waiting[i]).id != (
            #[trigger] self.waiting[j]).id
        &&& forall|i: int, j: int|
            0 <= i < j < self.running.len() ==> (#[trigger] self.running[i]).id != (
            #[trigger] self.running[j]).id
        &&& forall|i: int, j: int|
            0 <= i < self.waiting.len() && 0 <= j < self.running.len() ==> (
            #[trigger] self.waiting[i]).id != (#[trigger] self.running[j]).id
    }

    /// The counters agree with the tasks.
    ///
    /// - Never more permits out than there are, and each one is held by a
    ///   running task.
    /// - The outstanding tasks are the waiting and the running ones, and
    ///   their number is what was registered and has not ended.
    /// - Once all work is done, nothing waits and nothing runs.
    /// - The counters are numbers that the machine can hold.
    /// - Where tasks have ended and none is outstanding, all work is done.
    pub open spec fn consistent(self) -> bool {
        &&& self.in_range()
        &&& self.jobs.completed > 0 && self.jobs.count == 0 ==> self.jobs.fired
        &&& self.client.wf()
        &&& self.jobs.wf()
        &&& self.client.in_use == self.running.len()
        &&& self.jobs.count == self.waiting.len() + self.running.len()
        &&& self.handles_distinct()
        &&& self.jobs.fired ==> self.jobs.count == 0
    }

    /// What holds of a run between two events: the counters agree with the
    /// tasks, and while the run goes on a task waits only if no permit is
    /// free.
    pub open spec fn wf(self) -> bool {
        &&& self.consistent()
        &&& self.counted()
        &&& !self.terminated() && self.waiting.len() > 0 ==> self.client.in_use
            == self.client.throttle
    }

    /// Whether the count of tasks and the handles are numbers that the
    /// machine can hold, and every task that was registered got a handle.
    pub open spec fn in_range(self) -> bool {
        &&& self.jobs.count <= usize::MAX
        &&& self.next_id <= u64::MAX
        &&& self.jobs.registered == self.next_id
    }

    /// Every task that has ended added at most as many results as a list
    /// can hold. So the number of results that were processed is one that
    /// the machine can hold, and needs no test of its own.
    pub open spec fn counted(self) -> bool {
        self.processed <= self.jobs.completed * 0xffff_ffff_ffff_ffff
    }

    /// Whether `n` more tasks can be registered: the count of outstanding
    /// tasks and the handles have room for them.
    pub open spec fn has_room_for_tasks(self, n: nat) -> bool {
        &&& self.jobs.count + n <= usize::MAX
        &&& self.next_id + n <= u64::MAX
    }

    /// Whether the counters have room for what the outcome adds: a task for
    /// each child. Articles and failures always have room.
    pub open spec fn has_room_for(self, outcome: OutcomeView) -> bool {
        outcome matches OutcomeView::Children(urls) ==> self.has_room_for_tasks(urls.len())
    }

    /// The tasks for the pages at `urls`, of level `kind`, with the next
    /// handles in order.
    pub open spec fn offspring(self, kind: TargetType, urls: Seq<Seq<char>>) -> Seq<TaskView> {
        Seq::new(urls.len(), |i: int| TaskView { id: (self.next_id + i) as nat, url: urls[i], kind })
    }

    /// The state after the pages at `urls` are registered as tasks of level
    /// `kind`: each is counted as outstanding and waits for a permit.
    pub open spec fn spawned(self, kind: TargetType, urls: Seq<Seq<char>>) -> CrawlView {
        CrawlView {
            jobs: JobsView {
                count: self.jobs.count + urls.len(),
                registered: self.jobs.registered + urls.len(),
                ..self.jobs
            },
            waiting: self.waiting + self.offspring(kind, urls),
            next_id: self.next_id + urls.len(),
            ..self
        }
    }

    /// Number of waiting tasks that can be given a permit now.
    pub open spec fn admissions(self) -> nat {
        if self.terminated() {
            0
        } else if self.client.throttle - self.client.in_use <= self.waiting.len() {
            (self.client.throttle - self.client.in_use) as nat
        } else {
            self.waiting.len()
        }
    }

    /// The tasks that are given a permit now: the last ones that were
    /// registered, the very last one first.
    pub open spec fn starting(self) -> Seq<TaskView> {
        Seq::new(self.admissions(), |i: int| self.waiting[self.waiting.len() - 1 - i])
    }

    /// The state after every free permit that a waiting task can take has
    /// been taken.
    pub open spec fn admitted(self) -> CrawlView {
        CrawlView {
            client: ClientView { in_use: self.client.in_use + self.admissions(), ..self.client },
            waiting: self.waiting.take(self.waiting.len() - self.admissions()),
            running: self.running + self.starting(),
            ..self
        }
    }

    /// The state after the outcome of `task` is taken in.
    ///
    /// - Children become tasks of the level below.
    /// - Of the records, those that match a keyword are kept, in their
    ///   order; each one counts as processed.
    /// - A failure is noted with the address and the level of the task, and
    ///   counts as processed.
    pub open spec fn settled(self, task: TaskView, outcome: OutcomeView) -> CrawlView {
        match outcome {
            OutcomeView::Children(urls) => self.spawned(task.kind.below().unwrap(), urls),
            OutcomeView::Records(records) => CrawlView {
                successes: self.successes + records.filter(|r: SuccessRecord| r.is_match()),
                processed: self.processed + records.len(),
                ..self
            },
            OutcomeView::Failed(_) => CrawlView {
                failures: self.failures.push(FailRecord { url: task.url, target_type: task.kind }),
                processed: self.processed + 1,
                ..self
            },
        }
    }

    /// The state after the running task at position `slot` has returned its
    /// permit and reported its end.
    pub open spec fn ended(self, slot: int) -> CrawlView {
        CrawlView {
            client: self.client.released(),
            jobs: self.jobs.deallocated(),
            running: self.running.remove(slot),
            ..self
        }
    }

    /// Whether the event is taken in. A run that is over takes in everything
    /// and does nothing. A run that goes on refuses a report for a task that
    /// is not running, children of an article, and children for which the
    /// count of tasks or the handles have no room.
    pub open spec fn accepts(self, event: Event) -> bool {
        match event {
            Event::Seed(_) => self.terminated() || self.has_room_for_tasks(1),
            Event::Finish(id, outcome) => self.terminated() || {
                &&& outcome.holdable()
                &&& self.runs(id)
                &&& outcome is Children ==> self.running[self.slot(id)].kind.below() is Some
                &&& self.has_room_for(outcome)
            },
            Event::Cancel => true,
        }
    }

    /// Whether the event changes anything: the run goes on and the event is
    /// taken in.
    pub open spec fn takes(self, event: Event) -> bool {
        !self.terminated() && self.accepts(event)
    }

    /// The state after the event. An event that is refused, and any event
    /// after the end of the run, changes nothing.
    pub open spec fn step(self, event: Event) -> CrawlView {
        if self.terminated() || !self.accepts(event) {
            self
        } else {
            match event {
                Event::Seed(url) => self.spawned(TargetType::Index, seq![url]).admitted(),
                Event::Finish(id, outcome) => self.settled(
                    self.running[self.slot(id)],
                    outcome,
                ).ended(self.slot(id)).admitted(),
                Event::Cancel => CrawlView { cancelled: true, ..self },
            }
        }
    }

    /// What the caller is told after the event: the tasks that were given a
    /// permit, and whether this event ended the run.
    pub open spec fn answer(self, event: Event) -> StepView {
        if self.terminated() || !self.accepts(event) {
            StepView::idle()
        } else {
            match event {
                Event::Seed(url) => StepView {
                    started: self.spawned(TargetType::Index, seq![url]).starting(),
                    terminated: false,
                },
                Event::Finish(id, outcome) => {
                    let settled = self.settled(self.running[self.slot(id)], outcome);
                    StepView {
                        started: settled.ended(self.slot(id)).starting(),
                        terminated: settled.jobs.last_one(),
                    }
                },
                Event::Cancel => StepView { started: Seq::empty(), terminated: true },
            }
        }
    }

    /// The state after the events, one after the other.
    pub open spec fn run(self, events: Seq<Event>) -> CrawlView
        decreases events.len(),
    {
        if events.len() == 0 {
            self
        } else {
            self.step(events[0]).run(events.drop_first())
        }
    }

    /// How many of the events, taken one after the other, had the caller
    /// told that the run is over.
    pub open spec fn endings(self, events: Seq<Event>) -> nat
        decreases events.len(),
    {
        if events.len() == 0 {
            0
        } else {
            let rest = self.step(events[0]).endings(events.drop_first());
            if self.answer(events[0]).terminated {
                rest + 1
            } else {
                rest
            }
        }
    }

    /// Whether the handle `id` has been given out and its task has ended.
    pub open spec fn retired(self, id: nat) -> bool {
        id < self.next_id && !self.waits(id) && !self.runs(id)
    }
}

} // verus!
