//! The crawl as a state machine.
//!
//! The dispatcher owns the bookkeeping of a run: which tasks wait for a
//! permit, which ones are being fetched, how many are outstanding, and what
//! has been found so far. It never touches the network. Its caller fetches
//! the pages of the tasks it is handed and reports each one back with
//! [`Dispatcher::finish`]; the answer names the tasks to fetch next and says
//! whether the run is over.
//!
//! [`model`] holds the mathematical description of a run, [`laws`] what is
//! proved of each event and of every run, [`tally`] what a whole run adds
//! up to in whatever order its tasks are reported.

pub mod laws;
pub mod model;
pub mod tally;

use crate::dispatcher::laws::{lemma_slot_unique, lemma_step_keeps_wf};
use crate::dispatcher::model::{CrawlView, Event, OutcomeView, StepView, TaskView};
use crate::fetch::{ClientView, FetchClient};
use crate::job_manager::JobManager;
use crate::keywords::lemma_filter_push;
use crate::log_expect::LogExpect;
use crate::parsers::article::parse_article;
use crate::parsers::day::parse_day_page;
use crate::parsers::listing::parse_listing_page;
use crate::records::{
    Error, ErrorView, FailRecord, FailTarget, SuccessRecord, SuccessTarget, TargetType,
};
use vstd::prelude::*;

verus! {

/// One page to fetch: its handle, its address and its level.
#[derive(Clone, Debug, PartialEq, Eq)]
pub struct Task {
    pub id: u64,
    pub url: String,
    pub kind: TargetType,
}

impl View for Task {
    type V = TaskView;

    open spec fn view(&self) -> TaskView {
        TaskView { id: self.id as nat, url: self.url@, kind: self.kind }
    }
}

impl DeepView for Task {
    type V = TaskView;

    open spec fn deep_view(&self) -> TaskView {
        self@
    }
}

impl Task {
    /// A copy of the task.
    pub fn duplicate(&self) -> (copy: Task)
        ensures
            copy@ == self@,
    {
        Task { id: self.id, url: self.url.clone(), kind: self.kind }
    }
}

/// What the page of a task came to, once fetched and read.
#[derive(Clone, Debug, PartialEq, Eq)]
pub enum PageOutcome {
    /// The page lists these addresses, each a page of the level below.
    Children(Vec<String>),
    /// The page holds these articles.
    Records(Vec<SuccessTarget>),
    /// The page could not be fetched, or not be read.
    Failed(Error),
}

impl PageOutcome {
    /// The outcome of the page at `url`, a page of level `kind`, from what
    /// fetching it gave. A page that arrived is read here, each level in its
    /// own way: a page of the index, of a year or of a month lists its
    /// children in the elements that match `entries`; the page of a day
    /// holds articles; the page of an article holds that article.
    pub fn from_fetched(
        kind: TargetType,
        url: &str,
        fetched: Result<String, Error>,
        entries: &str,
    ) -> (outcome: PageOutcome)
        ensures
            outcome@ == OutcomeView::of_page(
                kind,
                url@,
                match fetched {
                    Ok(content) => Ok(content@),
                    Err(error) => Err(error@),
                },
                entries@,
            ),
    {
        match kind {
            TargetType::Index | TargetType::Year | TargetType::Month => PageOutcome::from_listing(
                fetched,
                entries,
            ),
            TargetType::Day => PageOutcome::from_day(fetched),
            TargetType::Article => PageOutcome::from_article(fetched, url),
        }
    }

    /// The outcome of a page that lists pages of the level below, from what
    /// fetching it gave. A page that arrived is read here: its entries are
    /// the elements that match `entries`, and the pages they point to are
    /// its children.
    pub fn from_listing(fetched: Result<String, Error>, entries: &str) -> (outcome: PageOutcome)
        ensures
            outcome@ == OutcomeView::of_listing(
                match fetched {
                    Ok(content) => Ok(content@),
                    Err(error) => Err(error@),
                },
                entries@,
            ),
    {
        match fetched {
            Ok(content) => match parse_listing_page(content, entries) {
                Ok(urls) => PageOutcome::Children(urls),
                Err(error) => PageOutcome::Failed(error),
            },
            Err(error) => PageOutcome::Failed(error),
        }
    }

    /// The outcome of the page of a day, from what fetching it gave. A page
    /// that arrived is read here; the articles it lists are its records.
    pub fn from_day(fetched: Result<String, Error>) -> (outcome: PageOutcome)
        ensures
            outcome@ == OutcomeView::of_day(
                match fetched {
                    Ok(content) => Ok(content@),
                    Err(error) => Err(error@),
                },
            ),
    {
        match fetched {
            Ok(content) => match parse_day_page(content) {
                Ok(articles) => PageOutcome::Records(articles),
                Err(error) => PageOutcome::Failed(error),
            },
            Err(error) => PageOutcome::Failed(error),
        }
    }

    /// The outcome of the page of the article at `url`, from what fetching
    /// it gave. A page that arrived is read here; the article is its one
    /// record.
    pub fn from_article(fetched: Result<String, Error>, url: &str) -> (outcome: PageOutcome)
        ensures
            outcome@ == OutcomeView::of_article(
                match fetched {
                    Ok(content) => Ok(content@),
                    Err(error) => Err(error@),
                },
                url@,
            ),
    {
        match fetched {
            Ok(content) => match parse_article(content, url) {
                Ok(article) => {
                    let mut articles: Vec<SuccessTarget> = Vec::new();
                    articles.push(article);
                    assert(articles.deep_view() =~= seq![article@]);
                    PageOutcome::Records(articles)
                },
                Err(error) => PageOutcome::Failed(error),
            },
            Err(error) => PageOutcome::Failed(error),
        }
    }
}

impl View for PageOutcome {
    type V = OutcomeView;

    open spec fn view(&self) -> OutcomeView {
        match self {
            PageOutcome::Children(urls) => OutcomeView::Children(urls.deep_view()),
            PageOutcome::Records(records) => OutcomeView::Records(records.deep_view()),
            PageOutcome::Failed(error) => OutcomeView::Failed(error@),
        }
    }
}

/// What the caller does after a report: fetch the tasks in `started`, in any
/// order, and announce the end of the run if `terminated` is set.
#[derive(Clone, Debug, PartialEq, Eq)]
pub struct Step {
    pub started: Vec<Task>,
    pub terminated: bool,
}

impl View for Step {
    type V = StepView;

    open spec fn view(&self) -> StepView {
        StepView { started: self.started.deep_view(), terminated: self.terminated }
    }
}

/// The bookkeeping of one run.
///
/// A run starts with [`Dispatcher::seed`]. Each task that is handed out is
/// fetched by the caller and reported back with [`Dispatcher::finish`]. The
/// run is over when the last outstanding task has been reported, or when
/// [`Dispatcher::cancel`] is called, whichever comes first.
pub struct Dispatcher {
    ledger: Ledger,
}

impl View for Dispatcher {
    type V = CrawlView;

    closed spec fn view(&self) -> CrawlView {
        self.ledger@
    }
}

impl Dispatcher {
    /// The books are in order between any two calls.
    #[verifier::type_invariant]
    spec fn in_order(self) -> bool {
        self.ledger@.wf()
    }

    /// A run that has not begun, with `throttle_count` permits.
    pub fn new(throttle_count: usize) -> (run: Dispatcher)
        ensures
            run@ == CrawlView::initial(throttle_count as nat),
            run@.wf(),
    {
        Dispatcher { ledger: Ledger::new(throttle_count) }
    }

    /// Hands in the entry page at `url` as a task of the top level. The
    /// answer names the tasks to fetch now. A run that is over takes the
    /// page in and does nothing; a run whose count of tasks or whose handles
    /// have no room for one more refuses it with `GeneralError`.
    pub fn seed(&mut self, url: &str) -> (result: Result<Step, Error>)
        ensures
            old(self)@.wf(),
            final(self)@.wf(),
            final(self)@ == old(self)@.step(Event::Seed(url@)),
            match result {
                Ok(step) => old(self)@.accepts(Event::Seed(url@)) && step@ == old(self)@.answer(
                    Event::Seed(url@),
                ),
                Err(error) => !old(self)@.accepts(Event::Seed(url@)) && error@
                    == ErrorView::GeneralError,
            },
    {
        proof {
            use_type_invariant(&*self);
        }
        // The books are taken out while they change and put back when they
        // are in order again, so that they are never seen half-updated.
        let mut ledger = Ledger::new(0);
        core::mem::swap(&mut self.ledger, &mut ledger);
        let result = ledger.seed(url);
        core::mem::swap(&mut self.ledger, &mut ledger);
        result
    }

    /// Takes in what the page of the running task `id` came to, lets the
    /// task return its permit and report its end, and hands the free permits
    /// to waiting tasks. The answer names the tasks to fetch now and says
    /// whether this was the end of the run.
    ///
    /// A run that is over takes the report in and does nothing. A run that
    /// goes on refuses with `GeneralError`, and changes nothing, where no
    /// running task has the handle `id`, where children are reported for an
    /// article, and where the count of tasks or the handles have no room for
    /// the children. Articles and failures always have room.
    pub fn finish(&mut self, id: u64, outcome: PageOutcome) -> (result: Result<Step, Error>)
        ensures
            old(self)@.wf(),
            final(self)@.wf(),
            final(self)@ == old(self)@.step(Event::Finish(id as nat, outcome@)),
            match result {
                Ok(step) => old(self)@.accepts(Event::Finish(id as nat, outcome@)) && step@ == old(
                    self,
                )@.answer(Event::Finish(id as nat, outcome@)),
                Err(error) => !old(self)@.accepts(Event::Finish(id as nat, outcome@)) && error@
                    == ErrorView::GeneralError,
            },
    {
        proof {
            use_type_invariant(&*self);
        }
        let mut ledger = Ledger::new(0);
        core::mem::swap(&mut self.ledger, &mut ledger);
        let result = ledger.finish(id, outcome);
        core::mem::swap(&mut self.ledger, &mut ledger);
        result
    }

    /// Stops the run at the operator's request. The result says whether
    /// this call ended the run: it did unless the run was over already.
    /// Tasks that are being fetched are not waited for; their reports are
    /// taken in and change nothing.
    pub fn cancel(&mut self) -> (stopped: bool)
        ensures
            old(self)@.wf(),
            final(self)@.wf(),
            final(self)@ == old(self)@.step(Event::Cancel),
            stopped == old(self)@.answer(Event::Cancel).terminated,
            stopped == !old(self)@.terminated(),
    {
        proof {
            use_type_invariant(&*self);
        }
        let mut ledger = Ledger::new(0);
        core::mem::swap(&mut self.ledger, &mut ledger);
        let stopped = ledger.cancel();
        core::mem::swap(&mut self.ledger, &mut ledger);
        stopped
    }

    /// Whether the run is over.
    pub fn is_terminated(&self) -> (over: bool)
        ensures
            over == self@.terminated(),
    {
        self.ledger.is_terminated()
    }

    /// Number of tasks registered and not yet ended: those that wait and
    /// those that are being fetched.
    pub fn outstanding(&self) -> (count: usize)
        ensures
            count == self@.jobs.count,
            count == self@.waiting.len() + self@.running.len(),
    {
        proof {
            use_type_invariant(self);
        }
        self.ledger.jobs.count()
    }

    /// Number of permits that are held, which is the number of tasks that
    /// are being fetched: never more than there are permits.
    pub fn in_flight(&self) -> (count: usize)
        ensures
            count == self@.client.in_use,
            count == self@.running.len(),
            count <= self@.client.throttle,
    {
        proof {
            use_type_invariant(self);
        }
        self.ledger.client.in_use()
    }

    /// Number of articles examined and pages failed so far.
    pub fn processed(&self) -> (count: u128)
        ensures
            count == self@.processed,
    {
        self.ledger.processed
    }

    /// Number of articles kept so far.
    pub fn matched(&self) -> (count: usize)
        ensures
            count == self@.successes.len(),
    {
        self.ledger.successes.len()
    }

    /// The client that hands out the permits of this run.
    pub fn client(&self) -> (client: &FetchClient)
        ensures
            client@ == self@.client,
    {
        &self.ledger.client
    }

    /// The articles that were kept, in the order in which they were found.
    /// They can be read once the run is over, not before.
    pub fn successes(&self) -> (list: Option<&Vec<SuccessTarget>>)
        ensures
            list is Some <==> self@.terminated(),
            list matches Some(found) ==> found.deep_view() == self@.successes,
    {
        if self.ledger.is_terminated() {
            Some(&self.ledger.successes)
        } else {
            None
        }
    }

    /// The pages that failed, in the order in which they were reported.
    /// They can be read once the run is over, not before.
    pub fn failures(&self) -> (list: Option<&Vec<FailTarget>>)
        ensures
            list is Some <==> self@.terminated(),
            list matches Some(failed) ==> failed.deep_view() == self@.failures,
    {
        if self.ledger.is_terminated() {
            Some(&self.ledger.failures)
        } else {
            None
        }
    }
}

/// The books of one run. [`Dispatcher`] keeps them in order.
struct Ledger {
    client: FetchClient,
    jobs: JobManager,
    waiting: Vec<Task>,
    running: Vec<Task>,
    successes: Vec<SuccessTarget>,
    failures: Vec<FailTarget>,
    processed: u128,
    next_id: u64,
    cancelled: bool,
}

impl View for Ledger {
    type V = CrawlView;

    closed spec fn view(&self) -> CrawlView {
        CrawlView {
            client: self.client@,
            jobs: self.jobs@,
            waiting: self.waiting.deep_view(),
            running: self.running.deep_view(),
            successes: self.successes.deep_view(),
            failures: self.failures.deep_view(),
            processed: self.processed as nat,
            next_id: self.next_id as nat,
            cancelled: self.cancelled,
        }
    }
}

impl Ledger {
    /// The books of a run that has not begun.
    fn new(throttle_count: usize) -> (run: Ledger)
        ensures
            run@ == CrawlView::initial(throttle_count as nat),
            run@.wf(),
    {
        let run = Ledger {
            client: FetchClient::new(throttle_count),
            jobs: JobManager::new(),
            waiting: Vec::new(),
            running: Vec::new(),
            successes: Vec::new(),
            failures: Vec::new(),
            processed: 0,
            next_id: 0,
            cancelled: false,
        };
        assert(run.waiting.deep_view() =~= Seq::empty());
        assert(run.running.deep_view() =~= Seq::empty());
        assert(run.successes.deep_view() =~= Seq::empty());
        assert(run.failures.deep_view() =~= Seq::empty());
        run
    }

    /// Takes in the entry page at `url`.
    fn seed(&mut self, url: &str) -> (result: Result<Step, Error>)
        requires
            old(self)@.wf(),
        ensures
            final(self)@ == old(self)@.step(Event::Seed(url@)),
            final(self)@.wf(),
            match result {
                Ok(step) => old(self)@.accepts(Event::Seed(url@)) && step@ == old(self)@.answer(
                    Event::Seed(url@),
                ),
                Err(error) => !old(self)@.accepts(Event::Seed(url@)) && error@
                    == ErrorView::GeneralError,
            },
    {
        proof {
            lemma_step_keeps_wf(self@, Event::Seed(url@));
        }
        if self.is_terminated() {
            let idle = Step { started: Vec::new(), terminated: false };
            assert(idle@.started =~= Seq::empty());
            return Ok(idle);
        }
        if !self.has_room_for_tasks(1) {
            return Err(Error::GeneralError);
        }
        let mut urls: Vec<String> = Vec::new();
        urls.push(url.to_owned());
        assert(urls.deep_view() =~= seq![url@]);
        self.spawn(TargetType::Index, &urls);
        let started = self.grant();
        Ok(Step { started, terminated: false })
    }

    /// Takes in what the page of the running task `id` came to.
    fn finish(&mut self, id: u64, outcome: PageOutcome) -> (result: Result<Step, Error>)
        requires
            old(self)@.wf(),
        ensures
            final(self)@ == old(self)@.step(Event::Finish(id as nat, outcome@)),
            final(self)@.wf(),
            match result {
                Ok(step) => old(self)@.accepts(Event::Finish(id as nat, outcome@)) && step@ == old(
                    self,
                )@.answer(Event::Finish(id as nat, outcome@)),
                Err(error) => !old(self)@.accepts(Event::Finish(id as nat, outcome@)) && error@
                    == ErrorView::GeneralError,
            },
    {
        proof {
            lemma_step_keeps_wf(self@, Event::Finish(id as nat, outcome@));
        }
        if self.is_terminated() {
            let idle = Step { started: Vec::new(), terminated: false };
            assert(idle@.started =~= Seq::empty());
            return Ok(idle);
        }
        let slot = match self.find(id) {
            Some(slot) => slot,
            None => {
                return Err(Error::GeneralError);
            },
        };
        proof {
            lemma_slot_unique(self@, id as nat, slot as int);
        }
        match outcome {
            PageOutcome::Children(urls) => {
                let kind = match self.running[slot].kind.next() {
                    Some(kind) => kind,
                    None => {
                        return Err(Error::GeneralError);
                    },
                };
                if !self.has_room_for_tasks(urls.len()) {
                    return Err(Error::GeneralError);
                }
                self.spawn(kind, &urls);
            },
            PageOutcome::Records(records) => {
                self.keep(&records);
            },
            PageOutcome::Failed(_) => {
                self.fail(slot);
            },
        }
        let terminated = self.end(slot);
        let started = self.grant();
        Ok(Step { started, terminated })
    }

    /// Stops the run, and says whether this call did so.
    fn cancel(&mut self) -> (stopped: bool)
        requires
            old(self)@.wf(),
        ensures
            final(self)@ == old(self)@.step(Event::Cancel),
            final(self)@.wf(),
            stopped == old(self)@.answer(Event::Cancel).terminated,
            stopped == !old(self)@.terminated(),
    {
        if self.is_terminated() {
            false
        } else {
            self.cancelled = true;
            true
        }
    }

    /// Whether the run is over.
    fn is_terminated(&self) -> (over: bool)
        ensures
            over == self@.terminated(),
    {
        self.cancelled || self.jobs.has_fired()
    }

    /// Whether `n` more tasks can be registered.
    fn has_room_for_tasks(&self, n: usize) -> (fits: bool)
        ensures
            fits == self@.has_room_for_tasks(n as nat),
    {
        n <= usize::MAX - self.jobs.count() && n as u64 <= u64::MAX - self.next_id
    }


    /// Position among the running tasks of the one with handle `id`.
    fn find(&self, id: u64) -> (slot: Option<usize>)
        ensures
            match slot {
                Some(slot) => slot < self@.running.len() && self@.running[slot as int].id == id,
                None => !self@.runs(id as nat),
            },
    {
        let mut slot: usize = 0;
        while slot < self.running.len()
            invariant
                slot <= self.running.len(),
                forall|i: int| 0 <= i < slot ==> (#[trigger] self@.running[i]).id != id,
            decreases self.running.len() - slot,
        {
            if self.running[slot].id == id {
                return Some(slot);
            }
            slot += 1;
        }
        None
    }

    /// Registers the pages at `urls` as tasks of level `kind`.
    fn spawn(&mut self, kind: TargetType, urls: &Vec<String>)
        requires
            old(self)@.jobs.wf(),
            old(self)@.has_room_for_tasks(urls.len() as nat),
        ensures
            final(self)@ == old(self)@.spawned(kind, urls.deep_view()),
            final(self)@.jobs.wf(),
    {
        let ghost before = self@;
        let mut i: usize = 0;
        while i < urls.len()
            invariant
                i <= urls.len(),
                before.has_room_for_tasks(urls.len() as nat),
                self@.jobs.wf(),
                self@ == before.spawned(kind, urls.deep_view().take(i as int)),
            decreases urls.len() - i,
        {
            let ghost so_far = urls.deep_view().take(i as int);
            let ghost waiting = self@.waiting;
            self.jobs.allocate();
            self.waiting.push(Task { id: self.next_id, url: urls[i].clone(), kind });
            self.next_id = self.next_id + 1;
            i += 1;
            proof {
                let now = urls.deep_view().take(i as int);
                assert(now == so_far.push(urls[i - 1]@));
                assert(self@.waiting =~= waiting.push(
                    TaskView { id: (before.next_id + i - 1) as nat, url: urls[i - 1]@, kind },
                ));
                assert(before.offspring(kind, now) =~= before.offspring(kind, so_far).push(
                    TaskView { id: (before.next_id + i - 1) as nat, url: urls[i - 1]@, kind },
                ));
                assert(self@.waiting =~= before.waiting + before.offspring(kind, now));
            }
        }
        proof {
            assert(urls.deep_view().take(urls.len() as int) == urls.deep_view());
        }
    }

    /// Keeps those of `records` that match a keyword, and counts them all as
    /// processed.
    fn keep(&mut self, records: &Vec<SuccessTarget>)
        requires
            old(self)@.processed + records.len() <= u128::MAX,
        ensures
            final(self)@ == (CrawlView {
                successes: old(self)@.successes + records.deep_view().filter(
                    |r: SuccessRecord| r.is_match(),
                ),
                processed: old(self)@.processed + records.len() as nat,
                ..old(self)@
            }),
    {
        let ghost before = self@;
        let ghost matching = |r: SuccessRecord| r.is_match();
        let mut i: usize = 0;
        assert(records.deep_view().take(0).filter(matching) == Seq::<SuccessRecord>::empty()) by {
            reveal(Seq::filter);
        }
        while i < records.len()
            invariant
                i <= records.len(),
                before.processed + records.len() <= u128::MAX,
                matching == |r: SuccessRecord| r.is_match(),
                self@ == (CrawlView {
                    successes: before.successes + records.deep_view().take(i as int).filter(
                        matching,
                    ),
                    processed: before.processed + i as nat,
                    ..before
                }),
            decreases records.len() - i,
        {
            let ghost so_far = records.deep_view().take(i as int);
            let ghost successes = self@.successes;
            self.processed = self.processed + 1;
            if records[i].is_match() {
                self.successes.push(records[i].duplicate());
                assert(self@.successes =~= successes.push(records[i as int]@));
            }
            i += 1;
            proof {
                assert(records.deep_view().take(i as int) == so_far.push(records[i - 1]@));
                lemma_filter_push(so_far, matching, records[i - 1]@);
            }
        }
        proof {
            assert(records.deep_view().take(records.len() as int) == records.deep_view());
        }
    }

    /// Notes that the page of the running task at position `slot` failed.
    fn fail(&mut self, slot: usize)
        requires
            slot < old(self)@.running.len(),
            old(self)@.processed + 1 <= u128::MAX,
        ensures
            final(self)@ == (CrawlView {
                failures: old(self)@.failures.push(
                    FailRecord {
                        url: old(self)@.running[slot as int].url,
                        target_type: old(self)@.running[slot as int].kind,
                    },
                ),
                processed: old(self)@.processed + 1,
                ..old(self)@
            }),
    {
        let ghost failures = self@.failures;
        let failure = FailTarget {
            url: self.running[slot].url.clone(),
            target_type: self.running[slot].kind,
        };
        self.failures.push(failure);
        self.processed = self.processed + 1;
        assert(self@.failures =~= failures.push(failure@));
    }

    /// Lets the running task at position `slot` return its permit and report
    /// its end. The result says whether it was the last one outstanding.
    fn end(&mut self, slot: usize) -> (done: bool)
        requires
            slot < old(self)@.running.len(),
            old(self)@.client.wf(),
            old(self)@.client.in_use > 0,
            old(self)@.jobs.wf(),
            old(self)@.jobs.count > 0,
        ensures
            final(self)@ == old(self)@.ended(slot as int),
            done == old(self)@.jobs.last_one(),
    {
        let ghost running = self@.running;
        self.running.remove(slot);
        self.client.release();
        assert(self@.running =~= running.remove(slot as int));
        self.jobs.deallocate()
    }

    /// Gives every free permit that a waiting task can take to the task
    /// that was registered last, and returns the tasks that got one.
    fn grant(&mut self) -> (started: Vec<Task>)
        requires
            old(self)@.client.wf(),
        ensures
            final(self)@ == old(self)@.admitted(),
            started.deep_view() == old(self)@.starting(),
    {
        let ghost before = self@;
        let ghost count = before.waiting.len() as int;
        let mut started: Vec<Task> = Vec::new();
        if self.cancelled || self.jobs.has_fired() {
            assert(started.deep_view() =~= before.starting());
            assert(self@.waiting =~= before.admitted().waiting);
            assert(self@.running =~= before.admitted().running);
            return started;
        }
        assert(started.deep_view() =~= Seq::empty());
        assert(self@.waiting =~= before.waiting.take(count));
        assert(self@.running =~= before.running + started.deep_view());
        while self.client.in_use() < self.client.throttle() && self.waiting.len() > 0
            invariant
                count == before.waiting.len(),
                before.client.wf(),
                started.len() <= before.admissions(),
                self@.client.wf(),
                self@ == (CrawlView {
                    client: ClientView {
                        in_use: before.client.in_use + started.len() as nat,
                        ..before.client
                    },
                    waiting: before.waiting.take(count - started.len()),
                    running: before.running + started.deep_view(),
                    ..before
                }),
                started.deep_view() == Seq::new(
                    started.len() as nat,
                    |i: int| before.waiting[count - 1 - i],
                ),
                !before.terminated(),
            decreases self.waiting.len(),
        {
            let ghost waiting = self@.waiting;
            let ghost running = self@.running;
            let ghost begun = started.deep_view();
            let ghost top = self.waiting@.last();
            let ghost waiting_vec = self.waiting@;
            assert(waiting.last() == top@);
            let task = self.waiting.pop().log_expect("a task waits for a permit");
            self.client.acquire();
            started.push(task.duplicate());
            self.running.push(task);
            proof {
                assert(task@ == before.waiting[count - started.len()]);
                assert(self.waiting@ == waiting_vec.drop_last());
                assert(self@.waiting =~= waiting.drop_last());
                assert(self@.waiting =~= before.waiting.take(count - started.len()));
                assert(started.deep_view() =~= begun.push(task@));
                assert(self@.running =~= running.push(task@));
                assert(self@.running =~= before.running + started.deep_view());
            }
        }
        proof {
            assert(self@.waiting.len() == self.waiting.len());
            assert(started.len() == before.admissions());
            assert(started.deep_view() =~= before.starting());
        }
        started
    }
}

} // verus!
