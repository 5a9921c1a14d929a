//! Counting over a whole run, in whatever order the tasks are reported.
//!
//! A run hands out tasks in an order that depends on the number of permits,
//! and the caller reports them in an order of its own. What a run has found
//! once it is done does not depend on either. The proof gives every page a
//! weight: what the page and all the pages below it will add to a count. As
//! long as each task is reported with what its page holds, the count so far
//! and the weight of the outstanding tasks add up to what they were at the
//! start.
//!
//! The last part applies this to a small archive of two years with one
//! matching article, for every number of permits and every order of
//! reports.

use crate::dispatcher::laws::{lemma_ends_once, lemma_run_keeps_wf, lemma_step_keeps_wf};
use crate::dispatcher::model::{CrawlView, Event, OutcomeView, TaskView};
use crate::keywords::lemma_filter_members;
use crate::records::{SuccessRecord, TargetType};
use vstd::prelude::*;

verus! {

/// The weights of `tasks`, added up. The weight of a task is that of its
/// page, whatever its handle.
pub open spec fn weigh(tasks: Seq<TaskView>, weight: spec_fn(TargetType, Seq<char>) -> nat) -> nat
    decreases tasks.len(),
{
    if tasks.len() == 0 {
        0
    } else {
        weigh(tasks.drop_last(), weight) + weight(tasks.last().kind, tasks.last().url)
    }
}

/// The weights of the pages of level `kind` at `urls`, added up.
pub open spec fn weigh_pages(
    kind: TargetType,
    urls: Seq<Seq<char>>,
    weight: spec_fn(TargetType, Seq<char>) -> nat,
) -> nat
    decreases urls.len(),
{
    if urls.len() == 0 {
        0
    } else {
        weigh_pages(kind, urls.drop_last(), weight) + weight(kind, urls.last())
    }
}

/// The weight of all outstanding tasks of a run.
pub open spec fn load(run: CrawlView, weight: spec_fn(TargetType, Seq<char>) -> nat) -> nat {
    weigh(run.waiting, weight) + weigh(run.running, weight)
}

/// The number of articles of an outcome that are kept.
pub open spec fn kept_count(outcome: OutcomeView) -> nat {
    match outcome {
        OutcomeView::Records(records) => records.filter(|r: SuccessRecord| r.is_match()).len(),
        _ => 0,
    }
}

/// One for a failed page, nothing for any other.
pub open spec fn failed_count(outcome: OutcomeView) -> nat {
    if outcome is Failed {
        1
    } else {
        0
    }
}

/// One for every page.
pub open spec fn ended_count(outcome: OutcomeView) -> nat {
    1
}

/// Whether `weight` says of every page of the archive `page` what the page
/// and the pages below it add up to under `tally`: a page with children
/// weighs what it tallies itself and what its children weigh, and has a
/// level below it; any other page weighs what it tallies.
pub open spec fn balanced(
    page: spec_fn(TargetType, Seq<char>) -> OutcomeView,
    weight: spec_fn(TargetType, Seq<char>) -> nat,
    tally: spec_fn(OutcomeView) -> nat,
) -> bool {
    forall|kind: TargetType, url: Seq<char>|
        #![trigger page(kind, url)]
        match page(kind, url) {
            OutcomeView::Children(urls) => {
                &&& kind.below() is Some
                &&& weight(kind, url) == tally(page(kind, url)) + weigh_pages(
                    kind.below().unwrap(),
                    urls,
                    weight,
                )
            },
            outcome => weight(kind, url) == tally(outcome),
        }
}

/// Whether the events are reports of the archive `page`: no further entry
/// page is taken in, and every report that is taken in says of its task what
/// the page of that task holds.
pub open spec fn follows(
    run: CrawlView,
    events: Seq<Event>,
    page: spec_fn(TargetType, Seq<char>) -> OutcomeView,
) -> bool
    decreases events.len(),
{
    if events.len() == 0 {
        true
    } else {
        &&& match events[0] {
            Event::Seed(_) => !run.takes(events[0]),
            Event::Finish(id, outcome) => run.takes(events[0]) ==> outcome == page(
                run.running[run.slot(id)].kind,
                run.running[run.slot(id)].url,
            ),
            Event::Cancel => true,
        }
        &&& follows(run.step(events[0]), events.drop_first(), page)
    }
}

/// What the reports that are taken in add up to under `tally`.
pub open spec fn tallied(run: CrawlView, events: Seq<Event>, tally: spec_fn(OutcomeView) -> nat) -> nat
    decreases events.len(),
{
    if events.len() == 0 {
        0
    } else {
        let rest = tallied(run.step(events[0]), events.drop_first(), tally);
        match events[0] {
            Event::Finish(_, outcome) => if run.takes(events[0]) {
                tally(outcome) + rest
            } else {
                rest
            },
            _ => rest,
        }
    }
}

/// Weights add up over the parts of a sequence.
pub proof fn lemma_weigh_concat(
    first: Seq<TaskView>,
    second: Seq<TaskView>,
    weight: spec_fn(TargetType, Seq<char>) -> nat,
)
    ensures
        weigh(first + second, weight) == weigh(first, weight) + weigh(second, weight),
    decreases second.len(),
{
    if second.len() == 0 {
        assert(first + second == first);
    } else {
        lemma_weigh_concat(first, second.drop_last(), weight);
        assert((first + second).drop_last() == first + second.drop_last());
    }
}

/// Taking a task out takes its weight out.
pub proof fn lemma_weigh_remove(
    tasks: Seq<TaskView>,
    at: int,
    weight: spec_fn(TargetType, Seq<char>) -> nat,
)
    requires
        0 <= at < tasks.len(),
    ensures
        weigh(tasks.remove(at), weight) + weight(tasks[at].kind, tasks[at].url) == weigh(
            tasks,
            weight,
        ),
    decreases tasks.len(),
{
    if at == tasks.len() - 1 {
        assert(tasks.remove(at) == tasks.drop_last());
    } else {
        lemma_weigh_remove(tasks.drop_last(), at, weight);
        assert(tasks.remove(at).drop_last() == tasks.drop_last().remove(at));
        assert(tasks.remove(at).last() == tasks.last());
    }
}

/// The children of a page weigh what their pages weigh, whatever their
/// handles.
pub proof fn lemma_weigh_offspring(
    run: CrawlView,
    kind: TargetType,
    urls: Seq<Seq<char>>,
    weight: spec_fn(TargetType, Seq<char>) -> nat,
)
    ensures
        weigh(run.offspring(kind, urls), weight) == weigh_pages(kind, urls, weight),
    decreases urls.len(),
{
    if urls.len() > 0 {
        lemma_weigh_offspring(run, kind, urls.drop_last(), weight);
        assert(run.offspring(kind, urls).drop_last() == run.offspring(kind, urls.drop_last()));
    }
}

/// Moving the last `moved` tasks of a sequence to another one, the very last
/// first, moves their weight with them.
pub proof fn lemma_weigh_moved(
    tasks: Seq<TaskView>,
    moved: nat,
    weight: spec_fn(TargetType, Seq<char>) -> nat,
)
    requires
        moved <= tasks.len(),
    ensures
        weigh(tasks.take(tasks.len() - moved), weight) + weigh(
            Seq::new(moved, |i: int| tasks[tasks.len() - 1 - i]),
            weight,
        ) == weigh(tasks, weight),
    decreases moved,
{
    let count = tasks.len() as int;
    if moved == 0 {
        assert(tasks.take(count) == tasks);
    } else {
        let fewer = (moved - 1) as nat;
        lemma_weigh_moved(tasks, fewer, weight);
        let taken = Seq::new(moved, |i: int| tasks[count - 1 - i]);
        assert(taken.drop_last() == Seq::new(fewer, |i: int| tasks[count - 1 - i]));
        assert(taken.last() == tasks[count - moved]);
        assert(tasks.take(count - fewer).drop_last() == tasks.take(count - moved));
        assert(tasks.take(count - fewer).last() == tasks[count - moved]);
    }
}

/// Handing out the free permits changes the weight of no task.
pub proof fn lemma_load_admitted(run: CrawlView, weight: spec_fn(TargetType, Seq<char>) -> nat)
    requires
        run.client.wf(),
    ensures
        load(run.admitted(), weight) == load(run, weight),
{
    lemma_weigh_moved(run.waiting, run.admissions(), weight);
    lemma_weigh_concat(run.running, run.starting(), weight);
}

/// A report that says what the page of its task holds takes the weight of
/// the task out of the outstanding tasks and puts in what the report tallies
/// and the weight of the children.
pub proof fn lemma_report_balances(
    run: CrawlView,
    id: nat,
    page: spec_fn(TargetType, Seq<char>) -> OutcomeView,
    weight: spec_fn(TargetType, Seq<char>) -> nat,
    tally: spec_fn(OutcomeView) -> nat,
)
    requires
        run.wf(),
        balanced(page, weight, tally),
        run.takes(
            Event::Finish(id, page(run.running[run.slot(id)].kind, run.running[run.slot(id)].url)),
        ),
    ensures
        ({
            let task = run.running[run.slot(id)];
            let outcome = page(task.kind, task.url);
            tally(outcome) + load(run.step(Event::Finish(id, outcome)), weight) == load(run, weight)
        }),
{
    let slot = run.slot(id);
    let task = run.running[slot];
    let outcome = page(task.kind, task.url);
    let settled = run.settled(task, outcome);
    let ended = settled.ended(slot);
    lemma_load_admitted(ended, weight);
    lemma_weigh_remove(settled.running, slot, weight);
    if let OutcomeView::Children(urls) = outcome {
        let kind = task.kind.below().unwrap();
        lemma_weigh_offspring(run, kind, urls, weight);
        lemma_weigh_concat(run.waiting, run.offspring(kind, urls), weight);
    }
}

/// In whatever order the tasks of an archive are reported, what the reports
/// have tallied so far and the weight of the tasks that are still
/// outstanding add up to the weight of the tasks that were outstanding at
/// the start.
pub proof fn lemma_tally_balances(
    run: CrawlView,
    events: Seq<Event>,
    page: spec_fn(TargetType, Seq<char>) -> OutcomeView,
    weight: spec_fn(TargetType, Seq<char>) -> nat,
    tally: spec_fn(OutcomeView) -> nat,
)
    requires
        run.wf(),
        balanced(page, weight, tally),
        follows(run, events, page),
    ensures
        tallied(run, events, tally) + load(run.run(events), weight) == load(run, weight),
    decreases events.len(),
{
    if events.len() > 0 {
        lemma_step_keeps_wf(run, events[0]);
        lemma_tally_balances(run.step(events[0]), events.drop_first(), page, weight, tally);
        if run.takes(events[0]) {
            if let Event::Finish(id, outcome) = events[0] {
                lemma_report_balances(run, id, page, weight, tally);
            }
        }
    }
}

/// What a run holds after any events is what it held before and what the
/// reports that were taken in have tallied: so many successes as articles
/// were kept, so many failures as pages failed, so many ended tasks as
/// reports.
pub proof fn lemma_results_tallied(run: CrawlView, events: Seq<Event>)
    requires
        run.wf(),
    ensures
        ({
            let now = run.run(events);
            &&& now.successes.len() == run.successes.len() + tallied(
                run,
                events,
                |o: OutcomeView| kept_count(o),
            )
            &&& now.failures.len() == run.failures.len() + tallied(
                run,
                events,
                |o: OutcomeView| failed_count(o),
            )
            &&& now.jobs.completed == run.jobs.completed + tallied(
                run,
                events,
                |o: OutcomeView| ended_count(o),
            )
        }),
    decreases events.len(),
{
    if events.len() > 0 {
        lemma_step_keeps_wf(run, events[0]);
        lemma_results_tallied(run.step(events[0]), events.drop_first());
    }
}

/// Whether the page of level `kind` at `url` holds the article `record`.
pub open spec fn holds(
    page: spec_fn(TargetType, Seq<char>) -> OutcomeView,
    kind: TargetType,
    url: Seq<char>,
    record: SuccessRecord,
) -> bool {
    page(kind, url) matches OutcomeView::Records(records) && records.contains(record)
}

/// Whether `record` matches a keyword and some page of the archive holds it.
pub open spec fn found_in(page: spec_fn(TargetType, Seq<char>) -> OutcomeView, record: SuccessRecord) -> bool {
    record.is_match() && exists|kind: TargetType, url: Seq<char>| #[trigger]
        holds(page, kind, url, record)
}

/// The successes of a run only grow, and every success that the reports of
/// an archive add is an article that some page of the archive holds and that
/// matches a keyword.
pub proof fn lemma_successes_found(
    run: CrawlView,
    events: Seq<Event>,
    page: spec_fn(TargetType, Seq<char>) -> OutcomeView,
)
    requires
        run.wf(),
        follows(run, events, page),
    ensures
        run.successes.len() <= run.run(events).successes.len(),
        forall|i: int| 0 <= i < run.successes.len() ==> run.run(events).successes[i] == run.successes[i],
        forall|i: int|
            run.successes.len() <= i < run.run(events).successes.len() ==> found_in(
                page,
                #[trigger] run.run(events).successes[i],
            ),
    decreases events.len(),
{
    if events.len() > 0 {
        let next = run.step(events[0]);
        lemma_step_keeps_wf(run, events[0]);
        lemma_successes_found(next, events.drop_first(), page);
        let end = run.run(events);
        assert(run.successes.len() <= next.successes.len());
        assert forall|i: int| 0 <= i < run.successes.len() implies end.successes[i]
            == run.successes[i] by {
            assert(end.successes[i] == next.successes[i]);
        }
        assert forall|i: int| run.successes.len() <= i < end.successes.len() implies found_in(
            page,
            #[trigger] end.successes[i],
        ) by {
            if i < next.successes.len() {
                // added by this very report
                if let Event::Finish(id, outcome) = events[0] {
                    if let OutcomeView::Records(records) = outcome {
                        let task = run.running[run.slot(id)];
                        let matching = |r: SuccessRecord| r.is_match();
                        let record = end.successes[i];
                        assert(record == next.successes[i]);
                        assert(record == records.filter(matching)[i - run.successes.len()]);
                        assert(records.filter(matching).contains(record));
                        lemma_filter_members(records, matching, record);
                        assert(holds(page, task.kind, task.url, record));
                    }
                }
            }
        }
    }
}

/// An archive of two years, each with one month, one day and one article,
/// where the article of the first year matches a keyword and the other one
/// does not.
pub struct TwoYears {
    pub year: Seq<char>,
    pub other_year: Seq<char>,
    pub month: Seq<char>,
    pub other_month: Seq<char>,
    pub day: Seq<char>,
    pub other_day: Seq<char>,
    pub article: Seq<char>,
    pub other_article: Seq<char>,
    pub hit: SuccessRecord,
    pub miss: SuccessRecord,
}

impl TwoYears {
    /// The two branches are apart at every level, and exactly the article
    /// of the first one matches.
    pub open spec fn wf(self) -> bool {
        &&& self.year != self.other_year
        &&& self.month != self.other_month
        &&& self.day != self.other_day
        &&& self.article != self.other_article
        &&& self.hit.is_match()
        &&& !self.miss.is_match()
    }

    /// What each page of the archive holds. Every fetch succeeds and every
    /// page can be read.
    pub open spec fn page(self) -> spec_fn(TargetType, Seq<char>) -> OutcomeView {
        |kind: TargetType, url: Seq<char>|
            match kind {
                TargetType::Index => OutcomeView::Children(seq![self.year, self.other_year]),
                TargetType::Year => OutcomeView::Children(
                    seq![if url == self.year {
                        self.month
                    } else {
                        self.other_month
                    }],
                ),
                TargetType::Month => OutcomeView::Children(
                    seq![if url == self.month {
                        self.day
                    } else {
                        self.other_day
                    }],
                ),
                TargetType::Day => OutcomeView::Children(
                    seq![if url == self.day {
                        self.article
                    } else {
                        self.other_article
                    }],
                ),
                TargetType::Article => OutcomeView::Records(
                    seq![if url == self.article {
                        self.hit
                    } else {
                        self.miss
                    }],
                ),
            }
    }

    /// The number of matching articles at and below each page.
    pub open spec fn matches_below(self) -> spec_fn(TargetType, Seq<char>) -> nat {
        |kind: TargetType, url: Seq<char>|
            match kind {
                TargetType::Index => 1nat,
                TargetType::Year => if url == self.year {
                    1nat
                } else {
                    0nat
                },
                TargetType::Month => if url == self.month {
                    1nat
                } else {
                    0nat
                },
                TargetType::Day => if url == self.day {
                    1nat
                } else {
                    0nat
                },
                TargetType::Article => if url == self.article {
                    1nat
                } else {
                    0nat
                },
            }
    }

    /// The number of pages at and below each page.
    pub open spec fn pages_below(self) -> spec_fn(TargetType, Seq<char>) -> nat {
        |kind: TargetType, url: Seq<char>|
            match kind {
                TargetType::Index => 9nat,
                TargetType::Year => 4nat,
                TargetType::Month => 3nat,
                TargetType::Day => 2nat,
                TargetType::Article => 1nat,
            }
    }

    /// The state of a fresh run with `throttle` permits that has been handed
    /// the entry page at `root`.
    pub open spec fn seeded(throttle: nat, root: Seq<char>) -> CrawlView {
        CrawlView::initial(throttle).step(Event::Seed(root))
    }
}

/// The weights of the small archive are what its pages add up to.
pub proof fn lemma_two_years_balanced(archive: TwoYears)
    requires
        archive.wf(),
    ensures
        balanced(archive.page(), archive.matches_below(), |o: OutcomeView| kept_count(o)),
        balanced(archive.page(), |kind: TargetType, url: Seq<char>| 0nat, |o: OutcomeView| failed_count(o)),
        balanced(archive.page(), archive.pages_below(), |o: OutcomeView| ended_count(o)),
{
    reveal(Seq::filter);
    let page = archive.page();
    let none = |kind: TargetType, url: Seq<char>| 0nat;
    let matching = |r: SuccessRecord| r.is_match();
    assert forall|kind: TargetType, urls: Seq<Seq<char>>, weight: spec_fn(TargetType, Seq<char>) -> nat|
        urls.len() == 1 implies #[trigger] weigh_pages(kind, urls, weight) == weight(kind, urls[0]) by {
        assert(urls.drop_last().len() == 0);
        assert(weigh_pages(kind, urls.drop_last(), weight) == 0);
    }
    assert forall|kind: TargetType, urls: Seq<Seq<char>>, weight: spec_fn(TargetType, Seq<char>) -> nat|
        urls.len() == 2 implies #[trigger] weigh_pages(kind, urls, weight) == weight(kind, urls[0])
        + weight(kind, urls[1]) by {
        assert(urls.drop_last().len() == 1);
        assert(urls.drop_last()[0] == urls[0]);
        assert(weigh_pages(kind, urls.drop_last(), weight) == weight(kind, urls.drop_last()[0]));
    }
    assert forall|record: SuccessRecord| #[trigger] seq![record].filter(matching).len() == (if record.is_match() {
        1nat
    } else {
        0nat
    }) by {
        assert(seq![record].drop_last() =~= Seq::<SuccessRecord>::empty());
        assert(seq![record].drop_last().filter(matching) =~= Seq::<SuccessRecord>::empty());
    }
    assert forall|kind: TargetType, url: Seq<char>| #![trigger page(kind, url)]
        match page(kind, url) {
            OutcomeView::Children(urls) => {
                &&& kind.below() is Some
                &&& archive.matches_below()(kind, url) == kept_count(page(kind, url)) + weigh_pages(
                    kind.below().unwrap(),
                    urls,
                    archive.matches_below(),
                )
            },
            outcome => archive.matches_below()(kind, url) == kept_count(outcome),
        } by {
        if let OutcomeView::Records(records) = page(kind, url) {
            assert(records == seq![records[0]]);
        }
    }
    assert forall|kind: TargetType, url: Seq<char>| #![trigger page(kind, url)]
        match page(kind, url) {
            OutcomeView::Children(urls) => {
                &&& kind.below() is Some
                &&& none(kind, url) == failed_count(page(kind, url)) + weigh_pages(
                    kind.below().unwrap(),
                    urls,
                    none,
                )
            },
            outcome => none(kind, url) == failed_count(outcome),
        } by {
    }
    assert forall|kind: TargetType, url: Seq<char>| #![trigger page(kind, url)]
        match page(kind, url) {
            OutcomeView::Children(urls) => {
                &&& kind.below() is Some
                &&& archive.pages_below()(kind, url) == ended_count(page(kind, url)) + weigh_pages(
                    kind.below().unwrap(),
                    urls,
                    archive.pages_below(),
                )
            },
            outcome => archive.pages_below()(kind, url) == ended_count(outcome),
        } by {
    }
}

/// The small archive, crawled with any number of permits and reported in
/// any order.
///
/// At every moment no page has failed, at most one article has been kept,
/// and as long as fewer than nine tasks have ended a task is outstanding;
/// with the ninth nothing is outstanding any more. Once all work is done the nine tasks have ended, the one success is the
/// matching article, nothing is outstanding, and the end of the run has
/// been announced exactly once.
pub proof fn lemma_two_years_one_match(
    archive: TwoYears,
    throttle: nat,
    root: Seq<char>,
    events: Seq<Event>,
)
    requires
        archive.wf(),
        follows(TwoYears::seeded(throttle, root), events, archive.page()),
    ensures
        ({
            let end = TwoYears::seeded(throttle, root).run(events);
            &&& end.failures.len() == 0
            &&& end.successes.len() <= 1
            &&& end.jobs.completed <= 9
            &&& end.jobs.completed < 9 ==> end.jobs.count >= 1 && !end.jobs.fired
            &&& end.jobs.completed == 9 ==> end.jobs.count == 0
            &&& end.jobs.fired <==> end.jobs.count == 0
            &&& end.jobs.fired ==> {
                &&& end.jobs.completed == 9
                &&& end.jobs.registered == 9
                &&& end.successes == seq![archive.hit]
                &&& TwoYears::seeded(throttle, root).endings(events) == 1
            }
        }),
{
    let fresh = CrawlView::initial(throttle);
    let start = TwoYears::seeded(throttle, root);
    let end = start.run(events);
    let page = archive.page();
    let none = |kind: TargetType, url: Seq<char>| 0nat;
    lemma_step_keeps_wf(fresh, Event::Seed(root));
    assert(fresh.takes(Event::Seed(root)));
    assert(start.waiting + start.running =~= seq![
        TaskView { id: 0, url: root, kind: TargetType::Index },
    ]);
    lemma_weigh_concat(start.waiting, start.running, archive.matches_below());
    lemma_weigh_concat(start.waiting, start.running, none);
    lemma_weigh_concat(start.waiting, start.running, archive.pages_below());
    let first = seq![TaskView { id: 0, url: root, kind: TargetType::Index }];
    lemma_weigh_one(first[0], archive.matches_below());
    lemma_weigh_one(first[0], none);
    lemma_weigh_one(first[0], archive.pages_below());
    assert(first == seq![first[0]]);
    assert(load(start, archive.matches_below()) == 1);
    assert(load(start, none) == 0);
    assert(load(start, archive.pages_below()) == 9);
    lemma_two_years_balanced(archive);
    lemma_tally_balances(start, events, page, archive.matches_below(), |o: OutcomeView| kept_count(o));
    lemma_tally_balances(start, events, page, none, |o: OutcomeView| failed_count(o));
    lemma_tally_balances(start, events, page, archive.pages_below(), |o: OutcomeView| ended_count(o));
    lemma_results_tallied(start, events);
    lemma_run_keeps_wf(start, events);
    lemma_ends_once(start, events);
    lemma_successes_found(start, events, page);
    // a task that is outstanding weighs at least one page
    lemma_pages_weigh(end.waiting, archive);
    lemma_pages_weigh(end.running, archive);
    if end.jobs.fired {
        assert(end.waiting.len() == 0 && end.running.len() == 0);
        assert(end.successes.len() == 1);
        let record = end.successes[0];
        assert(found_in(page, record));
        let (kind, url) = choose|kind: TargetType, url: Seq<char>| #[trigger]
            holds(page, kind, url, record);
        assert(holds(page, kind, url, record));
        assert(record == archive.hit);
        assert(end.successes =~= seq![archive.hit]);
    }
}

/// One task weighs what its page weighs.
pub proof fn lemma_weigh_one(task: TaskView, weight: spec_fn(TargetType, Seq<char>) -> nat)
    ensures
        weigh(seq![task], weight) == weight(task.kind, task.url),
{
    assert(seq![task].drop_last() =~= Seq::<TaskView>::empty());
    assert(weigh(seq![task].drop_last(), weight) == 0);
}

/// Tasks of the small archive weigh at least one page each.
pub proof fn lemma_pages_weigh(tasks: Seq<TaskView>, archive: TwoYears)
    ensures
        weigh(tasks, archive.pages_below()) >= tasks.len(),
    decreases tasks.len(),
{
    if tasks.len() > 0 {
        lemma_pages_weigh(tasks.drop_last(), archive);
    }
}

} // verus!
