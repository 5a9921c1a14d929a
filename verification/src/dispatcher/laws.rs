//! What holds of every run of the dispatcher.

use crate::dispatcher::model::{CrawlView, Event, OutcomeView, StepView, TaskView};
use crate::keywords::lemma_filter_members;
use crate::records::{FailRecord, SuccessRecord, TargetType};
use vstd::prelude::*;

verus! {

/// Registering pages keeps the counters in agreement with the tasks.
pub proof fn lemma_spawned_consistent(run: CrawlView, kind: TargetType, urls: Seq<Seq<char>>)
    requires
        run.consistent(),
        run.has_room_for_tasks(urls.len()),
        !run.jobs.fired,
    ensures
        run.spawned(kind, urls).consistent(),
{
    let after = run.spawned(kind, urls);
    assert forall|i: int| 0 <= i < after.waiting.len() implies (#[trigger] after.waiting[i]).id
        < after.next_id by {
        if i < run.waiting.len() {
            assert(after.waiting[i] == run.waiting[i]);
        }
    }
    assert forall|i: int, j: int| 0 <= i < j < after.waiting.len() implies (
    #[trigger] after.waiting[i]).id != (#[trigger] after.waiting[j]).id by {
        if j < run.waiting.len() {
            assert(after.waiting[i] == run.waiting[i]);
            assert(after.waiting[j] == run.waiting[j]);
        } else if i < run.waiting.len() {
            assert(after.waiting[i] == run.waiting[i]);
        }
    }
    assert forall|i: int, j: int|
        0 <= i < after.waiting.len() && 0 <= j < after.running.len() implies (
    #[trigger] after.waiting[i]).id != (#[trigger] after.running[j]).id by {
        if i < run.waiting.len() {
            assert(after.waiting[i] == run.waiting[i]);
        }
    }
}

/// The end of a running task keeps the counters in agreement with the tasks.
pub proof fn lemma_ended_consistent(run: CrawlView, slot: int)
    requires
        run.consistent(),
        !run.jobs.fired,
        0 <= slot < run.running.len(),
    ensures
        run.ended(slot).consistent(),
{
    let after = run.ended(slot);
    assert forall|i: int| 0 <= i < after.running.len() implies (#[trigger] after.running[i]).id
        < after.next_id by {
        assert(after.running[i] == run.running[if i < slot { i } else { i + 1 }]);
    }
    assert forall|i: int, j: int| 0 <= i < j < after.running.len() implies (
    #[trigger] after.running[i]).id != (#[trigger] after.running[j]).id by {
        assert(after.running[i] == run.running[if i < slot { i } else { i + 1 }]);
        assert(after.running[j] == run.running[if j < slot { j } else { j + 1 }]);
    }
    assert forall|i: int, j: int|
        0 <= i < after.waiting.len() && 0 <= j < after.running.len() implies (
    #[trigger] after.waiting[i]).id != (#[trigger] after.running[j]).id by {
        assert(after.running[j] == run.running[if j < slot { j } else { j + 1 }]);
    }
}

/// Handing out the free permits leaves a run in order.
pub proof fn lemma_admitted_wf(run: CrawlView)
    requires
        run.consistent(),
        run.counted(),
    ensures
        run.admitted().wf(),
{
    let after = run.admitted();
    let count = run.waiting.len() as int;
    let held = run.running.len() as int;
    assert forall|i: int| 0 <= i < after.running.len() implies (#[trigger] after.running[i]).id
        < after.next_id by {
        if i < held {
            assert(after.running[i] == run.running[i]);
        } else {
            assert(after.running[i] == run.waiting[count - 1 - (i - held)]);
        }
    }
    assert forall|i: int, j: int| 0 <= i < j < after.running.len() implies (
    #[trigger] after.running[i]).id != (#[trigger] after.running[j]).id by {
        if j < held {
            assert(after.running[i] == run.running[i]);
            assert(after.running[j] == run.running[j]);
        } else if i < held {
            assert(after.running[i] == run.running[i]);
            assert(after.running[j] == run.waiting[count - 1 - (j - held)]);
        } else {
            assert(after.running[i] == run.waiting[count - 1 - (i - held)]);
            assert(after.running[j] == run.waiting[count - 1 - (j - held)]);
        }
    }
    assert forall|i: int, j: int|
        0 <= i < after.waiting.len() && 0 <= j < after.running.len() implies (
    #[trigger] after.waiting[i]).id != (#[trigger] after.running[j]).id by {
        assert(after.waiting[i] == run.waiting[i]);
        if j < held {
            assert(after.running[j] == run.running[j]);
        } else {
            assert(after.running[j] == run.waiting[count - 1 - (j - held)]);
        }
    }
    assert forall|i: int, j: int| 0 <= i < j < after.waiting.len() implies (
    #[trigger] after.waiting[i]).id != (#[trigger] after.waiting[j]).id by {
        assert(after.waiting[i] == run.waiting[i]);
        assert(after.waiting[j] == run.waiting[j]);
    }
    assert forall|i: int| 0 <= i < after.waiting.len() implies (#[trigger] after.waiting[i]).id
        < after.next_id by {
        assert(after.waiting[i] == run.waiting[i]);
    }
}

/// Among the running tasks of a run in order, a handle names one position.
pub proof fn lemma_slot_unique(run: CrawlView, id: nat, slot: int)
    requires
        run.consistent(),
        0 <= slot < run.running.len(),
        run.running[slot].id == id,
    ensures
        run.runs(id),
        run.slot(id) == slot,
{
    let chosen = run.slot(id);
    if chosen < slot {
        assert(run.running[chosen].id != run.running[slot].id);
    } else if slot < chosen {
        assert(run.running[slot].id != run.running[chosen].id);
    }
}

/// Every event leaves a run in order, and the number of permits as it was.
pub proof fn lemma_step_keeps_wf(run: CrawlView, event: Event)
    requires
        run.wf(),
    ensures
        run.step(event).wf(),
        run.step(event).client.throttle == run.client.throttle,
{
    if !run.terminated() && run.accepts(event) {
        match event {
            Event::Seed(url) => {
                lemma_spawned_consistent(run, TargetType::Index, seq![url]);
                lemma_admitted_wf(run.spawned(TargetType::Index, seq![url]));
            },
            Event::Finish(id, outcome) => {
                let slot = run.slot(id);
                let settled = run.settled(run.running[slot], outcome);
                if let OutcomeView::Children(urls) = outcome {
                    lemma_spawned_consistent(run, run.running[slot].kind.below().unwrap(), urls);
                }
                lemma_ended_consistent(settled, slot);
                lemma_admitted_wf(settled.ended(slot));
            },
            Event::Cancel => {},
        }
    }
}

/// A task that waits or runs after an event did so before it, or has a
/// handle that had not been given out before.
pub proof fn lemma_step_tasks(run: CrawlView, event: Event, id: nat)
    requires
        run.wf(),
        run.step(event).waits(id) || run.step(event).runs(id),
    ensures
        run.waits(id) || run.runs(id) || run.next_id <= id < run.step(event).next_id,
{
    let after = run.step(event);
    if !run.terminated() && run.accepts(event) {
        let middle = match event {
            Event::Seed(url) => run.spawned(TargetType::Index, seq![url]),
            Event::Finish(other, outcome) => run.settled(
                run.running[run.slot(other)],
                outcome,
            ).ended(run.slot(other)),
            Event::Cancel => run,
        };
        if !(event is Cancel) {
            assert(after == middle.admitted());
            // whatever waits or runs at the end did so in the middle
            let count = middle.waiting.len() as int;
            let held = middle.running.len() as int;
            if after.waits(id) {
                let i = choose|i: int|
                    0 <= i < after.waiting.len() && (#[trigger] after.waiting[i]).id == id;
                assert(middle.waiting[i].id == id);
            } else {
                let j = choose|j: int|
                    0 <= j < after.running.len() && (#[trigger] after.running[j]).id == id;
                if j < held {
                    assert(middle.running[j].id == id);
                } else {
                    assert(middle.waiting[count - 1 - (j - held)].id == id);
                }
            }
            assert(middle.waits(id) || middle.runs(id));
            // and whatever waits or runs in the middle did so before, or is new
            if middle.runs(id) {
                let j = choose|j: int|
                    0 <= j < middle.running.len() && (#[trigger] middle.running[j]).id == id;
                if let Event::Finish(other, outcome) = event {
                    let slot = run.slot(other);
                    assert(middle.running[j] == run.running[if j < slot { j } else { j + 1 }]);
                } else {
                    assert(middle.running[j] == run.running[j]);
                }
            } else {
                let i = choose|i: int|
                    0 <= i < middle.waiting.len() && (#[trigger] middle.waiting[i]).id == id;
                if i < run.waiting.len() {
                    assert(middle.waiting[i] == run.waiting[i]);
                }
            }
        }
    }
}

/// Handles are never taken back: an event leaves the next handle where it
/// was or moves it up.
pub proof fn lemma_step_handles_grow(run: CrawlView, event: Event)
    ensures
        run.next_id <= run.step(event).next_id,
{
}

/// A report that is taken in while the run goes on retires the handle of its
/// task: the task neither waits nor runs any more.
pub proof fn lemma_finish_retires(run: CrawlView, id: nat, outcome: OutcomeView)
    requires
        run.wf(),
        !run.terminated(),
        run.accepts(Event::Finish(id, outcome)),
    ensures
        run.step(Event::Finish(id, outcome)).retired(id),
{
    let event = Event::Finish(id, outcome);
    let after = run.step(event);
    let slot = run.slot(id);
    let settled = run.settled(run.running[slot], outcome);
    let middle = settled.ended(slot);
    let count = middle.waiting.len() as int;
    let held = middle.running.len() as int;
    if let OutcomeView::Children(urls) = outcome {
        lemma_spawned_consistent(run, run.running[slot].kind.below().unwrap(), urls);
    }
    assert(settled.consistent());
    assert(settled.running == run.running);
    assert forall|i: int| 0 <= i < settled.waiting.len() implies (#[trigger] settled.waiting[i]).id
        != id by {
        assert(settled.waiting[i].id != settled.running[slot].id);
    }
    if after.waits(id) {
        let i = choose|i: int|
            0 <= i < after.waiting.len() && (#[trigger] after.waiting[i]).id == id;
        assert(after.waiting[i] == settled.waiting[i]);
    }
    if after.runs(id) {
        let j = choose|j: int|
            0 <= j < after.running.len() && (#[trigger] after.running[j]).id == id;
        if j < held {
            let before = if j < slot { j } else { j + 1 };
            assert(middle.running[j] == run.running[before]);
            if before < slot {
                assert(run.running[before].id != run.running[slot].id);
            } else {
                assert(run.running[slot].id != run.running[before].id);
            }
        } else {
            assert(after.running[j] == settled.waiting[count - 1 - (j - held)]);
        }
    }
}

/// A handle that is retired stays retired, whatever happens.
pub proof fn lemma_retired_stays(run: CrawlView, id: nat, events: Seq<Event>)
    requires
        run.wf(),
        run.retired(id),
    ensures
        run.run(events).retired(id),
    decreases events.len(),
{
    if events.len() > 0 {
        let after = run.step(events[0]);
        lemma_step_keeps_wf(run, events[0]);
        lemma_step_handles_grow(run, events[0]);
        if after.waits(id) || after.runs(id) {
            lemma_step_tasks(run, events[0], id);
        }
        lemma_retired_stays(after, id, events.drop_first());
    }
}

/// No task ends twice: once the report for a task has been taken in, no
/// later report for the same handle is taken in while the run goes on.
pub proof fn lemma_no_second_finish(
    run: CrawlView,
    id: nat,
    first: OutcomeView,
    events: Seq<Event>,
    second: OutcomeView,
)
    requires
        run.wf(),
        !run.terminated(),
        run.accepts(Event::Finish(id, first)),
    ensures
        ({
            let later = run.step(Event::Finish(id, first)).run(events);
            !later.terminated() ==> !later.accepts(Event::Finish(id, second))
        }),
{
    lemma_finish_retires(run, id, first);
    lemma_step_keeps_wf(run, Event::Finish(id, first));
    lemma_retired_stays(run.step(Event::Finish(id, first)), id, events);
}

/// An event that is not taken in changes nothing and has the caller told
/// nothing.
pub proof fn lemma_untaken_is_ignored(run: CrawlView, event: Event)
    requires
        !run.takes(event),
    ensures
        run.step(event) == run,
        run.answer(event) == StepView::idle(),
{
}

/// The report of a page with children registers each child once and makes
/// it one task of the level below; nothing else becomes a task.
///
/// The report is taken in exactly if the run goes on, the task runs, its
/// level has one below, and the counters have room for the children. Then
/// as many tasks are registered as the page lists children, the i-th under
/// the i-th next handle and with the i-th address, and each of them waits or
/// runs. Otherwise nothing is registered and nothing becomes a task. Either
/// way the number of registrations is the number of new tasks, and whatever
/// waits or runs afterwards did so before or is one of the children.
pub proof fn lemma_children_registered(run: CrawlView, id: nat, urls: Seq<Seq<char>>)
    requires
        run.wf(),
    ensures
        ({
            let event = Event::Finish(id, OutcomeView::Children(urls));
            let after = run.step(event);
            let task = run.running[run.slot(id)];
            let n = if run.takes(event) {
                urls.len()
            } else {
                0
            };
            &&& run.takes(event) <==> {
                &&& !run.terminated()
                &&& run.runs(id)
                &&& task.kind.below() is Some
                &&& run.has_room_for_tasks(urls.len())
            }
            &&& after.jobs.registered == run.jobs.registered + n
            &&& after.next_id == run.next_id + n
            &&& run.takes(event) ==> forall|i: int|
                0 <= i < urls.len() ==> {
                    let child = #[trigger] run.offspring(task.kind.below().unwrap(), urls)[i];
                    &&& child == TaskView {
                        id: (run.next_id + i) as nat,
                        url: urls[i],
                        kind: task.kind.below().unwrap(),
                    }
                    &&& after.waiting.contains(child) || after.running.contains(child)
                }
            &&& forall|other: nat| #[trigger]
                after.waits(other) ==> run.waits(other) || run.runs(other) || run.next_id <= other
                    < run.next_id + n
            &&& forall|other: nat| #[trigger]
                after.runs(other) ==> run.waits(other) || run.runs(other) || run.next_id <= other
                    < run.next_id + n
            &&& !run.takes(event) ==> after == run
        }),
{
    let event = Event::Finish(id, OutcomeView::Children(urls));
    let after = run.step(event);
    assert forall|other: nat| #[trigger] after.waits(other) implies run.waits(other) || run.runs(
        other,
    ) || run.next_id <= other < after.next_id by {
        lemma_step_tasks(run, event, other);
    }
    assert forall|other: nat| #[trigger] after.runs(other) implies run.waits(other) || run.runs(
        other,
    ) || run.next_id <= other < after.next_id by {
        lemma_step_tasks(run, event, other);
    }
    if run.takes(event) {
        let slot = run.slot(id);
        let kind = run.running[slot].kind.below().unwrap();
        let settled = run.spawned(kind, urls);
        let middle = settled.ended(slot);
        let count = middle.waiting.len() as int;
        let held = middle.running.len() as int;
        let moved = middle.admissions() as int;
        assert forall|i: int| 0 <= i < urls.len() implies ({
            let child = #[trigger] run.offspring(kind, urls)[i];
            after.waiting.contains(child) || after.running.contains(child)
        }) by {
            let child = run.offspring(kind, urls)[i];
            let at = run.waiting.len() + i;
            assert(middle.waiting[at] == child);
            if at < count - moved {
                assert(after.waiting[at] == child);
            } else {
                assert(after.running[held + (count - 1 - at)] == child);
            }
        }
    }
}

/// Whatever the page of a task came to, the end of the task is counted
/// once, and only after its children are registered.
///
/// The report of a failure or of articles is taken in exactly if the run
/// goes on and the task runs. The report of children is taken in exactly if,
/// besides, the task is no article and the count of tasks and the handles
/// have room for the children. Then one more task has ended, the count is
/// the one that already holds the children less one, the handle of the task
/// is retired, and the caller is told that the run is over exactly if the
/// task was the only one outstanding and registered no child. Otherwise
/// nothing is counted.
pub proof fn lemma_task_ends_once(run: CrawlView, id: nat, outcome: OutcomeView)
    requires
        run.wf(),
        outcome.holdable(),
    ensures
        ({
            let event = Event::Finish(id, outcome);
            let after = run.step(event);
            let task = run.running[run.slot(id)];
            let settled = run.settled(task, outcome);
            &&& run.takes(event) <==> {
                &&& !run.terminated()
                &&& run.runs(id)
                &&& outcome matches OutcomeView::Children(urls) ==> {
                    &&& task.kind.below() is Some
                    &&& run.has_room_for_tasks(urls.len())
                }
            }
            &&& run.takes(event) ==> {
                &&& after.jobs.completed == run.jobs.completed + 1
                &&& settled.jobs.registered >= run.jobs.registered
                &&& settled.jobs.count >= 1
                &&& after.jobs == settled.jobs.deallocated()
                &&& after.jobs.count == run.jobs.count + (after.jobs.registered
                    - run.jobs.registered) - 1
                &&& after.retired(id)
                &&& run.answer(event).terminated <==> run.jobs.count == 1 && after.jobs.registered
                    == run.jobs.registered
            }
            &&& !run.takes(event) ==> after == run
        }),
{
    if run.takes(Event::Finish(id, outcome)) {
        lemma_finish_retires(run, id, outcome);
    }
}

/// What a report adds to the results.
///
/// The report of a failure or of articles is taken in whenever the run goes
/// on and the task runs: the results always have room. Where a report is
/// taken in: a failed page adds one failure with the address and the level
/// of its task, and nothing else. A page with articles adds no failure and
/// keeps, in their order, the articles that match a keyword: an article is
/// among those added exactly if the page holds it and it matches. A page
/// with children adds nothing. Where the report is not taken in, the
/// results stay as they are.
pub proof fn lemma_results_recorded(run: CrawlView, id: nat, outcome: OutcomeView)
    requires
        run.wf(),
        outcome.holdable(),
    ensures
        ({
            let event = Event::Finish(id, outcome);
            let after = run.step(event);
            let task = run.running[run.slot(id)];
            &&& !(outcome is Children) ==> (run.takes(event) <==> !run.terminated() && run.runs(id))
            &&& run.takes(event) ==> run.runs(id) && task.id == id
            &&& run.takes(event) ==> match outcome {
                OutcomeView::Failed(_) => {
                    &&& after.failures == run.failures.push(
                        FailRecord { url: task.url, target_type: task.kind },
                    )
                    &&& after.successes == run.successes
                    &&& after.processed == run.processed + 1
                },
                OutcomeView::Records(records) => {
                    let kept = records.filter(|r: SuccessRecord| r.is_match());
                    &&& after.failures == run.failures
                    &&& after.successes == run.successes + kept
                    &&& after.processed == run.processed + records.len()
                    &&& forall|r: SuccessRecord| #[trigger]
                        kept.contains(r) <==> records.contains(r) && r.is_match()
                },
                OutcomeView::Children(_) => {
                    &&& after.failures == run.failures
                    &&& after.successes == run.successes
                    &&& after.processed == run.processed
                },
            }
            &&& !run.takes(event) ==> {
                &&& after.failures == run.failures
                &&& after.successes == run.successes
                &&& after.processed == run.processed
            }
        }),
{
    if let OutcomeView::Records(records) = outcome {
        let matching = |r: SuccessRecord| r.is_match();
        assert forall|r: SuccessRecord| #[trigger]
            records.filter(matching).contains(r) <==> records.contains(r) && r.is_match() by {
            lemma_filter_members(records, matching, r);
        }
    }
}

/// A page without children and a page without articles are no failures.
///
/// The report of such a page is taken in exactly if the run goes on, the
/// task runs, and, for a page without children, the task is no article.
/// Then nothing is added to the successes or to the failures, nothing is
/// registered, and the task ends like any other: one task less is
/// outstanding.
pub proof fn lemma_empty_page(run: CrawlView, id: nat, outcome: OutcomeView)
    requires
        run.wf(),
        outcome == OutcomeView::Children(Seq::empty()) || outcome == OutcomeView::Records(
            Seq::empty(),
        ),
    ensures
        ({
            let event = Event::Finish(id, outcome);
            let after = run.step(event);
            &&& run.takes(event) <==> {
                &&& !run.terminated()
                &&& run.runs(id)
                &&& outcome is Children ==> run.running[run.slot(id)].kind.below() is Some
            }
            &&& after.successes == run.successes
            &&& after.failures == run.failures
            &&& after.processed == run.processed
            &&& after.jobs.registered == run.jobs.registered
            &&& run.takes(event) ==> {
                &&& run.jobs.count >= 1
                &&& after.jobs.count == run.jobs.count - 1
                &&& after.jobs.completed == run.jobs.completed + 1
                &&& run.answer(event).terminated == (run.jobs.count == 1)
            }
        }),
{
    reveal(Seq::filter);
    let after = run.step(Event::Finish(id, outcome));
    assert(after.successes =~= run.successes);
}

/// The tasks that the caller is handed after an event hold a permit and are
/// counted as outstanding: none is handed out before it is registered.
pub proof fn lemma_started_tasks_run(run: CrawlView, event: Event)
    requires
        run.wf(),
    ensures
        forall|i: int|
            0 <= i < run.answer(event).started.len() ==> run.step(event).running.contains(
                #[trigger] run.answer(event).started[i],
            ),
        run.answer(event).started.len() <= run.step(event).jobs.count,
{
    lemma_step_keeps_wf(run, event);
    let after = run.step(event);
    let started = run.answer(event).started;
    if run.takes(event) && !(event is Cancel) {
        let middle = match event {
            Event::Seed(url) => run.spawned(TargetType::Index, seq![url]),
            Event::Finish(id, outcome) => run.settled(run.running[run.slot(id)], outcome).ended(
                run.slot(id),
            ),
            Event::Cancel => run,
        };
        assert(after == middle.admitted());
        assert(started == middle.starting());
        assert forall|i: int| 0 <= i < started.len() implies after.running.contains(
            #[trigger] started[i],
        ) by {
            assert(after.running[middle.running.len() + i] == started[i]);
        }
    }
}

/// What is true between two events remains true after any number of them.
pub proof fn lemma_run_keeps_wf(run: CrawlView, events: Seq<Event>)
    requires
        run.wf(),
    ensures
        run.run(events).wf(),
        run.run(events).client.throttle == run.client.throttle,
    decreases events.len(),
{
    if events.len() > 0 {
        lemma_step_keeps_wf(run, events[0]);
        lemma_run_keeps_wf(run.step(events[0]), events.drop_first());
    }
}

/// In whatever order pages are handed in, tasks are reported and the run is
/// stopped, never more permits are held than there are, and each permit
/// that is held is held by one running task.
pub proof fn lemma_in_flight_bounded(run: CrawlView, events: Seq<Event>)
    requires
        run.wf(),
    ensures
        run.run(events).client.in_use <= run.client.throttle,
        run.run(events).running.len() == run.run(events).client.in_use,
{
    lemma_run_keeps_wf(run, events);
}

/// At every moment of a run the outstanding tasks are exactly those that
/// wait or run, their number is what was registered and has not ended, and
/// nothing is outstanding exactly when every registered task has ended.
pub proof fn lemma_tasks_conserved(run: CrawlView, events: Seq<Event>)
    requires
        run.wf(),
    ensures
        ({
            let now = run.run(events);
            &&& now.jobs.count == now.waiting.len() + now.running.len()
            &&& now.jobs.count + now.jobs.completed == now.jobs.registered
            &&& now.jobs.count == 0 <==> now.jobs.completed == now.jobs.registered
        }),
{
    lemma_run_keeps_wf(run, events);
}

/// The end of a run is announced exactly once: at most one event of a run
/// has the caller told that the run is over, none after the run is over, and
/// a run is over exactly if it was so before or one event said so.
pub proof fn lemma_ends_once(run: CrawlView, events: Seq<Event>)
    requires
        run.wf(),
    ensures
        run.endings(events) <= 1,
        run.terminated() ==> run.endings(events) == 0 && run.run(events) == run,
        run.run(events).terminated() <==> run.terminated() || run.endings(events) == 1,
    decreases events.len(),
{
    if events.len() > 0 {
        lemma_step_keeps_wf(run, events[0]);
        lemma_ends_once(run.step(events[0]), events.drop_first());
    }
}

} // verus!
