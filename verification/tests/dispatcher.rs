use webb::dispatcher::{Dispatcher, PageOutcome, Step, Task};
use webb::records::{Error, FailTarget, SuccessTarget, TargetType};

fn article(title: &str, url: &str, body: &str) -> SuccessTarget {
    SuccessTarget::new(title.to_string(), url.to_string(), body.to_string())
}

fn children(urls: &[&str]) -> PageOutcome {
    PageOutcome::Children(urls.iter().map(|url| url.to_string()).collect())
}

/// The pages of a small archive: two years, each with one month, one day
/// and one article; only the article of the first year mentions a keyword.
fn small_archive(task: &Task) -> PageOutcome {
    match task.url.as_str() {
        "index" => children(&["y1", "y2"]),
        "y1" => children(&["y1/m"]),
        "y2" => children(&["y2/m"]),
        "y1/m" => children(&["y1/m/d"]),
        "y2/m" => children(&["y2/m/d"]),
        "y1/m/d" => children(&["y1/m/d#1"]),
        "y2/m/d" => children(&["y2/m/d#1"]),
        "y1/m/d#1" => PageOutcome::Records(vec![article("甲", "y1/m/d#1", "他毕业于武汉医学院。")]),
        "y2/m/d#1" => PageOutcome::Records(vec![article("乙", "y2/m/d#1", "无关的内容")]),
        other => panic!("no page at {}", other),
    }
}

/// Fetches every task that is handed out until none is left, and returns how
/// often the end of the run was announced and the most permits seen in use.
fn drive(run: &mut Dispatcher, first: Step, site: fn(&Task) -> PageOutcome) -> (usize, usize) {
    let mut announced = if first.terminated { 1 } else { 0 };
    let mut most = run.in_flight();
    let mut due: Vec<Task> = first.started;
    while let Some(task) = due.pop() {
        let step = run.finish(task.id, site(&task)).unwrap();
        most = most.max(run.in_flight());
        if step.terminated {
            announced += 1;
        }
        due.extend(step.started);
    }
    (announced, most)
}

#[test]
fn new_run_is_idle() {
    let run = Dispatcher::new(2);
    assert_eq!(run.outstanding(), 0);
    assert_eq!(run.in_flight(), 0);
    assert_eq!(run.processed(), 0);
    assert_eq!(run.matched(), 0);
    assert!(!run.is_terminated());
    assert!(run.successes().is_none());
    assert!(run.failures().is_none());
    assert_eq!(run.client().throttle(), 2);
}

#[test]
fn seed_starts_the_index_task() {
    let mut run = Dispatcher::new(2);
    let step = run.seed("index").unwrap();
    assert_eq!(
        step,
        Step {
            started: vec![Task { id: 0, url: "index".to_string(), kind: TargetType::Index }],
            terminated: false,
        }
    );
    assert_eq!(run.outstanding(), 1);
    assert_eq!(run.in_flight(), 1);
}

#[test]
fn seed_waits_where_no_permit_exists() {
    let mut run = Dispatcher::new(0);
    let step = run.seed("index").unwrap();
    assert!(step.started.is_empty());
    assert!(!step.terminated);
    assert_eq!(run.outstanding(), 1);
    assert_eq!(run.in_flight(), 0);
}

#[test]
fn end_to_end_two_years_one_match() {
    let mut run = Dispatcher::new(2);
    let first = run.seed("index").unwrap();
    let (announced, most) = drive(&mut run, first, small_archive);
    assert_eq!(announced, 1);
    assert!(most <= 2);
    assert!(run.is_terminated());
    assert_eq!(run.outstanding(), 0);
    assert_eq!(run.in_flight(), 0);
    assert_eq!(run.successes().unwrap().len(), 1);
    assert_eq!(run.successes().unwrap()[0], article("甲", "y1/m/d#1", "他毕业于武汉医学院。"));
    assert_eq!(run.failures().unwrap().len(), 0);
    assert_eq!(run.processed(), 2);
    assert_eq!(run.matched(), 1);
}

#[test]
fn children_are_one_level_down_and_last_child_goes_first() {
    let mut run = Dispatcher::new(2);
    run.seed("index").unwrap();
    let step = run.finish(0, children(&["y1", "y2", "y3"])).unwrap();
    assert_eq!(
        step.started,
        vec![
            Task { id: 3, url: "y3".to_string(), kind: TargetType::Year },
            Task { id: 2, url: "y2".to_string(), kind: TargetType::Year },
        ]
    );
    assert!(!step.terminated);
    assert_eq!(run.outstanding(), 3);
    assert_eq!(run.in_flight(), 2);
    let step = run.finish(2, children(&["y2/m"])).unwrap();
    assert_eq!(
        step.started,
        vec![Task { id: 4, url: "y2/m".to_string(), kind: TargetType::Month }]
    );
    assert_eq!(run.outstanding(), 3);
}

#[test]
fn never_more_in_flight_than_permits() {
    for throttle in 1..5 {
        let mut run = Dispatcher::new(throttle);
        let first = run.seed("index").unwrap();
        let (announced, most) = drive(&mut run, first, small_archive);
        assert_eq!(announced, 1);
        assert!(most <= throttle);
        assert_eq!(run.successes().unwrap().len(), 1);
    }
}

#[test]
fn cancel_with_three_tasks_in_flight() {
    let mut run = Dispatcher::new(3);
    run.seed("index").unwrap();
    let step = run.finish(0, children(&["y1", "y2", "y3", "y4"])).unwrap();
    assert_eq!(step.started.len(), 3);
    let step = run.finish(4, PageOutcome::Failed(Error::NetworkError)).unwrap();
    assert_eq!(step.started.len(), 1);
    assert_eq!(run.in_flight(), 3);
    assert!(run.failures().is_none());

    assert!(run.cancel());
    assert!(run.is_terminated());
    assert_eq!(run.in_flight(), 3);
    assert_eq!(run.outstanding(), 3);
    assert_eq!(
        run.failures().unwrap(),
        &vec![FailTarget { url: "y4".to_string(), target_type: TargetType::Year }]
    );
    assert!(run.successes().unwrap().is_empty());

    let late = PageOutcome::Records(vec![article("同济", "y3", "")]);
    let step = run.finish(3, late).unwrap();
    assert_eq!(step, Step { started: vec![], terminated: false });
    assert!(run.successes().unwrap().is_empty());
    assert_eq!(run.failures().unwrap().len(), 1);
    assert_eq!(run.outstanding(), 3);
    assert!(!run.cancel());
}

#[test]
fn day_page_without_children_is_no_failure() {
    let mut run = Dispatcher::new(1);
    run.seed("index").unwrap();
    run.finish(0, children(&["y"])).unwrap();
    run.finish(1, children(&["m"])).unwrap();
    let step = run.finish(2, children(&["d"])).unwrap();
    assert_eq!(step.started, vec![Task { id: 3, url: "d".to_string(), kind: TargetType::Day }]);
    let step = run.finish(3, children(&[])).unwrap();
    assert_eq!(step, Step { started: vec![], terminated: true });
    assert_eq!(run.outstanding(), 0);
    assert!(run.successes().unwrap().is_empty());
    assert!(run.failures().unwrap().is_empty());
    assert_eq!(run.processed(), 0);
}

#[test]
fn empty_record_set_is_no_failure() {
    let mut run = Dispatcher::new(1);
    run.seed("index").unwrap();
    let step = run.finish(0, PageOutcome::Records(vec![])).unwrap();
    assert!(step.terminated);
    assert!(run.successes().unwrap().is_empty());
    assert!(run.failures().unwrap().is_empty());
}

#[test]
fn failure_is_tagged_with_kind_and_url() {
    let mut run = Dispatcher::new(2);
    run.seed("index").unwrap();
    run.finish(0, children(&["y"])).unwrap();
    let failed = PageOutcome::Failed(Error::ParsingError("link".to_string()));
    let step = run.finish(1, failed).unwrap();
    assert!(step.terminated);
    assert_eq!(
        run.failures().unwrap(),
        &vec![FailTarget { url: "y".to_string(), target_type: TargetType::Year }]
    );
    assert_eq!(run.processed(), 1);
}

#[test]
fn records_are_kept_by_title_or_body() {
    let mut run = Dispatcher::new(1);
    run.seed("index").unwrap();
    let records = PageOutcome::Records(vec![
        article("华中 工学院", "u1", ""),
        article("untitled", "u2", "in the text: 华中科技\n大学"),
        article("Tongji", "u3", "nothing"),
        article("同 济", "u4", ""),
    ]);
    run.finish(0, records).unwrap();
    let kept = run.successes().unwrap();
    assert_eq!(kept.len(), 3);
    assert_eq!(kept[0].url, "u1");
    assert_eq!(kept[1].url, "u2");
    assert_eq!(kept[2].url, "u4");
    assert_eq!(run.processed(), 4);
    assert_eq!(run.matched(), 3);
}

#[test]
fn report_for_unknown_task_is_refused() {
    let mut run = Dispatcher::new(2);
    run.seed("index").unwrap();
    assert_eq!(run.finish(7, children(&[])), Err(Error::GeneralError));
    assert_eq!(run.outstanding(), 1);
    assert_eq!(run.in_flight(), 1);
}

#[test]
fn task_cannot_finish_twice() {
    let mut run = Dispatcher::new(2);
    run.seed("index").unwrap();
    run.finish(0, children(&["y1", "y2"])).unwrap();
    assert_eq!(run.finish(0, children(&[])), Err(Error::GeneralError));
    assert_eq!(run.outstanding(), 2);
}

#[test]
fn waiting_task_cannot_finish() {
    let mut run = Dispatcher::new(1);
    run.seed("index").unwrap();
    let step = run.finish(0, children(&["y1", "y2"])).unwrap();
    assert_eq!(step.started.len(), 1);
    assert_eq!(step.started[0].id, 2);
    assert_eq!(run.finish(1, children(&[])), Err(Error::GeneralError));
}

#[test]
fn children_of_an_article_are_refused() {
    let mut run = Dispatcher::new(1);
    run.seed("index").unwrap();
    run.finish(0, children(&["y"])).unwrap();
    run.finish(1, children(&["m"])).unwrap();
    run.finish(2, children(&["d"])).unwrap();
    let step = run.finish(3, children(&["a"])).unwrap();
    assert_eq!(step.started[0].kind, TargetType::Article);
    assert_eq!(run.finish(4, children(&["x"])), Err(Error::GeneralError));
    assert_eq!(run.outstanding(), 1);
    let step = run.finish(4, PageOutcome::Records(vec![])).unwrap();
    assert!(step.terminated);
}

#[test]
fn termination_is_announced_once() {
    let mut run = Dispatcher::new(2);
    run.seed("index").unwrap();
    let step = run.finish(0, children(&[])).unwrap();
    assert!(step.terminated);
    assert!(!run.cancel());
    let step = run.seed("again").unwrap();
    assert_eq!(step, Step { started: vec![], terminated: false });
    assert_eq!(run.outstanding(), 0);
    let step = run.finish(0, children(&[])).unwrap();
    assert!(!step.terminated);
}

#[test]
fn registered_children_equal_spawned_tasks() {
    let mut run = Dispatcher::new(8);
    run.seed("index").unwrap();
    let step = run.finish(0, children(&["a", "b", "c", "d", "e"])).unwrap();
    assert_eq!(step.started.len(), 5);
    assert_eq!(run.outstanding(), 5);
    let mut ids: Vec<u64> = step.started.iter().map(|task| task.id).collect();
    ids.sort();
    assert_eq!(ids, vec![1, 2, 3, 4, 5]);
    for (done, task) in step.started.iter().enumerate() {
        assert_eq!(run.outstanding(), 5 - done);
        let step = run.finish(task.id, children(&[])).unwrap();
        assert_eq!(step.terminated, done == 4);
    }
    assert_eq!(run.outstanding(), 0);
}

#[test]
fn outcome_of_a_listing() {
    let page = r#"<ul><li><a href="/1946/">1946</a></li><li><a href="/1947/">1947</a></li></ul>"#;
    let listed = PageOutcome::from_listing(Ok(page.to_string()), "li");
    assert_eq!(
        listed,
        PageOutcome::Children(vec![
            "https://cn.govopendata.com/1946/".to_string(),
            "https://cn.govopendata.com/1947/".to_string(),
        ])
    );
    let broken = PageOutcome::from_listing(Ok("<ul><li>1946</li></ul>".to_string()), "li");
    assert_eq!(broken, PageOutcome::Failed(Error::ParsingError("link".to_string())));
    let failed = PageOutcome::from_listing(Err(Error::NetworkError), "li");
    assert_eq!(failed, PageOutcome::Failed(Error::NetworkError));
}

#[test]
fn outcome_of_a_day_and_of_an_article() {
    let page = r#"<div class="card"><a id="5" href="/d#5">同济医院</a>
        <p class="card-text"><a href="/d#5">more</a> text</p></div>"#;
    assert_eq!(
        PageOutcome::from_day(Ok(page.to_string())),
        PageOutcome::Records(vec![article("more", "https://cn.govopendata.com/d#5", "")])
    );
    assert_eq!(
        PageOutcome::from_article(Ok(page.to_string()), "/d#5"),
        PageOutcome::Records(vec![article("同济医院", "/d#5", "more text")])
    );
    assert_eq!(
        PageOutcome::from_article(Ok(page.to_string()), "/d#6"),
        PageOutcome::Failed(Error::ParsingError("title element".to_string()))
    );
}

#[test]
fn outcome_of_a_day_that_was_not_fetched() {
    assert_eq!(
        PageOutcome::from_day(Err(Error::NetworkError)),
        PageOutcome::Failed(Error::NetworkError)
    );
    assert_eq!(
        PageOutcome::from_article(Err(Error::NetworkError), "d#1"),
        PageOutcome::Failed(Error::NetworkError)
    );
}

#[test]
fn task_copy_is_equal() {
    let task = Task { id: 9, url: "u".to_string(), kind: TargetType::Day };
    assert_eq!(task.duplicate(), task);
}

#[test]
fn each_level_is_read_in_its_own_way() {
    let page = r#"<ul><li><a href="/y/">y</a></li></ul>
        <div class="card"><a id="5" href="/d#5">同济医院</a>
        <p class="card-text"><a href="/d#5">more</a> text</p></div>"#;
    let fetched = || Ok(page.to_string());
    let listed = PageOutcome::Children(vec!["https://cn.govopendata.com/y/".to_string()]);
    for kind in [TargetType::Index, TargetType::Year, TargetType::Month] {
        assert_eq!(PageOutcome::from_fetched(kind, "/d#5", fetched(), "li"), listed);
    }
    assert_eq!(
        PageOutcome::from_fetched(TargetType::Day, "/d#5", fetched(), "li"),
        PageOutcome::Records(vec![article("more", "https://cn.govopendata.com/d#5", "")])
    );
    assert_eq!(
        PageOutcome::from_fetched(TargetType::Article, "/d#5", fetched(), "li"),
        PageOutcome::Records(vec![article("同济医院", "/d#5", "more text")])
    );
    for kind in [TargetType::Index, TargetType::Day, TargetType::Article] {
        assert_eq!(
            PageOutcome::from_fetched(kind, "/d#5", Err(Error::NetworkError), "li"),
            PageOutcome::Failed(Error::NetworkError)
        );
    }
}

/// Like `drive`, but reports the task that was handed out first.
fn drive_oldest_first(run: &mut Dispatcher, first: Step, site: fn(&Task) -> PageOutcome) -> usize {
    let mut announced = if first.terminated { 1 } else { 0 };
    let mut due: std::collections::VecDeque<Task> = first.started.into();
    while let Some(task) = due.pop_front() {
        let step = run.finish(task.id, site(&task)).unwrap();
        if step.terminated {
            announced += 1;
        }
        due.extend(step.started);
    }
    announced
}

#[test]
fn end_to_end_in_another_order_of_reports() {
    for throttle in 1..6 {
        let mut run = Dispatcher::new(throttle);
        let first = run.seed("index").unwrap();
        assert_eq!(drive_oldest_first(&mut run, first, small_archive), 1);
        assert_eq!(run.outstanding(), 0);
        assert_eq!(
            run.successes().unwrap(),
            &vec![article("甲", "y1/m/d#1", "他毕业于武汉医学院。")]
        );
        assert!(run.failures().unwrap().is_empty());
        assert_eq!(run.processed(), 2);
    }
}

#[test]
fn count_stays_above_zero_until_the_ninth_task_ends() {
    let mut run = Dispatcher::new(2);
    let first = run.seed("index").unwrap();
    let mut due: Vec<Task> = first.started;
    let mut ended = 0;
    while let Some(task) = due.pop() {
        assert!(run.outstanding() >= 1);
        let step = run.finish(task.id, small_archive(&task)).unwrap();
        ended += 1;
        assert_eq!(step.terminated, ended == 9);
        assert_eq!(run.outstanding() == 0, ended == 9);
        due.extend(step.started);
    }
    assert_eq!(ended, 9);
}

#[test]
fn month_with_one_empty_day() {
    let mut run = Dispatcher::new(2);
    run.seed("index").unwrap();
    run.finish(0, children(&["y"])).unwrap();
    run.finish(1, children(&["m"])).unwrap();
    let step = run.finish(2, children(&["d"])).unwrap();
    assert_eq!(step.started, vec![Task { id: 3, url: "d".to_string(), kind: TargetType::Day }]);
    assert!(!step.terminated);
    assert_eq!(run.outstanding(), 1);
    assert_eq!(run.matched(), 0);
    assert_eq!(run.processed(), 0);
    let step = run.finish(3, PageOutcome::Records(vec![])).unwrap();
    assert!(step.terminated);
    assert!(run.successes().unwrap().is_empty());
    assert!(run.failures().unwrap().is_empty());
}

#[test]
fn day_records_are_kept_by_their_titles() {
    let mut run = Dispatcher::new(1);
    run.seed("index").unwrap();
    let records = PageOutcome::Records(vec![
        article("同济大学", "u1", ""),
        article("Tongji", "u2", ""),
        article("华中 理工\n大学", "u3", ""),
    ]);
    run.finish(0, records).unwrap();
    let kept: Vec<&str> = run.successes().unwrap().iter().map(|r| r.url.as_str()).collect();
    assert_eq!(kept, vec!["u1", "u3"]);
    assert!(run.failures().unwrap().is_empty());
}
