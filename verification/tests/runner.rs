use sql_doctester::db_output::{FailureInfo, QueryMessage, Segment, TestResult, Tone};
use sql_doctester::runner::{
    all_failures, announce, commands_for, count_tests, isolated_commands, judge, partition_files,
    record_result, report_failures, run_succeeded, summarize, Command, Failure, Job, Mode,
    Pipeline, Reply, TestRun,
};
use sql_doctester::{Test, TestFile};

type Outcome = Result<Vec<QueryMessage>, String>;

fn test(header: &str, text: &str, output: &[&[&str]], transactional: bool) -> Test {
    Test {
        line: 1,
        header: header.to_string(),
        text: text.to_string(),
        output: output
            .iter()
            .map(|row| row.iter().map(|cell| cell.to_string()).collect())
            .collect(),
        transactional,
        ignore_output: false,
    }
}

fn file(name: &str, tests: Vec<Test>) -> TestFile {
    TestFile {
        name: name.to_string(),
        stateless: tests.iter().all(|t| t.transactional),
        tests,
    }
}

fn rows(values: &[&str]) -> Outcome {
    let mut messages: Vec<QueryMessage> = values
        .iter()
        .map(|v| QueryMessage::Row(vec![Some(v.to_string())]))
        .collect();
    messages.push(QueryMessage::CommandComplete(values.len() as u64));
    Ok(messages)
}

fn seg(tone: Tone, text: &str) -> Segment {
    Segment {
        tone,
        text: text.to_string(),
    }
}

fn heading(name: &str) -> Vec<Segment> {
    vec![
        seg(Tone::Plain, "\n"),
        seg(Tone::Heading, "File"),
        seg(Tone::Plain, &format!(": {}\n", name)),
        seg(Tone::Plain, "\n"),
    ]
}

fn line(header: &str, passed: bool) -> Vec<Segment> {
    vec![
        seg(Tone::Plain, &format!("test {}... ", header)),
        if passed {
            seg(Tone::Good, "ok")
        } else {
            seg(Tone::Bad, "FAILED")
        },
        seg(Tone::Plain, "\n"),
    ]
}

/// A stand-in for a session of the engine. A query gives the values that
/// it finds, one to a row, and then `insert v` adds the value `v`.
struct FakeSession {
    committed: Vec<String>,
    working: Option<Vec<String>>,
}

impl FakeSession {
    fn new() -> Self {
        FakeSession {
            committed: vec![],
            working: None,
        }
    }

    fn answer(&mut self, command: &Command) -> Reply {
        match command {
            Command::Begin => {
                self.working = Some(self.committed.clone());
                Reply::Done
            }
            Command::Rollback => {
                self.working = None;
                Reply::Done
            }
            Command::Query(text) => {
                if text == "fail" {
                    return Reply::Failed("no such thing".to_string());
                }
                let state = match &mut self.working {
                    Some(w) => w,
                    None => &mut self.committed,
                };
                let mut found: Vec<QueryMessage> = state
                    .iter()
                    .map(|v| QueryMessage::Row(vec![Some(v.clone())]))
                    .collect();
                found.push(QueryMessage::CommandComplete(state.len() as u64));
                if let Some(value) = text.strip_prefix("insert ") {
                    state.push(value.to_string());
                }
                Reply::Rows(found)
            }
        }
    }

    fn run(&mut self, job: &Job) -> Vec<Outcome> {
        let mut outcomes = Vec::new();
        for commands in &job.runs {
            let mut copy = Vec::new();
            for c in commands {
                copy.push(match c {
                    Command::Begin => Command::Begin,
                    Command::Query(q) => Command::Query(q.clone()),
                    Command::Rollback => Command::Rollback,
                });
            }
            let mut run = TestRun::new(copy);
            let mut step = 0;
            while run.command().is_some() {
                let reply = self.answer(&commands[step]);
                let before = step;
                run.reply(reply);
                step = match run.command() {
                    Some(_) => before + 1,
                    None => commands.len(),
                };
            }
            outcomes.push(run.into_outcome().expect("a finished run has an outcome"));
        }
        outcomes
    }
}

#[test]
fn transactional_test_is_wrapped_and_rolled_back() {
    assert_eq!(
        commands_for(&test("h", "select 1;", &[], true)),
        vec![
            Command::Begin,
            Command::Query("select 1;".to_string()),
            Command::Rollback
        ]
    );
    assert_eq!(
        commands_for(&test("h", "create table t();", &[], false)),
        vec![Command::Query("create table t();".to_string())]
    );
    assert_eq!(
        isolated_commands("q"),
        vec![
            Command::Begin,
            Command::Query("q".to_string()),
            Command::Rollback
        ]
    );
}

#[test]
fn run_gives_what_the_query_gave() {
    let mut run = TestRun::new(isolated_commands("q"));
    assert_eq!(run.command(), Some(&Command::Begin));
    run.reply(Reply::Done);
    assert_eq!(run.command(), Some(&Command::Query("q".to_string())));
    run.reply(Reply::Rows(vec![QueryMessage::CommandComplete(0)]));
    assert_eq!(run.command(), Some(&Command::Rollback));
    run.reply(Reply::Failed("rollback failed".to_string()));
    assert_eq!(run.command(), None);
    assert_eq!(
        run.into_outcome(),
        Some(Ok(vec![QueryMessage::CommandComplete(0)]))
    );
}

#[test]
fn failed_query_is_still_rolled_back() {
    let mut run = TestRun::new(isolated_commands("q"));
    run.reply(Reply::Done);
    run.reply(Reply::Failed("syntax error".to_string()));
    assert_eq!(run.command(), Some(&Command::Rollback));
    run.reply(Reply::Done);
    assert_eq!(run.into_outcome(), Some(Err("syntax error".to_string())));
}

#[test]
fn transaction_that_does_not_open_ends_the_run() {
    let mut run = TestRun::new(isolated_commands("q"));
    run.reply(Reply::Failed("too many connections".to_string()));
    assert_eq!(run.command(), None);
    assert_eq!(
        run.into_outcome(),
        Some(Err("too many connections".to_string()))
    );
}

#[test]
fn unfinished_run_has_no_outcome() {
    let mut run = TestRun::new(isolated_commands("q"));
    run.reply(Reply::Done);
    run.reply(Reply::Done);
    assert_eq!(run.into_outcome(), None);
    let mut run = TestRun::new(vec![Command::Query("q".to_string())]);
    run.reply(Reply::Done);
    run.reply(Reply::Failed("late".to_string()));
    assert_eq!(run.into_outcome(), Some(Ok(vec![])));
}

#[test]
fn engine_error_fails_the_test() {
    let t = test("h", "q", &[&["1"]], true);
    assert_eq!(
        judge(&Err("boom".to_string()), &t),
        TestResult::Failed(FailureInfo::QueryError("boom".to_string()))
    );
    assert_eq!(judge(&rows(&["1"]), &t), TestResult::Passed);
    assert_eq!(
        judge(&rows(&["2"]), &t),
        TestResult::Failed(FailureInfo::MismatchedValues(vec![vec!["2".to_string()]]))
    );
}

#[test]
fn result_is_recorded_with_its_line() {
    let mut failures = Vec::new();
    let shown = record_result(
        "a.md".to_string(),
        test("`h`", "q", &[&["1"]], true),
        &rows(&["1"]),
        &mut failures,
    );
    assert_eq!(shown, line("`h`", true));
    assert!(failures.is_empty());
    let shown = record_result(
        "a.md".to_string(),
        test("`h`", "q", &[&["1"]], true),
        &Err("boom".to_string()),
        &mut failures,
    );
    assert_eq!(shown, line("`h`", false));
    assert_eq!(
        failures,
        vec![Failure {
            file_name: "a.md".to_string(),
            test: test("`h`", "q", &[&["1"]], true),
            info: FailureInfo::QueryError("boom".to_string()),
        }]
    );
}

#[test]
fn stateless_units_are_single_tests_in_source_order() {
    let files = vec![
        file("a.md", vec![test("a0", "qa0", &[], true), test("a1", "qa1", &[], true)]),
        file("b.md", vec![]),
        file("c.md", vec![test("c0", "qc0", &[], true)]),
    ];
    let mut p = Pipeline::new(Mode::Stateless, &files, 4);
    assert_eq!(p.unit_count(), 3);
    let texts = ["qa0", "qa1", "qc0"];
    for (slot, text) in texts.iter().enumerate() {
        let job = p.dispatch().expect("a unit is left and the cap is not reached");
        assert_eq!(job.slot, slot);
        assert_eq!(job.database, "stateless_test_db");
        assert_eq!(job.runs, vec![isolated_commands(text)]);
    }
    assert_eq!(p.dispatch(), None);
}

#[test]
fn stateless_run_wraps_tests_that_are_not_transactional_too() {
    let files = vec![file("a.md", vec![test("a0", "q", &[], false)])];
    let mut p = Pipeline::new(Mode::Stateless, &files, 1);
    assert_eq!(p.dispatch().map(|j| j.runs), Some(vec![isolated_commands("q")]));
}

#[test]
fn no_more_units_are_under_way_than_the_cap() {
    let files = vec![file(
        "a.md",
        vec![
            test("a0", "q0", &[], true),
            test("a1", "q1", &[], true),
            test("a2", "q2", &[], true),
        ],
    )];
    let mut p = Pipeline::new(Mode::Stateless, &files, 2);
    assert_eq!(p.dispatch().map(|j| j.slot), Some(0));
    assert_eq!(p.dispatch().map(|j| j.slot), Some(1));
    assert_eq!(p.dispatch(), None);
    assert!(p.complete(1, vec![rows(&[])]));
    assert_eq!(p.dispatch().map(|j| j.slot), Some(2));
    assert_eq!(p.dispatch(), None);
    let mut none = Pipeline::new(Mode::Stateless, &files, 0);
    assert_eq!(none.dispatch(), None);
}

#[test]
fn results_are_reported_in_the_order_of_dispatch() {
    let files = vec![
        file("a.md", vec![test("a0", "q0", &[], true), test("a1", "q1", &[&["1"]], true)]),
        file("b.md", vec![test("b0", "q2", &[], true)]),
    ];
    let mut p = Pipeline::new(Mode::Stateless, &files, 4);
    p.dispatch();
    p.dispatch();
    p.dispatch();
    assert_eq!(p.report(), None);
    assert!(p.complete(2, vec![rows(&[])]));
    assert_eq!(p.report(), None);
    assert!(p.complete(1, vec![rows(&["2"])]));
    assert_eq!(p.report(), None);
    assert!(p.complete(0, vec![rows(&[])]));
    let mut first = heading("a.md");
    first.extend(line("a0", true));
    assert_eq!(p.report(), Some(first));
    assert_eq!(p.report(), Some(line("a1", false)));
    assert!(!p.is_finished());
    let mut third = heading("b.md");
    third.extend(line("b0", true));
    assert_eq!(p.report(), Some(third));
    assert_eq!(p.report(), None);
    assert!(p.is_finished());
    assert_eq!(
        p.into_failures(),
        vec![Failure {
            file_name: "a.md".to_string(),
            test: test("a1", "q1", &[&["1"]], true),
            info: FailureInfo::MismatchedValues(vec![vec!["2".to_string()]]),
        }]
    );
}

#[test]
fn results_are_taken_once_and_only_for_units_under_way() {
    let files = vec![file(
        "a.md",
        vec![test("a0", "q0", &[], true), test("a1", "q1", &[], true)],
    )];
    let mut p = Pipeline::new(Mode::Stateless, &files, 4);
    assert!(!p.complete(0, vec![rows(&[])]));
    p.dispatch();
    assert!(!p.complete(1, vec![rows(&[])]));
    assert!(!p.complete(0, vec![]));
    assert!(!p.complete(0, vec![rows(&[]), rows(&[])]));
    assert!(p.complete(0, vec![rows(&[])]));
    assert!(!p.complete(0, vec![rows(&[])]));
    assert!(p.report().is_some());
    assert!(!p.complete(0, vec![rows(&[])]));
}

#[test]
fn stateful_units_are_files_with_a_database_each() {
    let files = vec![
        file(
            "a.md",
            vec![test("a0", "create", &[], false), test("a1", "select", &[], true)],
        ),
        file("b.md", vec![test("b0", "drop", &[], false)]),
    ];
    let mut p = Pipeline::new(Mode::Stateful, &files, 4);
    assert_eq!(p.unit_count(), 2);
    let first = p.dispatch().expect("the first file");
    assert_eq!(first.slot, 0);
    assert_eq!(first.database, "stateful-tests-1");
    assert_eq!(
        first.runs,
        vec![
            vec![Command::Query("create".to_string())],
            isolated_commands("select")
        ]
    );
    let second = p.dispatch().expect("the second file");
    assert_eq!(second.database, "stateful-tests-2");
    assert_eq!(second.runs, vec![vec![Command::Query("drop".to_string())]]);
    assert!(p.complete(1, vec![Err("gone".to_string())]));
    assert!(p.complete(0, vec![rows(&[]), rows(&["x"])]));
    let mut block = heading("a.md");
    block.extend(line("a0", true));
    block.extend(line("a1", false));
    assert_eq!(p.report(), Some(block));
    let mut block = heading("b.md");
    block.extend(line("b0", false));
    assert_eq!(p.report(), Some(block));
    assert!(p.is_finished());
    let failures = p.into_failures();
    assert_eq!(failures.len(), 2);
    assert_eq!(failures[0].test.header, "a1");
    assert_eq!(failures[1].info, FailureInfo::QueryError("gone".to_string()));
}

#[test]
fn stateful_files_of_one_name_each_get_a_heading() {
    let files = vec![
        file("a.md", vec![test("a0", "q", &[], false)]),
        file("a.md", vec![test("a1", "q", &[], false)]),
    ];
    let mut p = Pipeline::new(Mode::Stateful, &files, 1);
    p.dispatch();
    assert!(p.complete(0, vec![rows(&[])]));
    p.dispatch();
    assert!(p.complete(1, vec![rows(&[])]));
    assert_eq!(p.report().map(|l| l.len()), Some(7));
    assert_eq!(p.report().map(|l| l.len()), Some(7));
}

#[test]
fn stateless_tests_do_not_see_each_other() {
    let files = vec![file(
        "a.md",
        vec![
            test("first", "insert a", &[], true),
            test("second", "insert a", &[], true),
            test("third", "select", &[], true),
        ],
    )];
    let mut p = Pipeline::new(Mode::Stateless, &files, 1);
    let mut session = FakeSession::new();
    while let Some(job) = p.dispatch() {
        let outcomes = session.run(&job);
        assert_eq!(outcomes, vec![rows(&[])]);
        assert!(p.complete(job.slot, outcomes));
    }
    while p.report().is_some() {}
    assert!(p.is_finished());
    assert!(session.committed.is_empty());
    assert!(session.working.is_none());
    assert_eq!(p.into_failures(), vec![]);
}

#[test]
fn stateful_tests_build_on_each_other_in_source_order() {
    let create = test("create", "insert t", &[], false);
    let probe = test("probe", "insert u", &[&["t"]], true);
    let read = test("read", "select", &[&["t"]], false);
    let in_order = vec![file("a.md", vec![create.copy(), probe.copy(), read.copy()])];
    let mut p = Pipeline::new(Mode::Stateful, &in_order, 4);
    let mut session = FakeSession::new();
    let job = p.dispatch().expect("one file");
    let outcomes = session.run(&job);
    assert_eq!(outcomes, vec![rows(&[]), rows(&["t"]), rows(&["t"])]);
    assert!(p.complete(0, outcomes));
    assert!(p.report().is_some());
    assert_eq!(p.into_failures(), vec![]);
    assert_eq!(session.committed, vec!["t".to_string()]);

    let reordered = vec![file("a.md", vec![read.copy(), probe, create])];
    let mut p = Pipeline::new(Mode::Stateful, &reordered, 4);
    let mut session = FakeSession::new();
    let job = p.dispatch().expect("one file");
    let outcomes = session.run(&job);
    assert_eq!(outcomes, vec![rows(&[]), rows(&[]), rows(&[])]);
    assert!(p.complete(0, outcomes));
    assert!(p.report().is_some());
    let failures = p.into_failures();
    assert_eq!(failures.len(), 2);
    assert_eq!(
        failures[0].info,
        FailureInfo::WrongNumberOfRows {
            received: vec![],
            expected: 1,
            found: 0
        }
    );
}

#[test]
fn files_are_parted_by_statelessness() {
    let files = vec![
        file("a", vec![test("a0", "q", &[], true)]),
        file("b", vec![test("b0", "q", &[], false)]),
        file("c", vec![]),
        file("d", vec![test("d0", "q", &[], true), test("d1", "q", &[], false)]),
    ];
    let (stateless, stateful) = partition_files(files);
    assert_eq!(
        stateless.iter().map(|f| f.name.as_str()).collect::<Vec<_>>(),
        vec!["a", "c"]
    );
    assert_eq!(
        stateful.iter().map(|f| f.name.as_str()).collect::<Vec<_>>(),
        vec!["b", "d"]
    );
    assert_eq!(count_tests(&stateless), 1);
    assert_eq!(count_tests(&stateful), 3);
    assert_eq!(count_tests(&vec![]), 0);
}

#[test]
fn run_is_announced_and_summed_up() {
    assert_eq!(announce(12), vec![seg(Tone::Plain, "running 12 tests\n")]);
    assert_eq!(
        summarize(12, 0),
        vec![
            seg(Tone::Plain, "\ntest result: "),
            seg(Tone::Good, "ok"),
            seg(Tone::Plain, ". 12 passed; 0 failed\n"),
            seg(Tone::Plain, "\n"),
        ]
    );
    assert_eq!(
        summarize(12, 5),
        vec![
            seg(Tone::Plain, "\ntest result: "),
            seg(Tone::Bad, "FAILED"),
            seg(Tone::Plain, ". 7 passed; 5 failed\n"),
            seg(Tone::Plain, "\n"),
        ]
    );
    assert_eq!(summarize(1, 3)[2], seg(Tone::Plain, ". 0 passed; 3 failed\n"));
}

#[test]
fn run_succeeds_without_failures_only() {
    let failure = || Failure {
        file_name: "a".to_string(),
        test: test("h", "q", &[], true),
        info: FailureInfo::QueryError("e".to_string()),
    };
    assert!(run_succeeded(&vec![], &vec![]));
    assert!(!run_succeeded(&vec![failure()], &vec![]));
    assert!(!run_succeeded(&vec![], &vec![failure()]));
}

#[test]
fn failures_are_reported_by_file() {
    let failure = |name: &str, header: &str| Failure {
        file_name: name.to_string(),
        test: test(header, "q", &[], true),
        info: FailureInfo::QueryError("e".to_string()),
    };
    assert_eq!(report_failures(&vec![]), vec![]);
    let all = all_failures(
        vec![failure("a", "a0"), failure("a", "a1")],
        vec![failure("b", "b0")],
    );
    assert_eq!(
        all.iter().map(|f| f.test.header.as_str()).collect::<Vec<_>>(),
        vec!["a0", "a1", "b0"]
    );
    let report = |header: &str| {
        vec![
            seg(Tone::Strong, header),
            seg(Tone::Plain, " failed due to "),
            seg(Tone::Error, "error"),
            seg(Tone::Plain, ":\ne\n"),
            seg(Tone::Plain, "\n"),
        ]
    };
    let mut expected = vec![
        seg(Tone::Plain, "\n"),
        seg(Tone::Heading, "Failures"),
        seg(Tone::Plain, ":"),
        seg(Tone::Plain, "\n"),
    ];
    expected.extend(heading("a"));
    expected.extend(report("a0"));
    expected.extend(report("a1"));
    expected.extend(heading("b"));
    expected.extend(report("b0"));
    assert_eq!(report_failures(&all), expected);
}

#[test]
fn parsed_test_passes_on_the_answer_it_expects() {
    let tests = sql_doctester::test_parser::extract_tests_from_string(
        "# Success\n```SQL\nselect 1;\n```\n```output\n a\n---\n 1\n```",
    );
    assert_eq!(tests.len(), 1);
    assert!(tests[0].transactional);
    assert_eq!(commands_for(&tests[0]), isolated_commands("select 1;"));
    assert_eq!(judge(&rows(&["1"]), &tests[0]), TestResult::Passed);
}
