//! The rules by which tests are scheduled, run against a session, judged
//! and summed up. The engine itself is reached from outside: these
//! functions decide, and whoever drives them performs.

use crate::db_output::{
    add_saturating, decimal, lemma_number_of_decimal, messages_view, push_decimal, push_segment,
    push_str_segment, push_text, received_rows, report_view, segments_view, validate,
    validate_messages, FailureInfo, FailureInfoView, QueryMessage, QueryMessageView, Segment,
    TestResult, TestResultView, Tone,
};
use crate::text::saturate;
use crate::{tests_view, Test, TestFile, TestFileView, TestView};
use vstd::prelude::*;

verus! {

/// One request to a session of the engine.
#[derive(Debug, PartialEq, Eq)]
pub enum Command {
    /// Open a transaction.
    Begin,
    /// Run this query text.
    Query(String),
    /// Undo what was done since the transaction was opened.
    Rollback,
}

/// A `Command` as mathematical values.
pub enum CommandView {
    Begin,
    Query(Seq<char>),
    Rollback,
}

impl View for Command {
    type V = CommandView;

    open spec fn view(&self) -> CommandView {
        match self {
            Command::Begin => CommandView::Begin,
            Command::Query(text) => CommandView::Query(text@),
            Command::Rollback => CommandView::Rollback,
        }
    }
}

/// The commands in `commands` as mathematical values.
pub open spec fn commands_view(commands: Seq<Command>) -> Seq<CommandView> {
    commands.map_values(|c: Command| c@)
}

/// The commands that run `text` in a transaction of its own, which is
/// rolled back whatever the query gave.
pub open spec fn isolated(text: Seq<char>) -> Seq<CommandView> {
    seq![CommandView::Begin, CommandView::Query(text), CommandView::Rollback]
}

/// The commands for one test of a stateful file: a transactional test is
/// isolated, any other runs directly and leaves its effects behind.
pub open spec fn test_commands(test: TestView) -> Seq<CommandView> {
    if test.transactional {
        isolated(test.text)
    } else {
        seq![CommandView::Query(test.text)]
    }
}

/// The commands for all of `tests`, test after test.
pub open spec fn file_commands(tests: Seq<TestView>) -> Seq<CommandView>
    decreases tests.len(),
{
    if tests.len() == 0 {
        seq![]
    } else {
        file_commands(tests.drop_last()) + test_commands(tests.last())
    }
}

/// The commands that run `text` in a transaction that is rolled back.
pub fn isolated_commands(text: &str) -> (commands: Vec<Command>)
    ensures
        commands_view(commands@) == isolated(text@),
{
    let mut commands: Vec<Command> = Vec::new();
    commands.push(Command::Begin);
    commands.push(Command::Query(text.to_owned()));
    commands.push(Command::Rollback);
    assert(commands_view(commands@) =~= isolated(text@));
    commands
}

/// The commands for one test of a stateful file.
pub fn commands_for(test: &Test) -> (commands: Vec<Command>)
    ensures
        commands_view(commands@) == test_commands(test@),
{
    if test.transactional {
        isolated_commands(test.text.as_str())
    } else {
        let mut commands: Vec<Command> = Vec::new();
        commands.push(Command::Query(test.text.clone()));
        assert(commands_view(commands@) =~= test_commands(test@));
        commands
    }
}

/// What the engine gave for a query: its messages, or its error message.
pub open spec fn outcome_view(outcome: Result<Vec<QueryMessage>, String>) -> Result<
    Seq<QueryMessageView>,
    Seq<char>,
> {
    match outcome {
        Ok(messages) => Ok(messages_view(messages@)),
        Err(message) => Err(message@),
    }
}

/// The result of `test` when the engine gave `outcome`: an error of the
/// engine fails the test, and rows are held against the expected ones.
pub open spec fn judged(outcome: Result<Seq<QueryMessageView>, Seq<char>>, test: TestView)
    -> TestResultView {
    match outcome {
        Ok(messages) => validate(received_rows(messages), test),
        Err(message) => TestResultView::Failed(FailureInfoView::QueryError(message)),
    }
}

/// Judges `test` by what the engine gave for its query.
pub fn judge(outcome: &Result<Vec<QueryMessage>, String>, test: &Test) -> (r: TestResult)
    ensures
        r@ == judged(outcome_view(*outcome), test@),
{
    match outcome {
        Ok(messages) => validate_messages(messages, test),
        Err(message) => TestResult::Failed(FailureInfo::QueryError(message.clone())),
    }
}

/// A test that failed, with the file it came from.
#[derive(Debug, PartialEq, Eq)]
pub struct Failure {
    pub file_name: String,
    pub test: Test,
    pub info: FailureInfo,
}

/// A `Failure` as mathematical values.
pub struct FailureView {
    pub file_name: Seq<char>,
    pub test: TestView,
    pub info: FailureInfoView,
}

impl View for Failure {
    type V = FailureView;

    open spec fn view(&self) -> FailureView {
        FailureView { file_name: self.file_name@, test: self.test@, info: self.info@ }
    }
}

/// The failures in `failures` as mathematical values.
pub open spec fn failures_view(failures: Seq<Failure>) -> Seq<FailureView> {
    failures.map_values(|f: Failure| f@)
}

/// The line that tells how the test under `header` went.
pub open spec fn result_line(header: Seq<char>, passed: bool) -> Seq<(Tone, Seq<char>)> {
    seq![
        (Tone::Plain, "test "@ + header + "... "@),
        if passed {
            (Tone::Good, "ok"@)
        } else {
            (Tone::Bad, "FAILED"@)
        },
        (Tone::Plain, "\n"@),
    ]
}

/// `failures`, with the test added if `result` is a failure.
pub open spec fn with_result(
    failures: Seq<FailureView>,
    file_name: Seq<char>,
    test: TestView,
    result: TestResultView,
) -> Seq<FailureView> {
    match result {
        TestResultView::Passed => failures,
        TestResultView::Failed(info) => failures.push(FailureView { file_name, test, info }),
    }
}

/// The view of failures with one more is the view with one more.
pub proof fn lemma_failures_push(v: Seq<Failure>, f: Failure)
    ensures
        failures_view(v.push(f)) == failures_view(v).push(f@),
{
    assert(failures_view(v.push(f)) =~= failures_view(v).push(f@));
}

/// Judges `test` by what the engine gave, notes a failure in `failures`,
/// and gives the line that tells how the test went.
pub fn record_result(
    file_name: String,
    test: Test,
    outcome: &Result<Vec<QueryMessage>, String>,
    failures: &mut Vec<Failure>,
) -> (line: Vec<Segment>)
    ensures
        segments_view(line@) == result_line(
            test@.header,
            judged(outcome_view(*outcome), test@) is Passed,
        ),
        failures_view(final(failures)@) == with_result(
            failures_view(old(failures)@),
            file_name@,
            test@,
            judged(outcome_view(*outcome), test@),
        ),
{
    let mut line: Vec<Segment> = Vec::new();
    let mut title: Vec<char> = Vec::new();
    push_text(&mut title, "test ");
    push_text(&mut title, test.header.as_str());
    push_text(&mut title, "... ");
    assert(title@ =~= "test "@ + test@.header + "... "@);
    assert(segments_view(line@) =~= Seq::<(Tone, Seq<char>)>::empty());
    push_segment(&mut line, Tone::Plain, &title);
    match judge(outcome, &test) {
        TestResult::Passed => {
            push_str_segment(&mut line, Tone::Good, "ok");
        },
        TestResult::Failed(info) => {
            push_str_segment(&mut line, Tone::Bad, "FAILED");
            let failure = Failure { file_name, test, info };
            proof {
                lemma_failures_push(failures@, failure);
            }
            failures.push(failure);
        },
    }
    push_str_segment(&mut line, Tone::Plain, "\n");
    assert(segments_view(line@) =~= result_line(
        test@.header,
        judged(outcome_view(*outcome), test@) is Passed,
    ));
    line
}

/// The lines that open the part of a report that belongs to one file.
pub open spec fn file_heading(name: Seq<char>) -> Seq<(Tone, Seq<char>)> {
    seq![
        (Tone::Plain, "\n"@),
        (Tone::Heading, "File"@),
        (Tone::Plain, ": "@ + name + "\n"@),
        (Tone::Plain, "\n"@),
    ]
}

/// Appends the lines that open the part of the file `name`.
pub fn push_file_heading(out: &mut Vec<Segment>, name: &str)
    ensures
        segments_view(final(out)@) == segments_view(old(out)@) + file_heading(name@),
{
    push_str_segment(out, Tone::Plain, "\n");
    push_str_segment(out, Tone::Heading, "File");
    let mut text: Vec<char> = Vec::new();
    push_text(&mut text, ": ");
    push_text(&mut text, name);
    push_text(&mut text, "\n");
    assert(text@ =~= ": "@ + name@ + "\n"@);
    push_segment(out, Tone::Plain, &text);
    push_str_segment(out, Tone::Plain, "\n");
    assert(segments_view(out@) =~= segments_view(old(out)@) + file_heading(name@));
}

/// A session of the engine, as far as these rules need it: the state that
/// every session sees, and the state inside an open transaction.
pub struct SessionModel<D> {
    pub committed: D,
    pub working: Option<D>,
}

/// A session without an open transaction over the state `d`.
pub open spec fn idle_session<D>(d: D) -> SessionModel<D> {
    SessionModel { committed: d, working: None }
}

/// The state that a query of the session works on.
pub open spec fn visible<D>(s: SessionModel<D>) -> D {
    match s.working {
        Some(w) => w,
        None => s.committed,
    }
}

/// The session after `command`, where a query with text `q` turns the state
/// `d` into `effect(d, q)`.
pub open spec fn execute<D>(
    s: SessionModel<D>,
    command: CommandView,
    effect: spec_fn(D, Seq<char>) -> D,
) -> SessionModel<D> {
    match command {
        CommandView::Begin => SessionModel { working: Some(visible(s)), ..s },
        CommandView::Query(q) => match s.working {
            Some(w) => SessionModel { working: Some(effect(w, q)), ..s },
            None => SessionModel { committed: effect(s.committed, q), ..s },
        },
        CommandView::Rollback => SessionModel { working: None, ..s },
    }
}

/// The session after all of `commands`, in order.
pub open spec fn execute_all<D>(
    s: SessionModel<D>,
    commands: Seq<CommandView>,
    effect: spec_fn(D, Seq<char>) -> D,
) -> SessionModel<D>
    decreases commands.len(),
{
    if commands.len() == 0 {
        s
    } else {
        execute(execute_all(s, commands.drop_last(), effect), commands.last(), effect)
    }
}

/// The state that the tests of a stateful file leave behind: the effects
/// of its tests that are not transactional, in source order.
pub open spec fn lasting_state<D>(
    tests: Seq<TestView>,
    d: D,
    effect: spec_fn(D, Seq<char>) -> D,
) -> D
    decreases tests.len(),
{
    if tests.len() == 0 {
        d
    } else {
        let before = lasting_state(tests.drop_last(), d, effect);
        if tests.last().transactional {
            before
        } else {
            effect(before, tests.last().text)
        }
    }
}

/// The commands that run each of `texts` isolated, one after another.
pub open spec fn isolated_all(texts: Seq<Seq<char>>) -> Seq<CommandView>
    decreases texts.len(),
{
    if texts.len() == 0 {
        seq![]
    } else {
        isolated_all(texts.drop_last()) + isolated(texts.last())
    }
}

/// Running one command list after another is running their concatenation.
pub proof fn lemma_execute_all_concat<D>(
    s: SessionModel<D>,
    a: Seq<CommandView>,
    b: Seq<CommandView>,
    effect: spec_fn(D, Seq<char>) -> D,
)
    ensures
        execute_all(s, a + b, effect) == execute_all(execute_all(s, a, effect), b, effect),
    decreases b.len(),
{
    if b.len() == 0 {
        assert(a + b =~= a);
    } else {
        lemma_execute_all_concat(s, a, b.drop_last(), effect);
        assert((a + b).drop_last() =~= a + b.drop_last());
        assert((a + b).last() == b.last());
    }
}

/// An isolated query works on the state that the session had before it,
/// and leaves the session as it found it, whatever the query does.
pub proof fn lemma_isolated_leaves_no_trace<D>(
    d: D,
    text: Seq<char>,
    effect: spec_fn(D, Seq<char>) -> D,
)
    ensures
        visible(execute(idle_session(d), CommandView::Begin, effect)) == d,
        execute_all(idle_session(d), isolated(text), effect) == idle_session(d),
{
    let s = idle_session(d);
    let c0 = Seq::<CommandView>::empty();
    let c1 = seq![CommandView::Begin];
    let c2 = seq![CommandView::Begin, CommandView::Query(text)];
    let c3 = isolated(text);
    assert(c1.drop_last() =~= c0);
    assert(c2.drop_last() =~= c1);
    assert(c3.drop_last() =~= c2);
    let s1 = execute(s, CommandView::Begin, effect);
    let s2 = execute(s1, CommandView::Query(text), effect);
    assert(execute_all(s, c0, effect) == s);
    assert(execute_all(s, c1, effect) == s1);
    assert(execute_all(s, c2, effect) == s2);
    assert(execute_all(s, c3, effect) == execute(s2, CommandView::Rollback, effect));
}

/// Stateless isolation: however many isolated queries a session has run,
/// and whatever they do, the next one works on the state from before all
/// of them, and the session is left in that state.
pub proof fn lemma_stateless_tests_are_isolated<D>(
    d: D,
    texts: Seq<Seq<char>>,
    effect: spec_fn(D, Seq<char>) -> D,
)
    ensures
        execute_all(idle_session(d), isolated_all(texts), effect) == idle_session(d),
        visible(
            execute(
                execute_all(idle_session(d), isolated_all(texts), effect),
                CommandView::Begin,
                effect,
            ),
        ) == d,
    decreases texts.len(),
{
    if texts.len() > 0 {
        lemma_stateless_tests_are_isolated(d, texts.drop_last(), effect);
        lemma_execute_all_concat(
            idle_session(d),
            isolated_all(texts.drop_last()),
            isolated(texts.last()),
            effect,
        );
        lemma_isolated_leaves_no_trace(d, texts.last(), effect);
    }
}

/// The commands of a file are those of its first tests followed by those
/// of the rest.
pub proof fn lemma_file_commands_split(tests: Seq<TestView>, i: int)
    requires
        0 <= i <= tests.len(),
    ensures
        file_commands(tests) == file_commands(tests.take(i)) + file_commands(tests.skip(i)),
    decreases tests.len() - i,
{
    if i == tests.len() {
        assert(tests.take(i) =~= tests);
        assert(tests.skip(i) =~= Seq::<TestView>::empty());
        assert(file_commands(tests) + Seq::<CommandView>::empty() =~= file_commands(tests));
    } else {
        let rest = tests.skip(i);
        lemma_file_commands_split(tests.drop_last(), i);
        assert(tests.drop_last().take(i) =~= tests.take(i));
        assert(tests.drop_last().skip(i) =~= rest.drop_last());
        assert(rest.last() == tests.last());
        assert(file_commands(tests.take(i)) + (file_commands(rest.drop_last()) + test_commands(
            rest.last(),
        )) =~= (file_commands(tests.take(i)) + file_commands(rest.drop_last())) + test_commands(
            tests.last(),
        ));
    }
}

/// Stateful ordering: after the tests of a file, run in source order on
/// one session, the session holds the effects of exactly the tests that
/// are not transactional, in source order, and no transaction is open.
pub proof fn lemma_stateful_tests_build_on_each_other<D>(
    tests: Seq<TestView>,
    d: D,
    effect: spec_fn(D, Seq<char>) -> D,
)
    ensures
        execute_all(idle_session(d), file_commands(tests), effect) == idle_session(
            lasting_state(tests, d, effect),
        ),
    decreases tests.len(),
{
    if tests.len() > 0 {
        let before = tests.drop_last();
        let t = tests.last();
        lemma_stateful_tests_build_on_each_other(before, d, effect);
        lemma_execute_all_concat(
            idle_session(d),
            file_commands(before),
            test_commands(t),
            effect,
        );
        let s = idle_session(lasting_state(before, d, effect));
        if t.transactional {
            lemma_isolated_leaves_no_trace(lasting_state(before, d, effect), t.text, effect);
        } else {
            let cs = test_commands(t);
            assert(cs.drop_last() =~= Seq::<CommandView>::empty());
            assert(cs.last() == CommandView::Query(t.text));
            assert(execute_all(s, cs.drop_last(), effect) == s);
        }
    }
}

/// The test at `i` of a stateful file works on the effects of the tests
/// before it that are not transactional, and on nothing else.
pub proof fn lemma_test_sees_earlier_effects<D>(
    tests: Seq<TestView>,
    i: int,
    d: D,
    effect: spec_fn(D, Seq<char>) -> D,
)
    requires
        0 <= i < tests.len(),
    ensures
        file_commands(tests) == file_commands(tests.take(i)) + file_commands(tests.skip(i)),
        visible(execute_all(idle_session(d), file_commands(tests.take(i)), effect))
            == lasting_state(tests.take(i), d, effect),
{
    lemma_file_commands_split(tests, i);
    lemma_stateful_tests_build_on_each_other(tests.take(i), d, effect);
}

/// The order of a stateful file's tests matters: where the engine keeps a
/// record of the queries that took effect, two tests that are not
/// transactional and differ in their text leave different records in the
/// two orders.
pub proof fn lemma_order_of_stateful_tests_matters(a: TestView, b: TestView)
    requires
        !a.transactional,
        !b.transactional,
        a.text != b.text,
    ensures
        lasting_state(
            seq![a, b],
            Seq::<Seq<char>>::empty(),
            |d: Seq<Seq<char>>, q: Seq<char>| d.push(q),
        ) != lasting_state(
            seq![b, a],
            Seq::<Seq<char>>::empty(),
            |d: Seq<Seq<char>>, q: Seq<char>| d.push(q),
        ),
{
    let record = |d: Seq<Seq<char>>, q: Seq<char>| d.push(q);
    let empty = Seq::<Seq<char>>::empty();
    let ab = seq![a, b];
    let ba = seq![b, a];
    assert(ab.drop_last() =~= seq![a]);
    assert(ba.drop_last() =~= seq![b]);
    assert(seq![a].drop_last() =~= Seq::<TestView>::empty());
    assert(seq![b].drop_last() =~= Seq::<TestView>::empty());
    assert(lasting_state(Seq::<TestView>::empty(), empty, record) == empty);
    assert(lasting_state(seq![a], empty, record) == empty.push(a.text));
    assert(lasting_state(seq![b], empty, record) == empty.push(b.text));
    assert(lasting_state(ab, empty, record) == empty.push(a.text).push(b.text));
    assert(lasting_state(ba, empty, record) == empty.push(b.text).push(a.text));
    assert(empty.push(a.text).push(b.text)[0] == a.text);
    assert(empty.push(b.text).push(a.text)[0] == b.text);
}

/// What a session answered to a command.
#[derive(Debug, PartialEq, Eq)]
pub enum Reply {
    /// The command was carried out and gave nothing back.
    Done,
    /// The messages that a query gave back.
    Rows(Vec<QueryMessage>),
    /// The command failed, with this message.
    Failed(String),
}

/// A `Reply` as mathematical values.
pub enum ReplyView {
    Done,
    Rows(Seq<QueryMessageView>),
    Failed(Seq<char>),
}

impl View for Reply {
    type V = ReplyView;

    open spec fn view(&self) -> ReplyView {
        match self {
            Reply::Done => ReplyView::Done,
            Reply::Rows(messages) => ReplyView::Rows(messages_view(messages@)),
            Reply::Failed(message) => ReplyView::Failed(message@),
        }
    }
}

/// The run of one test's commands against a session: which command is
/// next, and what the query has given.
pub struct TestRun {
    commands: Vec<Command>,
    at: usize,
    outcome: Option<Result<Vec<QueryMessage>, String>>,
}

/// A `TestRun` as mathematical values.
pub struct TestRunView {
    pub commands: Seq<CommandView>,
    pub at: nat,
    pub outcome: Option<Result<Seq<QueryMessageView>, Seq<char>>>,
}

impl View for TestRun {
    type V = TestRunView;

    closed spec fn view(&self) -> TestRunView {
        TestRunView {
            commands: commands_view(self.commands@),
            at: self.at as nat,
            outcome: match self.outcome {
                Some(o) => Some(outcome_view(o)),
                None => None,
            },
        }
    }
}

/// The run after the session answered `reply` to the current command. A
/// transaction that cannot be opened ends the run with that error, and the
/// query is not sent. What the query gives is the outcome. What the
/// rollback gives is of no account, and the rollback is sent whatever the
/// query gave.
pub open spec fn after_reply(run: TestRunView, reply: ReplyView) -> TestRunView {
    if run.at >= run.commands.len() {
        run
    } else {
        match run.commands[run.at as int] {
            CommandView::Begin => match reply {
                ReplyView::Failed(message) => TestRunView {
                    at: run.commands.len(),
                    outcome: Some(Err(message)),
                    ..run
                },
                _ => TestRunView { at: run.at + 1, ..run },
            },
            CommandView::Query(_) => TestRunView {
                at: run.at + 1,
                outcome: Some(
                    match reply {
                        ReplyView::Done => Ok(seq![]),
                        ReplyView::Rows(messages) => Ok(messages),
                        ReplyView::Failed(message) => Err(message),
                    },
                ),
                ..run
            },
            CommandView::Rollback => TestRunView { at: run.at + 1, ..run },
        }
    }
}

impl TestRun {
    /// The run is not past the end of its commands.
    #[verifier::type_invariant]
    spec fn in_commands(&self) -> bool {
        self.at <= self.commands.len()
    }

    /// A run that is to send `commands`, in order.
    pub fn new(commands: Vec<Command>) -> (run: Self)
        ensures
            run@ == (TestRunView { commands: commands_view(commands@), at: 0, outcome: None }),
    {
        TestRun { commands, at: 0, outcome: None }
    }

    /// The command to send next; none when the run is over.
    pub fn command(&self) -> (c: Option<&Command>)
        ensures
            match c {
                Some(command) => self@.at < self@.commands.len() && command@
                    == self@.commands[self@.at as int],
                None => self@.at == self@.commands.len(),
            },
    {
        proof {
            use_type_invariant(self);
        }
        if self.at < self.commands.len() {
            Some(&self.commands[self.at])
        } else {
            None
        }
    }

    /// Takes the session's answer to the current command.
    pub fn reply(&mut self, reply: Reply)
        ensures
            final(self)@ == after_reply(old(self)@, reply@),
    {
        proof {
            use_type_invariant(&*self);
        }
        if self.at >= self.commands.len() {
            return ;
        }
        match &self.commands[self.at] {
            Command::Begin => {
                match reply {
                    Reply::Failed(message) => {
                        self.at = self.commands.len();
                        self.outcome = Some(Err(message));
                    },
                    _ => {
                        self.at = self.at + 1;
                    },
                }
            },
            Command::Query(_) => {
                self.at = self.at + 1;
                let outcome = match reply {
                    Reply::Done => {
                        let none: Vec<QueryMessage> = Vec::new();
                        assert(messages_view(none@) =~= Seq::<QueryMessageView>::empty());
                        Ok(none)
                    },
                    Reply::Rows(messages) => Ok(messages),
                    Reply::Failed(message) => Err(message),
                };
                self.outcome = Some(outcome);
            },
            Command::Rollback => {
                self.at = self.at + 1;
            },
        }
    }

    /// What the query gave, once the run is over; nothing before that, and
    /// nothing where no query was sent and no transaction failed to open.
    pub fn into_outcome(self) -> (o: Option<Result<Vec<QueryMessage>, String>>)
        ensures
            match o {
                Some(outcome) => self@.at == self@.commands.len() && self@.outcome == Some(
                    outcome_view(outcome),
                ),
                None => self@.at < self@.commands.len() || self@.outcome is None,
            },
    {
        proof {
            use_type_invariant(&self);
        }
        if self.at < self.commands.len() {
            None
        } else {
            self.outcome
        }
    }
}

/// The number of sessions that the stateless tests share, unless another
/// is asked for.
pub const STATELESS_SESSIONS: usize = 4;

/// The number of stateful files that are under way at once, unless another
/// is asked for.
pub const STATEFUL_FILES: usize = 4;

/// How a group of files is scheduled.
#[derive(Debug, PartialEq, Eq, Clone, Copy)]
pub enum Mode {
    /// Every test is a unit of its own; all share one database, and each
    /// runs in a transaction that is rolled back.
    Stateless,
    /// Every file is a unit with a database of its own, and its tests run
    /// in source order on one session.
    Stateful,
}

/// What is scheduled as one piece: tests of one file that run on one
/// session, in order.
#[derive(Debug, PartialEq, Eq)]
pub struct Unit {
    pub file_name: String,
    pub tests: Vec<Test>,
}

/// A `Unit` as mathematical values.
pub struct UnitView {
    pub file_name: Seq<char>,
    pub tests: Seq<TestView>,
}

impl View for Unit {
    type V = UnitView;

    open spec fn view(&self) -> UnitView {
        UnitView { file_name: self.file_name@, tests: tests_view(self.tests@) }
    }
}

/// The units in `units` as mathematical values.
pub open spec fn units_view(units: Seq<Unit>) -> Seq<UnitView> {
    units.map_values(|u: Unit| u@)
}

/// The files in `files` as mathematical values.
pub open spec fn files_view(files: Seq<TestFile>) -> Seq<TestFileView> {
    files.map_values(|f: TestFile| f@)
}

/// One unit for each of the first `upto` tests of a file.
pub open spec fn single_units(name: Seq<char>, tests: Seq<TestView>, upto: int) -> Seq<UnitView>
    decreases upto,
{
    if upto <= 0 {
        seq![]
    } else {
        single_units(name, tests, upto - 1).push(
            UnitView { file_name: name, tests: seq![tests[upto - 1]] },
        )
    }
}

/// The units of the first `upto` files: in stateless mode one for each
/// test, in stateful mode one for each file; in both, in source order.
pub open spec fn units_of(mode: Mode, files: Seq<TestFileView>, upto: int) -> Seq<UnitView>
    decreases upto,
{
    if upto <= 0 {
        seq![]
    } else {
        let file = files[upto - 1];
        let before = units_of(mode, files, upto - 1);
        match mode {
            Mode::Stateless => before + single_units(
                file.name,
                file.tests,
                file.tests.len() as int,
            ),
            Mode::Stateful => before.push(UnitView { file_name: file.name, tests: file.tests }),
        }
    }
}

/// The database in which the unit in `slot` runs.
pub open spec fn database_name(mode: Mode, slot: nat) -> Seq<char> {
    match mode {
        Mode::Stateless => "stateless_test_db"@,
        Mode::Stateful => "stateful-tests-"@ + decimal(slot + 1),
    }
}

/// Every stateful file runs in a database of its own: the names of two
/// slots differ.
pub proof fn lemma_stateful_databases_are_distinct(a: nat, b: nat)
    requires
        a != b,
    ensures
        database_name(Mode::Stateful, a) != database_name(Mode::Stateful, b),
{
    let prefix = "stateful-tests-"@;
    let x = decimal(a + 1);
    let y = decimal(b + 1);
    lemma_number_of_decimal(a + 1);
    lemma_number_of_decimal(b + 1);
    if prefix + x == prefix + y {
        assert((prefix + x).skip(prefix.len() as int) =~= x);
        assert((prefix + y).skip(prefix.len() as int) =~= y);
        assert(x == y);
    }
}

/// The commands for the first `upto` tests of a unit, test by test.
pub open spec fn unit_runs(mode: Mode, tests: Seq<TestView>, upto: int) -> Seq<Seq<CommandView>>
    decreases upto,
{
    if upto <= 0 {
        seq![]
    } else {
        unit_runs(mode, tests, upto - 1).push(
            match mode {
                Mode::Stateless => isolated(tests[upto - 1].text),
                Mode::Stateful => test_commands(tests[upto - 1]),
            },
        )
    }
}

/// What whoever drives the pipeline is to run next.
#[derive(Debug, PartialEq, Eq)]
pub struct Job {
    /// The place of the unit in the order of dispatch, from zero.
    pub slot: usize,
    /// The database to run in.
    pub database: String,
    /// The commands of each test of the unit.
    pub runs: Vec<Vec<Command>>,
}

/// A `Job` as mathematical values.
pub struct JobView {
    pub slot: nat,
    pub database: Seq<char>,
    pub runs: Seq<Seq<CommandView>>,
}

impl View for Job {
    type V = JobView;

    open spec fn view(&self) -> JobView {
        JobView {
            slot: self.slot as nat,
            database: self.database@,
            runs: self.runs@.map_values(|r: Vec<Command>| commands_view(r@)),
        }
    }
}

/// What the engine gave for each test of a unit.
pub open spec fn outcomes_view(outcomes: Seq<Result<Vec<QueryMessage>, String>>) -> Seq<
    Result<Seq<QueryMessageView>, Seq<char>>,
> {
    outcomes.map_values(|o: Result<Vec<QueryMessage>, String>| outcome_view(o))
}

/// The results that wait to be reported, each with its slot.
pub open spec fn waiting_view(waiting: Seq<(usize, Vec<Result<Vec<QueryMessage>, String>>)>)
    -> Seq<(nat, Seq<Result<Seq<QueryMessageView>, Seq<char>>>)> {
    waiting.map_values(
        |w: (usize, Vec<Result<Vec<QueryMessage>, String>>)| (w.0 as nat, outcomes_view(w.1@)),
    )
}

/// A pipeline as mathematical values.
pub struct PipelineView {
    pub mode: Mode,
    /// How many units may be under way at once.
    pub cap: nat,
    pub units: Seq<UnitView>,
    /// How many units were handed out.
    pub dispatched: nat,
    /// How many of them came back.
    pub completed: nat,
    /// The results that came back and are not reported yet.
    pub waiting: Seq<(nat, Seq<Result<Seq<QueryMessageView>, Seq<char>>>)>,
    /// How many units were reported.
    pub reported: nat,
    /// The file of the unit that was reported last.
    pub current_file: Seq<char>,
    pub failures: Seq<FailureView>,
}

/// The index at which `slot` waits, or `-1`.
pub open spec fn waiting_index(
    waiting: Seq<(nat, Seq<Result<Seq<QueryMessageView>, Seq<char>>>)>,
    slot: nat,
) -> int
    decreases waiting.len(),
{
    if waiting.len() == 0 {
        -1
    } else if waiting.last().0 == slot {
        waiting.len() - 1
    } else {
        waiting_index(waiting.drop_last(), slot)
    }
}

/// Whether the pipeline keeps its books in order.
pub open spec fn pipeline_wf(p: PipelineView) -> bool {
    &&& p.reported <= p.completed <= p.dispatched <= p.units.len()
    &&& p.dispatched - p.completed <= p.cap
    &&& p.waiting.len() == p.completed - p.reported
    &&& forall|i: int|
        0 <= i < p.waiting.len() ==> p.reported <= (#[trigger] p.waiting[i]).0 < p.dispatched
            && p.waiting[i].1.len() == p.units[p.waiting[i].0 as int].tests.len()
    &&& forall|i: int, j: int|
        0 <= i < j < p.waiting.len() ==> (#[trigger] p.waiting[i]).0 != (#[trigger] p.waiting[j]).0
}

/// Whether a unit may be handed out: one is left, and fewer than the cap
/// are under way.
pub open spec fn may_dispatch(p: PipelineView) -> bool {
    p.dispatched < p.units.len() && p.dispatched - p.completed < p.cap
}

/// The job for the next unit in source order.
pub open spec fn next_job(p: PipelineView) -> JobView {
    let unit = p.units[p.dispatched as int];
    JobView {
        slot: p.dispatched,
        database: database_name(p.mode, p.dispatched),
        runs: unit_runs(p.mode, unit.tests, unit.tests.len() as int),
    }
}

/// Whether `outcomes` are taken as the result of the unit in `slot`: the
/// unit is under way, and there is one outcome for each of its tests.
pub open spec fn may_complete(
    p: PipelineView,
    slot: nat,
    outcomes: Seq<Result<Seq<QueryMessageView>, Seq<char>>>,
) -> bool {
    &&& p.reported <= slot < p.dispatched
    &&& waiting_index(p.waiting, slot) < 0
    &&& outcomes.len() == p.units[slot as int].tests.len()
}

/// Whether the next unit in the order of dispatch can be reported.
pub open spec fn may_report(p: PipelineView) -> bool {
    p.reported < p.dispatched && waiting_index(p.waiting, p.reported) >= 0
}

/// The failures after the first `upto` tests of a unit were judged.
pub open spec fn unit_failures(
    failures: Seq<FailureView>,
    unit: UnitView,
    outcomes: Seq<Result<Seq<QueryMessageView>, Seq<char>>>,
    upto: int,
) -> Seq<FailureView>
    decreases upto,
{
    if upto <= 0 {
        failures
    } else {
        with_result(
            unit_failures(failures, unit, outcomes, upto - 1),
            unit.file_name,
            unit.tests[upto - 1],
            judged(outcomes[upto - 1], unit.tests[upto - 1]),
        )
    }
}

/// The lines for the first `upto` tests of a unit.
pub open spec fn unit_lines(
    unit: UnitView,
    outcomes: Seq<Result<Seq<QueryMessageView>, Seq<char>>>,
    upto: int,
) -> Seq<(Tone, Seq<char>)>
    decreases upto,
{
    if upto <= 0 {
        seq![]
    } else {
        unit_lines(unit, outcomes, upto - 1) + result_line(
            unit.tests[upto - 1].header,
            judged(outcomes[upto - 1], unit.tests[upto - 1]) is Passed,
        )
    }
}

/// The heading in front of a unit's lines: in stateful mode every unit has
/// one, in stateless mode a unit whose file is not that of the unit before.
pub open spec fn unit_heading(p: PipelineView, unit: UnitView) -> Seq<(Tone, Seq<char>)> {
    match p.mode {
        Mode::Stateless => if unit.file_name != p.current_file {
            file_heading(unit.file_name)
        } else {
            seq![]
        },
        Mode::Stateful => file_heading(unit.file_name),
    }
}

/// What is shown when the next unit is reported.
pub open spec fn report_lines(p: PipelineView) -> Seq<(Tone, Seq<char>)> {
    let unit = p.units[p.reported as int];
    let outcomes = p.waiting[waiting_index(p.waiting, p.reported)].1;
    unit_heading(p, unit) + unit_lines(unit, outcomes, unit.tests.len() as int)
}

/// The pipeline after the next unit was reported.
pub open spec fn after_report(p: PipelineView) -> PipelineView {
    let unit = p.units[p.reported as int];
    let i = waiting_index(p.waiting, p.reported);
    PipelineView {
        waiting: p.waiting.remove(i),
        reported: p.reported + 1,
        current_file: unit.file_name,
        failures: unit_failures(p.failures, unit, p.waiting[i].1, unit.tests.len() as int),
        ..p
    }
}

/// A slot waits at the index that `waiting_index` gives, and nowhere if
/// it gives none.
pub proof fn lemma_waiting_index(
    waiting: Seq<(nat, Seq<Result<Seq<QueryMessageView>, Seq<char>>>)>,
    slot: nat,
)
    ensures
        -1 <= waiting_index(waiting, slot) < waiting.len(),
        waiting_index(waiting, slot) >= 0 ==> waiting[waiting_index(waiting, slot)].0 == slot,
        waiting_index(waiting, slot) < 0 ==> forall|i: int|
            0 <= i < waiting.len() ==> (#[trigger] waiting[i]).0 != slot,
    decreases waiting.len(),
{
    if waiting.len() > 0 && waiting.last().0 != slot {
        lemma_waiting_index(waiting.drop_last(), slot);
        if waiting_index(waiting, slot) < 0 {
            assert forall|i: int| 0 <= i < waiting.len() implies (#[trigger] waiting[i]).0
                != slot by {
                if i < waiting.len() - 1 {
                    assert(waiting.drop_last()[i] == waiting[i]);
                }
            }
        }
    }
}

/// Where no slot waits twice, a slot waits at the one index that holds it.
pub proof fn lemma_waiting_index_is(
    waiting: Seq<(nat, Seq<Result<Seq<QueryMessageView>, Seq<char>>>)>,
    slot: nat,
    i: int,
)
    requires
        0 <= i < waiting.len(),
        waiting[i].0 == slot,
        forall|a: int, b: int|
            0 <= a < b < waiting.len() ==> (#[trigger] waiting[a]).0 != (#[trigger] waiting[b]).0,
    ensures
        waiting_index(waiting, slot) == i,
{
    lemma_waiting_index(waiting, slot);
    let k = waiting_index(waiting, slot);
    if k < 0 {
        assert(waiting[i].0 != slot);
    } else if k < i {
        assert(waiting[k].0 != waiting[i].0);
    } else if i < k {
        assert(waiting[i].0 != waiting[k].0);
    }
}

/// All of `runs` one after another.
pub open spec fn in_sequence(runs: Seq<Seq<CommandView>>) -> Seq<CommandView>
    decreases runs.len(),
{
    if runs.len() == 0 {
        seq![]
    } else {
        in_sequence(runs.drop_last()) + runs.last()
    }
}

/// The texts of the first `upto` of `tests`.
pub open spec fn texts_of(tests: Seq<TestView>, upto: int) -> Seq<Seq<char>>
    decreases upto,
{
    if upto <= 0 {
        seq![]
    } else {
        texts_of(tests, upto - 1).push(tests[upto - 1].text)
    }
}

/// What a session is sent for a unit of a stateful file is what the rules
/// for a stateful file ask for: the commands of its tests in source order.
pub proof fn lemma_stateful_job_follows_the_file(tests: Seq<TestView>, upto: int)
    requires
        0 <= upto <= tests.len(),
    ensures
        in_sequence(unit_runs(Mode::Stateful, tests, upto)) == file_commands(tests.take(upto)),
    decreases upto,
{
    if upto > 0 {
        lemma_stateful_job_follows_the_file(tests, upto - 1);
        assert(unit_runs(Mode::Stateful, tests, upto).drop_last() =~= unit_runs(
            Mode::Stateful,
            tests,
            upto - 1,
        ));
        assert(tests.take(upto).drop_last() =~= tests.take(upto - 1));
        assert(tests.take(upto).last() == tests[upto - 1]);
    } else {
        assert(tests.take(0) =~= Seq::<TestView>::empty());
    }
}

/// What a session is sent for stateless tests is each test isolated,
/// whether the test asks for a transaction or not.
pub proof fn lemma_stateless_job_isolates_every_test(tests: Seq<TestView>, upto: int)
    requires
        0 <= upto <= tests.len(),
    ensures
        in_sequence(unit_runs(Mode::Stateless, tests, upto)) == isolated_all(
            texts_of(tests, upto),
        ),
    decreases upto,
{
    if upto > 0 {
        lemma_stateless_job_isolates_every_test(tests, upto - 1);
        assert(unit_runs(Mode::Stateless, tests, upto).drop_last() =~= unit_runs(
            Mode::Stateless,
            tests,
            upto - 1,
        ));
        assert(texts_of(tests, upto).drop_last() =~= texts_of(tests, upto - 1));
    }
}

/// Hands out the units of a group of files in source order, keeps no more
/// than a fixed number of them under way, takes their results back in any
/// order, and reports them in the order in which they were handed out.
pub struct Pipeline {
    mode: Mode,
    cap: usize,
    units: Vec<Unit>,
    dispatched: usize,
    completed: usize,
    waiting: Vec<(usize, Vec<Result<Vec<QueryMessage>, String>>)>,
    reported: usize,
    current_file: String,
    failures: Vec<Failure>,
}

impl View for Pipeline {
    type V = PipelineView;

    closed spec fn view(&self) -> PipelineView {
        PipelineView {
            mode: self.mode,
            cap: self.cap as nat,
            units: units_view(self.units@),
            dispatched: self.dispatched as nat,
            completed: self.completed as nat,
            waiting: waiting_view(self.waiting@),
            reported: self.reported as nat,
            current_file: self.current_file@,
            failures: failures_view(self.failures@),
        }
    }
}

/// Builds the commands of each test of a unit.
fn runs_for(mode: Mode, tests: &Vec<Test>) -> (runs: Vec<Vec<Command>>)
    ensures
        runs@.map_values(|r: Vec<Command>| commands_view(r@)) == unit_runs(
            mode,
            tests_view(tests@),
            tests.len() as int,
        ),
{
    let mut runs: Vec<Vec<Command>> = Vec::new();
    let mut i: usize = 0;
    assert(runs@.map_values(|r: Vec<Command>| commands_view(r@)) =~= unit_runs(
        mode,
        tests_view(tests@),
        0,
    ));
    while i < tests.len()
        invariant
            i <= tests.len(),
            runs@.map_values(|r: Vec<Command>| commands_view(r@)) == unit_runs(
                mode,
                tests_view(tests@),
                i as int,
            ),
        decreases tests.len() - i,
    {
        let commands = match mode {
            Mode::Stateless => isolated_commands(tests[i].text.as_str()),
            Mode::Stateful => commands_for(&tests[i]),
        };
        assert(runs@.push(commands).map_values(|r: Vec<Command>| commands_view(r@)) =~= unit_runs(
            mode,
            tests_view(tests@),
            i + 1,
        ));
        runs.push(commands);
        i += 1;
    }
    runs
}

/// Builds the name of the database for the unit in `slot`.
fn database_for(mode: Mode, slot: usize) -> (name: String)
    requires
        slot < usize::MAX,
    ensures
        name@ == database_name(mode, slot as nat),
{
    match mode {
        Mode::Stateless => "stateless_test_db".to_owned(),
        Mode::Stateful => {
            let mut text: Vec<char> = Vec::new();
            push_text(&mut text, "stateful-tests-");
            push_decimal(&mut text, slot + 1);
            assert(text@ =~= database_name(mode, slot as nat));
            crate::text::string_of(&text)
        },
    }
}

impl Pipeline {
    /// The pipeline keeps its books in order.
    pub open spec fn wf(&self) -> bool {
        pipeline_wf(self@)
    }

    /// A pipeline over the units of `files` that keeps at most `cap` of
    /// them under way.
    pub fn new(mode: Mode, files: &Vec<TestFile>, cap: usize) -> (p: Self)
        ensures
            p.wf(),
            p@ == (PipelineView {
                mode,
                cap: cap as nat,
                units: units_of(mode, files_view(files@), files.len() as int),
                dispatched: 0,
                completed: 0,
                waiting: seq![],
                reported: 0,
                current_file: seq![],
                failures: seq![],
            }),
    {
        let ghost fv = files_view(files@);
        let mut units: Vec<Unit> = Vec::new();
        let mut i: usize = 0;
        assert(units_view(units@) =~= units_of(mode, fv, 0));
        while i < files.len()
            invariant
                i <= files.len(),
                fv == files_view(files@),
                units_view(units@) == units_of(mode, fv, i as int),
            decreases files.len() - i,
        {
            let file = &files[i];
            assert(fv[i as int] == file@);
            match mode {
                Mode::Stateless => {
                    let ghost before = units_view(units@);
                    let mut j: usize = 0;
                    assert(before =~= before + single_units(file@.name, file@.tests, 0));
                    while j < file.tests.len()
                        invariant
                            j <= file.tests.len(),
                            units_view(units@) == before + single_units(
                                file@.name,
                                file@.tests,
                                j as int,
                            ),
                        decreases file.tests.len() - j,
                    {
                        let mut tests: Vec<Test> = Vec::new();
                        tests.push(file.tests[j].copy());
                        let unit = Unit { file_name: file.name.clone(), tests };
                        proof {
                            assert(file@.tests[j as int] == file.tests@[j as int]@);
                            assert(tests_view(unit.tests@) =~= seq![file@.tests[j as int]]);
                            assert(unit@ == (UnitView {
                                file_name: file@.name,
                                tests: seq![file@.tests[j as int]],
                            }));
                            assert(units_view(units@.push(unit)) =~= units_view(units@).push(
                                unit@,
                            ));
                            assert(units_view(units@.push(unit)) =~= before + single_units(
                                file@.name,
                                file@.tests,
                                j + 1,
                            ));
                        }
                        units.push(unit);
                        j += 1;
                    }
                },
                Mode::Stateful => {
                    let mut tests: Vec<Test> = Vec::new();
                    let mut j: usize = 0;
                    while j < file.tests.len()
                        invariant
                            j <= file.tests.len(),
                            tests.len() == j,
                            forall|k: int|
                                0 <= k < j ==> (#[trigger] tests@[k])@ == file.tests@[k]@,
                        decreases file.tests.len() - j,
                    {
                        tests.push(file.tests[j].copy());
                        j += 1;
                    }
                    let unit = Unit { file_name: file.name.clone(), tests };
                    proof {
                        assert(tests_view(unit.tests@) =~= file@.tests);
                        assert(units_view(units@.push(unit)) =~= units_of(mode, fv, i + 1));
                    }
                    units.push(unit);
                },
            }
            i += 1;
        }
        let p = Pipeline {
            mode,
            cap,
            units,
            dispatched: 0,
            completed: 0,
            waiting: Vec::new(),
            reported: 0,
            current_file: String::new(),
            failures: Vec::new(),
        };
        proof {
            assert(waiting_view(p.waiting@) =~= Seq::empty());
            assert(failures_view(p.failures@) =~= Seq::empty());
        }
        p
    }

    /// The number of units.
    pub fn unit_count(&self) -> (n: usize)
        ensures
            n == self@.units.len(),
    {
        self.units.len()
    }

    /// Hands out the next unit in source order, unless none is left or as
    /// many as the cap are under way.
    pub fn dispatch(&mut self) -> (job: Option<Job>)
        requires
            old(self).wf(),
        ensures
            final(self).wf(),
            match job {
                Some(j) => may_dispatch(old(self)@) && j@ == next_job(old(self)@) && final(self)@
                    == (PipelineView { dispatched: old(self)@.dispatched + 1, ..old(self)@ }),
                None => !may_dispatch(old(self)@) && final(self)@ == old(self)@,
            },
    {
        if self.dispatched >= self.units.len() || self.dispatched - self.completed >= self.cap {
            return None;
        }
        let slot = self.dispatched;
        let unit = &self.units[slot];
        let job = Job {
            slot,
            database: database_for(self.mode, slot),
            runs: runs_for(self.mode, &unit.tests),
        };
        self.dispatched = slot + 1;
        Some(job)
    }

    /// Takes `outcomes` as the result of the unit in `slot`, if that unit
    /// is under way and there is one outcome for each of its tests. Says
    /// whether it took them.
    pub fn complete(
        &mut self,
        slot: usize,
        outcomes: Vec<Result<Vec<QueryMessage>, String>>,
    ) -> (taken: bool)
        requires
            old(self).wf(),
        ensures
            final(self).wf(),
            taken == may_complete(old(self)@, slot as nat, outcomes_view(outcomes@)),
            taken ==> final(self)@ == (PipelineView {
                completed: old(self)@.completed + 1,
                waiting: old(self)@.waiting.push((slot as nat, outcomes_view(outcomes@))),
                ..old(self)@
            }),
            !taken ==> final(self)@ == old(self)@,
    {
        proof {
            lemma_waiting_index(self@.waiting, slot as nat);
        }
        if slot < self.reported || slot >= self.dispatched {
            return false;
        }
        let mut i: usize = 0;
        while i < self.waiting.len()
            invariant
                *self == *old(self),
                self.wf(),
                i <= self.waiting.len(),
                forall|k: int| 0 <= k < i ==> (#[trigger] self@.waiting[k]).0 != slot,
            decreases self.waiting.len() - i,
        {
            if self.waiting[i].0 == slot {
                proof {
                    assert(self@.waiting[i as int].0 == slot);
                    lemma_waiting_index_is(self@.waiting, slot as nat, i as int);
                }
                return false;
            }
            i += 1;
        }
        if outcomes.len() != self.units[slot].tests.len() {
            return false;
        }
        proof {
            let old_waiting = self@.waiting;
            let entry = (slot as nat, outcomes_view(outcomes@));
            assert(waiting_view(self.waiting@.push((slot, outcomes))) =~= old_waiting.push(entry));
            assert(old_waiting.len() == self@.completed - self@.reported);
            assert(self@.completed < self@.dispatched) by {
                // the slot is under way and does not wait, so not all that
                // were handed out have come back
                lemma_fewer_waiting_than_under_way(self@, slot as nat);
            }
        }
        self.waiting.push((slot, outcomes));
        self.completed = self.completed + 1;
        true
    }

    /// Reports the next unit in the order of dispatch, if its result came
    /// back: judges its tests, notes the failures, and gives the lines to
    /// show.
    pub fn report(&mut self) -> (lines: Option<Vec<Segment>>)
        requires
            old(self).wf(),
        ensures
            final(self).wf(),
            match lines {
                Some(l) => may_report(old(self)@) && segments_view(l@) == report_lines(old(self)@)
                    && final(self)@ == after_report(old(self)@),
                None => !may_report(old(self)@) && final(self)@ == old(self)@,
            },
    {
        proof {
            lemma_waiting_index(self@.waiting, self@.reported);
        }
        if self.reported >= self.dispatched {
            return None;
        }
        let slot = self.reported;
        let mut i: usize = 0;
        while i < self.waiting.len() && self.waiting[i].0 != slot
            invariant
                *self == *old(self),
                self.wf(),
                slot == self.reported,
                i <= self.waiting.len(),
                forall|k: int| 0 <= k < i ==> (#[trigger] self@.waiting[k]).0 != slot,
            decreases self.waiting.len() - i,
        {
            i += 1;
        }
        if i >= self.waiting.len() {
            return None;
        }
        proof {
            assert(self@.waiting[i as int].0 == slot);
            lemma_waiting_index_is(self@.waiting, slot as nat, i as int);
        }
        let ghost before = self@;
        let entry = self.waiting.remove(i);
        let outcomes = entry.1;
        let unit = &self.units[slot];
        let ghost uv = unit@;
        let ghost ov = outcomes_view(outcomes@);
        proof {
            assert(before.units[slot as int] == uv);
            assert(before.waiting[i as int].1 == ov);
            assert(waiting_view(self.waiting@) =~= before.waiting.remove(i as int));
        }
        let mut lines: Vec<Segment> = Vec::new();
        assert(segments_view(lines@) =~= Seq::<(Tone, Seq<char>)>::empty());
        let with_heading = match self.mode {
            Mode::Stateless => unit.file_name != self.current_file,
            Mode::Stateful => true,
        };
        if with_heading {
            push_file_heading(&mut lines, unit.file_name.as_str());
        }
        assert(segments_view(lines@) =~= unit_heading(before, uv) + unit_lines(uv, ov, 0));
        let mut failures: Vec<Failure> = Vec::new();
        core::mem::swap(&mut failures, &mut self.failures);
        let mut k: usize = 0;
        while k < unit.tests.len()
            invariant
                k <= unit.tests.len(),
                outcomes.len() == unit.tests.len(),
                uv == unit@,
                ov == outcomes_view(outcomes@),
                segments_view(lines@) == unit_heading(before, uv) + unit_lines(uv, ov, k as int),
                failures_view(failures@) == unit_failures(before.failures, uv, ov, k as int),
            decreases unit.tests.len() - k,
        {
            let ghost shown = segments_view(lines@);
            let mut line = record_result(
                unit.file_name.clone(),
                unit.tests[k].copy(),
                &outcomes[k],
                &mut failures,
            );
            proof {
                assert(uv.tests[k as int] == unit.tests@[k as int]@);
                assert(ov[k as int] == outcome_view(outcomes@[k as int]));
                assert(segments_view(lines@ + line@) =~= shown + segments_view(line@));
                assert(shown + segments_view(line@) =~= unit_heading(before, uv) + unit_lines(
                    uv,
                    ov,
                    k + 1,
                ));
            }
            lines.append(&mut line);
            k += 1;
        }
        let name = unit.file_name.clone();
        self.failures = failures;
        self.current_file = name;
        self.reported = slot + 1;
        proof {
            assert forall|a: int| 0 <= a < self@.waiting.len() implies self@.reported <= (
            #[trigger] self@.waiting[a]).0 < self@.dispatched && self@.waiting[a].1.len()
                == self@.units[self@.waiting[a].0 as int].tests.len() by {
                let b = if a < i {
                    a
                } else {
                    a + 1
                };
                assert(self@.waiting[a] == before.waiting[b]);
                if b < i {
                    assert(before.waiting[b].0 != before.waiting[i as int].0);
                } else {
                    assert(before.waiting[i as int].0 != before.waiting[b].0);
                }
            }
            assert forall|a: int, b: int| 0 <= a < b < self@.waiting.len() implies (
            #[trigger] self@.waiting[a]).0 != (#[trigger] self@.waiting[b]).0 by {
                let a0 = if a < i {
                    a
                } else {
                    a + 1
                };
                let b0 = if b < i {
                    b
                } else {
                    b + 1
                };
                assert(self@.waiting[a] == before.waiting[a0]);
                assert(self@.waiting[b] == before.waiting[b0]);
            }
        }
        Some(lines)
    }

    /// Whether every unit has been reported.
    pub fn is_finished(&self) -> (b: bool)
        ensures
            b == (self@.reported == self@.units.len()),
    {
        self.reported == self.units.len()
    }

    /// The failures of the units that were reported, in the order of
    /// their reports.
    pub fn into_failures(self) -> (failures: Vec<Failure>)
        ensures
            failures_view(failures@) == self@.failures,
    {
        self.failures
    }
}

/// Where a unit is under way and does not wait, fewer units have come back
/// than were handed out.
pub proof fn lemma_fewer_waiting_than_under_way(p: PipelineView, slot: nat)
    requires
        pipeline_wf(p),
        p.reported <= slot < p.dispatched,
        waiting_index(p.waiting, slot) < 0,
    ensures
        p.completed < p.dispatched,
{
    lemma_waiting_index(p.waiting, slot);
    if p.completed == p.dispatched {
        // every slot from `reported` up to `dispatched` would wait
        let slots = p.waiting.map_values(
            |w: (nat, Seq<Result<Seq<QueryMessageView>, Seq<char>>>)| w.0 as int,
        );
        assert(slots.no_duplicates()) by {
            assert forall|a: int, b: int| 0 <= a < slots.len() && 0 <= b < slots.len() && a
                != b implies slots[a] != slots[b] by {
                if a < b {
                    assert(p.waiting[a].0 != p.waiting[b].0);
                } else {
                    assert(p.waiting[b].0 != p.waiting[a].0);
                }
            }
        }
        let range = Set::new(|x: int| p.reported <= x < p.dispatched && x != slot);
        assert(slots.to_set().subset_of(range)) by {
            assert forall|x: int| slots.to_set().contains(x) implies range.contains(x) by {
                let k = choose|k: int| 0 <= k < slots.len() && slots[k] == x;
                assert(p.waiting[k].0 == x);
            }
        }
        let full = vstd::set_lib::set_int_range(p.reported as int, p.dispatched as int);
        vstd::set_lib::lemma_int_range(p.reported as int, p.dispatched as int);
        assert(range =~= full.remove(slot as int));
        slots.unique_seq_to_set();
        vstd::set_lib::lemma_len_subset(slots.to_set(), range);
    }
}

/// The files among `files` that are stateless, or those that are not, in
/// their order.
pub open spec fn files_where(files: Seq<TestFileView>, stateless: bool) -> Seq<TestFileView>
    decreases files.len(),
{
    if files.len() == 0 {
        seq![]
    } else {
        let before = files_where(files.drop_last(), stateless);
        if files.last().stateless == stateless {
            before.push(files.last())
        } else {
            before
        }
    }
}

/// The number of tests in `files`.
pub open spec fn test_count(files: Seq<TestFileView>) -> nat
    decreases files.len(),
{
    if files.len() == 0 {
        0
    } else {
        test_count(files.drop_last()) + files.last().tests.len()
    }
}

/// Parts the files into the stateless ones and the others; each group
/// keeps the order of the source.
pub fn partition_files(files: Vec<TestFile>) -> (groups: (Vec<TestFile>, Vec<TestFile>))
    ensures
        files_view(groups.0@) == files_where(files_view(files@), true),
        files_view(groups.1@) == files_where(files_view(files@), false),
{
    let ghost fv = files_view(files@);
    let mut stateless: Vec<TestFile> = Vec::new();
    let mut stateful: Vec<TestFile> = Vec::new();
    assert(fv.take(0) =~= Seq::<TestFileView>::empty());
    assert(files_view(stateless@) =~= files_where(fv.take(0), true));
    assert(files_view(stateful@) =~= files_where(fv.take(0), false));
    for file in iter: files
        invariant
            fv == files_view(iter.seq()),
            files_view(stateless@) == files_where(fv.take(iter.index() as int), true),
            files_view(stateful@) == files_where(fv.take(iter.index() as int), false),
    {
        proof {
            let i = iter.index() as int;
            assert(fv.take(i + 1).drop_last() =~= fv.take(i));
            assert(fv.take(i + 1).last() == file@);
            assert(files_view(stateless@.push(file)) =~= files_view(stateless@).push(file@));
            assert(files_view(stateful@.push(file)) =~= files_view(stateful@).push(file@));
        }
        if file.stateless {
            stateless.push(file);
        } else {
            stateful.push(file);
        }
    }
    assert(fv.take(fv.len() as int) == fv);
    (stateless, stateful)
}

/// Counts the tests in `files`; the count stops at the largest `usize`.
pub fn count_tests(files: &Vec<TestFile>) -> (n: usize)
    ensures
        n == saturate(test_count(files_view(files@))),
{
    let ghost fv = files_view(files@);
    let mut n: usize = 0;
    let mut i: usize = 0;
    assert(fv.take(0) =~= Seq::<TestFileView>::empty());
    while i < files.len()
        invariant
            i <= files.len(),
            fv == files_view(files@),
            n == saturate(test_count(fv.take(i as int))),
        decreases files.len() - i,
    {
        proof {
            assert(fv.take(i + 1).drop_last() =~= fv.take(i as int));
            assert(fv.take(i + 1).last().tests.len() == files@[i as int].tests.len());
        }
        n = add_saturating(n, files[i].tests.len());
        i += 1;
    }
    assert(fv.take(files.len() as int) == fv);
    n
}

/// The line that tells how many tests are about to run.
pub open spec fn announcement(tests: nat) -> Seq<(Tone, Seq<char>)> {
    seq![(Tone::Plain, "running "@ + decimal(tests) + " tests\n"@)]
}

/// The lines that sum up a run of `tests` tests of which `failed` failed.
pub open spec fn summary(tests: nat, failed: nat) -> Seq<(Tone, Seq<char>)> {
    let passed: nat = if tests >= failed {
        (tests - failed) as nat
    } else {
        0
    };
    seq![
        (Tone::Plain, "\ntest result: "@),
        if failed == 0 {
            (Tone::Good, "ok"@)
        } else {
            (Tone::Bad, "FAILED"@)
        },
        (Tone::Plain, ". "@ + decimal(passed) + " passed; "@ + decimal(failed) + " failed\n"@),
        (Tone::Plain, "\n"@),
    ]
}

/// Renders the line that tells how many tests are about to run.
pub fn announce(tests: usize) -> (out: Vec<Segment>)
    ensures
        segments_view(out@) == announcement(tests as nat),
{
    let mut out: Vec<Segment> = Vec::new();
    let mut text: Vec<char> = Vec::new();
    push_text(&mut text, "running ");
    push_decimal(&mut text, tests);
    push_text(&mut text, " tests\n");
    assert(text@ =~= "running "@ + decimal(tests as nat) + " tests\n"@);
    assert(segments_view(out@) =~= Seq::<(Tone, Seq<char>)>::empty());
    push_segment(&mut out, Tone::Plain, &text);
    assert(segments_view(out@) =~= announcement(tests as nat));
    out
}

/// Renders the lines that sum up a run.
pub fn summarize(tests: usize, failed: usize) -> (out: Vec<Segment>)
    ensures
        segments_view(out@) == summary(tests as nat, failed as nat),
{
    let passed: usize = if tests >= failed {
        tests - failed
    } else {
        0
    };
    let mut out: Vec<Segment> = Vec::new();
    assert(segments_view(out@) =~= Seq::<(Tone, Seq<char>)>::empty());
    push_str_segment(&mut out, Tone::Plain, "\ntest result: ");
    if failed == 0 {
        push_str_segment(&mut out, Tone::Good, "ok");
    } else {
        push_str_segment(&mut out, Tone::Bad, "FAILED");
    }
    let mut text: Vec<char> = Vec::new();
    push_text(&mut text, ". ");
    push_decimal(&mut text, passed);
    push_text(&mut text, " passed; ");
    push_decimal(&mut text, failed);
    push_text(&mut text, " failed\n");
    assert(text@ =~= ". "@ + decimal(passed as nat) + " passed; "@ + decimal(failed as nat)
        + " failed\n"@);
    push_segment(&mut out, Tone::Plain, &text);
    push_str_segment(&mut out, Tone::Plain, "\n");
    assert(segments_view(out@) =~= summary(tests as nat, failed as nat));
    out
}

/// Whether a run with these failures is a success: it is one exactly when
/// there are none.
pub fn run_succeeded(stateless: &Vec<Failure>, stateful: &Vec<Failure>) -> (ok: bool)
    ensures
        ok == (stateless@.len() == 0 && stateful@.len() == 0),
{
    stateless.len() == 0 && stateful.len() == 0
}

/// The lines that open the list of failures.
pub open spec fn failures_title() -> Seq<(Tone, Seq<char>)> {
    seq![
        (Tone::Plain, "\n"@),
        (Tone::Heading, "Failures"@),
        (Tone::Plain, ":"@),
        (Tone::Plain, "\n"@),
    ]
}

/// The reports of the first `upto` of `failures`. A failure whose file is
/// not that of the failure before it is led by the heading of its file.
pub open spec fn failure_reports(failures: Seq<FailureView>, upto: int) -> Seq<(Tone, Seq<char>)>
    decreases upto,
{
    if upto <= 0 {
        seq![]
    } else {
        let f = failures[upto - 1];
        let previous = if upto == 1 {
            Seq::<char>::empty()
        } else {
            failures[upto - 2].file_name
        };
        let heading = if f.file_name != previous {
            file_heading(f.file_name)
        } else {
            seq![]
        };
        failure_reports(failures, upto - 1) + heading + report_view(f.info, f.test)
    }
}

/// What is shown of the failures of a run: nothing where there are none,
/// else a title and the report of each failure, grouped by file.
pub open spec fn failures_section(failures: Seq<FailureView>) -> Seq<(Tone, Seq<char>)> {
    if failures.len() == 0 {
        seq![]
    } else {
        failures_title() + failure_reports(failures, failures.len() as int)
    }
}

/// The failures of a run in the order of their report: those of the
/// stateless group first.
pub fn all_failures(stateless: Vec<Failure>, stateful: Vec<Failure>) -> (all: Vec<Failure>)
    ensures
        failures_view(all@) == failures_view(stateless@) + failures_view(stateful@),
{
    let mut all = stateless;
    let mut rest = stateful;
    assert(failures_view(all@ + rest@) =~= failures_view(all@) + failures_view(rest@));
    all.append(&mut rest);
    all
}

/// Renders the failures of a run.
pub fn report_failures(failures: &Vec<Failure>) -> (out: Vec<Segment>)
    ensures
        segments_view(out@) == failures_section(failures_view(failures@)),
{
    let ghost all = failures_view(failures@);
    let mut out: Vec<Segment> = Vec::new();
    assert(segments_view(out@) =~= Seq::<(Tone, Seq<char>)>::empty());
    if failures.len() == 0 {
        return out;
    }
    push_str_segment(&mut out, Tone::Plain, "\n");
    push_str_segment(&mut out, Tone::Heading, "Failures");
    push_str_segment(&mut out, Tone::Plain, ":");
    push_str_segment(&mut out, Tone::Plain, "\n");
    assert(segments_view(out@) =~= failures_title() + failure_reports(all, 0));
    let mut current: String = String::new();
    let mut i: usize = 0;
    while i < failures.len()
        invariant
            i <= failures.len(),
            all == failures_view(failures@),
            current@ == (if i == 0 {
                Seq::<char>::empty()
            } else {
                all[i - 1].file_name
            }),
            segments_view(out@) == failures_title() + failure_reports(all, i as int),
        decreases failures.len() - i,
    {
        let failure = &failures[i];
        assert(all[i as int] == failure@);
        if failure.file_name != current {
            push_file_heading(&mut out, failure.file_name.as_str());
            current = failure.file_name.clone();
        }
        let ghost headed = segments_view(out@);
        let mut report = failure.info.report(&failure.test);
        proof {
            assert(segments_view(out@ + report@) =~= headed + segments_view(report@));
            assert(headed + segments_view(report@) =~= failures_title() + failure_reports(
                all,
                i + 1,
            ));
        }
        out.append(&mut report);
        i += 1;
    }
    out
}

} // verus!
