//! Extraction, validation and scheduling rules for SQL examples that live
//! next to documentation and are run against a throwaway database engine.

use crate::test_parser::{
    extract_tests, extract_tests_from_string, first_orphan_output, try_extract_tests_from_string,
};
use crate::text::{
    advance_offset, byte_offset, chars_of, find_from, find_in, matches_at, starts_with,
    string_of_range,
};
use vstd::prelude::*;

pub mod colors;
pub mod db_output;
pub mod engine;
pub mod runner;
pub mod test_parser;
pub mod text;

verus! {

/// One executable unit: a query with the result table it is expected to give.
#[derive(Debug, PartialEq, Eq)]
#[must_use]
pub struct Test {
    /// The line on which the query block opens, counted from one.
    pub line: usize,
    /// The quoted texts of all enclosing headings, outermost first.
    pub header: String,
    /// The query text, handed to the engine as it stands.
    pub text: String,
    /// The expected rows; none means that no rows are expected.
    pub output: Vec<Vec<String>>,
    /// Whether the query runs in a transaction that is rolled back.
    pub transactional: bool,
    /// Whether the result is left unchecked.
    pub ignore_output: bool,
}

/// The tests of one source, in source order.
#[derive(Debug, PartialEq, Eq)]
#[must_use]
pub struct TestFile {
    /// The path or other name of the source.
    pub name: String,
    /// Whether every test of the file is transactional.
    pub stateless: bool,
    pub tests: Vec<Test>,
}

/// Why a source yields no tests.
#[derive(Debug, PartialEq, Eq, Clone, Copy)]
pub enum ExtractionError {
    /// The start marker at byte `start` has no end marker after it.
    MissingEndMarker { start: usize },
    /// The result block that opens on line `line` follows no query block.
    OutputWithoutQuery { line: usize },
}

/// What a `Test` holds, as mathematical values.
pub struct TestView {
    pub line: nat,
    pub header: Seq<char>,
    pub text: Seq<char>,
    pub output: Seq<Seq<Seq<char>>>,
    pub transactional: bool,
    pub ignore_output: bool,
}

/// What a `TestFile` holds, as mathematical values.
pub struct TestFileView {
    pub name: Seq<char>,
    pub stateless: bool,
    pub tests: Seq<TestView>,
}

/// The cells of a row as texts.
pub open spec fn row_view(row: Seq<String>) -> Seq<Seq<char>> {
    row.map_values(|c: String| c@)
}

/// The rows of a table as sequences of texts.
pub open spec fn table_view(table: Seq<Vec<String>>) -> Seq<Seq<Seq<char>>> {
    table.map_values(|r: Vec<String>| row_view(r@))
}

/// The views of the tests in `tests`.
pub open spec fn tests_view(tests: Seq<Test>) -> Seq<TestView> {
    tests.map_values(|t: Test| t@)
}

/// Whether every test in `tests` is transactional.
pub open spec fn all_transactional(tests: Seq<TestView>) -> bool {
    forall|i: int| 0 <= i < tests.len() ==> (#[trigger] tests[i]).transactional
}

impl View for Test {
    type V = TestView;

    open spec fn view(&self) -> TestView {
        TestView {
            line: self.line as nat,
            header: self.header@,
            text: self.text@,
            output: table_view(self.output@),
            transactional: self.transactional,
            ignore_output: self.ignore_output,
        }
    }
}

impl View for TestFile {
    type V = TestFileView;

    open spec fn view(&self) -> TestFileView {
        TestFileView { name: self.name@, stateless: self.stateless, tests: tests_view(self.tests@) }
    }
}

/// Copies a row cell by cell.
pub fn copy_row(row: &Vec<String>) -> (r: Vec<String>)
    ensures
        row_view(r@) == row_view(row@),
{
    let mut r: Vec<String> = Vec::new();
    let mut i: usize = 0;
    while i < row.len()
        invariant
            i <= row.len(),
            r.len() == i,
            forall|k: int| 0 <= k < i ==> (#[trigger] r@[k])@ == row@[k]@,
        decreases row.len() - i,
    {
        r.push(row[i].clone());
        i += 1;
    }
    assert(row_view(r@) =~= row_view(row@));
    r
}

/// Copies a table row by row.
pub fn copy_table(table: &Vec<Vec<String>>) -> (r: Vec<Vec<String>>)
    ensures
        table_view(r@) == table_view(table@),
{
    let mut r: Vec<Vec<String>> = Vec::new();
    let mut i: usize = 0;
    while i < table.len()
        invariant
            i <= table.len(),
            r.len() == i,
            forall|k: int| 0 <= k < i ==> row_view((#[trigger] r@[k])@) == row_view(table@[k]@),
        decreases table.len() - i,
    {
        r.push(copy_row(&table[i]));
        i += 1;
    }
    assert(table_view(r@) =~= table_view(table@));
    r
}

impl Test {
    /// A test that holds the same values.
    pub fn copy(&self) -> (t: Test)
        ensures
            t@ == self@,
    {
        Test {
            line: self.line,
            header: self.header.clone(),
            text: self.text.clone(),
            output: copy_table(&self.output),
            transactional: self.transactional,
            ignore_output: self.ignore_output,
        }
    }
}

impl TestFile {
    /// A file is stateless exactly when all of its tests are transactional.
    pub open spec fn wf(&self) -> bool {
        self.stateless == all_transactional(self@.tests)
    }
}

/// An `ExtractionError` as mathematical values.
pub enum ExtractionErrorView {
    MissingEndMarker { start: nat },
    OutputWithoutQuery { line: nat },
}

impl View for ExtractionError {
    type V = ExtractionErrorView;

    open spec fn view(&self) -> ExtractionErrorView {
        match self {
            ExtractionError::MissingEndMarker { start } => ExtractionErrorView::MissingEndMarker {
                start: *start as nat,
            },
            ExtractionError::OutputWithoutQuery { line } => {
                ExtractionErrorView::OutputWithoutQuery { line: *line as nat }
            },
        }
    }
}

/// The blocks in `blocks` as pairs of a byte offset and a text.
pub open spec fn blocks_view(blocks: Seq<(usize, String)>) -> Seq<(nat, Seq<char>)> {
    blocks.map_values(|b: (usize, String)| (b.0 as nat, b.1@))
}

/// `rest` with `done` in front of its blocks; an error stays as it is.
pub open spec fn prefixed<A, E>(done: Seq<A>, rest: Result<Seq<A>, E>) -> Result<Seq<A>, E> {
    match rest {
        Ok(more) => Ok(done + more),
        Err(e) => Err(e),
    }
}

/// The marked blocks of `file` whose start marker begins at or after the
/// character `from`. A start marker is looked for from left to right, and
/// the next one only behind the one before it. A block is the text between
/// a start marker and the nearest end marker that follows it, and comes with
/// the byte offset of its start marker. The first start marker that no end
/// marker follows gives an error with its byte offset.
pub open spec fn marked_blocks_from(
    file: Seq<char>,
    start_marker: Seq<char>,
    end_marker: Seq<char>,
    from: int,
) -> Result<Seq<(nat, Seq<char>)>, nat>
    decreases
            (if from <= file.len() {
                file.len() + 1 - from
            } else {
                0
            }),
{
    if from < 0 || from + start_marker.len() > file.len() {
        Ok(seq![])
    } else if start_marker.len() > 0 && !starts_with(file.skip(from), start_marker) {
        marked_blocks_from(file, start_marker, end_marker, from + 1)
    } else {
        let body = from + start_marker.len();
        let next = if start_marker.len() == 0 {
            from + 1
        } else {
            body
        };
        match find_from(file, end_marker, body) {
            None => Err(byte_offset(file, from)),
            Some(end) => prefixed(
                seq![(byte_offset(file, from), file.subrange(body, end))],
                marked_blocks_from(file, start_marker, end_marker, next),
            ),
        }
    }
}

/// All marked blocks of `file`, in source order.
pub open spec fn marked_blocks(file: Seq<char>, start_marker: Seq<char>, end_marker: Seq<char>)
    -> Result<Seq<(nat, Seq<char>)>, nat> {
    marked_blocks_from(file, start_marker, end_marker, 0)
}

/// The tests of `blocks`, block after block. The first block in which a
/// result block follows no query block gives an error with that line.
pub open spec fn tests_of_blocks(blocks: Seq<(nat, Seq<char>)>) -> Result<Seq<TestView>, nat>
    decreases blocks.len(),
{
    if blocks.len() == 0 {
        Ok(seq![])
    } else {
        match first_orphan_output(blocks[0].1) {
            Some(line) => Err(line),
            None => prefixed(extract_tests(blocks[0].1), tests_of_blocks(blocks.skip(1))),
        }
    }
}

/// What the marked blocks of `contents` yield: the tests of all blocks, or
/// the first error.
pub open spec fn marked_tests(
    contents: Seq<char>,
    start_marker: Seq<char>,
    end_marker: Seq<char>,
) -> Result<Seq<TestView>, ExtractionErrorView> {
    match marked_blocks(contents, start_marker, end_marker) {
        Err(start) => Err(ExtractionErrorView::MissingEndMarker { start }),
        Ok(blocks) => match tests_of_blocks(blocks) {
            Err(line) => Err(ExtractionErrorView::OutputWithoutQuery { line }),
            Ok(tests) => Ok(tests),
        },
    }
}

/// Finds the blocks of `file` that stand between `start_marker` and the
/// nearest `end_marker` after it, each with the byte offset of its start
/// marker.
pub fn find_marked_tests_blocks(file: &str, start_marker: &str, end_marker: &str) -> (r: Result<
    Vec<(usize, String)>,
    ExtractionError,
>)
    ensures
        match r {
            Ok(blocks) => marked_blocks(file@, start_marker@, end_marker@) == Ok::<
                Seq<(nat, Seq<char>)>,
                nat,
            >(blocks_view(blocks@)),
            Err(e) => e matches ExtractionError::MissingEndMarker { start } && marked_blocks(
                file@,
                start_marker@,
                end_marker@,
            ) == Err::<Seq<(nat, Seq<char>)>, nat>(start as nat),
        },
{
    let f = chars_of(file);
    let sm = chars_of(start_marker);
    let em = chars_of(end_marker);
    let mut blocks: Vec<(usize, String)> = Vec::new();
    let mut from: usize = 0;
    let mut offset: usize = 0;
    proof {
        assert(f@.take(0) =~= Seq::<char>::empty());
        assert(blocks_view(blocks@) =~= Seq::<(nat, Seq<char>)>::empty());
        let whole = marked_blocks(f@, sm@, em@);
        match whole {
            Ok(more) => {
                assert(Seq::<(nat, Seq<char>)>::empty() + more =~= more);
            },
            Err(_) => {},
        }
    }
    loop
        invariant
            f@ == file@,
            sm@ == start_marker@,
            em@ == end_marker@,
            from <= f.len(),
            offset == byte_offset(f@, from as int),
            marked_blocks(f@, sm@, em@) == prefixed(
                blocks_view(blocks@),
                marked_blocks_from(f@, sm@, em@, from as int),
            ),
        decreases f.len() - from,
    {
        if sm.len() > f.len() - from {
            proof {
                assert(blocks_view(blocks@) + Seq::<(nat, Seq<char>)>::empty() =~= blocks_view(
                    blocks@,
                ));
            }
            return Ok(blocks);
        }
        let found = sm.len() == 0 || matches_at(&f, from, &sm);
        let mut step: usize = 1;
        let ghost done = blocks_view(blocks@);
        if found {
            match find_in(&f, &em, from + sm.len()) {
                None => {
                    return Err(ExtractionError::MissingEndMarker { start: offset });
                },
                Some(end) => {
                    let text = string_of_range(&f, from + sm.len(), end);
                    let ghost block = (offset as nat, text@);
                    proof {
                        assert(blocks_view(blocks@.push((offset, text))) =~= done.push(block));
                        let next = if sm.len() == 0 {
                            from + 1
                        } else {
                            from + sm.len()
                        };
                        match marked_blocks_from(f@, sm@, em@, next) {
                            Ok(more) => {
                                assert(done + (seq![block] + more) =~= done.push(block) + more);
                            },
                            Err(_) => {},
                        }
                    }
                    blocks.push((offset, text));
                    if sm.len() > 0 {
                        step = sm.len();
                    }
                },
            }
        }
        if step > f.len() - from {
            proof {
                assert(blocks_view(blocks@) + Seq::<(nat, Seq<char>)>::empty() =~= blocks_view(
                    blocks@,
                ));
            }
            return Ok(blocks);
        }
        offset = advance_offset(&f, offset, from, from + step);
        from += step;
    }
}

/// Decides whether every test in `tests` is transactional.
fn all_tests_transactional(tests: &Vec<Test>) -> (b: bool)
    ensures
        b == all_transactional(tests_view(tests@)),
{
    let mut i: usize = 0;
    while i < tests.len()
        invariant
            i <= tests.len(),
            forall|k: int| 0 <= k < i ==> (#[trigger] tests_view(tests@)[k]).transactional,
        decreases tests.len() - i,
    {
        if !tests[i].transactional {
            assert(!tests_view(tests@)[i as int].transactional);
            return false;
        }
        i += 1;
    }
    true
}

/// Takes the whole of `contents` as one block of tests.
pub fn extract_all_tests_from_file(path: &str, contents: &str) -> (r: Result<
    TestFile,
    ExtractionError,
>)
    ensures
        r matches Ok(file) && file.wf() && file@.name == path@ && file@.tests == extract_tests(
            contents@,
        ),
{
    let tests = extract_tests_from_string(contents);
    let stateless = all_tests_transactional(&tests);
    Ok(TestFile { name: path.to_owned(), stateless, tests })
}

/// Takes the tests from the marked blocks of `contents`. A start marker
/// without an end marker, and a result block without a query block before
/// it, are errors.
pub fn extract_marked_tests_from_file(
    path: &str,
    contents: &str,
    start_marker: &str,
    end_marker: &str,
) -> (r: Result<TestFile, ExtractionError>)
    ensures
        match r {
            Ok(file) => file.wf() && file@.name == path@ && marked_tests(
                contents@,
                start_marker@,
                end_marker@,
            ) == Ok::<Seq<TestView>, ExtractionErrorView>(file@.tests),
            Err(e) => marked_tests(contents@, start_marker@, end_marker@) == Err::<
                Seq<TestView>,
                ExtractionErrorView,
            >(e@),
        },
{
    let mut tests: Vec<Test> = Vec::new();
    let blocks = match find_marked_tests_blocks(contents, start_marker, end_marker) {
        Ok(blocks) => blocks,
        Err(e) => {
            return Err(e);
        },
    };
    let ghost all = blocks_view(blocks@);
    let mut i: usize = 0;
    proof {
        assert(all.skip(0) =~= all);
        assert(tests_view(tests@) =~= Seq::<TestView>::empty());
        match tests_of_blocks(all) {
            Ok(more) => {
                assert(Seq::<TestView>::empty() + more =~= more);
            },
            Err(_) => {},
        }
    }
    while i < blocks.len()
        invariant
            i <= blocks.len(),
            all == blocks_view(blocks@),
            marked_blocks(contents@, start_marker@, end_marker@) == Ok::<
                Seq<(nat, Seq<char>)>,
                nat,
            >(all),
            tests_of_blocks(all) == prefixed(
                tests_view(tests@),
                tests_of_blocks(all.skip(i as int)),
            ),
        decreases blocks.len() - i,
    {
        let ghost done = tests_view(tests@);
        let ghost rest = all.skip(i as int);
        proof {
            assert(rest[0] == all[i as int]);
            assert(all[i as int].1 == blocks@[i as int].1@);
            assert(rest.skip(1) =~= all.skip(i + 1));
        }
        let mut found = match try_extract_tests_from_string(blocks[i].1.as_str()) {
            Ok(found) => found,
            Err(e) => {
                return Err(e);
            },
        };
        proof {
            let more = tests_view(found@);
            assert(tests_view(tests@ + found@) =~= done + more);
            match tests_of_blocks(all.skip(i + 1)) {
                Ok(last) => {
                    assert(done + (more + last) =~= (done + more) + last);
                },
                Err(_) => {},
            }
        }
        tests.append(&mut found);
        i += 1;
    }
    proof {
        assert(tests_view(tests@) + Seq::<TestView>::empty() =~= tests_view(tests@));
    }
    let stateless = all_tests_transactional(&tests);
    Ok(TestFile { name: path.to_owned(), stateless, tests })
}

/// How the tests lie in a file.
#[derive(Debug, PartialEq, Eq, Clone, Copy)]
pub enum SourceKind {
    /// Documentation: the whole file is one block of tests.
    Documentation,
    /// Source code: the tests stand in marked blocks.
    Code,
}

/// The kind of a file with the extension `extension`, where the extension
/// is one that is looked at when a directory is walked.
pub open spec fn kind_of_extension(extension: Seq<char>) -> Option<SourceKind> {
    if extension == "md"@ {
        Some(SourceKind::Documentation)
    } else if extension == "rs"@ || extension == "h"@ || extension == "c"@ {
        Some(SourceKind::Code)
    } else {
        None
    }
}

/// What a file of `kind` yields.
pub open spec fn tests_of_source(
    kind: SourceKind,
    contents: Seq<char>,
    start_marker: Seq<char>,
    end_marker: Seq<char>,
) -> Result<Seq<TestView>, ExtractionErrorView> {
    match kind {
        SourceKind::Documentation => Ok(extract_tests(contents)),
        SourceKind::Code => marked_tests(contents, start_marker, end_marker),
    }
}

/// Decides whether two texts are the same.
fn same_text(a: &str, b: &str) -> (r: bool)
    ensures
        r == (a@ == b@),
{
    let x = chars_of(a);
    let y = chars_of(b);
    if x.len() != y.len() {
        return false;
    }
    let mut i: usize = 0;
    while i < x.len()
        invariant
            x@ == a@,
            y@ == b@,
            x.len() == y.len(),
            i <= x.len(),
            forall|k: int| 0 <= k < i ==> x@[k] == y@[k],
        decreases x.len() - i,
    {
        if x[i] != y[i] {
            return false;
        }
        i += 1;
    }
    assert(x@ =~= y@);
    true
}

/// Tells by its extension how the tests lie in a file; an extension that
/// is not looked at gives nothing.
pub fn source_kind(extension: &str) -> (kind: Option<SourceKind>)
    ensures
        kind == kind_of_extension(extension@),
{
    if same_text(extension, "md") {
        Some(SourceKind::Documentation)
    } else if same_text(extension, "rs") || same_text(extension, "h") || same_text(extension, "c") {
        Some(SourceKind::Code)
    } else {
        None
    }
}

/// The kind as which a file that is met while a directory is walked is
/// read. A file with an extension that is looked at is read as its
/// extension tells. Any other file is read only if it is the path that was
/// named outright, and then as source code.
pub open spec fn kind_of_walked(extension: Option<Seq<char>>, named: bool) -> Option<SourceKind> {
    let by_extension = match extension {
        Some(e) => kind_of_extension(e),
        None => None,
    };
    if by_extension is Some {
        by_extension
    } else if named {
        Some(SourceKind::Code)
    } else {
        None
    }
}

/// Tells whether and how a file that is met while a directory is walked is
/// read; `named` says that the file is the path that was named outright.
pub fn kind_of_file(extension: Option<&str>, named: bool) -> (kind: Option<SourceKind>)
    ensures
        kind == kind_of_walked(
            match extension {
                Some(e) => Some(e@),
                None => None,
            },
            named,
        ),
{
    let by_extension = match extension {
        Some(e) => source_kind(e),
        None => None,
    };
    if by_extension.is_some() {
        by_extension
    } else if named {
        Some(SourceKind::Code)
    } else {
        None
    }
}

/// Tells how a file that was named outright is read: as its extension
/// tells, and as source code where the extension tells nothing.
pub fn kind_of_named(extension: Option<&str>) -> (kind: SourceKind)
    ensures
        kind == match extension {
            Some(e) => match kind_of_extension(e@) {
                Some(k) => k,
                None => SourceKind::Code,
            },
            None => SourceKind::Code,
        },
{
    match kind_of_file(extension, true) {
        Some(kind) => kind,
        None => SourceKind::Code,
    }
}

/// Takes the tests from a file of `kind`.
pub fn extract_tests_from_source(
    kind: SourceKind,
    path: &str,
    contents: &str,
    start_marker: &str,
    end_marker: &str,
) -> (r: Result<TestFile, ExtractionError>)
    ensures
        match r {
            Ok(file) => file.wf() && file@.name == path@ && tests_of_source(
                kind,
                contents@,
                start_marker@,
                end_marker@,
            ) == Ok::<Seq<TestView>, ExtractionErrorView>(file@.tests),
            Err(e) => tests_of_source(kind, contents@, start_marker@, end_marker@) == Err::<
                Seq<TestView>,
                ExtractionErrorView,
            >(e@),
        },
{
    match kind {
        SourceKind::Documentation => extract_all_tests_from_file(path, contents),
        SourceKind::Code => extract_marked_tests_from_file(
            path,
            contents,
            start_marker,
            end_marker,
        ),
    }
}

/// The values of the first `upto` of `results` that are no errors, in
/// their order.
pub open spec fn values_of<T, E>(results: Seq<Result<T, E>>, upto: int) -> Seq<T>
    decreases upto,
{
    if upto <= 0 {
        seq![]
    } else {
        let before = values_of(results, upto - 1);
        match results[upto - 1] {
            Ok(v) => before.push(v),
            Err(_) => before,
        }
    }
}

/// The errors among the first `upto` of `results`, in their order.
pub open spec fn errors_of<T, E>(results: Seq<Result<T, E>>, upto: int) -> Seq<E>
    decreases upto,
{
    if upto <= 0 {
        seq![]
    } else {
        let before = errors_of(results, upto - 1);
        match results[upto - 1] {
            Ok(_) => before,
            Err(e) => before.push(e),
        }
    }
}

/// Gathers what the sources of a run gave. One error is enough for the run
/// not to start: then all errors are handed back together, in the order of
/// the sources. Without an error all values are handed back, in that order.
pub fn gather<T, E>(results: Vec<Result<T, E>>) -> (r: Result<Vec<T>, Vec<E>>)
    ensures
        match r {
            Ok(values) => errors_of(results@, results.len() as int).len() == 0 && values@
                == values_of(results@, results.len() as int),
            Err(errors) => errors.len() > 0 && errors@ == errors_of(
                results@,
                results.len() as int,
            ),
        },
{
    let mut values: Vec<T> = Vec::new();
    let mut errors: Vec<E> = Vec::new();
    let ghost all = results@;
    for result in iter: results
        invariant
            all == iter.seq(),
            values@ == values_of(all, iter.index() as int),
            errors@ == errors_of(all, iter.index() as int),
    {
        match result {
            Ok(v) => values.push(v),
            Err(e) => errors.push(e),
        }
    }
    if errors.len() == 0 {
        Ok(values)
    } else {
        Err(errors)
    }
}

} // verus!
