//! Validation of a query's result against the expected table, and the
//! rendering of a failure for a human reader.

use crate::text::{advance_offset, chars_of, saturate, string_of, utf8_len};
use crate::{row_view, table_view, Test, TestView};
use vstd::prelude::*;

verus! {

/// One message of the engine's answer to a query.
#[derive(Debug, PartialEq, Eq)]
pub enum QueryMessage {
    /// A row of data; a cell without a value is `None`.
    Row(Vec<Option<String>>),
    /// A statement of the query has completed, with this many rows.
    CommandComplete(u64),
}

/// Why a test failed.
#[derive(Debug, PartialEq, Eq)]
pub enum FailureInfo {
    /// The engine refused the query; the text is its message.
    QueryError(String),
    WrongNumberOfRows { received: Vec<Vec<String>>, expected: usize, found: usize },
    MismatchedValues(Vec<Vec<String>>),
}

/// The outcome of one test.
#[derive(Debug, PartialEq, Eq)]
pub enum TestResult {
    Passed,
    Failed(FailureInfo),
}

/// A `QueryMessage` as mathematical values.
pub enum QueryMessageView {
    Row(Seq<Option<Seq<char>>>),
    CommandComplete(nat),
}

/// A `FailureInfo` as mathematical values.
pub enum FailureInfoView {
    QueryError(Seq<char>),
    WrongNumberOfRows { received: Seq<Seq<Seq<char>>>, expected: nat, found: nat },
    MismatchedValues(Seq<Seq<Seq<char>>>),
}

/// A `TestResult` as mathematical values.
pub enum TestResultView {
    Passed,
    Failed(FailureInfoView),
}

/// The cells of a row of the engine, each as a text or as nothing.
pub open spec fn cells_view(cells: Seq<Option<String>>) -> Seq<Option<Seq<char>>> {
    cells.map_values(
        |c: Option<String>|
            match c {
                Some(s) => Some(s@),
                None => None,
            },
    )
}

impl View for QueryMessage {
    type V = QueryMessageView;

    open spec fn view(&self) -> QueryMessageView {
        match self {
            QueryMessage::Row(cells) => QueryMessageView::Row(cells_view(cells@)),
            QueryMessage::CommandComplete(n) => QueryMessageView::CommandComplete(*n as nat),
        }
    }
}

impl View for FailureInfo {
    type V = FailureInfoView;

    open spec fn view(&self) -> FailureInfoView {
        match self {
            FailureInfo::QueryError(message) => FailureInfoView::QueryError(message@),
            FailureInfo::WrongNumberOfRows { received, expected, found } => {
                FailureInfoView::WrongNumberOfRows {
                    received: table_view(received@),
                    expected: *expected as nat,
                    found: *found as nat,
                }
            },
            FailureInfo::MismatchedValues(received) => FailureInfoView::MismatchedValues(
                table_view(received@),
            ),
        }
    }
}

impl View for TestResult {
    type V = TestResultView;

    open spec fn view(&self) -> TestResultView {
        match self {
            TestResult::Passed => TestResultView::Passed,
            TestResult::Failed(info) => TestResultView::Failed(info@),
        }
    }
}

/// The messages in `messages` as mathematical values.
pub open spec fn messages_view(messages: Seq<QueryMessage>) -> Seq<QueryMessageView> {
    messages.map_values(|m: QueryMessage| m@)
}

/// The text of a cell; a cell without a value is the empty text.
pub open spec fn cell_text(cell: Option<Seq<char>>) -> Seq<char> {
    match cell {
        Some(s) => s,
        None => seq![],
    }
}

/// The rows that `messages` hold before the first statement completes.
pub open spec fn received_rows(messages: Seq<QueryMessageView>) -> Seq<Seq<Seq<char>>>
    decreases messages.len(),
{
    if messages.len() == 0 {
        seq![]
    } else {
        match messages[0] {
            QueryMessageView::Row(cells) => seq![
                cells.map_values(|c: Option<Seq<char>>| cell_text(c)),
            ] + received_rows(messages.skip(1)),
            QueryMessageView::CommandComplete(_) => seq![],
        }
    }
}

/// The outcome of comparing the rows `received` with what `test` expects.
/// Cells are compared as texts, never as numbers.
pub open spec fn validate(received: Seq<Seq<Seq<char>>>, test: TestView) -> TestResultView {
    if test.ignore_output {
        TestResultView::Passed
    } else if test.output.len() != received.len() {
        TestResultView::Failed(
            FailureInfoView::WrongNumberOfRows {
                received,
                expected: test.output.len(),
                found: received.len(),
            },
        )
    } else if test.output != received {
        TestResultView::Failed(FailureInfoView::MismatchedValues(received))
    } else {
        TestResultView::Passed
    }
}

/// Decides whether two rows hold the same texts.
fn rows_equal(a: &Vec<String>, b: &Vec<String>) -> (r: bool)
    ensures
        r == (row_view(a@) == row_view(b@)),
{
    if a.len() != b.len() {
        assert(row_view(a@).len() != row_view(b@).len());
        return false;
    }
    let mut i: usize = 0;
    while i < a.len()
        invariant
            a.len() == b.len(),
            i <= a.len(),
            forall|k: int| 0 <= k < i ==> row_view(a@)[k] == row_view(b@)[k],
        decreases a.len() - i,
    {
        if a[i] != b[i] {
            assert(row_view(a@)[i as int] != row_view(b@)[i as int]);
            return false;
        }
        i += 1;
    }
    assert(row_view(a@) =~= row_view(b@));
    true
}

/// Decides whether two tables hold the same rows.
fn tables_equal(a: &Vec<Vec<String>>, b: &Vec<Vec<String>>) -> (r: bool)
    ensures
        r == (table_view(a@) == table_view(b@)),
{
    if a.len() != b.len() {
        assert(table_view(a@).len() != table_view(b@).len());
        return false;
    }
    let mut i: usize = 0;
    while i < a.len()
        invariant
            a.len() == b.len(),
            i <= a.len(),
            forall|k: int| 0 <= k < i ==> table_view(a@)[k] == table_view(b@)[k],
        decreases a.len() - i,
    {
        if !rows_equal(&a[i], &b[i]) {
            assert(table_view(a@)[i as int] != table_view(b@)[i as int]);
            return false;
        }
        i += 1;
    }
    assert(table_view(a@) =~= table_view(b@));
    true
}

/// Compares the rows `received` with what `test` expects.
pub fn validate_rows(received: Vec<Vec<String>>, test: &Test) -> (r: TestResult)
    ensures
        r@ == validate(table_view(received@), test@),
{
    if test.ignore_output {
        return TestResult::Passed;
    }
    if test.output.len() != received.len() {
        return TestResult::Failed(
            FailureInfo::WrongNumberOfRows {
                expected: test.output.len(),
                found: received.len(),
                received,
            },
        );
    }
    if !tables_equal(&test.output, &received) {
        return TestResult::Failed(FailureInfo::MismatchedValues(received));
    }
    TestResult::Passed
}

/// Collects the rows of the engine's answer; a cell without a value becomes
/// the empty text.
pub fn collect_rows(output: &Vec<QueryMessage>) -> (received: Vec<Vec<String>>)
    ensures
        table_view(received@) == received_rows(messages_view(output@)),
{
    let mut received: Vec<Vec<String>> = Vec::new();
    let ghost all = messages_view(output@);
    let mut i: usize = 0;
    proof {
        assert(all.skip(0) =~= all);
        assert(table_view(received@) + received_rows(all) =~= received_rows(all));
    }
    while i < output.len()
        invariant
            i <= output.len(),
            all == messages_view(output@),
            received_rows(all) == table_view(received@) + received_rows(all.skip(i as int)),
        decreases output.len() - i,
    {
        let ghost rest = all.skip(i as int);
        proof {
            assert(rest[0] == output@[i as int]@);
            assert(rest.skip(1) =~= all.skip(i + 1));
        }
        match &output[i] {
            QueryMessage::Row(cells) => {
                let mut row: Vec<String> = Vec::new();
                let mut j: usize = 0;
                while j < cells.len()
                    invariant
                        j <= cells.len(),
                        row.len() == j,
                        forall|k: int|
                            0 <= k < j ==> (#[trigger] row@[k])@ == cell_text(
                                cells_view(cells@)[k],
                            ),
                    decreases cells.len() - j,
                {
                    let text = match &cells[j] {
                        Some(s) => s.clone(),
                        None => String::new(),
                    };
                    row.push(text);
                    j += 1;
                }
                proof {
                    let expected = cells_view(cells@).map_values(
                        |c: Option<Seq<char>>| cell_text(c),
                    );
                    assert(row_view(row@) =~= expected);
                    let done = table_view(received@);
                    assert(table_view(received@.push(row)) =~= done.push(expected));
                    assert(done + (seq![expected] + received_rows(all.skip(i + 1))) =~= done.push(
                        expected,
                    ) + received_rows(all.skip(i + 1)));
                }
                received.push(row);
            },
            QueryMessage::CommandComplete(_) => {
                proof {
                    assert(table_view(received@) + Seq::<Seq<Seq<char>>>::empty() =~= table_view(
                        received@,
                    ));
                }
                return received;
            },
        }
        i += 1;
    }
    proof {
        assert(table_view(received@) + Seq::<Seq<Seq<char>>>::empty() =~= table_view(received@));
    }
    received
}

/// Compares the engine's answer `output` with what `test` expects.
pub fn validate_output(output: Vec<QueryMessage>, test: &Test) -> (r: TestResult)
    ensures
        r@ == validate(received_rows(messages_view(output@)), test@),
{
    validate_messages(&output, test)
}

/// Compares the engine's answer `output`, which the caller keeps, with what
/// `test` expects.
pub fn validate_messages(output: &Vec<QueryMessage>, test: &Test) -> (r: TestResult)
    ensures
        r@ == validate(received_rows(messages_view(output@)), test@),
{
    if test.ignore_output {
        return TestResult::Passed;
    }
    let received = collect_rows(output);
    validate_rows(received, test)
}

/// The number of bytes that `s` takes in UTF-8, saturated.
pub open spec fn byte_len(s: Seq<char>) -> nat {
    saturate(utf8_len(s))
}

/// `n` spaces.
pub open spec fn spaces(n: nat) -> Seq<char> {
    Seq::new(n, |i: int| ' ')
}

/// `a - b`, or zero where `b` is the larger.
pub open spec fn minus(a: nat, b: nat) -> nat {
    if a >= b {
        (a - b) as nat
    } else {
        0
    }
}

/// `s`, with spaces in front of it until it has `width` characters.
pub open spec fn pad_left(s: Seq<char>, width: nat) -> Seq<char> {
    spaces(minus(width, s.len())) + s
}

/// What stands between two cells of a row.
pub open spec fn cell_separator() -> Seq<char> {
    seq![' ', '|', ' ']
}

/// The number of cells of the longest row of `table`.
pub open spec fn column_count(table: Seq<Seq<Seq<char>>>) -> nat
    decreases table.len(),
{
    if table.len() == 0 {
        0
    } else {
        let n = column_count(table.drop_last());
        if table.last().len() > n {
            table.last().len()
        } else {
            n
        }
    }
}

/// The width of column `j` of `table`: the largest byte length of a cell
/// in it.
pub open spec fn column_width(table: Seq<Seq<Seq<char>>>, j: int) -> nat
    decreases table.len(),
{
    if table.len() == 0 {
        0
    } else {
        let w = column_width(table.drop_last(), j);
        let row = table.last();
        if 0 <= j < row.len() && byte_len(row[j]) > w {
            byte_len(row[j])
        } else {
            w
        }
    }
}

/// The first `upto` cells of `row`, each aligned to the right in its column
/// of `table`, with a separator between neighbours.
pub open spec fn aligned_cells(row: Seq<Seq<char>>, table: Seq<Seq<Seq<char>>>, upto: int) -> Seq<
    char,
>
    decreases upto,
{
    if upto <= 0 {
        seq![]
    } else {
        let before = aligned_cells(row, table, upto - 1);
        let cell = pad_left(row[upto - 1], column_width(table, upto - 1));
        if upto == 1 {
            before + cell
        } else {
            before + cell_separator() + cell
        }
    }
}

/// The first `upto` rows of `table`, one line each.
pub open spec fn aligned_rows(table: Seq<Seq<Seq<char>>>, upto: int) -> Seq<char>
    decreases upto,
{
    if upto <= 0 {
        seq![]
    } else {
        let row = table[upto - 1];
        aligned_rows(table, upto - 1) + aligned_cells(row, table, row.len() as int).push('\n')
    }
}

/// `table` as aligned text; a table without rows is a dash line.
pub open spec fn stringify(table: Seq<Seq<Seq<char>>>) -> Seq<char> {
    if table.len() == 0 {
        seq!['-', '-', '-']
    } else {
        aligned_rows(table, table.len() as int)
    }
}

/// Counts the bytes that `s` takes in UTF-8.
fn byte_len_of(s: &str) -> (n: usize)
    ensures
        n == byte_len(s@),
{
    let chars = chars_of(s);
    assert(chars@.take(0) =~= Seq::<char>::empty());
    assert(chars@.take(chars.len() as int) == chars@);
    advance_offset(&chars, 0, 0, chars.len())
}

/// Appends `n` spaces to `out`.
fn push_spaces(out: &mut Vec<char>, n: usize)
    ensures
        final(out)@ == old(out)@ + spaces(n as nat),
{
    let mut i: usize = 0;
    assert(out@ =~= old(out)@ + spaces(0));
    while i < n
        invariant
            i <= n,
            out@ == old(out)@ + spaces(i as nat),
        decreases n - i,
    {
        out.push(' ');
        assert(out@ =~= old(out)@ + spaces((i + 1) as nat));
        i += 1;
    }
}

/// Appends the characters of `s` to `out`.
pub(crate) fn push_text(out: &mut Vec<char>, s: &str)
    ensures
        final(out)@ == old(out)@ + s@,
{
    let chars = chars_of(s);
    let mut i: usize = 0;
    assert(out@ =~= old(out)@ + chars@.take(0));
    while i < chars.len()
        invariant
            i <= chars.len(),
            chars@ == s@,
            out@ == old(out)@ + chars@.take(i as int),
        decreases chars.len() - i,
    {
        out.push(chars[i]);
        assert(out@ =~= old(out)@ + chars@.take(i + 1));
        i += 1;
    }
    assert(chars@.take(chars.len() as int) == chars@);
}

/// Appends the separator of two cells to `out`.
fn push_separator(out: &mut Vec<char>)
    ensures
        final(out)@ == old(out)@ + cell_separator(),
{
    out.push(' ');
    out.push('|');
    out.push(' ');
    assert(out@ =~= old(out)@ + cell_separator());
}

/// Counts the cells of the longest row.
fn count_columns(table: &[Vec<String>]) -> (n: usize)
    ensures
        n == column_count(table_view(table@)),
{
    let ghost tv = table_view(table@);
    let mut n: usize = 0;
    let mut i: usize = 0;
    assert(tv.take(0) =~= Seq::<Seq<Seq<char>>>::empty());
    while i < table.len()
        invariant
            i <= table.len(),
            tv == table_view(table@),
            n == column_count(tv.take(i as int)),
        decreases table.len() - i,
    {
        proof {
            assert(tv.take(i + 1).drop_last() =~= tv.take(i as int));
            assert(tv.take(i + 1).last().len() == table@[i as int].len());
        }
        if table[i].len() > n {
            n = table[i].len();
        }
        i += 1;
    }
    assert(tv.take(table.len() as int) == tv);
    n
}

/// Measures column `j`.
fn measure_column(table: &[Vec<String>], j: usize) -> (w: usize)
    ensures
        w == column_width(table_view(table@), j as int),
{
    let ghost tv = table_view(table@);
    let mut w: usize = 0;
    let mut i: usize = 0;
    assert(tv.take(0) =~= Seq::<Seq<Seq<char>>>::empty());
    while i < table.len()
        invariant
            i <= table.len(),
            tv == table_view(table@),
            w == column_width(tv.take(i as int), j as int),
        decreases table.len() - i,
    {
        proof {
            assert(tv.take(i + 1).drop_last() =~= tv.take(i as int));
            assert(tv.take(i + 1).last() == row_view(table@[i as int]@));
        }
        if j < table[i].len() {
            let n = byte_len_of(table[i][j].as_str());
            if n > w {
                w = n;
            }
        }
        i += 1;
    }
    assert(tv.take(table.len() as int) == tv);
    w
}

/// No row has more cells than the longest row.
pub proof fn lemma_column_count_bounds(table: Seq<Seq<Seq<char>>>, i: int)
    requires
        0 <= i < table.len(),
    ensures
        table[i].len() <= column_count(table),
    decreases table.len(),
{
    if i < table.len() - 1 {
        lemma_column_count_bounds(table.drop_last(), i);
    }
}

/// Renders `table` as text: one line for each row, the cells separated and
/// aligned to the right by the widest cell of their column.
pub fn stringify_table(table: &[Vec<String>]) -> (out: String)
    ensures
        out@ == stringify(table_view(table@)),
{
    let ghost tv = table_view(table@);
    let mut out: Vec<char> = Vec::new();
    if table.len() == 0 {
        out.push('-');
        out.push('-');
        out.push('-');
        assert(out@ =~= stringify(tv));
        return string_of(&out);
    }
    let columns = count_columns(table);
    let mut widths: Vec<usize> = Vec::new();
    let mut j: usize = 0;
    while j < columns
        invariant
            j <= columns,
            widths.len() == j,
            tv == table_view(table@),
            forall|k: int| 0 <= k < j ==> widths@[k] == column_width(tv, k),
        decreases columns - j,
    {
        let w = measure_column(table, j);
        widths.push(w);
        j += 1;
    }
    let mut i: usize = 0;
    assert(out@ =~= aligned_rows(tv, 0));
    while i < table.len()
        invariant
            i <= table.len(),
            tv == table_view(table@),
            columns == column_count(tv),
            widths.len() == columns,
            forall|k: int| 0 <= k < columns ==> widths@[k] == column_width(tv, k),
            out@ == aligned_rows(tv, i as int),
        decreases table.len() - i,
    {
        let row = &table[i];
        let ghost rv = tv[i as int];
        let ghost before = out@;
        proof {
            lemma_column_count_bounds(tv, i as int);
            assert(rv == row_view(row@));
            assert(out@ =~= before + aligned_cells(rv, tv, 0));
        }
        let mut k: usize = 0;
        while k < row.len()
            invariant
                k <= row.len(),
                row.len() <= columns,
                rv == row_view(row@),
                widths.len() == columns,
                forall|c: int| 0 <= c < columns ==> widths@[c] == column_width(tv, c),
                out@ == before + aligned_cells(rv, tv, k as int),
            decreases row.len() - k,
        {
            let ghost so_far = aligned_cells(rv, tv, k as int);
            if k != 0 {
                push_separator(&mut out);
            }
            let value = row[k].as_str();
            let count = value.unicode_len();
            if count < widths[k] {
                push_spaces(&mut out, widths[k] - count);
            } else {
                assert(spaces(0) =~= Seq::<char>::empty());
            }
            push_text(&mut out, value);
            proof {
                let cell = pad_left(rv[k as int], column_width(tv, k as int));
                assert(rv[k as int] == value@);
                if k == 0 {
                    assert(out@ =~= before + (so_far + cell));
                } else {
                    assert(out@ =~= before + (so_far + cell_separator() + cell));
                }
            }
            k += 1;
        }
        out.push('\n');
        proof {
            assert(out@ =~= before + aligned_cells(rv, tv, rv.len() as int).push('\n'));
        }
        i += 1;
    }
    string_of(&out)
}

/// How a piece of a rendered message is to stand out.
#[derive(Debug, PartialEq, Eq, Clone, Copy)]
pub enum Tone {
    Plain,
    /// The name of a test.
    Strong,
    /// The title of a part of the message.
    Title,
    /// A remark of less weight.
    Faint,
    /// The word that names an error.
    Error,
    /// The title of a part that belongs to one file.
    Heading,
    /// The word that says that a test passed.
    Good,
    /// The word that says that a test failed.
    Bad,
    /// A value that was expected and did not come.
    Removed,
    /// A value that came in place of the expected one.
    Added,
}

/// A piece of a rendered message.
#[derive(Debug, PartialEq, Eq)]
pub struct Segment {
    pub tone: Tone,
    pub text: String,
}

impl View for Segment {
    type V = (Tone, Seq<char>);

    open spec fn view(&self) -> (Tone, Seq<char>) {
        (self.tone, self.text@)
    }
}

/// The segments in `segments` as pairs of a tone and a text.
pub open spec fn segments_view(segments: Seq<Segment>) -> Seq<(Tone, Seq<char>)> {
    segments.map_values(|s: Segment| s@)
}

/// The number of cells of row `i`; a missing row has none.
pub open spec fn row_len_at(table: Seq<Seq<Seq<char>>>, i: int) -> nat {
    if 0 <= i < table.len() {
        table[i].len()
    } else {
        0
    }
}

/// The cell `j` of row `i`; a missing cell is the empty text.
pub open spec fn cell_at(table: Seq<Seq<Seq<char>>>, i: int, j: int) -> Seq<char> {
    if 0 <= i < table.len() && 0 <= j < table[i].len() {
        table[i][j]
    } else {
        seq![]
    }
}

/// The larger of two numbers.
pub open spec fn larger(a: nat, b: nat) -> nat {
    if a >= b {
        a
    } else {
        b
    }
}

/// The number of cell positions of row `i` in either table.
pub open spec fn diff_columns(left: Seq<Seq<Seq<char>>>, right: Seq<Seq<Seq<char>>>, i: int)
    -> nat {
    larger(row_len_at(left, i), row_len_at(right, i))
}

/// The room that the pair of cells `l` and `r` takes: that of the value
/// where both are equal, else that of both values and their two markers.
pub open spec fn pair_width(l: Seq<char>, r: Seq<char>) -> nat {
    if l == r {
        byte_len(l)
    } else {
        saturate(byte_len(l) + byte_len(r) + 2)
    }
}

/// The width of column `j` over the first `rows` rows of both tables.
pub open spec fn diff_width(
    left: Seq<Seq<Seq<char>>>,
    right: Seq<Seq<Seq<char>>>,
    rows: int,
    j: int,
) -> nat
    decreases rows,
{
    if rows <= 0 {
        0
    } else {
        let w = diff_width(left, right, rows - 1, j);
        let p = pair_width(cell_at(left, rows - 1, j), cell_at(right, rows - 1, j));
        if 0 <= j < diff_columns(left, right, rows - 1) && p > w {
            p
        } else {
            w
        }
    }
}

/// The pair of cells `l` and `r` in a column of `width`: an equal pair is
/// the value aligned to the right; a differing pair is the padding, the
/// left value behind `-` and the right value behind `+`.
pub open spec fn diff_cell(l: Seq<char>, r: Seq<char>, width: nat) -> Seq<(Tone, Seq<char>)> {
    if l == r {
        seq![(Tone::Plain, spaces(minus(width, byte_len(l))) + l)]
    } else {
        seq![
            (Tone::Plain, spaces(minus(width, pair_width(l, r)))),
            (Tone::Removed, seq!['-'] + l),
            (Tone::Added, seq!['+'] + r),
        ]
    }
}

/// The first `upto` cell positions of row `i` of the combined view.
pub open spec fn diff_cells(
    left: Seq<Seq<Seq<char>>>,
    right: Seq<Seq<Seq<char>>>,
    i: int,
    upto: int,
) -> Seq<(Tone, Seq<char>)>
    decreases upto,
{
    if upto <= 0 {
        seq![]
    } else {
        let before = diff_cells(left, right, i, upto - 1);
        let cell = diff_cell(
            cell_at(left, i, upto - 1),
            cell_at(right, i, upto - 1),
            diff_width(left, right, larger(left.len(), right.len()) as int, upto - 1),
        );
        if upto == 1 {
            before + cell
        } else {
            before + seq![(Tone::Plain, cell_separator())] + cell
        }
    }
}

/// The first `upto` rows of the combined view, each closed by a line feed.
pub open spec fn diff_rows(left: Seq<Seq<Seq<char>>>, right: Seq<Seq<Seq<char>>>, upto: int)
    -> Seq<(Tone, Seq<char>)>
    decreases upto,
{
    if upto <= 0 {
        seq![]
    } else {
        diff_rows(left, right, upto - 1) + diff_cells(
            left,
            right,
            upto - 1,
            diff_columns(left, right, upto - 1) as int,
        ).push((Tone::Plain, seq!['\n']))
    }
}

/// The combined view of the expected table `left` and the received table
/// `right`: a row for every row of either, a cell for every cell position
/// of either, and an empty line at the end.
pub open spec fn diff_view(left: Seq<Seq<Seq<char>>>, right: Seq<Seq<Seq<char>>>) -> Seq<
    (Tone, Seq<char>),
> {
    diff_rows(left, right, larger(left.len(), right.len()) as int).push(
        (Tone::Plain, seq!['\n']),
    )
}

/// The view of segments with one more is the view with one more.
pub proof fn lemma_segments_push(v: Seq<Segment>, s: Segment)
    ensures
        segments_view(v.push(s)) == segments_view(v).push(s@),
{
    assert(segments_view(v.push(s)) =~= segments_view(v).push(s@));
}

/// Appends a segment with the characters of `text` to `out`.
pub(crate) fn push_segment(out: &mut Vec<Segment>, tone: Tone, text: &Vec<char>)
    ensures
        segments_view(final(out)@) == segments_view(old(out)@).push((tone, text@)),
{
    let s = Segment { tone, text: string_of(text) };
    proof {
        lemma_segments_push(out@, s);
    }
    out.push(s);
}

/// The cell `j` of row `i` as characters; a missing cell is empty.
fn cell_chars(table: &[Vec<String>], i: usize, j: usize) -> (c: Vec<char>)
    ensures
        c@ == cell_at(table_view(table@), i as int, j as int),
{
    if i < table.len() && j < table[i].len() {
        assert(table_view(table@)[i as int] == row_view(table@[i as int]@));
        chars_of(table[i][j].as_str())
    } else {
        Vec::new()
    }
}

/// The number of cells of row `i`; a missing row has none.
fn row_len(table: &[Vec<String>], i: usize) -> (n: usize)
    ensures
        n == row_len_at(table_view(table@), i as int),
{
    if i < table.len() {
        table[i].len()
    } else {
        0
    }
}

/// Decides whether two texts are the same.
fn same_chars(a: &Vec<char>, b: &Vec<char>) -> (r: bool)
    ensures
        r == (a@ == b@),
{
    if a.len() != b.len() {
        return false;
    }
    let mut i: usize = 0;
    while i < a.len()
        invariant
            a.len() == b.len(),
            i <= a.len(),
            forall|k: int| 0 <= k < i ==> a@[k] == b@[k],
        decreases a.len() - i,
    {
        if a[i] != b[i] {
            return false;
        }
        i += 1;
    }
    assert(a@ =~= b@);
    true
}

/// Counts the bytes that `v` takes in UTF-8.
fn byte_len_chars(v: &Vec<char>) -> (n: usize)
    ensures
        n == byte_len(v@),
{
    assert(v@.take(0) =~= Seq::<char>::empty());
    assert(v@.take(v.len() as int) == v@);
    advance_offset(v, 0, 0, v.len())
}

/// `a + b`, or the largest `usize` where the sum is beyond it.
pub(crate) fn add_saturating(a: usize, b: usize) -> (r: usize)
    ensures
        r == saturate((a + b) as nat),
{
    if a > usize::MAX - b {
        usize::MAX
    } else {
        a + b
    }
}

/// Measures the room that the pair of cells `l` and `r` takes.
fn measure_pair(l: &Vec<char>, r: &Vec<char>) -> (w: usize)
    ensures
        w == pair_width(l@, r@),
{
    if same_chars(l, r) {
        byte_len_chars(l)
    } else {
        let both = add_saturating(byte_len_chars(l), byte_len_chars(r));
        add_saturating(both, 2)
    }
}

/// Measures column `j` of the combined view.
fn measure_diff_column(left: &[Vec<String>], right: &[Vec<String>], rows: usize, j: usize) -> (w:
    usize)
    ensures
        w == diff_width(table_view(left@), table_view(right@), rows as int, j as int),
{
    let mut w: usize = 0;
    let mut i: usize = 0;
    while i < rows
        invariant
            i <= rows,
            w == diff_width(table_view(left@), table_view(right@), i as int, j as int),
        decreases rows - i,
    {
        let a = row_len(left, i);
        let b = row_len(right, i);
        if j < a || j < b {
            let l = cell_chars(left, i, j);
            let r = cell_chars(right, i, j);
            let p = measure_pair(&l, &r);
            if p > w {
                w = p;
            }
        }
        i += 1;
    }
    w
}

/// Renders the combined view of the expected table `left` and the received
/// table `right`.
pub fn diff_segments(left: &[Vec<String>], right: &[Vec<String>]) -> (out: Vec<Segment>)
    ensures
        segments_view(out@) == diff_view(table_view(left@), table_view(right@)),
{
    let ghost lv = table_view(left@);
    let ghost rv = table_view(right@);
    let rows: usize = if left.len() >= right.len() {
        left.len()
    } else {
        right.len()
    };
    let mut out: Vec<Segment> = Vec::new();
    let mut separator: Vec<char> = Vec::new();
    push_separator(&mut separator);
    let mut line_feed: Vec<char> = Vec::new();
    line_feed.push('\n');
    assert(separator@ =~= cell_separator());
    assert(line_feed@ =~= seq!['\n']);
    let left_columns = count_columns(left);
    let right_columns = count_columns(right);
    let most: usize = if left_columns >= right_columns {
        left_columns
    } else {
        right_columns
    };
    let mut widths: Vec<usize> = Vec::new();
    let mut c: usize = 0;
    while c < most
        invariant
            c <= most,
            widths.len() == c,
            lv == table_view(left@),
            rv == table_view(right@),
            forall|k: int| 0 <= k < c ==> widths@[k] == diff_width(lv, rv, rows as int, k),
        decreases most - c,
    {
        let w = measure_diff_column(left, right, rows, c);
        widths.push(w);
        c += 1;
    }
    let mut i: usize = 0;
    assert(segments_view(out@) =~= diff_rows(lv, rv, 0));
    while i < rows
        invariant
            i <= rows,
            lv == table_view(left@),
            rv == table_view(right@),
            rows == larger(lv.len(), rv.len()),
            most == larger(column_count(lv), column_count(rv)),
            widths.len() == most,
            forall|k: int| 0 <= k < most ==> widths@[k] == diff_width(lv, rv, rows as int, k),
            separator@ == cell_separator(),
            line_feed@ == seq!['\n'],
            segments_view(out@) == diff_rows(lv, rv, i as int),
        decreases rows - i,
    {
        let a = row_len(left, i);
        let b = row_len(right, i);
        let columns: usize = if a >= b {
            a
        } else {
            b
        };
        proof {
            if i < lv.len() {
                lemma_column_count_bounds(lv, i as int);
            }
            if i < rv.len() {
                lemma_column_count_bounds(rv, i as int);
            }
        }
        let ghost before = segments_view(out@);
        let mut j: usize = 0;
        assert(before =~= before + diff_cells(lv, rv, i as int, 0));
        while j < columns
            invariant
                j <= columns <= most,
                lv == table_view(left@),
                rv == table_view(right@),
                rows == larger(lv.len(), rv.len()),
                widths.len() == most,
                forall|k: int| 0 <= k < most ==> widths@[k] == diff_width(lv, rv, rows as int, k),
                separator@ == cell_separator(),
                segments_view(out@) == before + diff_cells(lv, rv, i as int, j as int),
            decreases columns - j,
        {
            let ghost so_far = diff_cells(lv, rv, i as int, j as int);
            let width = widths[j];
            let l = cell_chars(left, i, j);
            let r = cell_chars(right, i, j);
            let ghost cell = diff_cell(l@, r@, width as nat);
            if j != 0 {
                push_segment(&mut out, Tone::Plain, &separator);
            }
            if same_chars(&l, &r) {
                let n = byte_len_chars(&l);
                let mut text: Vec<char> = Vec::new();
                if width > n {
                    push_spaces(&mut text, width - n);
                } else {
                    assert(spaces(0) =~= Seq::<char>::empty());
                }
                let mut k: usize = 0;
                let ghost pad = text@;
                assert(text@ =~= pad + l@.take(0));
                while k < l.len()
                    invariant
                        k <= l.len(),
                        text@ == pad + l@.take(k as int),
                    decreases l.len() - k,
                {
                    text.push(l[k]);
                    assert(text@ =~= pad + l@.take(k + 1));
                    k += 1;
                }
                assert(l@.take(l.len() as int) == l@);
                assert(text@ =~= spaces(minus(width as nat, byte_len(l@))) + l@);
                push_segment(&mut out, Tone::Plain, &text);
                proof {
                    if j == 0 {
                        assert(segments_view(out@) =~= before + (so_far + cell));
                    } else {
                        assert(segments_view(out@) =~= before + (so_far + seq![
                            (Tone::Plain, cell_separator()),
                        ] + cell));
                    }
                }
            } else {
                let p = measure_pair(&l, &r);
                let mut pad: Vec<char> = Vec::new();
                if width > p {
                    push_spaces(&mut pad, width - p);
                } else {
                    assert(spaces(0) =~= Seq::<char>::empty());
                }
                assert(pad@ =~= spaces(minus(width as nat, pair_width(l@, r@))));
                let mut removed: Vec<char> = Vec::new();
                removed.push('-');
                let mut k: usize = 0;
                assert(removed@ =~= seq!['-'] + l@.take(0));
                while k < l.len()
                    invariant
                        k <= l.len(),
                        removed@ == seq!['-'] + l@.take(k as int),
                    decreases l.len() - k,
                {
                    removed.push(l[k]);
                    assert(removed@ =~= seq!['-'] + l@.take(k + 1));
                    k += 1;
                }
                assert(l@.take(l.len() as int) == l@);
                let mut added: Vec<char> = Vec::new();
                added.push('+');
                let mut m: usize = 0;
                assert(added@ =~= seq!['+'] + r@.take(0));
                while m < r.len()
                    invariant
                        m <= r.len(),
                        added@ == seq!['+'] + r@.take(m as int),
                    decreases r.len() - m,
                {
                    added.push(r[m]);
                    assert(added@ =~= seq!['+'] + r@.take(m + 1));
                    m += 1;
                }
                assert(r@.take(r.len() as int) == r@);
                push_segment(&mut out, Tone::Plain, &pad);
                push_segment(&mut out, Tone::Removed, &removed);
                push_segment(&mut out, Tone::Added, &added);
                proof {
                    if j == 0 {
                        assert(segments_view(out@) =~= before + (so_far + cell));
                    } else {
                        assert(segments_view(out@) =~= before + (so_far + seq![
                            (Tone::Plain, cell_separator()),
                        ] + cell));
                    }
                }
            }
            j += 1;
        }
        push_segment(&mut out, Tone::Plain, &line_feed);
        proof {
            assert(segments_view(out@) =~= before + diff_cells(
                lv,
                rv,
                i as int,
                columns as int,
            ).push((Tone::Plain, seq!['\n'])));
        }
        i += 1;
    }
    push_segment(&mut out, Tone::Plain, &line_feed);
    out
}

/// The decimal digit for `d`.
pub open spec fn digit(d: nat) -> char {
    ((48 + d) as u8) as char
}

/// `n` in decimal digits.
pub open spec fn decimal(n: nat) -> Seq<char>
    decreases n,
{
    if n < 10 {
        seq![digit(n)]
    } else {
        decimal(n / 10).push(digit(n % 10))
    }
}

/// The number that the decimal digits `s` stand for.
pub open spec fn number(s: Seq<char>) -> nat
    decreases s.len(),
{
    if s.len() == 0 {
        0
    } else {
        (number(s.drop_last()) * 10 + (s.last() as u32 - 48)) as nat
    }
}

/// The digits of a number stand for that number, so two numbers with the
/// same digits are the same number.
pub proof fn lemma_number_of_decimal(n: nat)
    ensures
        number(decimal(n)) == n,
    decreases n,
{
    if n < 10 {
        let s = seq![digit(n)];
        assert(s.drop_last() =~= Seq::<char>::empty());
        assert(number(s.drop_last()) == 0);
        assert(s.last() == digit(n));
    } else {
        lemma_number_of_decimal(n / 10);
        let s = decimal(n);
        assert(s.drop_last() =~= decimal(n / 10));
        assert(s.last() == digit(n % 10));
    }
}

/// The line that tells how many rows a table has.
pub open spec fn row_count_line(n: nat) -> Seq<char> {
    "("@ + decimal(n) + " rows)\n"@
}

/// What is shown for a test whose rows are not the expected ones: both
/// tables with their row counts, then the combined view.
pub open spec fn mismatch_report(test: TestView, received: Seq<Seq<Seq<char>>>) -> Seq<
    (Tone, Seq<char>),
> {
    seq![
        (Tone::Strong, test.header),
        (Tone::Plain, " failed with:\n"@),
        (Tone::Plain, "\n"@),
        (Tone::Title, "Expected\n"@),
        (Tone::Plain, stringify(test.output) + "\n"@),
        (Tone::Faint, row_count_line(test.output.len())),
        (Tone::Title, "Received\n"@),
        (Tone::Plain, stringify(received) + "\n"@),
        (Tone::Faint, row_count_line(received.len())),
        (Tone::Plain, "\n"@),
        (Tone::Title, "Diff"@),
        (Tone::Plain, "\n"@),
    ] + diff_view(test.output, received)
}

/// What is shown for a failure of `test`.
pub open spec fn report_view(info: FailureInfoView, test: TestView) -> Seq<(Tone, Seq<char>)> {
    match info {
        FailureInfoView::QueryError(message) => seq![
            (Tone::Strong, test.header),
            (Tone::Plain, " failed due to "@),
            (Tone::Error, "error"@),
            (Tone::Plain, ":\n"@ + message + "\n"@),
            (Tone::Plain, "\n"@),
        ],
        FailureInfoView::WrongNumberOfRows { received, .. } => mismatch_report(test, received),
        FailureInfoView::MismatchedValues(received) => mismatch_report(test, received),
    }
}

/// Appends the decimal digits of `n` to `out`.
pub(crate) fn push_decimal(out: &mut Vec<char>, n: usize)
    ensures
        final(out)@ == old(out)@ + decimal(n as nat),
    decreases n,
{
    if n >= 10 {
        push_decimal(out, n / 10);
    }
    let d: u8 = (n % 10) as u8;
    out.push((48 + d) as char);
    proof {
        if n >= 10 {
            assert(out@ =~= old(out)@ + decimal((n / 10) as nat).push(digit((n % 10) as nat)));
        } else {
            assert(out@ =~= old(out)@ + seq![digit(n as nat)]);
        }
    }
}

/// Appends a segment with the text `text` to `out`.
pub(crate) fn push_str_segment(out: &mut Vec<Segment>, tone: Tone, text: &str)
    ensures
        segments_view(final(out)@) == segments_view(old(out)@).push((tone, text@)),
{
    let s = Segment { tone, text: text.to_owned() };
    proof {
        lemma_segments_push(out@, s);
    }
    out.push(s);
}

/// Appends the line that tells that a table has `n` rows.
fn push_row_count(out: &mut Vec<Segment>, n: usize)
    ensures
        segments_view(final(out)@) == segments_view(old(out)@).push(
            (Tone::Faint, row_count_line(n as nat)),
        ),
{
    let mut text: Vec<char> = Vec::new();
    push_text(&mut text, "(");
    push_decimal(&mut text, n);
    push_text(&mut text, " rows)\n");
    assert(text@ =~= row_count_line(n as nat));
    push_segment(out, Tone::Faint, &text);
}

/// Appends `table` as aligned text, closed by a line feed.
fn push_table(out: &mut Vec<Segment>, table: &[Vec<String>])
    ensures
        segments_view(final(out)@) == segments_view(old(out)@).push(
            (Tone::Plain, stringify(table_view(table@)) + "\n"@),
        ),
{
    let rendered = stringify_table(table);
    let mut text: Vec<char> = Vec::new();
    push_text(&mut text, rendered.as_str());
    push_text(&mut text, "\n");
    assert(text@ =~= stringify(table_view(table@)) + "\n"@);
    push_segment(out, Tone::Plain, &text);
}

impl FailureInfo {
    /// Renders the failure of `test` for a human reader.
    pub fn report(&self, test: &Test) -> (out: Vec<Segment>)
        ensures
            segments_view(out@) == report_view(self@, test@),
    {
        let mut out: Vec<Segment> = Vec::new();
        assert(segments_view(out@) =~= Seq::<(Tone, Seq<char>)>::empty());
        push_str_segment(&mut out, Tone::Strong, test.header.as_str());
        let received = match self {
            FailureInfo::QueryError(message) => {
                push_str_segment(&mut out, Tone::Plain, " failed due to ");
                push_str_segment(&mut out, Tone::Error, "error");
                let mut text: Vec<char> = Vec::new();
                push_text(&mut text, ":\n");
                push_text(&mut text, message.as_str());
                push_text(&mut text, "\n");
                assert(text@ =~= ":\n"@ + message@ + "\n"@);
                push_segment(&mut out, Tone::Plain, &text);
                push_str_segment(&mut out, Tone::Plain, "\n");
                assert(segments_view(out@) =~= report_view(self@, test@));
                return out;
            },
            FailureInfo::WrongNumberOfRows { received, .. } => received,
            FailureInfo::MismatchedValues(received) => received,
        };
        push_str_segment(&mut out, Tone::Plain, " failed with:\n");
        push_str_segment(&mut out, Tone::Plain, "\n");
        push_str_segment(&mut out, Tone::Title, "Expected\n");
        push_table(&mut out, test.output.as_slice());
        push_row_count(&mut out, test.output.len());
        push_str_segment(&mut out, Tone::Title, "Received\n");
        push_table(&mut out, received.as_slice());
        push_row_count(&mut out, received.len());
        push_str_segment(&mut out, Tone::Plain, "\n");
        push_str_segment(&mut out, Tone::Title, "Diff");
        push_str_segment(&mut out, Tone::Plain, "\n");
        let mut diff = diff_segments(test.output.as_slice(), received.as_slice());
        proof {
            assert(segments_view(out@ + diff@) =~= segments_view(out@) + segments_view(diff@));
            assert(segments_view(out@) + segments_view(diff@) =~= mismatch_report(
                test@,
                table_view(received@),
            ));
        }
        out.append(&mut diff);
        out
    }
}

/// Validation can be repeated: two runs on the same rows and the same test
/// give the same result, variant and payload, and the rows that a failure
/// carries give that same failure when they are validated again.
pub proof fn lemma_validation_repeats(
    received: Seq<Seq<Seq<char>>>,
    test: TestView,
    first: TestResultView,
    second: TestResultView,
)
    requires
        first == validate(received, test),
        second == validate(received, test),
    ensures
        first == second,
        first matches TestResultView::Failed(FailureInfoView::WrongNumberOfRows { received: r, .. })
            ==> validate(r, test) == first,
        first matches TestResultView::Failed(FailureInfoView::MismatchedValues(r)) ==> validate(
            r,
            test,
        ) == first,
        first is Failed ==> !(first->0 is QueryError),
{
}

/// A test passes exactly when its output is not to be checked or the rows
/// that came are the rows that it expects; and of the two failures of
/// validation, the number of rows is looked at first.
pub proof fn lemma_validation_verdict(received: Seq<Seq<Seq<char>>>, test: TestView)
    ensures
        validate(received, test) is Passed <==> test.ignore_output || received == test.output,
        validate(received, test) matches TestResultView::Failed(
            FailureInfoView::WrongNumberOfRows { expected, found, .. },
        ) ==> expected != found && expected == test.output.len() && found == received.len(),
        validate(received, test) matches TestResultView::Failed(
            FailureInfoView::MismatchedValues(_),
        ) ==> received.len() == test.output.len(),
{
}

} // verus!
