//! Extraction of tests from text: headings, fenced blocks and their
//! attributes.

use crate::text::{
    chars_of, concat, concat_vecs, count_leading_whitespace, eq_ignore_ascii_case, eq_ignore_case,
    join, join_vecs, leading_whitespace, lemma_texts_push, matches_at, split_lines,
    split_lines_vec, split_on, split_on_char, starts_with, string_of, string_of_range, subvec,
    texts, trim, trim_start, trim_vec,
};
use crate::{row_view, table_view, tests_view, ExtractionError, Test, TestView};
use vstd::prelude::*;

verus! {

/// What the block parser finds in a text.
#[derive(Debug, PartialEq, Eq)]
pub enum Event {
    Heading { level: usize, text: String },
    CodeBlock { starting_line: usize, attributes: String, contents: String },
}

/// An `Event` as mathematical values.
pub enum EventView {
    Heading { level: nat, text: Seq<char> },
    CodeBlock { starting_line: nat, attributes: Seq<char>, contents: Seq<char> },
}

impl View for Event {
    type V = EventView;

    open spec fn view(&self) -> EventView {
        match self {
            Event::Heading { level, text } => EventView::Heading {
                level: *level as nat,
                text: text@,
            },
            Event::CodeBlock { starting_line, attributes, contents } => EventView::CodeBlock {
                starting_line: *starting_line as nat,
                attributes: attributes@,
                contents: contents@,
            },
        }
    }
}

/// The number of `c` at the front of `s`.
pub open spec fn leading_run(s: Seq<char>, c: char) -> nat
    decreases s.len(),
{
    if s.len() > 0 && s[0] == c {
        1 + leading_run(s.skip(1), c)
    } else {
        0
    }
}

/// Whether `line`, after its indentation, begins with a heading marker.
pub open spec fn is_heading_line(line: Seq<char>) -> bool {
    let t = trim_start(line);
    t.len() > 0 && t[0] == '#'
}

/// The number of backticks with which `line` begins after its indentation.
pub open spec fn fence_width(line: Seq<char>) -> nat {
    leading_run(trim_start(line), '`')
}

/// Whether `line` opens a fenced block: after its indentation it begins
/// with a run of three or more backticks. The whole run is the marker of
/// the block.
pub open spec fn is_fence_line(line: Seq<char>) -> bool {
    fence_width(line) >= 3
}

/// Whether `line` closes a block whose marker is `width` backticks: after
/// its indentation it begins with that marker.
pub open spec fn closes_fence(line: Seq<char>, width: nat) -> bool {
    fence_width(line) >= width
}

/// `line` without the indentation `indent` of the fence, where the line
/// begins with it; a line that is indented less stays as it is.
pub open spec fn strip_indent(line: Seq<char>, indent: Seq<char>) -> Seq<char> {
    if indent.len() > 0 && starts_with(line, indent) {
        line.skip(indent.len() as int)
    } else {
        line
    }
}

/// The number of lines from `from` on that come before the next line that
/// closes a block with a marker of `width` backticks.
pub open spec fn body_len(lines: Seq<Seq<char>>, from: int, width: nat) -> nat
    decreases lines.len() - from,
{
    if from < 0 || from >= lines.len() || closes_fence(lines[from], width) {
        0
    } else {
        1 + body_len(lines, from + 1, width)
    }
}

/// The `count` lines from `from` on, each without the indentation `indent`.
pub open spec fn block_body(lines: Seq<Seq<char>>, from: int, count: nat, indent: Seq<char>) -> Seq<
    Seq<char>,
> {
    Seq::new(count, |k: int| strip_indent(lines[from + k], indent))
}

/// The event that begins on line `pos`, if that line begins one.
pub open spec fn event_at(lines: Seq<Seq<char>>, pos: int) -> Option<EventView> {
    let line = lines[pos];
    let t = trim_start(line);
    if is_heading_line(line) {
        let level = leading_run(t, '#');
        Some(EventView::Heading { level, text: trim_start(t.skip(level as int)) })
    } else if is_fence_line(line) {
        let indent = line.take(leading_whitespace(line) as int);
        let width = fence_width(line);
        Some(
            EventView::CodeBlock {
                starting_line: (pos + 1) as nat,
                attributes: trim_start(t.skip(width as int)),
                contents: join(
                    block_body(lines, pos + 1, body_len(lines, pos + 1, width), indent),
                    '\n',
                ),
            },
        )
    } else {
        None
    }
}

/// The index of the first line after the event, or the plain line, at `pos`.
/// A fenced block ends with the line that closes it, or with the text.
pub open spec fn after_line(lines: Seq<Seq<char>>, pos: int) -> int {
    if !is_heading_line(lines[pos]) && is_fence_line(lines[pos]) {
        let end = pos + 1 + body_len(lines, pos + 1, fence_width(lines[pos]));
        if end < lines.len() {
            end + 1
        } else {
            end
        }
    } else {
        pos + 1
    }
}

/// The first line at or after `pos` that begins an event, or the number of
/// lines where none does.
pub open spec fn next_event_line(lines: Seq<Seq<char>>, pos: int) -> int
    decreases
            (if pos < lines.len() {
                lines.len() - pos
            } else {
                0
            }),
{
    if pos < 0 || pos >= lines.len() {
        lines.len() as int
    } else if event_at(lines, pos) is Some {
        pos
    } else {
        next_event_line(lines, pos + 1)
    }
}

/// The events of `lines` from line `pos` on, in source order.
pub open spec fn events_from(lines: Seq<Seq<char>>, pos: int) -> Seq<EventView>
    decreases
            (if pos < lines.len() {
                lines.len() - pos
            } else {
                0
            }),
{
    if pos < 0 || pos >= lines.len() {
        seq![]
    } else {
        match event_at(lines, pos) {
            Some(e) => seq![e] + events_from(lines, after_line(lines, pos)),
            None => events_from(lines, after_line(lines, pos)),
        }
    }
}

/// The events of the text `s`, in source order.
pub open spec fn events_of(s: Seq<char>) -> Seq<EventView> {
    events_from(split_lines(s), 0)
}

/// The indentation of the fence is taken off a line once: what stands
/// behind it stays, also where that begins with the same indentation again.
pub proof fn lemma_indentation_is_taken_off_once(indent: Seq<char>, rest: Seq<char>)
    ensures
        strip_indent(indent + rest, indent) == rest,
{
    assert((indent + rest).take(indent.len() as int) =~= indent);
    assert((indent + rest).skip(indent.len() as int) =~= rest);
    if indent.len() == 0 {
        assert(indent + rest =~= rest);
    }
}

/// The leading run is all `c`, and what follows it is none.
pub proof fn lemma_leading_run(s: Seq<char>, c: char)
    ensures
        leading_run(s, c) <= s.len(),
        forall|j: int| 0 <= j < leading_run(s, c) ==> s[j] == c,
        leading_run(s, c) < s.len() ==> s[leading_run(s, c) as int] != c,
    decreases s.len(),
{
    if s.len() > 0 && s[0] == c {
        lemma_leading_run(s.skip(1), c);
        let r = leading_run(s.skip(1), c);
        assert forall|j: int| 0 <= j < 1 + r implies s[j] == c by {
            if j > 0 {
                assert(s.skip(1)[j - 1] == s[j]);
            }
        }
    }
}

/// A run of `c` that ends at `k` is the whole leading run.
pub proof fn lemma_leading_run_is(s: Seq<char>, c: char, k: int)
    requires
        0 <= k <= s.len(),
        forall|j: int| 0 <= j < k ==> s[j] == c,
        k < s.len() ==> s[k] != c,
    ensures
        leading_run(s, c) == k,
{
    lemma_leading_run(s, c);
}

/// The lines of a body close no block of the marker, and the line behind
/// them, if there is one, closes it.
pub proof fn lemma_body_len(lines: Seq<Seq<char>>, from: int, width: nat)
    requires
        0 <= from <= lines.len(),
    ensures
        from + body_len(lines, from, width) <= lines.len(),
        forall|j: int|
            from <= j < from + body_len(lines, from, width) ==> !closes_fence(lines[j], width),
        from + body_len(lines, from, width) < lines.len() ==> closes_fence(
            lines[from + body_len(lines, from, width)],
            width,
        ),
    decreases lines.len() - from,
{
    if from < lines.len() && !closes_fence(lines[from], width) {
        lemma_body_len(lines, from + 1, width);
    }
}

/// Lines that close no block of the marker and end at a line that closes
/// it, or at the end of the text, are the whole body.
pub proof fn lemma_body_len_is(lines: Seq<Seq<char>>, from: int, width: nat, k: int)
    requires
        0 <= from,
        0 <= k,
        from + k <= lines.len(),
        forall|j: int| from <= j < from + k ==> !closes_fence(lines[j], width),
        from + k < lines.len() ==> closes_fence(lines[from + k], width),
    ensures
        body_len(lines, from, width) == k,
{
    lemma_body_len(lines, from, width);
}

/// Counts the `c` at the front of `v[from..]`.
fn count_leading_run(v: &Vec<char>, from: usize, c: char) -> (n: usize)
    requires
        from <= v.len(),
    ensures
        n == leading_run(v@.skip(from as int), c),
        from + n <= v.len(),
{
    let mut i: usize = from;
    while i < v.len() && v[i] == c
        invariant
            from <= i <= v.len(),
            forall|j: int| from <= j < i ==> v@[j] == c,
        decreases v.len() - i,
    {
        i += 1;
    }
    proof {
        lemma_leading_run_is(v@.skip(from as int), c, i - from);
    }
    i - from
}

/// Counts the backticks with which `line` begins after its indentation.
fn fence_width_of(line: &Vec<char>) -> (w: usize)
    ensures
        w == fence_width(line@),
{
    let n = count_leading_whitespace(line, 0);
    assert(line@.skip(0) == line@);
    count_leading_run(line, n, '`')
}

/// Takes the indentation of the fence off `line`, where the line begins
/// with it.
fn strip_indent_vec(line: &Vec<char>, indent: &Vec<char>) -> (r: Vec<char>)
    ensures
        r@ == strip_indent(line@, indent@),
{
    assert(line@.skip(0) == line@);
    let at: usize = if indent.len() > 0 && matches_at(line, 0, indent) {
        indent.len()
    } else {
        0
    };
    let r = subvec(line, at, line.len());
    assert(line@.subrange(at as int, line.len() as int) == line@.skip(at as int));
    r
}

/// Reads a text line by line and yields its headings and fenced blocks.
pub struct BlockParser {
    line_num: usize,
    lines: Vec<Vec<char>>,
}

impl BlockParser {
    /// The lines of the text that the parser reads.
    pub closed spec fn lines(&self) -> Seq<Seq<char>> {
        texts(self.lines@)
    }

    /// The number of lines that the parser has consumed.
    pub closed spec fn position(&self) -> int {
        self.line_num as int
    }

    /// The parser is not past the end of its text.
    #[verifier::type_invariant]
    spec fn in_text(&self) -> bool {
        self.line_num <= self.lines.len()
    }

    /// The events that are still to come.
    pub open spec fn remaining(&self) -> Seq<EventView> {
        events_from(self.lines(), self.position())
    }

    /// A parser at the start of `s`.
    pub fn new(s: &str) -> (p: Self)
        ensures
            p.position() == 0,
            p.lines() == split_lines(s@),
            p.remaining() == events_of(s@),
    {
        let chars = chars_of(s);
        Self { line_num: 0, lines: split_lines_vec(&chars) }
    }

    /// The next event, if the rest of the text holds one. Lines that begin
    /// neither a heading nor a fenced block are passed over, and the parser
    /// comes to stand behind the event, or at the end of the text.
    pub fn next(&mut self) -> (e: Option<Event>)
        ensures
            final(self).lines() == old(self).lines(),
            old(self).position() <= final(self).position() <= final(self).lines().len(),
            match e {
                Some(ev) => {
                    let at = next_event_line(old(self).lines(), old(self).position());
                    &&& at < old(self).lines().len()
                    &&& event_at(old(self).lines(), at) == Some(ev@)
                    &&& final(self).position() == after_line(old(self).lines(), at)
                    &&& final(self).position() > old(self).position()
                    &&& old(self).remaining() == seq![ev@] + final(self).remaining()
                },
                None => {
                    &&& next_event_line(old(self).lines(), old(self).position()) == old(
                        self,
                    ).lines().len()
                    &&& final(self).position() == final(self).lines().len()
                    &&& old(self).remaining() == Seq::<EventView>::empty()
                },
            },
    {
        proof {
            use_type_invariant(&*self);
        }
        let ghost lines = self.lines();
        let mut pos: usize = self.line_num;
        while pos < self.lines.len()
            invariant
                self.line_num == old(self).line_num,
                self.lines == old(self).lines,
                lines == texts(self.lines@),
                old(self).line_num <= pos <= self.lines.len(),
                events_from(lines, old(self).line_num as int) == events_from(lines, pos as int),
                next_event_line(lines, old(self).line_num as int) == next_event_line(
                    lines,
                    pos as int,
                ),
            decreases self.lines.len() - pos,
        {
            let line = &self.lines[pos];
            assert(lines[pos as int] == line@);
            assert(line@.skip(0) == line@);
            let indent_len = count_leading_whitespace(line, 0);
            if indent_len < line.len() && line[indent_len] == '#' {
                let level = count_leading_run(line, indent_len, '#');
                let ws = count_leading_whitespace(line, indent_len + level);
                let text = string_of_range(line, indent_len + level + ws, line.len());
                proof {
                    let t = trim_start(line@);
                    assert(t.skip(level as int) == line@.skip(indent_len + level));
                    assert(trim_start(t.skip(level as int)) == line@.subrange(
                        indent_len + level + ws,
                        line.len() as int,
                    ));
                }
                self.line_num = pos + 1;
                return Some(Event::Heading { level, text });
            }
            let width = count_leading_run(line, indent_len, '`');
            if width >= 3 {
                let ws = count_leading_whitespace(line, indent_len + width);
                let attributes = string_of_range(line, indent_len + width + ws, line.len());
                let indent = subvec(line, 0, indent_len);
                let start: usize = pos + 1;
                let mut end: usize = start;
                let mut body: Vec<Vec<char>> = Vec::new();
                assert(texts(body@) =~= block_body(lines, start as int, 0, indent@));
                while end < self.lines.len() && fence_width_of(&self.lines[end]) < width
                    invariant
                        self.line_num == old(self).line_num,
                        self.lines == old(self).lines,
                        lines == texts(self.lines@),
                        start <= end <= self.lines.len(),
                        forall|j: int| start <= j < end ==> !closes_fence(lines[j], width as nat),
                        texts(body@) == block_body(
                            lines,
                            start as int,
                            (end - start) as nat,
                            indent@,
                        ),
                    decreases self.lines.len() - end,
                {
                    let stripped = strip_indent_vec(&self.lines[end], &indent);
                    proof {
                        lemma_texts_push(body@, stripped);
                        assert(texts(body@).push(stripped@) =~= block_body(
                            lines,
                            start as int,
                            (end + 1 - start) as nat,
                            indent@,
                        ));
                    }
                    body.push(stripped);
                    end += 1;
                }
                let joined = join_vecs(&body, '\n');
                let contents = string_of(&joined);
                proof {
                    lemma_body_len_is(lines, start as int, width as nat, end - start);
                    let t = trim_start(line@);
                    assert(t.skip(width as int) == line@.skip(indent_len + width));
                    assert(trim_start(t.skip(width as int)) == line@.subrange(
                        indent_len + width + ws,
                        line.len() as int,
                    ));
                    assert(indent@ == line@.take(indent_len as int));
                }
                if end < self.lines.len() {
                    end += 1;
                }
                self.line_num = end;
                return Some(Event::CodeBlock { starting_line: start, attributes, contents });
            }
            pos += 1;
        }
        self.line_num = pos;
        None
    }
}

/// What a fenced block is, by its attributes.
#[derive(Debug, PartialEq, Eq, Clone, Copy)]
pub enum BlockKind {
    /// A query. `ignore_output` leaves its result unchecked; `stateless`
    /// says that it runs in a transaction that is rolled back.
    Sql { ignore_output: bool, stateless: bool },
    /// An expected result. `ignore` leaves the result unchecked.
    Output { ignore: bool },
    /// Anything else, and every block that is marked as ignored.
    Other,
}

/// Whether `token`, without the whitespace around it and without regard to
/// the case of ASCII letters, is `word`.
pub open spec fn token_is(token: Seq<char>, word: Seq<char>) -> bool {
    eq_ignore_ascii_case(trim(token), word)
}

/// Whether one of `tokens` is `word`.
pub open spec fn any_token(tokens: Seq<Seq<char>>, word: Seq<char>) -> bool {
    exists|k: int| 0 <= k < tokens.len() && token_is(#[trigger] tokens[k], word)
}

/// Whether the comma-separated attribute list `attrs` holds `word`.
pub open spec fn has_token(attrs: Seq<char>, word: Seq<char>) -> bool {
    any_token(split_on(attrs, ','), word)
}

/// The kind of a block with the attribute list `attrs`. `ignore` outranks
/// every other attribute, `output` outranks `sql`, and unknown attributes
/// count for nothing.
pub open spec fn block_kind(attrs: Seq<char>) -> BlockKind {
    if has_token(attrs, "ignore"@) {
        BlockKind::Other
    } else if has_token(attrs, "output"@) {
        BlockKind::Output { ignore: has_token(attrs, "ignore-output"@) }
    } else if has_token(attrs, "sql"@) {
        BlockKind::Sql {
            ignore_output: has_token(attrs, "ignore-output"@),
            stateless: !has_token(attrs, "stateful"@) && !has_token(attrs, "non-transactional"@),
        }
    } else {
        BlockKind::Other
    }
}

/// The cells of one line of an expected result.
pub open spec fn output_row(line: Seq<char>) -> Seq<Seq<char>> {
    split_on(line, '|').map_values(|cell: Seq<char>| trim(cell))
}

/// The rows of an expected result: the body's lines but for the first two,
/// which hold the column names and a separator.
pub open spec fn output_table(body: Seq<char>) -> Seq<Seq<Seq<char>>> {
    let lines = split_on(body, '\n');
    if lines.len() <= 2 {
        seq![]
    } else {
        Seq::new((lines.len() - 2) as nat, |k: int| output_row(lines[k + 2]))
    }
}

/// Decides whether one of `tokens` is `word`.
fn has_word(tokens: &Vec<Vec<char>>, word: &str) -> (b: bool)
    ensures
        b == any_token(texts(tokens@), word@),
{
    let w = chars_of(word);
    let mut i: usize = 0;
    while i < tokens.len()
        invariant
            i <= tokens.len(),
            w@ == word@,
            forall|k: int| 0 <= k < i ==> !token_is(#[trigger] texts(tokens@)[k], word@),
        decreases tokens.len() - i,
    {
        let t = trim_vec(&tokens[i]);
        if eq_ignore_case(&t, &w) {
            assert(token_is(texts(tokens@)[i as int], word@));
            return true;
        }
        i += 1;
    }
    false
}

/// Classifies a fenced block by the attributes that follow its fence.
pub fn parse_code_block_attrs(attrs: &str) -> (kind: BlockKind)
    ensures
        kind == block_kind(attrs@),
{
    let chars = chars_of(attrs);
    let tokens = split_on_char(&chars, ',');
    let is_output = has_word(&tokens, "output");
    let is_sql = has_word(&tokens, "sql");
    let is_ignored = has_word(&tokens, "ignore");
    let is_stateful = has_word(&tokens, "stateful") || has_word(&tokens, "non-transactional");
    let is_ignoring_output = has_word(&tokens, "ignore-output");
    if is_ignored {
        return BlockKind::Other;
    }
    if is_output {
        return BlockKind::Output { ignore: is_ignoring_output };
    }
    if is_sql {
        return BlockKind::Sql { ignore_output: is_ignoring_output, stateless: !is_stateful };
    }
    BlockKind::Other
}

/// Reads the rows of an expected result from the body of its block.
pub fn parse_output(s: String) -> (rows: Vec<Vec<String>>)
    ensures
        table_view(rows@) == output_table(s@),
{
    let chars = chars_of(s.as_str());
    let lines = split_on_char(&chars, '\n');
    let mut rows: Vec<Vec<String>> = Vec::new();
    let mut i: usize = 2;
    while i < lines.len()
        invariant
            2 <= i,
            lines.len() < 2 || i <= lines.len(),
            texts(lines@) == split_on(s@, '\n'),
            rows.len() == (if lines.len() < 2 {
                0
            } else {
                i - 2
            }),
            forall|k: int|
                0 <= k < rows.len() ==> row_view(#[trigger] rows@[k]@) == output_row(
                    texts(lines@)[k + 2],
                ),
        decreases lines.len() - i,
    {
        let cells = split_on_char(&lines[i], '|');
        let mut row: Vec<String> = Vec::new();
        let mut j: usize = 0;
        while j < cells.len()
            invariant
                j <= cells.len(),
                row.len() == j,
                forall|k: int| 0 <= k < j ==> (#[trigger] row@[k])@ == trim(texts(cells@)[k]),
            decreases cells.len() - j,
        {
            let cell = trim_vec(&cells[j]);
            row.push(string_of(&cell));
            j += 1;
        }
        assert(row_view(row@) =~= output_row(texts(lines@)[i as int]));
        rows.push(row);
        i += 1;
    }
    proof {
        let expected = output_table(s@);
        assert(table_view(rows@).len() == expected.len());
        assert forall|k: int| 0 <= k < expected.len() implies table_view(rows@)[k]
            == expected[k] by {
            assert(row_view(rows@[k]@) == output_row(texts(lines@)[k + 2]));
        }
        assert(table_view(rows@) =~= expected);
    }
    rows
}

/// Where the extraction stands between two events.
pub struct ExtractState {
    /// The quoted texts of the headings that enclose the current line. The
    /// first entry is empty and stands above every heading.
    pub headings: Seq<Seq<char>>,
    /// The query that still waits for its result block.
    pub pending: Option<TestView>,
    /// The finished tests, in source order.
    pub tests: Seq<TestView>,
    /// The line of the first result block that followed no query.
    pub orphan: Option<nat>,
}

/// The state before the first event.
pub open spec fn initial_state() -> ExtractState {
    ExtractState {
        headings: seq![Seq::<char>::empty()],
        pending: None,
        tests: seq![],
        orphan: None,
    }
}

/// A heading's text as it appears in a test's header.
pub open spec fn quoted(text: Seq<char>) -> Seq<char> {
    seq!['`'] + text + seq!['`']
}

/// The headings after a heading of `level` with `text`: those above the
/// level stay, those at or below it give way to the new one.
pub open spec fn push_heading(headings: Seq<Seq<char>>, level: nat, text: Seq<char>) -> Seq<
    Seq<char>,
> {
    if level <= headings.len() {
        headings.take(level as int).push(quoted(text))
    } else {
        headings.push(quoted(text))
    }
}

/// `t`, marked as a test whose result is not checked.
pub open spec fn unchecked(t: TestView) -> TestView {
    TestView { ignore_output: true, ..t }
}

/// `tests`, followed by the pending test if there is one. A query that got
/// no result block is not checked.
pub open spec fn with_pending(tests: Seq<TestView>, pending: Option<TestView>) -> Seq<TestView> {
    match pending {
        Some(t) => tests.push(unchecked(t)),
        None => tests,
    }
}

/// The state after `event`.
pub open spec fn step(st: ExtractState, event: EventView) -> ExtractState {
    match event {
        EventView::Heading { level, text } => ExtractState {
            headings: push_heading(st.headings, level, text),
            ..st
        },
        EventView::CodeBlock { starting_line, attributes, contents } => match block_kind(
            attributes,
        ) {
            BlockKind::Sql { ignore_output, stateless } => ExtractState {
                pending: Some(
                    TestView {
                        line: starting_line,
                        header: concat(st.headings),
                        text: contents,
                        output: seq![],
                        transactional: stateless,
                        ignore_output,
                    },
                ),
                tests: with_pending(st.tests, st.pending),
                ..st
            },
            BlockKind::Output { ignore } => match st.pending {
                Some(t) => ExtractState {
                    pending: None,
                    tests: st.tests.push(
                        TestView {
                            output: output_table(contents),
                            ignore_output: t.ignore_output || ignore,
                            ..t
                        },
                    ),
                    ..st
                },
                None => ExtractState {
                    orphan: if st.orphan is Some {
                        st.orphan
                    } else {
                        Some(starting_line)
                    },
                    ..st
                },
            },
            BlockKind::Other => st,
        },
    }
}

/// The state after all of `events`, taken in order.
pub open spec fn run(st: ExtractState, events: Seq<EventView>) -> ExtractState
    decreases events.len(),
{
    if events.len() == 0 {
        st
    } else {
        run(step(st, events[0]), events.skip(1))
    }
}

/// The tests of the text `s`, in source order.
pub open spec fn extract_tests(s: Seq<char>) -> Seq<TestView> {
    let end = run(initial_state(), events_of(s));
    with_pending(end.tests, end.pending)
}

/// The line of the first result block in `s` that follows no query block.
pub open spec fn first_orphan_output(s: Seq<char>) -> Option<nat> {
    run(initial_state(), events_of(s)).orphan
}

/// The view of tests with one more is the view with one more.
pub proof fn lemma_tests_view_push(v: Seq<Test>, t: Test)
    ensures
        tests_view(v.push(t)) == tests_view(v).push(t@),
{
    assert(tests_view(v.push(t)) =~= tests_view(v).push(t@));
}

/// Moves a pending test, if there is one, to the finished tests.
fn finish_pending(pending: Option<Test>, tests: &mut Vec<Test>)
    ensures
        tests_view(final(tests)@) == with_pending(
            tests_view(old(tests)@),
            match pending {
                Some(t) => Some(t@),
                None => None,
            },
        ),
{
    match pending {
        Some(t) => {
            let done = Test {
                line: t.line,
                header: t.header,
                text: t.text,
                output: t.output,
                transactional: t.transactional,
                ignore_output: true,
            };
            proof {
                lemma_tests_view_push(tests@, done);
            }
            tests.push(done);
        },
        None => {},
    }
}

/// The text of a heading between backticks.
fn quote_heading(text: &str) -> (q: Vec<char>)
    ensures
        q@ == quoted(text@),
{
    let chars = chars_of(text);
    let mut q: Vec<char> = Vec::new();
    q.push('`');
    let mut i: usize = 0;
    while i < chars.len()
        invariant
            i <= chars.len(),
            q@ == seq!['`'] + chars@.take(i as int),
        decreases chars.len() - i,
    {
        q.push(chars[i]);
        i += 1;
    }
    assert(chars@.take(chars.len() as int) == chars@);
    q.push('`');
    assert(q@ =~= quoted(text@));
    q
}

/// Extracts the tests of `s` and notes the first result block without a
/// query before it.
fn extract(s: &str) -> (r: (Vec<Test>, Option<usize>))
    ensures
        tests_view(r.0@) == extract_tests(s@),
        match r.1 {
            Some(line) => first_orphan_output(s@) == Some(line as nat),
            None => first_orphan_output(s@) is None,
        },
{
    let mut parser = BlockParser::new(s);
    let mut headings: Vec<Vec<char>> = Vec::new();
    headings.push(Vec::new());
    let mut tests: Vec<Test> = Vec::new();
    let mut pending: Option<Test> = None;
    let mut orphan: Option<usize> = None;
    let ghost mut st = initial_state();
    proof {
        assert(texts(headings@) =~= st.headings);
        assert(tests_view(tests@) =~= st.tests);
    }
    loop
        invariant
            parser.position() <= parser.lines().len(),
            texts(headings@) == st.headings,
            tests_view(tests@) == st.tests,
            match pending {
                Some(t) => st.pending == Some(t@),
                None => st.pending is None,
            },
            match orphan {
                Some(line) => st.orphan == Some(line as nat),
                None => st.orphan is None,
            },
            run(initial_state(), events_of(s@)) == run(st, parser.remaining()),
        ensures
            texts(headings@) == st.headings,
            tests_view(tests@) == st.tests,
            match pending {
                Some(t) => st.pending == Some(t@),
                None => st.pending is None,
            },
            match orphan {
                Some(line) => st.orphan == Some(line as nat),
                None => st.orphan is None,
            },
            run(initial_state(), events_of(s@)) == st,
        decreases parser.lines().len() - parser.position(),
    {
        let ghost before = parser.remaining();
        let event = parser.next();
        match event {
            None => {
                break ;
            },
            Some(ev) => {
                proof {
                    assert(before[0] == ev@);
                    assert(before.skip(1) =~= parser.remaining());
                    st = step(st, ev@);
                }
                match ev {
                    Event::Heading { level, text } => {
                        let q = quote_heading(text.as_str());
                        proof {
                            lemma_texts_push(headings@.take(level as int), q);
                            lemma_texts_push(headings@, q);
                            if level <= headings.len() {
                                assert(texts(headings@.subrange(0, level as int)) =~= texts(
                                    headings@,
                                ).take(level as int));
                            }
                        }
                        headings.truncate(level);
                        headings.push(q);
                    },
                    Event::CodeBlock { starting_line, attributes, contents } => {
                        match parse_code_block_attrs(attributes.as_str()) {
                            BlockKind::Sql { ignore_output, stateless } => {
                                let joined = concat_vecs(&headings);
                                let header = string_of(&joined);
                                finish_pending(pending, &mut tests);
                                let test = Test {
                                    line: starting_line,
                                    header,
                                    text: contents,
                                    output: Vec::new(),
                                    transactional: stateless,
                                    ignore_output,
                                };
                                assert(table_view(test.output@) =~= Seq::<
                                    Seq<Seq<char>>,
                                >::empty());
                                pending = Some(test);
                            },
                            BlockKind::Output { ignore } => {
                                match pending {
                                    Some(t) => {
                                        let done = Test {
                                            line: t.line,
                                            header: t.header,
                                            text: t.text,
                                            output: parse_output(contents),
                                            transactional: t.transactional,
                                            ignore_output: t.ignore_output || ignore,
                                        };
                                        proof {
                                            lemma_tests_view_push(tests@, done);
                                        }
                                        tests.push(done);
                                    },
                                    None => {
                                        if orphan.is_none() {
                                            orphan = Some(starting_line);
                                        }
                                    },
                                }
                                pending = None;
                            },
                            BlockKind::Other => {},
                        }
                    },
                }
            },
        }
    }
    finish_pending(pending, &mut tests);
    (tests, orphan)
}

/// Extracts the tests of the text `s`, in source order. Constructs that are
/// not recognised, and a result block that follows no query block, are
/// passed over.
pub fn extract_tests_from_string(s: &str) -> (tests: Vec<Test>)
    ensures
        tests_view(tests@) == extract_tests(s@),
{
    let (tests, _) = extract(s);
    tests
}

/// Extracts the tests of the text `s` as `extract_tests_from_string` does,
/// and fails where a result block follows no query block.
pub fn try_extract_tests_from_string(s: &str) -> (r: Result<Vec<Test>, ExtractionError>)
    ensures
        match r {
            Ok(tests) => first_orphan_output(s@) is None && tests_view(tests@) == extract_tests(
                s@,
            ),
            Err(e) => e matches ExtractionError::OutputWithoutQuery { line }
                && first_orphan_output(s@) == Some(line as nat),
        },
{
    let (tests, orphan) = extract(s);
    match orphan {
        Some(line) => Err(ExtractionError::OutputWithoutQuery { line }),
        None => Ok(tests),
    }
}

/// A heading of `level` puts its text behind the headings above that
/// level, which stay, and in place of all at or below it.
pub proof fn lemma_heading_replaces_lower_levels(
    headings: Seq<Seq<char>>,
    level: nat,
    text: Seq<char>,
)
    ensures
        ({
            let kept = if level <= headings.len() {
                level
            } else {
                headings.len()
            };
            let after = push_heading(headings, level, text);
            &&& after.len() == kept + 1
            &&& after.last() == quoted(text)
            &&& forall|i: int| 0 <= i < kept ==> after[i] == headings[i]
            &&& concat(after) == concat(headings.take(kept as int)) + quoted(text)
        }),
{
    let kept = if level <= headings.len() {
        level
    } else {
        headings.len()
    };
    let after = push_heading(headings, level, text);
    assert(headings.take(headings.len() as int) =~= headings);
    assert(after.drop_last() =~= headings.take(kept as int));
}

/// A heading changes the headings and nothing else, and the header of the
/// next query is the headings put together.
pub proof fn lemma_heading_only_moves_the_header(st: ExtractState, level: nat, text: Seq<char>)
    ensures
        step(st, EventView::Heading { level, text }) == (ExtractState {
            headings: push_heading(st.headings, level, text),
            ..st
        }),
{
}

/// `ignore` outranks every other attribute: a block that carries it is of
/// no kind, and leaves the extraction as it was.
pub proof fn lemma_ignore_outranks_all(
    st: ExtractState,
    starting_line: nat,
    attributes: Seq<char>,
    contents: Seq<char>,
)
    requires
        has_token(attributes, "ignore"@),
    ensures
        block_kind(attributes) == BlockKind::Other,
        step(st, EventView::CodeBlock { starting_line, attributes, contents }) == st,
{
}

/// Whether the query that waits for its result has no expected rows yet.
pub open spec fn pending_is_bare(st: ExtractState) -> bool {
    st.pending matches Some(t) ==> t.output.len() == 0
}

/// A query that waits for its result never has expected rows: they come
/// with the result block, which finishes the test.
pub proof fn lemma_pending_stays_bare(st: ExtractState, events: Seq<EventView>)
    requires
        pending_is_bare(st),
    ensures
        pending_is_bare(run(st, events)),
    decreases events.len(),
{
    if events.len() > 0 {
        lemma_pending_stays_bare(step(st, events[0]), events.skip(1));
    }
}

/// A query block that is followed by the next query block, with no result
/// block between them, becomes a test that is not checked and expects no
/// rows.
pub proof fn lemma_query_before_query_is_unchecked(
    st: ExtractState,
    t: TestView,
    starting_line: nat,
    attributes: Seq<char>,
    contents: Seq<char>,
)
    requires
        st.pending == Some(t),
        pending_is_bare(st),
        block_kind(attributes) is Sql,
    ensures
        step(st, EventView::CodeBlock { starting_line, attributes, contents }).tests
            == st.tests.push(TestView { ignore_output: true, output: seq![], ..t }),
{
    assert(t.output =~= seq![]);
}

/// A query block that is followed by the end of the text, with no result
/// block between them, becomes a test that is not checked and expects no
/// rows.
pub proof fn lemma_query_before_end_is_unchecked(s: Seq<char>, t: TestView)
    requires
        run(initial_state(), events_of(s)).pending == Some(t),
    ensures
        extract_tests(s) == run(initial_state(), events_of(s)).tests.push(
            TestView { ignore_output: true, output: seq![], ..t },
        ),
{
    lemma_pending_stays_bare(initial_state(), events_of(s));
    assert(t.output =~= seq![]);
}

/// Whether `event` is a query block.
pub open spec fn is_query(event: EventView) -> bool {
    event matches EventView::CodeBlock { attributes, .. } && block_kind(attributes) is Sql
}

/// Whether `event` is a result block.
pub open spec fn is_result(event: EventView) -> bool {
    event matches EventView::CodeBlock { attributes, .. } && block_kind(attributes) is Output
}

/// Whether the blocks among `events` are query blocks and result blocks in
/// turn and nothing else, beginning with a result block if `open` and with
/// a query block if not, and ending with a result block.
pub open spec fn paired(events: Seq<EventView>, open: bool) -> bool
    decreases events.len(),
{
    if events.len() == 0 {
        !open
    } else if events[0] is Heading {
        paired(events.skip(1), open)
    } else if is_query(events[0]) {
        !open && paired(events.skip(1), true)
    } else if is_result(events[0]) {
        open && paired(events.skip(1), false)
    } else {
        false
    }
}

/// The query blocks among `events`, in source order.
pub open spec fn queries(events: Seq<EventView>) -> Seq<EventView>
    decreases events.len(),
{
    if events.len() == 0 {
        seq![]
    } else if is_query(events[0]) {
        seq![events[0]] + queries(events.skip(1))
    } else {
        queries(events.skip(1))
    }
}

/// The result blocks among `events`, in source order.
pub open spec fn results(events: Seq<EventView>) -> Seq<EventView>
    decreases events.len(),
{
    if events.len() == 0 {
        seq![]
    } else if is_result(events[0]) {
        seq![events[0]] + results(events.skip(1))
    } else {
        results(events.skip(1))
    }
}

/// The query blocks of which the tests from `from` on are made: the one
/// that waits, if one does, and then those among `events`.
pub open spec fn queries_with_pending(st: ExtractState, events: Seq<EventView>) -> Seq<
    (nat, Seq<char>),
> {
    let later = queries(events).map_values(
        |e: EventView| (e->starting_line, e->contents),
    );
    match st.pending {
        Some(t) => seq![(t.line, t.text)] + later,
        None => later,
    }
}

/// From any state, events whose blocks are pairs of a query block and a
/// result block add one test for each result block, in source order, and
/// leave no query waiting.
pub proof fn lemma_pairs_from(st: ExtractState, events: Seq<EventView>)
    requires
        paired(events, st.pending is Some),
    ensures
        ({
            let end = run(st, events);
            let n = st.tests.len() as int;
            let qs = queries_with_pending(st, events);
            let rs = results(events);
            &&& end.pending is None
            &&& end.orphan == st.orphan
            &&& qs.len() == rs.len()
            &&& end.tests.len() == n + rs.len()
            &&& end.tests.take(n) == st.tests
            &&& forall|k: int|
                0 <= k < rs.len() ==> (#[trigger] end.tests[n + k]).line == qs[k].0 && end.tests[n
                    + k].text == qs[k].1 && end.tests[n + k].output == output_table(
                    rs[k]->contents,
                )
        }),
    decreases events.len(),
{
    let n = st.tests.len() as int;
    if events.len() == 0 {
        assert(st.tests.take(n) =~= st.tests);
    } else {
        let e = events[0];
        let rest = events.skip(1);
        let next = step(st, e);
        let end = run(st, events);
        assert(end == run(next, rest));
        let qs = queries_with_pending(st, events);
        let rs = results(events);
        let later = queries(events).map_values(|e: EventView| (e->starting_line, e->contents));
        let later_rest = queries(rest).map_values(
            |e: EventView| (e->starting_line, e->contents),
        );
        if e is Heading {
            lemma_pairs_from(next, rest);
            assert(queries_with_pending(next, rest) =~= qs);
        } else if is_query(e) {
            lemma_pairs_from(next, rest);
            assert(next.tests == st.tests);
            assert(later =~= seq![(e->starting_line, e->contents)] + later_rest);
            assert(queries_with_pending(next, rest) =~= qs);
        } else {
            assert(is_result(e));
            let t = st.pending->0;
            lemma_pairs_from(next, rest);
            assert(next.tests.len() == n + 1);
            assert(later =~= later_rest);
            let qs_next = queries_with_pending(next, rest);
            assert(qs =~= seq![(t.line, t.text)] + qs_next);
            let rs_rest = results(rest);
            assert(rs =~= seq![e] + rs_rest);
            assert(end.tests.take(n) =~= st.tests) by {
                assert(end.tests.take(n + 1) == next.tests);
                assert forall|i: int| 0 <= i < n implies end.tests.take(n)[i] == st.tests[i] by {
                    assert(end.tests.take(n + 1)[i] == next.tests[i]);
                }
            }
            assert forall|k: int| 0 <= k < rs.len() implies (#[trigger] end.tests[n + k]).line
                == qs[k].0 && end.tests[n + k].text == qs[k].1 && end.tests[n + k].output
                == output_table(rs[k]->contents) by {
                if k == 0 {
                    assert(end.tests.take(n + 1)[n] == next.tests[n]);
                } else {
                    assert(end.tests[(n + 1) + (k - 1)].line == qs_next[k - 1].0);
                    assert(rs[k] == rs_rest[k - 1]);
                    assert(qs[k] == qs_next[k - 1]);
                }
            }
        }
    }
}

/// A text whose blocks are N pairs of a query block and a result block,
/// with nothing ignored, yields exactly N tests, in source order: the test
/// at each place has the line and the text of the query block at that
/// place and the rows of the result block at that place.
pub proof fn lemma_pairs_give_one_test_each(s: Seq<char>)
    requires
        paired(events_of(s), false),
    ensures
        ({
            let tests = extract_tests(s);
            let qs = queries(events_of(s));
            let rs = results(events_of(s));
            &&& first_orphan_output(s) is None
            &&& tests.len() == qs.len()
            &&& tests.len() == rs.len()
            &&& forall|k: int|
                0 <= k < tests.len() ==> (#[trigger] tests[k]).line == qs[k]->starting_line
                    && tests[k].text == qs[k]->contents && tests[k].output == output_table(
                    rs[k]->contents,
                )
        }),
{
    let st = initial_state();
    let events = events_of(s);
    lemma_pairs_from(st, events);
    let end = run(st, events);
    let tests = extract_tests(s);
    assert(tests == end.tests);
    let qs = queries(events);
    let pairs = queries_with_pending(st, events);
    assert(pairs.len() == qs.len());
    assert forall|k: int| 0 <= k < tests.len() implies (#[trigger] tests[k]).line
        == qs[k]->starting_line && tests[k].text == qs[k]->contents && tests[k].output
        == output_table(results(events)[k]->contents) by {
        assert(end.tests[0 + k].line == pairs[k].0);
        assert(pairs[k] == (qs[k]->starting_line, qs[k]->contents));
    }
}

/// Whether the blocks among `events` open on lines that grow from block to
/// block, the first of them behind line `floor`.
pub open spec fn lines_grow(events: Seq<EventView>, floor: int) -> bool
    decreases events.len(),
{
    if events.len() == 0 {
        true
    } else {
        match events[0] {
            EventView::Heading { .. } => lines_grow(events.skip(1), floor),
            EventView::CodeBlock { starting_line, .. } => floor < starting_line && lines_grow(
                events.skip(1),
                starting_line as int,
            ),
        }
    }
}

/// Whether the tests of `st` stand in the order of their lines, the query
/// that waits behind all of them, and none behind line `floor`.
pub open spec fn in_line_order(st: ExtractState, floor: int) -> bool {
    &&& forall|i: int, j: int|
        0 <= i < j < st.tests.len() ==> (#[trigger] st.tests[i]).line < (
        #[trigger] st.tests[j]).line
    &&& forall|i: int| 0 <= i < st.tests.len() ==> (#[trigger] st.tests[i]).line <= floor
    &&& st.pending matches Some(t) ==> t.line <= floor && forall|i: int|
        0 <= i < st.tests.len() ==> (#[trigger] st.tests[i]).line < t.line
}

/// Lines that grow from a floor grow from every lower floor.
proof fn lemma_lines_grow_from_lower(events: Seq<EventView>, floor: int, lower: int)
    requires
        lines_grow(events, floor),
        lower <= floor,
    ensures
        lines_grow(events, lower),
    decreases events.len(),
{
    if events.len() > 0 && events[0] is Heading {
        lemma_lines_grow_from_lower(events.skip(1), floor, lower);
    }
}

/// The blocks of a text open on lines that grow from block to block.
pub proof fn lemma_events_are_in_line_order(lines: Seq<Seq<char>>, pos: int)
    requires
        0 <= pos,
    ensures
        lines_grow(events_from(lines, pos), pos),
    decreases
            (if pos < lines.len() {
                lines.len() - pos
            } else {
                0
            }),
{
    if pos < lines.len() {
        let next = after_line(lines, pos);
        lemma_events_are_in_line_order(lines, next);
        let rest = events_from(lines, next);
        match event_at(lines, pos) {
            Some(e) => {
                let events = events_from(lines, pos);
                assert(events[0] == e);
                assert(events.skip(1) =~= rest);
                if e is Heading {
                    lemma_lines_grow_from_lower(rest, next, pos);
                } else {
                    lemma_lines_grow_from_lower(rest, next, pos + 1);
                }
            },
            None => {
                lemma_lines_grow_from_lower(rest, next, pos);
            },
        }
    }
}

/// Events whose lines grow keep the tests in the order of their lines.
proof fn lemma_run_keeps_line_order(st: ExtractState, events: Seq<EventView>, floor: int)
    requires
        in_line_order(st, floor),
        lines_grow(events, floor),
    ensures
        exists|last: int| in_line_order(run(st, events), last),
    decreases events.len(),
{
    if events.len() == 0 {
        assert(in_line_order(run(st, events), floor));
    } else {
        let next = step(st, events[0]);
        match events[0] {
            EventView::Heading { .. } => {
                assert(in_line_order(next, floor));
                lemma_run_keeps_line_order(next, events.skip(1), floor);
            },
            EventView::CodeBlock { starting_line, .. } => {
                assert(in_line_order(next, starting_line as int));
                lemma_run_keeps_line_order(next, events.skip(1), starting_line as int);
            },
        }
    }
}

/// The tests of a text come in source order: each opens on a later line
/// than the one before it.
pub proof fn lemma_tests_are_in_source_order(s: Seq<char>)
    ensures
        forall|i: int, j: int|
            0 <= i < j < extract_tests(s).len() ==> (#[trigger] extract_tests(s)[i]).line < (
            #[trigger] extract_tests(s)[j]).line,
{
    let events = events_of(s);
    lemma_events_are_in_line_order(split_lines(s), 0);
    assert(in_line_order(initial_state(), 0));
    lemma_run_keeps_line_order(initial_state(), events, 0);
    let end = run(initial_state(), events);
    let last = choose|last: int| in_line_order(end, last);
    assert(in_line_order(end, last));
}

} // verus!
