use sql_doctester::test_parser::{
    extract_tests_from_string, parse_code_block_attrs, parse_output,
    try_extract_tests_from_string, BlockKind, BlockParser, Event,
};
use sql_doctester::{ExtractionError, Test};

const TEST_CONTENTS: &str = r##"
# Test Parsing
```SQL
select * from foo
```
```output
```

```SQL
select * from multiline;
select * from multiline;
```
```output
 ?column?
----------
    value
```

## ignored
```SQL,ignore
select * from foo
```

## non-transactional
```SQL,non-transactional
select * from bar
```
```output, precision(1: 3)
 a | b
---+---
 1 | 2
```

## indented

    ```SQL
    select indented;
  select keeps_whitespace;
    ```
    ```output
     ???
    -----
    a | b
    ```

## no output
```SQL,ignore-output
select * from baz
```

## end by header
```SQL
select * from quz
```

## end by file
```SQL
select * from qat
```
"##;

fn heading(level: usize, text: &str) -> Event {
    Event::Heading {
        level,
        text: text.to_string(),
    }
}

fn code_block(starting_line: usize, attributes: &str, contents: &str) -> Event {
    Event::CodeBlock {
        starting_line,
        attributes: attributes.to_string(),
        contents: contents.to_string(),
    }
}

fn events_of(s: &str) -> Vec<Event> {
    let mut parser = BlockParser::new(s);
    let mut events = Vec::new();
    while let Some(event) = parser.next() {
        events.push(event);
    }
    events
}

fn test(
    line: usize,
    header: &str,
    text: &str,
    output: Vec<Vec<&str>>,
    transactional: bool,
    ignore_output: bool,
) -> Test {
    Test {
        line,
        header: header.to_string(),
        text: text.to_string(),
        output: output
            .into_iter()
            .map(|row| row.into_iter().map(|cell| cell.to_string()).collect())
            .collect(),
        transactional,
        ignore_output,
    }
}

#[test]
fn block_parser_extracts() {
    let events = events_of(TEST_CONTENTS);

    let expected = vec![
        heading(1, "Test Parsing"),
        code_block(3, "SQL", "select * from foo"),
        code_block(6, "output", ""),
        code_block(
            9,
            "SQL",
            "select * from multiline;\nselect * from multiline;",
        ),
        code_block(13, "output", " ?column?\n----------\n    value"),
        heading(2, "ignored"),
        code_block(20, "SQL,ignore", "select * from foo"),
        heading(2, "non-transactional"),
        code_block(25, "SQL,non-transactional", "select * from bar"),
        code_block(28, "output, precision(1: 3)", " a | b\n---+---\n 1 | 2"),
        heading(2, "indented"),
        code_block(
            36,
            "SQL",
            "select indented;\n  select keeps_whitespace;",
        ),
        code_block(40, "output", " ???\n-----\na | b"),
        heading(2, "no output"),
        code_block(47, "SQL,ignore-output", "select * from baz"),
        heading(2, "end by header"),
        code_block(52, "SQL", "select * from quz"),
        heading(2, "end by file"),
        code_block(57, "SQL", "select * from qat"),
    ];
    assert_eq!(events, expected);
}

#[test]
fn extract_tests_extracts() {
    let tests = extract_tests_from_string(TEST_CONTENTS);
    let expected = vec![
        Test {
            line: 3,
            header: "`Test Parsing`".to_string(),
            text: "select * from foo".to_string(),
            output: vec![],
            transactional: true,
            ignore_output: false,
        },
        Test {
            line: 9,
            header: "`Test Parsing`".to_string(),
            text: "select * from multiline;\nselect * from multiline;".to_string(),
            output: vec![vec!["value".to_string()]],
            transactional: true,
            ignore_output: false,
        },
        Test {
            line: 25,
            header: "`Test Parsing``non-transactional`".to_string(),
            text: "select * from bar".to_string(),
            output: vec![vec!["1".to_string(), "2".to_string()]],
            transactional: false,
            ignore_output: false,
        },
        Test {
            line: 36,
            header: "`Test Parsing``indented`".to_string(),
            text: "select indented;\n  select keeps_whitespace;".to_string(),
            output: vec![vec!["a".to_string(), "b".to_string()]],
            transactional: true,
            ignore_output: false,
        },
        Test {
            line: 47,
            header: "`Test Parsing``no output`".to_string(),
            text: "select * from baz".to_string(),
            output: vec![],
            transactional: true,
            ignore_output: true,
        },
        Test {
            line: 52,
            header: "`Test Parsing``end by header`".to_string(),
            text: "select * from quz".to_string(),
            output: vec![],
            transactional: true,
            ignore_output: true,
        },
        Test {
            line: 57,
            header: "`Test Parsing``end by file`".to_string(),
            text: "select * from qat".to_string(),
            output: vec![],
            transactional: true,
            ignore_output: true,
        },
    ];
    assert_eq!(tests, expected);
}

#[test]
fn empty_text_has_no_events_and_no_tests() {
    assert_eq!(events_of(""), vec![]);
    assert_eq!(extract_tests_from_string(""), vec![]);
}

#[test]
fn heading_level_counts_the_marker_run() {
    assert_eq!(events_of("  ### deep  "), vec![heading(3, "deep  ")]);
    assert_eq!(events_of("#"), vec![heading(1, "")]);
}

#[test]
fn lines_end_at_line_feed_with_optional_carriage_return() {
    assert_eq!(
        events_of("# A\r\n```sql\r\nselect 1;\r\n```\r\n"),
        vec![heading(1, "A"), code_block(2, "sql", "select 1;")]
    );
}

#[test]
fn unclosed_block_runs_to_the_end_of_the_text() {
    assert_eq!(
        events_of("```sql\nselect 1;\nselect 2;"),
        vec![code_block(1, "sql", "select 1;\nselect 2;")]
    );
}

#[test]
fn indentation_of_the_fence_is_stripped_once() {
    assert_eq!(
        events_of("  ```sql\n    a\n b\n  ```"),
        vec![code_block(1, "sql", "  a\n b")]
    );
    assert_eq!(
        events_of("  ```sql\n      select 1\n  ```"),
        vec![code_block(1, "sql", "    select 1")]
    );
    assert_eq!(
        events_of("\t```sql\n\t\tx\n \ty\n\t```"),
        vec![code_block(1, "sql", "\tx\n \ty")]
    );
}

#[test]
fn fence_without_indentation_leaves_the_lines_as_they_are() {
    assert_eq!(
        events_of("```sql\n  a\nb\n```"),
        vec![code_block(1, "sql", "  a\nb")]
    );
}

#[test]
fn whole_run_of_backticks_is_the_marker() {
    assert_eq!(
        events_of("````sql\n```\ninner\n```\n````\n# after"),
        vec![
            code_block(1, "sql", "```\ninner\n```"),
            heading(1, "after")
        ]
    );
    assert_eq!(
        events_of("```sql\nbody\n`````tail\n# after"),
        vec![code_block(1, "sql", "body"), heading(1, "after")]
    );
    assert_eq!(
        events_of("`````  output , x\nbody\n````\n`````"),
        vec![code_block(1, "output , x", "body\n````")]
    );
    assert_eq!(
        extract_tests_from_string("````SQL\nselect 1;\n````\n"),
        vec![test(1, "", "select 1;", vec![], true, true)]
    );
}

#[test]
fn fewer_than_three_backticks_open_nothing() {
    assert_eq!(events_of("``sql\nbody\n``"), vec![]);
    assert_eq!(events_of("`"), vec![]);
    assert_eq!(events_of("```"), vec![code_block(1, "", "")]);
}

#[test]
fn text_between_events_is_passed_over() {
    assert_eq!(
        events_of("prose\n\n# H\nmore prose\n```\nbody\n```\ntrailing"),
        vec![heading(1, "H"), code_block(5, "", "body")]
    );
}

#[test]
fn headings_replace_the_levels_below_them() {
    let tests = extract_tests_from_string(
        "# A\n```sql\nq0\n```\n## B\n```sql\nq1\n```\n## C\n```sql\nq2\n```\n",
    );
    let headers: Vec<&str> = tests.iter().map(|t| t.header.as_str()).collect();
    assert_eq!(headers, vec!["`A`", "`A``B`", "`A``C`"]);
}

#[test]
fn a_deeper_heading_than_the_stack_is_appended() {
    let tests = extract_tests_from_string("### C\n```sql\nq\n```\n# A\n```sql\nr\n```\n");
    let headers: Vec<&str> = tests.iter().map(|t| t.header.as_str()).collect();
    assert_eq!(headers, vec!["`C`", "`A`"]);
}

#[test]
fn attributes_are_classified() {
    let sql = BlockKind::Sql {
        ignore_output: false,
        stateless: true,
    };
    assert_eq!(parse_code_block_attrs("sql"), sql);
    assert_eq!(parse_code_block_attrs(" SQL "), sql);
    assert_eq!(parse_code_block_attrs("rust, Sql ,unknown"), sql);
    assert_eq!(
        parse_code_block_attrs("sql,stateful"),
        BlockKind::Sql {
            ignore_output: false,
            stateless: false
        }
    );
    assert_eq!(
        parse_code_block_attrs("SQL,Non-Transactional"),
        BlockKind::Sql {
            ignore_output: false,
            stateless: false
        }
    );
    assert_eq!(
        parse_code_block_attrs("sql,ignore-output"),
        BlockKind::Sql {
            ignore_output: true,
            stateless: true
        }
    );
    assert_eq!(
        parse_code_block_attrs("output"),
        BlockKind::Output { ignore: false }
    );
    assert_eq!(
        parse_code_block_attrs("output, precision(1: 3)"),
        BlockKind::Output { ignore: false }
    );
    assert_eq!(
        parse_code_block_attrs("output,sql,stateful"),
        BlockKind::Output { ignore: false }
    );
    assert_eq!(parse_code_block_attrs(""), BlockKind::Other);
    assert_eq!(parse_code_block_attrs("rust"), BlockKind::Other);
    assert_eq!(parse_code_block_attrs("sqlx"), BlockKind::Other);
}

#[test]
fn ignore_outranks_every_other_attribute() {
    assert_eq!(parse_code_block_attrs("sql,ignore"), BlockKind::Other);
    assert_eq!(parse_code_block_attrs("IGNORE,output"), BlockKind::Other);
    assert_eq!(
        parse_code_block_attrs("sql,stateful,ignore-output, ignore "),
        BlockKind::Other
    );
    assert_eq!(
        extract_tests_from_string("```sql,ignore\nq\n```\n```output,ignore\n a\n---\n 1\n```\n"),
        vec![]
    );
}

#[test]
fn output_is_parsed_into_trimmed_cells() {
    assert_eq!(parse_output("".to_string()), Vec::<Vec<String>>::new());
    assert_eq!(
        parse_output(" a | b\n---+---".to_string()),
        Vec::<Vec<String>>::new()
    );
    assert_eq!(
        parse_output(" a | b\n---+---\n 1 | 2\n  30|\t4 ".to_string()),
        vec![
            vec!["1".to_string(), "2".to_string()],
            vec!["30".to_string(), "4".to_string()]
        ]
    );
    assert_eq!(
        parse_output("a\n-\n\n x ".to_string()),
        vec![vec!["".to_string()], vec!["x".to_string()]]
    );
}

#[test]
fn query_without_output_is_not_checked() {
    let tests = extract_tests_from_string("```sql\nq0\n```\n```sql\nq1\n```\n");
    assert_eq!(
        tests,
        vec![
            test(1, "", "q0", vec![], true, true),
            test(4, "", "q1", vec![], true, true)
        ]
    );
}

#[test]
fn pairs_give_one_test_each_in_source_order() {
    let tests = extract_tests_from_string(
        "```sql\nq0\n```\n```output\n a\n---\n 0\n```\n```sql\nq1\n```\n```output\n a\n---\n 1\n```\n```sql\nq2\n```\n```output\n a\n---\n 2\n```\n",
    );
    assert_eq!(
        tests,
        vec![
            test(1, "", "q0", vec![vec!["0"]], true, false),
            test(9, "", "q1", vec![vec!["1"]], true, false),
            test(17, "", "q2", vec![vec!["2"]], true, false)
        ]
    );
}

#[test]
fn ignore_output_on_the_query_survives_an_output_block() {
    let tests =
        extract_tests_from_string("```sql,ignore-output\nq\n```\n```output\n a\n---\n 1\n```\n");
    assert_eq!(
        tests,
        vec![test(1, "", "q", vec![vec!["1"]], true, true)]
    );
}

#[test]
fn output_without_query_is_passed_over_or_reported() {
    let text = "# H\n```output\n a\n---\n 1\n```\n```sql\nq\n```\n";
    assert_eq!(
        extract_tests_from_string(text),
        vec![test(7, "`H`", "q", vec![], true, true)]
    );
    assert_eq!(
        try_extract_tests_from_string(text),
        Err(ExtractionError::OutputWithoutQuery { line: 2 })
    );
    assert_eq!(
        try_extract_tests_from_string("```sql\nq\n```\n"),
        Ok(vec![test(1, "", "q", vec![], true, true)])
    );
}

#[test]
fn end_to_end_block_parses_to_one_transactional_test() {
    let tests =
        extract_tests_from_string("# Success\n```SQL\nselect 1;\n```\n```output\n a\n---\n 1\n```");
    assert_eq!(
        tests,
        vec![test(
            2,
            "`Success`",
            "select 1;",
            vec![vec!["1"]],
            true,
            false
        )]
    );
}

#[test]
fn indentation_is_any_unicode_whitespace() {
    for code in 0..0x3100u32 {
        let c = match char::from_u32(code) {
            Some(c) => c,
            None => panic!("every code below the surrogates is a character"),
        };
        let found = !events_of(&format!("{}#", c)).is_empty();
        assert_eq!(found, c.is_whitespace() || c == '#', "U+{:04X}", code);
    }
    assert_eq!(events_of("\u{feff}#"), vec![]);
    assert_eq!(events_of("\u{200b}#"), vec![]);
    assert_eq!(events_of("\u{3000}\u{a0}\t # t"), vec![heading(1, "t")]);
}

#[test]
fn attribute_words_ignore_the_case_of_ascii_letters_only() {
    let sql = BlockKind::Sql {
        ignore_output: false,
        stateless: true,
    };
    for code in 0..0x250u32 {
        let c = match char::from_u32(code) {
            Some(c) => c,
            None => panic!("every code below the surrogates is a character"),
        };
        let kind = parse_code_block_attrs(&format!("{}ql", c));
        if c == 's' || c == 'S' {
            assert_eq!(kind, sql, "U+{:04X}", code);
        } else {
            assert_eq!(kind, BlockKind::Other, "U+{:04X}", code);
        }
    }
    assert_eq!(parse_code_block_attrs("\u{a0}sQl\u{2003}"), sql);
}
