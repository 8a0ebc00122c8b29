use sql_doctester::{
    extract_all_tests_from_file, extract_marked_tests_from_file, extract_tests_from_source,
    find_marked_tests_blocks, gather, kind_of_file, kind_of_named, source_kind, ExtractionError,
    SourceKind, Test, TestFile,
};

// A source file in small: settings that name the markers, two marked
// blocks of tests, and two calls that name the markers again.
const SOURCE: &str = r##"
    #[clap(short, long, default_value = "/*--[sql-tests]")]
    start_marker: String,

    #[clap(short, long, default_value = "*/")]
    end_marker: String,

    // Example tests that will be tested
    /*--[sql-tests]
    Single test
    # Test Parsing is correct
    ```SQL
    select * from foo
    ```
    ```output
    ```
    */
    /*--[sql-tests]
    Multiple tests in one block
    # Test Parsing is correct
    ```SQL
    select * from foo
    ```
    ```output
    ```

    ```SQL
    select * from multiline
    ```
    ```output
    ?column?
    ----------
        value
    ```

    ## ignored
    ```SQL,ignore
    select * from foo
    ```

    ## non-transactional
    ```SQL,non-transactional
    select * from bar
    ```
    ```output, precision(1: 3)
    a | b
    ---+---
    1 | 2
    ```

    ## no output
    ```SQL,ignore-output
    select * from baz
    ```

    ## end by header
    ```SQL
    select * from quz
    ```

    ## end by file
    ```SQL
    select * from qat
    ```
    */

    let blocks = find_marked_tests_blocks(&this_file, "/*--[sql-tests]", "*/");
    let tests = extract_tests_from_path(path, "/*--[sql-tests]", "*/");
"##;

fn test(
    line: usize,
    header: &str,
    text: &str,
    output: Vec<Vec<&str>>,
    transactional: bool,
    ignore_output: bool,
) -> Test {
    Test {
        line,
        header: header.to_string(),
        text: text.to_string(),
        output: output
            .into_iter()
            .map(|row| row.into_iter().map(|cell| cell.to_string()).collect())
            .collect(),
        transactional,
        ignore_output,
    }
}

#[test]
fn marked_blocks_are_found_with_their_offsets() {
    let blocks = find_marked_tests_blocks("ab<<one>>cd<<two>><<>>", "<<", ">>");
    assert_eq!(
        blocks,
        Ok(vec![
            (2, "one".to_string()),
            (11, "two".to_string()),
            (18, "".to_string())
        ])
    );
}

#[test]
fn test_block_finding_finds_tests() {
    let blocks: Vec<String> = find_marked_tests_blocks(SOURCE, "/*--[sql-tests]", "*/")
        .expect("could not parse file")
        .into_iter()
        .map(|(_, s)| s)
        .collect();
    let args = "\")]
    start_marker: String,

    #[clap(short, long, default_value = \"";
    let first_test = "
    Single test
    # Test Parsing is correct
    ```SQL
    select * from foo
    ```
    ```output
    ```
    ";
    let second_test = "
    Multiple tests in one block
    # Test Parsing is correct
    ```SQL
    select * from foo
    ```
    ```output
    ```

    ```SQL
    select * from multiline
    ```
    ```output
    ?column?
    ----------
        value
    ```

    ## ignored
    ```SQL,ignore
    select * from foo
    ```

    ## non-transactional
    ```SQL,non-transactional
    select * from bar
    ```
    ```output, precision(1: 3)
    a | b
    ---+---
    1 | 2
    ```

    ## no output
    ```SQL,ignore-output
    select * from baz
    ```

    ## end by header
    ```SQL
    select * from quz
    ```

    ## end by file
    ```SQL
    select * from qat
    ```
    ";
    // the markers are seen where the source names them in its code as well
    let expected_blocks = [args, first_test, second_test, r#"", ""#, r#"", ""#];
    assert_eq!(blocks, expected_blocks);
}

#[test]
fn offsets_count_bytes() {
    assert_eq!(
        find_marked_tests_blocks("\u{e9}\u{20ac}[x]", "[", "]"),
        Ok(vec![(5, "x".to_string())])
    );
}

#[test]
fn no_marker_gives_no_blocks() {
    assert_eq!(find_marked_tests_blocks("", "<<", ">>"), Ok(vec![]));
    assert_eq!(find_marked_tests_blocks("plain text", "<<", ">>"), Ok(vec![]));
    assert_eq!(find_marked_tests_blocks("<", "<<", ">>"), Ok(vec![]));
}

#[test]
fn start_marker_without_end_marker_is_an_error() {
    assert_eq!(
        find_marked_tests_blocks("ab<<one", "<<", ">>"),
        Err(ExtractionError::MissingEndMarker { start: 2 })
    );
    assert_eq!(
        find_marked_tests_blocks("<<a>> <<b", "<<", ">>"),
        Err(ExtractionError::MissingEndMarker { start: 6 })
    );
}

#[test]
fn end_marker_is_looked_for_behind_the_start_marker() {
    assert_eq!(
        find_marked_tests_blocks("|a|b|", "|", "|"),
        Err(ExtractionError::MissingEndMarker { start: 4 })
    );
    assert_eq!(
        find_marked_tests_blocks("aXa", "aX", "a"),
        Ok(vec![(0, "".to_string())])
    );
}

#[test]
fn start_markers_do_not_overlap() {
    assert_eq!(
        find_marked_tests_blocks("aaa.", "aa", "."),
        Ok(vec![(0, "a".to_string())])
    );
}

#[test]
fn test_parsing_this_file_works() {
    let tests = extract_marked_tests_from_file("src/main.rs", SOURCE, "/*--[sql-tests]", "*/");
    let tests = tests.expect("could not parse file");
    let expected = TestFile {
        name: "src/main.rs".to_string(),
        stateless: false,
        tests: vec![
            test(4, "`Test Parsing is correct`", "select * from foo", vec![], true, false),
            test(4, "`Test Parsing is correct`", "select * from foo", vec![], true, false),
            test(
                10,
                "`Test Parsing is correct`",
                "select * from multiline",
                vec![vec!["value"]],
                true,
                false,
            ),
            test(
                25,
                "`Test Parsing is correct``non-transactional`",
                "select * from bar",
                vec![vec!["1", "2"]],
                false,
                false,
            ),
            test(
                35,
                "`Test Parsing is correct``no output`",
                "select * from baz",
                vec![],
                true,
                true,
            ),
            test(
                40,
                "`Test Parsing is correct``end by header`",
                "select * from quz",
                vec![],
                true,
                true,
            ),
            test(
                45,
                "`Test Parsing is correct``end by file`",
                "select * from qat",
                vec![],
                true,
                true,
            ),
        ],
    };
    assert_eq!(tests, expected);
}

#[test]
fn marked_file_without_blocks_is_stateless_and_empty() {
    assert_eq!(
        extract_marked_tests_from_file("a.rs", "fn main() {}", "/*--[sql-tests]", "*/"),
        Ok(TestFile {
            name: "a.rs".to_string(),
            stateless: true,
            tests: vec![],
        })
    );
}

#[test]
fn marked_file_reports_the_unmatched_start_marker() {
    assert_eq!(
        extract_marked_tests_from_file("a.rs", "x /*--[sql-tests] # H", "/*--[sql-tests]", "*/"),
        Err(ExtractionError::MissingEndMarker { start: 2 })
    );
}

#[test]
fn marked_file_reports_the_output_block_without_a_query() {
    let contents = "/*--[sql-tests]\n```sql\nq\n```\n*/\n/*--[sql-tests]\n# H\n```output\n a\n---\n 1\n```\n*/";
    assert_eq!(
        extract_marked_tests_from_file("a.rs", contents, "/*--[sql-tests]", "*/"),
        Err(ExtractionError::OutputWithoutQuery { line: 3 })
    );
}

#[test]
fn whole_file_is_one_block() {
    let file = extract_all_tests_from_file(
        "doc.md",
        "# Doc\n```sql\nselect 1;\n```\n```output\n a\n---\n 1\n```\n",
    );
    assert_eq!(
        file,
        Ok(TestFile {
            name: "doc.md".to_string(),
            stateless: true,
            tests: vec![test(2, "`Doc`", "select 1;", vec![vec!["1"]], true, false)],
        })
    );
}

#[test]
fn file_with_a_stateful_test_is_stateful() {
    let file = extract_all_tests_from_file(
        "doc.md",
        "```sql\nselect 1;\n```\n```sql,stateful\ncreate table t();\n```\n",
    )
    .expect("a whole file always yields a test file");
    assert!(!file.stateless);
    assert_eq!(
        file.tests.iter().map(|t| t.transactional).collect::<Vec<_>>(),
        vec![true, false]
    );
}

#[test]
fn whole_file_passes_over_an_output_block_without_a_query() {
    let file = extract_all_tests_from_file("doc.md", "```output\n a\n---\n 1\n```\n");
    assert_eq!(
        file,
        Ok(TestFile {
            name: "doc.md".to_string(),
            stateless: true,
            tests: vec![],
        })
    );
}

#[test]
fn copy_of_a_test_is_equal_to_it() {
    let t = test(3, "`h`", "q", vec![vec!["1", "2"], vec![]], false, true);
    assert_eq!(t.copy(), t);
}

#[test]
fn extension_tells_the_kind_of_a_file() {
    assert_eq!(source_kind("md"), Some(SourceKind::Documentation));
    assert_eq!(source_kind("rs"), Some(SourceKind::Code));
    assert_eq!(source_kind("h"), Some(SourceKind::Code));
    assert_eq!(source_kind("c"), Some(SourceKind::Code));
    assert_eq!(source_kind("MD"), None);
    assert_eq!(source_kind("txt"), None);
    assert_eq!(source_kind(""), None);
}

#[test]
fn kind_decides_how_a_file_is_read() {
    let contents = "```sql\nouter\n```\n<<\n```sql\ninner\n```\n>>\n";
    let texts = |kind| -> Vec<String> {
        extract_tests_from_source(kind, "f", contents, "<<", ">>")
            .expect("the file has no error")
            .tests
            .into_iter()
            .map(|t| t.text)
            .collect()
    };
    assert_eq!(texts(SourceKind::Documentation), vec!["outer", "inner"]);
    assert_eq!(texts(SourceKind::Code), vec!["inner"]);
}

#[test]
fn one_error_keeps_the_run_from_starting() {
    let none: Vec<Result<u8, &str>> = vec![];
    assert_eq!(gather(none), Ok(vec![]));
    assert_eq!(gather::<u8, &str>(vec![Ok(1), Ok(2)]), Ok(vec![1, 2]));
    assert_eq!(
        gather(vec![Ok(1), Err("a"), Ok(2), Err("b")]),
        Err(vec!["a", "b"])
    );
}

#[test]
fn walked_file_is_read_by_its_extension_or_because_it_was_named() {
    assert_eq!(kind_of_file(Some("md"), false), Some(SourceKind::Documentation));
    assert_eq!(kind_of_file(Some("md"), true), Some(SourceKind::Documentation));
    assert_eq!(kind_of_file(Some("rs"), false), Some(SourceKind::Code));
    assert_eq!(kind_of_file(Some("c"), true), Some(SourceKind::Code));
    assert_eq!(kind_of_file(Some("sql"), false), None);
    assert_eq!(kind_of_file(Some("sql"), true), Some(SourceKind::Code));
    assert_eq!(kind_of_file(None, false), None);
    assert_eq!(kind_of_file(None, true), Some(SourceKind::Code));
}

#[test]
fn named_file_is_read_as_source_code_unless_it_is_documentation() {
    assert_eq!(kind_of_named(Some("md")), SourceKind::Documentation);
    assert_eq!(kind_of_named(Some("rs")), SourceKind::Code);
    assert_eq!(kind_of_named(Some("h")), SourceKind::Code);
    assert_eq!(kind_of_named(Some("sql")), SourceKind::Code);
    assert_eq!(kind_of_named(Some("")), SourceKind::Code);
    assert_eq!(kind_of_named(None), SourceKind::Code);
}
