use vexdoc::extract::{extract_blocks, DocBlock};

fn rust_blocks(content: &str) -> Result<Vec<DocBlock>, usize> {
    extract_blocks(content, "//", "/*", "*/")
}

fn block(heading: &str, summary: &str, code: Option<&str>) -> DocBlock {
    DocBlock {
        heading: heading.to_string(),
        summary: summary.to_string(),
        code: code.map(|c| c.to_string()),
    }
}

#[test]
fn single_block_is_extracted() {
    let content = "//! Test Function\n/*startsummary\nThis is a test function.\nendsummary*/\nfn test_function() {}\n// ENDVEXDOC\n";
    let blocks = rust_blocks(content).unwrap();
    assert_eq!(
        blocks,
        vec![block("Test Function", "This is a test function.", Some("fn test_function() {}"))]
    );
}

#[test]
fn header_without_summary_opener_fails_at_the_next_line() {
    assert_eq!(rust_blocks("//! Hi\nfn x() {}\n"), Err(1));
    assert_eq!(rust_blocks("plain\n\n//! Hi\n/* startsummary\n"), Err(3));
}

#[test]
fn failure_discards_blocks_already_complete() {
    let content = "//! A\n/*startsummary\ns\nendsummary*/\nc\n//ENDVEXDOC\n//! B\nnot an opener\n";
    assert_eq!(rust_blocks(content), Err(7));
}

#[test]
fn text_without_markers_has_no_blocks() {
    assert_eq!(rust_blocks(""), Ok(vec![]));
    assert_eq!(rust_blocks("fn main() {}\n// a comment\n/* another */\n"), Ok(vec![]));
    assert_eq!(rust_blocks("endsummary*/\n// ENDVEXDOC\n/*startsummary\n"), Ok(vec![]));
}

#[test]
fn file_summary_is_a_block_without_heading_and_code() {
    let content = "/*filesummary\nline one\n  line two\nendsummary*/\nfn main() {}\n";
    assert_eq!(rust_blocks(content), Ok(vec![block("", "line one   line two", None)]));
}

#[test]
fn file_summary_opener_after_a_header_is_ordinary_text() {
    let content = "//! A\n/*startsummary\ns\nendsummary*/\nc\n//ENDVEXDOC\n/*filesummary\nnot a summary\nendsummary*/\n";
    assert_eq!(rust_blocks(content), Ok(vec![block("A", "s", Some("c"))]));
}

#[test]
fn file_summary_may_precede_headers() {
    let content = "/*filesummary\nabout\nendsummary*/\n//! A\n/*startsummary\ns\nendsummary*/\nc\n//ENDVEXDOC\n";
    assert_eq!(
        rust_blocks(content),
        Ok(vec![block("", "about", None), block("A", "s", Some("c"))])
    );
}

#[test]
fn summary_joins_with_spaces_and_code_with_line_feeds() {
    let content = "//! T\n/*startsummary\nfirst\n second \n\nthird\nendsummary*/\nfn f() {\n    body();\n}\n\n// ENDVEXDOC\n";
    assert_eq!(
        rust_blocks(content),
        Ok(vec![block("T", "first  second   third", Some("fn f() {\n    body();\n}\n"))])
    );
}

#[test]
fn code_end_is_matched_without_spaces() {
    for end in ["//ENDVEXDOC", "  // ENDVEXDOC", "/ / E N D V E X D O C", "//ENDVEXDOC trailing"] {
        let content = format!("//! T\n/*startsummary\ns\nendsummary*/\nc\n{}\n", end);
        assert_eq!(rust_blocks(&content), Ok(vec![block("T", "s", Some("c"))]));
    }
    for not_end in ["\t//ENDVEXDOC", "// endvexdoc", "x //ENDVEXDOC"] {
        let content = format!("//! T\n/*startsummary\ns\nendsummary*/\nc\n{}\n", not_end);
        assert_eq!(rust_blocks(&content), Ok(vec![]));
    }
}

#[test]
fn unfinished_last_block_is_dropped() {
    assert_eq!(rust_blocks("//! Only a header"), Ok(vec![]));
    assert_eq!(rust_blocks("//! T\n/*startsummary\ns\n"), Ok(vec![]));
    assert_eq!(rust_blocks("//! T\n/*startsummary\ns\nendsummary*/\ncode\n"), Ok(vec![]));
    assert_eq!(rust_blocks("/*filesummary\nabout\n"), Ok(vec![]));
}

#[test]
fn blocks_come_in_the_order_of_the_file() {
    let content = "//! One\n/*startsummary\na\nendsummary*/\n1\n//ENDVEXDOC\nbetween\n//! Two\n/*startsummary\nb\nendsummary*/\n2\n//ENDVEXDOC\n";
    assert_eq!(
        rust_blocks(content),
        Ok(vec![block("One", "a", Some("1")), block("Two", "b", Some("2"))])
    );
}

#[test]
fn one_delimiter_opens_and_closes() {
    let content = "#! Title\n\"\"\"startsummary\nabout\nendsummary\"\"\"\nprint(1)\n# ENDVEXDOC\n";
    assert_eq!(
        extract_blocks(content, "#", "\"\"\"", "\"\"\""),
        Ok(vec![block("Title", "about", Some("print(1)"))])
    );
}

#[test]
fn heading_loses_leading_whitespace_only() {
    let content = "//! \t  Spaced out  \n/*startsummary\nendsummary*/\n//ENDVEXDOC\n";
    assert_eq!(rust_blocks(content), Ok(vec![block("Spaced out  ", "", Some(""))]));
    let content = "//!\u{3000}\u{a0}Wide\n/*startsummary\nendsummary*/\n//ENDVEXDOC\n";
    assert_eq!(rust_blocks(content), Ok(vec![block("Wide", "", Some(""))]));
}

#[test]
fn lines_may_end_with_carriage_return_and_line_feed() {
    let content = "//! T\r\n/*startsummary\r\na\r\nb\r\nendsummary*/\r\nc\r\nd\r\n// ENDVEXDOC\r\n";
    assert_eq!(rust_blocks(content), Ok(vec![block("T", "a b", Some("c\nd"))]));
}

#[test]
fn markers_must_begin_the_line() {
    assert_eq!(rust_blocks("  //! Indented\nfn x() {}\n"), Ok(vec![]));
    assert_eq!(rust_blocks(" /*filesummary\nx\nendsummary*/\n"), Ok(vec![]));
    let content = "//! T\n/*startsummary\ns\n  endsummary*/\nendsummary*/\nc\n//ENDVEXDOC\n";
    assert_eq!(rust_blocks(content), Ok(vec![block("T", "s   endsummary*/", Some("c"))]));
}
