use vexdoc::docgen::{
    create_doc, document, file_outcome, ConfigIssue, DocGenConfig, DocPage, ExtractionOutcome,
    FileOutcome,
};
use vexdoc::errors::{IoErrorKind, IoFailure, SubcommandError, UserErrorKind};

fn strings(items: &[&str]) -> Vec<String> {
    items.iter().map(|s| s.to_string()).collect()
}

fn config(inline: &str, multi: &[&str], ignored: &[&str], extensions: &[&str]) -> DocGenConfig {
    DocGenConfig {
        inline_comments: inline.to_string(),
        multi_comments: strings(multi),
        ignored_dirs: strings(ignored),
        file_extensions: strings(extensions),
    }
}

fn rust_config() -> DocGenConfig {
    config("//", &["/*", "*/"], &[], &["rs"])
}

#[test]
fn reads_config() {
    let parsed = config("//", &["/*", "*/"], &[], &["c", "h"]);
    let conf = DocGenConfig::read_config(Ok(parsed)).expect("Should be able to read config");
    assert!(
        conf.inline_comments == "//".to_string()
            && conf.multi_comments == vec!["/*".to_string(), "*/".to_string()]
            && conf.ignored_dirs.len() == 0
            && conf.file_extensions == vec!["c".to_string(), "h".to_string()]
    );
}

#[test]
fn deny_bad_config() {
    let conf = DocGenConfig::read_config(Ok(config("", &[], &[], &[])));
    assert!(conf.is_err());
}

#[test]
fn error_on_incorrect_config() {
    let conf = DocGenConfig::read_config(Err("missing field `ignored_dirs`".to_string()));
    if let SubcommandError::UserError { causes, source, kind, file } = conf.unwrap_err() {
        assert_eq!(causes, "fix missing values/incorrect syntax");
        assert_eq!(source, Some("missing field `ignored_dirs`".to_string()));
        assert_eq!(kind, UserErrorKind::Config);
        assert_eq!(file, "./VexDoc.toml");
    } else {
        panic!("Did not error correctly");
    }
}

#[test]
fn every_violated_rule_is_reported_at_once() {
    let issues = config("", &[], &[], &[]).validate().unwrap_err().issues;
    assert_eq!(
        issues,
        vec![
            ConfigIssue {
                error: "No multiline comment delimiters specified".to_string(),
                suggestion:
                    "Add multiline comment delimiters, e.g., multi_comments = [\"/*\", \"*/\"]"
                        .to_string(),
            },
            ConfigIssue {
                error: "No inline comment delimiter specified".to_string(),
                suggestion: "Add an inline comment delimiter, e.g., inline_comments = \"//\""
                    .to_string(),
            },
            ConfigIssue {
                error: "No file extensions specified".to_string(),
                suggestion: "Add file extensions without the period, e.g., file_extensions = [\"rs\", \"py\", \"c\"]".to_string(),
            },
        ]
    );
}

#[test]
fn message_numbers_errors_and_fixes() {
    let error = config("//", &["/*"], &[], &[".rs", "py", ".c"]).validate().unwrap_err();
    assert_eq!(
        error.message(),
        "Configuration validation failed:\n\n\
         1. File extension '.rs' should not start with a period\n\
         2. File extension '.c' should not start with a period\n\
         \nSuggested fixes:\n\
         1. Remove the leading period from file extensions\n\
         2. Remove the leading period from file extensions\n"
    );
}

#[test]
fn message_counts_past_nine() {
    let dotted: Vec<String> = (0..11).map(|i| format!(".e{}", i)).collect();
    let conf = DocGenConfig {
        inline_comments: "//".to_string(),
        multi_comments: strings(&["/*", "*/"]),
        ignored_dirs: vec![],
        file_extensions: dotted,
    };
    let message = conf.validate().unwrap_err().message();
    assert!(message.contains("\n9. File extension '.e8' should not start with a period\n"));
    assert!(message.contains("\n10. File extension '.e9' should not start with a period\n"));
    assert!(message.contains("\n11. File extension '.e10' should not start with a period\n"));
    assert!(message.ends_with("\n11. Remove the leading period from file extensions\n"));
}

#[test]
fn valid_configurations_pass() {
    assert_eq!(rust_config().validate().map_err(|e| e.issues), Ok(()));
    assert!(config("#", &["\"\"\""], &["__pycache__"], &["py"]).validate().is_ok());
    assert!(config("//", &["/*", ""], &[], &["rs", ""]).validate().is_ok());
    assert!(config("//", &["/*", "*/", "extra"], &[], &["rs"]).validate().is_ok());
}

#[test]
fn empty_open_delimiter_is_a_violation() {
    let issues = config("//", &["", "*/"], &[], &["rs"]).validate().unwrap_err().issues;
    assert_eq!(issues.len(), 1);
    assert_eq!(issues[0].error, "No multiline comment delimiters specified");
}

#[test]
fn invalid_configuration_becomes_a_user_error() {
    let parsed = config("//", &["/*", "*/"], &[], &[".rs"]);
    let expected = parsed.validate().unwrap_err().message();
    match DocGenConfig::read_config(Ok(parsed)) {
        Err(SubcommandError::UserError { causes, source, kind, file }) => {
            assert_eq!(causes, expected);
            assert_eq!(source, None);
            assert_eq!(kind, UserErrorKind::Config);
            assert_eq!(file, "VexDoc.toml");
        }
        other => panic!("unexpected: {:?}", other),
    }
}

#[test]
fn test_file_extension_filtering() {
    let conf = config("//", &["/*", "*/"], &[], &["rs", "py"]);
    let located = strings(&["./test.rs", "./test.py", "./test.js", "./test.txt"]);
    let files = conf.get_files(Ok(located)).unwrap();
    assert_eq!(files.len(), 2);
    let file_names: Vec<String> =
        files.iter().map(|f| f.rsplit('/').next().unwrap().to_string()).collect();
    assert!(file_names.contains(&"test.rs".to_string()));
    assert!(file_names.contains(&"test.py".to_string()));
    assert!(!file_names.contains(&"test.js".to_string()));
    assert!(!file_names.contains(&"test.txt".to_string()));
}

#[test]
fn filtering_keeps_the_order_and_passes_failures_on() {
    let conf = config("//", &["/*", "*/"], &[], &["rs"]);
    let located = strings(&["./b.rs", "./x.py", "./a.rs", "./.rs", "./c.RS", "./d/e.rs"]);
    assert_eq!(conf.get_files(Ok(located)), Ok(strings(&["./b.rs", "./a.rs", "./d/e.rs"])));
    let failure = IoFailure { kind: IoErrorKind::NotFound, message: "gone".to_string() };
    assert_eq!(
        conf.get_files(Err(failure.clone())),
        Err(SubcommandError::FileReadError(failure))
    );
}

#[test]
fn test_init_command() {
    let file = DocGenConfig::create_config("/tmp/project");
    assert_eq!(file.path, "/tmp/project/VexDoc.toml");
    let config_content = file.content;
    assert!(config_content.contains("inline_comments"));
    assert!(config_content.contains("multi_comments"));
    assert!(config_content.contains("ignored_dirs"));
    assert!(config_content.contains("file_extensions"));
    assert_eq!(
        config_content,
        "inline_comments = \"\"\nmulti_comments = []\nignored_dirs = []\nfile_extensions = []"
    );
    assert_eq!(DocGenConfig::create_config(".").path, "./VexDoc.toml");
    assert_eq!(DocGenConfig::create_config("").path, "VexDoc.toml");
}

#[test]
fn test_document_generation() {
    let conf = rust_config();
    let content = "//! Test Function\n/*startsummary\nThis is a test function that does something useful.\nendsummary*/\n\nfn test_function() {\n    println!(\"Hello, world!\");\n}\n// ENDVEXDOC\n";
    let page = create_doc("test.rs", content, &conf).unwrap().expect("a page");
    assert_eq!(page.name, "test-rs.html");
    assert!(page.html.contains("Test Function"));
    assert!(page.html.contains("This is a test function"));
    assert!(page.html.contains(
        "<pre><code>\nfn test_function() {\n    println!(\"Hello, world!\");\n}</code></pre>"
    ));
}

#[test]
fn file_without_blocks_has_no_page() {
    let conf = rust_config();
    assert_eq!(create_doc("plain.rs", "fn main() {}\n", &conf), Ok(None));
    assert_eq!(create_doc("empty.rs", "", &conf), Ok(None));
}

#[test]
fn broken_annotations_name_the_file() {
    let conf = rust_config();
    let result = create_doc("src/bad.rs", "//! Hi\nfn x() {}\n", &conf);
    assert_eq!(
        result,
        Err(SubcommandError::UserError {
            causes: "section titles must be followed by a summary".to_string(),
            source: None,
            kind: UserErrorKind::Annotations,
            file: "src/bad.rs".to_string(),
        })
    );
}

#[test]
fn single_delimiter_closes_the_summary() {
    let conf = config("#", &["'''"], &[], &["py"]);
    let content = "#! T\n'''startsummary\nabout\nendsummary'''\nx = 1\n#ENDVEXDOC\n";
    let page = create_doc("a.py", content, &conf).unwrap().unwrap();
    assert!(page.html.contains("<h2>T</h2><p class=\"comment\">about</p><pre><code>x = 1</code></pre>"));
}

fn outcome(path: &str, outcome: ExtractionOutcome) -> FileOutcome {
    FileOutcome { path: path.to_string(), outcome }
}

#[test]
fn test_quiet_mode() {
    let outcomes = vec![
        outcome("test.rs", ExtractionOutcome::HasBlocks),
        outcome("none.rs", ExtractionOutcome::Empty),
    ];
    let result = document(&outcomes, true);
    assert!(result.is_ok());
    assert_eq!(result, Ok(vec![]));
    assert_eq!(document(&vec![], true), Ok(vec![]));
}

#[test]
fn test_verbose_mode() {
    let outcomes = vec![outcome("test.rs", ExtractionOutcome::HasBlocks)];
    let result = document(&outcomes, false);
    assert!(result.is_ok());
    assert_eq!(result, Ok(vec![]));
}

#[test]
fn notices_follow_the_order_of_the_files() {
    let outcomes = vec![
        outcome("b.rs", ExtractionOutcome::Empty),
        outcome("full.rs", ExtractionOutcome::HasBlocks),
        outcome("a.rs", ExtractionOutcome::Empty),
    ];
    assert_eq!(
        document(&outcomes, false),
        Ok(vec![
            "NOTICE: b.rs contained no annotations, so nothing was actually written to its documentation. Ensure it has correct annotations".to_string(),
            "NOTICE: a.rs contained no annotations, so nothing was actually written to its documentation. Ensure it has correct annotations".to_string(),
        ])
    );
}

#[test]
fn run_without_files_is_noticed() {
    assert_eq!(
        document(&vec![], false),
        Ok(vec!["NOTICE: no files were documented. Ensure your config has the appropriate file extensions".to_string()])
    );
}

#[test]
fn first_failure_is_the_result_of_the_run() {
    let first = SubcommandError::GenerationError("first".to_string());
    let second = SubcommandError::GenerationError("second".to_string());
    let outcomes = vec![
        outcome("a.rs", ExtractionOutcome::Empty),
        outcome("b.rs", ExtractionOutcome::Failed(first.clone())),
        outcome("c.rs", ExtractionOutcome::Failed(second)),
    ];
    assert_eq!(document(&outcomes, false), Err(first.clone()));
    assert_eq!(document(&outcomes, true), Err(first));
}

#[test]
fn file_that_ends_inside_the_code_has_no_page() {
    let conf = rust_config();
    let content = "//! Test Function\n/*startsummary\nThis is a test function that does something useful.\nendsummary*/\n\nfn test_function() {\n    println!(";
    assert_eq!(create_doc("test.rs", content, &conf), Ok(None));
    let content = "//! Test Function\n/*startsummary\nThis is a test function that does something useful.\nendsummary*/\n\nfn test_function() {\n    println!(\"Hello, world!\");\n}\n";
    assert_eq!(create_doc("test.rs", content, &conf), Ok(None));
}

#[test]
fn invalid_configuration_is_told_as_a_user_error() {
    assert_eq!(rust_config().ensure_valid(), Ok(()));
    let conf = config("", &["/*"], &[], &["rs"]);
    assert_eq!(
        conf.ensure_valid(),
        Err(SubcommandError::UserError {
            causes: "Configuration validation failed:\n\n1. No inline comment delimiter specified\n\nSuggested fixes:\n1. Add an inline comment delimiter, e.g., inline_comments = \"//\"\n".to_string(),
            source: None,
            kind: UserErrorKind::Config,
            file: "VexDoc.toml".to_string(),
        })
    );
}

#[test]
fn outcome_of_a_file_follows_its_page_and_the_write() {
    let page = DocPage { name: "a-rs.html".to_string(), html: "<html>".to_string() };
    let failure = IoFailure { kind: IoErrorKind::Other, message: "disk full".to_string() };
    let broken = SubcommandError::UserError {
        causes: "section titles must be followed by a summary".to_string(),
        source: None,
        kind: UserErrorKind::Annotations,
        file: "a.rs".to_string(),
    };
    assert_eq!(file_outcome(Ok(Some(page.clone())), None), ExtractionOutcome::HasBlocks);
    assert_eq!(
        file_outcome(Ok(Some(page)), Some(failure.clone())),
        ExtractionOutcome::Failed(SubcommandError::GenerationWriteError(failure.clone()))
    );
    assert_eq!(file_outcome(Ok(None), None), ExtractionOutcome::Empty);
    assert_eq!(file_outcome(Ok(None), Some(failure.clone())), ExtractionOutcome::Empty);
    assert_eq!(file_outcome(Err(broken.clone()), None), ExtractionOutcome::Failed(broken.clone()));
    assert_eq!(file_outcome(Err(broken.clone()), Some(failure)), ExtractionOutcome::Failed(broken));
}

#[test]
fn unmarked_file_ends_as_empty() {
    let conf = rust_config();
    let doc = create_doc("plain.rs", "fn main() {}\n// nothing here\n", &conf);
    assert_eq!(file_outcome(doc, None), ExtractionOutcome::Empty);
}
