use vexdoc::cli::{GenArgs, InitArgs, VexDocArgs, VexDocSubcommands};
use vexdoc::errors::{IoErrorKind, IoFailure, SubcommandError, UserErrorKind};
use vexdoc::{run, Plan};

fn failure(kind: IoErrorKind, message: &str) -> IoFailure {
    IoFailure { kind, message: message.to_string() }
}

fn user_error(kind: UserErrorKind, causes: &str, file: &str) -> SubcommandError {
    SubcommandError::UserError {
        causes: causes.to_string(),
        source: None,
        kind,
        file: file.to_string(),
    }
}

#[test]
fn each_error_has_its_hint() {
    let io = failure(IoErrorKind::Other, "denied");
    assert_eq!(
        SubcommandError::InitError(io.clone()).get_solution_hint(),
        "Make sure you have write permissions in the current directory"
    );
    assert_eq!(
        SubcommandError::FileReadError(io.clone()).get_solution_hint(),
        "Verify file paths and permissions"
    );
    assert_eq!(
        SubcommandError::GenerationError("x".to_string()).get_solution_hint(),
        "Check your VexDoc.toml configuration"
    );
    assert_eq!(
        SubcommandError::GenerationWriteError(io).get_solution_hint(),
        "Ensure the docs/ directory is writable"
    );
    assert_eq!(
        user_error(UserErrorKind::Config, "", "").get_solution_hint(),
        "Fix the configuration file format"
    );
    assert_eq!(
        user_error(UserErrorKind::Annotations, "", "").get_solution_hint(),
        "Check your documentation block syntax"
    );
}

#[test]
fn each_error_has_its_message() {
    let io = failure(IoErrorKind::Other, "denied");
    assert_eq!(
        SubcommandError::InitError(io.clone()).to_string(),
        "Failed to create config file: denied. Try running 'vexdoc init' in a writable directory."
    );
    assert_eq!(
        SubcommandError::FileReadError(io.clone()).to_string(),
        "Failed to read files: denied. Check file permissions and paths."
    );
    assert_eq!(
        SubcommandError::GenerationError("no disk".to_string()).to_string(),
        "Documentation generation failed: no disk. Check your configuration and file contents."
    );
    assert_eq!(
        SubcommandError::GenerationWriteError(io).to_string(),
        "Failed to write documentation files: denied. Check write permissions in the docs/ directory."
    );
    assert_eq!(
        user_error(UserErrorKind::Config, "1. fix it\n", "VexDoc.toml").to_string(),
        "Configuration error in VexDoc.toml: Fix the configuration file format\n\nSuggested fixes:\n1. fix it\n"
    );
    assert_eq!(
        user_error(
            UserErrorKind::Annotations,
            "section titles must be followed by a summary",
            "src/a.rs"
        )
        .to_string(),
        "Annotation error in src/a.rs: Check your documentation block syntax\n\nSuggested fixes:\nsection titles must be followed by a summary"
    );
}

#[test]
fn source_is_the_message_of_the_underlying_failure() {
    let io = failure(IoErrorKind::NotFound, "not found");
    assert_eq!(SubcommandError::InitError(io.clone()).source(), Some("not found".to_string()));
    assert_eq!(SubcommandError::FileReadError(io.clone()).source(), Some("not found".to_string()));
    assert_eq!(
        SubcommandError::GenerationWriteError(io).source(),
        Some("not found".to_string())
    );
    assert_eq!(
        SubcommandError::GenerationError("why".to_string()).source(),
        Some("why".to_string())
    );
    assert_eq!(user_error(UserErrorKind::Config, "c", "f").source(), None);
    let parsed = SubcommandError::UserError {
        causes: "c".to_string(),
        source: Some("expected a value".to_string()),
        kind: UserErrorKind::Config,
        file: "f".to_string(),
    };
    assert_eq!(parsed.source(), Some("expected a value".to_string()));
}

#[test]
fn copy_of_an_error_equals_it() {
    let errors = vec![
        SubcommandError::InitError(failure(IoErrorKind::AlreadyExists, "exists")),
        SubcommandError::GenerationError("g".to_string()),
        SubcommandError::UserError {
            causes: "c".to_string(),
            source: Some("s".to_string()),
            kind: UserErrorKind::Annotations,
            file: "f".to_string(),
        },
    ];
    for error in errors {
        assert_eq!(error.duplicate(), error);
    }
}

#[test]
fn init_failure_is_reported_by_its_kind() {
    assert_eq!(
        SubcommandError::InitError(failure(IoErrorKind::AlreadyExists, "File exists")).report(),
        vec![
            "vexdoc: could not create new config file: File exists".to_string(),
            "Delete the existing config file to generate a new one".to_string(),
        ]
    );
    assert_eq!(
        SubcommandError::InitError(failure(IoErrorKind::NotFound, "No such directory")).report(),
        vec!["vexdoc: could not create new config file at requested location: No such directory"
            .to_string()]
    );
    assert_eq!(
        SubcommandError::InitError(failure(IoErrorKind::Other, "denied")).report(),
        vec!["vexdoc: could not create new config file: denied".to_string()]
    );
}

#[test]
fn test_error_on_missing_config() {
    let error = SubcommandError::FileReadError(failure(
        IoErrorKind::NotFound,
        "No such file or directory (os error 2)",
    ));
    let output_str = error.report().join("\n");
    assert!(output_str.contains("could not read config file"));
    assert_eq!(
        output_str,
        "vexdoc: could not read config file: No such file or directory (os error 2)"
    );
}

#[test]
fn test_error_on_invalid_config() {
    let error = SubcommandError::UserError {
        causes: "fix missing values/incorrect syntax".to_string(),
        source: Some("invalid string".to_string()),
        kind: UserErrorKind::Config,
        file: "./VexDoc.toml".to_string(),
    };
    let output_str = error.report().join("\n");
    assert!(output_str.contains("an error has occurred at runtime"));
    assert_eq!(
        error.report(),
        vec![
            "vexdoc: an error has occurred at runtime: Configuration error in ./VexDoc.toml: Fix the configuration file format\n\nSuggested fixes:\nfix missing values/incorrect syntax".to_string(),
            "caused by: fix missing values/incorrect syntax".to_string(),
        ]
    );
}

#[test]
fn user_error_is_reported_with_each_line_of_its_causes() {
    let error = user_error(UserErrorKind::Config, "first\n\nsecond\r\nthird\n", "VexDoc.toml");
    let lines = error.report();
    assert_eq!(lines.len(), 5);
    assert_eq!(lines[1], "caused by: first");
    assert_eq!(lines[2], "caused by: ");
    assert_eq!(lines[3], "caused by: second");
    assert_eq!(lines[4], "caused by: third");
    assert_eq!(user_error(UserErrorKind::Config, "", "f").report().len(), 1);
}

#[test]
fn other_failures_are_reported_in_one_line() {
    assert_eq!(
        SubcommandError::GenerationError("no disk".to_string()).report(),
        vec!["vexdoc: could not generate documentation for files: no disk".to_string()]
    );
    assert_eq!(
        SubcommandError::GenerationWriteError(failure(IoErrorKind::Other, "denied")).report(),
        vec!["vexdoc: Failed to write documentation files: denied. Check write permissions in the docs/ directory.: denied".to_string()]
    );
}

#[test]
fn init_plans_the_configuration_file() {
    let args = VexDocArgs {
        subcommands: VexDocSubcommands::Init(InitArgs { dir: "proj".to_string() }),
    };
    assert_eq!(
        run(args),
        Plan::Init {
            path: "proj/VexDoc.toml".to_string(),
            content: "inline_comments = \"\"\nmulti_comments = []\nignored_dirs = []\nfile_extensions = []".to_string(),
            done: "Created new, empty configuration file in proj".to_string(),
        }
    );
}

#[test]
fn test_generate_command_verbose() {
    let args = VexDocArgs {
        subcommands: VexDocSubcommands::Generate(GenArgs {
            files: vec![],
            verbose: true,
            quiet: false,
        }),
    };
    match run(args) {
        Plan::Generate { announce, files, verbose, quiet } => {
            let output_str = announce.unwrap();
            assert!(output_str.contains("Beginning documentation"));
            assert_eq!(files, None);
            assert!(verbose);
            assert!(!quiet);
        }
        other => panic!("unexpected: {:?}", other),
    }
}

#[test]
fn test_generate_command_quiet() {
    let args = VexDocArgs {
        subcommands: VexDocSubcommands::Generate(GenArgs {
            files: vec!["test.rs".to_string()],
            verbose: false,
            quiet: true,
        }),
    };
    assert_eq!(
        run(args),
        Plan::Generate {
            announce: None,
            files: Some(vec!["test.rs".to_string()]),
            verbose: false,
            quiet: true,
        }
    );
}
