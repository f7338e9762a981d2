//! Failures of a run, the hint that goes with each, and the lines in which a
//! failure is reported to the user.

use crate::text::{
    chars_of, lines_of, push_all, push_str, split_lines, string_of, string_views, views,
};
use vstd::prelude::*;

verus! {

/// What went wrong in an operation on the file system, as far as the reports
/// tell cases apart.
#[derive(Debug, Clone, Copy, PartialEq, Eq)]
pub enum IoErrorKind {
    /// The file or directory to create is already there.
    AlreadyExists,
    /// The file or directory does not exist.
    NotFound,
    /// Any other failure.
    Other,
}

/// A failed operation on the file system: its kind and its message.
#[derive(Debug, Clone, PartialEq, Eq)]
pub struct IoFailure {
    pub kind: IoErrorKind,
    pub message: String,
}

/// The mathematical value of an `IoFailure`.
pub struct IoFailureText {
    pub kind: IoErrorKind,
    pub message: Seq<char>,
}

impl View for IoFailure {
    type V = IoFailureText;

    open spec fn view(&self) -> IoFailureText {
        IoFailureText { kind: self.kind, message: self.message@ }
    }
}

/// Whose mistake a user error is about.
#[derive(Debug, Clone, Copy, PartialEq, Eq)]
pub enum UserErrorKind {
    /// The configuration file is malformed or incomplete.
    Config,
    /// The annotations of a source file break the expected structure.
    Annotations,
}

/// Why a command failed.
#[derive(Debug, Clone, PartialEq, Eq)]
pub enum SubcommandError {
    /// The initial configuration file could not be created.
    InitError(IoFailure),
    /// A source file or the configuration file could not be read.
    FileReadError(IoFailure),
    /// Generating the documentation failed; the message says how.
    GenerationError(String),
    /// A generated page could not be written.
    GenerationWriteError(IoFailure),
    /// The user's configuration or annotations are at fault.
    UserError { causes: String, source: Option<String>, kind: UserErrorKind, file: String },
}

/// The mathematical value of a `SubcommandError`.
pub enum ErrorText {
    InitError(IoFailureText),
    FileReadError(IoFailureText),
    GenerationError(Seq<char>),
    GenerationWriteError(IoFailureText),
    UserError { causes: Seq<char>, source: Option<Seq<char>>, kind: UserErrorKind, file: Seq<char> },
}

impl View for SubcommandError {
    type V = ErrorText;

    open spec fn view(&self) -> ErrorText {
        match *self {
            SubcommandError::InitError(e) => ErrorText::InitError(e@),
            SubcommandError::FileReadError(e) => ErrorText::FileReadError(e@),
            SubcommandError::GenerationError(m) => ErrorText::GenerationError(m@),
            SubcommandError::GenerationWriteError(e) => ErrorText::GenerationWriteError(e@),
            SubcommandError::UserError { causes, source, kind, file } => ErrorText::UserError {
                causes: causes@,
                source: match source {
                    Some(s) => Some(s@),
                    None => None,
                },
                kind,
                file: file@,
            },
        }
    }
}

impl ErrorText {
    /// The hint that tells the user where to look.
    pub open spec fn hint(self) -> Seq<char> {
        match self {
            ErrorText::InitError(_) => "Make sure you have write permissions in the current directory"@,
            ErrorText::FileReadError(_) => "Verify file paths and permissions"@,
            ErrorText::GenerationError(_) => "Check your VexDoc.toml configuration"@,
            ErrorText::GenerationWriteError(_) => "Ensure the docs/ directory is writable"@,
            ErrorText::UserError { kind, .. } => match kind {
                UserErrorKind::Config => "Fix the configuration file format"@,
                UserErrorKind::Annotations => "Check your documentation block syntax"@,
            },
        }
    }

    /// The message of the failure this error goes back to, if it has one.
    pub open spec fn source(self) -> Option<Seq<char>> {
        match self {
            ErrorText::InitError(e) => Some(e.message),
            ErrorText::FileReadError(e) => Some(e.message),
            ErrorText::GenerationError(m) => Some(m),
            ErrorText::GenerationWriteError(e) => Some(e.message),
            ErrorText::UserError { source, .. } => source,
        }
    }

    /// The error as one message.
    pub open spec fn display(self) -> Seq<char> {
        match self {
            ErrorText::InitError(e) => "Failed to create config file: "@ + e.message
                + ". Try running 'vexdoc init' in a writable directory."@,
            ErrorText::FileReadError(e) => "Failed to read files: "@ + e.message
                + ". Check file permissions and paths."@,
            ErrorText::GenerationError(m) => "Documentation generation failed: "@ + m
                + ". Check your configuration and file contents."@,
            ErrorText::GenerationWriteError(e) => "Failed to write documentation files: "@
                + e.message + ". Check write permissions in the docs/ directory."@,
            ErrorText::UserError { causes, kind, file, .. } => (match kind {
                UserErrorKind::Config => "Configuration error in "@,
                UserErrorKind::Annotations => "Annotation error in "@,
            }) + file + ": "@ + self.hint() + "\n\nSuggested fixes:\n"@ + causes,
        }
    }

    /// The lines that report the error to the user: the headline, with a
    /// second line of advice where a configuration file is in the way, and
    /// for a user error one line for each line of its causes.
    pub open spec fn report(self) -> Seq<Seq<char>> {
        match self {
            ErrorText::InitError(e) => match e.kind {
                IoErrorKind::AlreadyExists => seq![
                    "vexdoc: could not create new config file: "@ + e.message,
                    "Delete the existing config file to generate a new one"@,
                ],
                IoErrorKind::NotFound => seq![
                    "vexdoc: could not create new config file at requested location: "@
                        + e.message,
                ],
                IoErrorKind::Other => seq![
                    "vexdoc: could not create new config file: "@ + e.message,
                ],
            },
            ErrorText::FileReadError(e) => seq!["vexdoc: could not read config file: "@ + e.message],
            ErrorText::GenerationError(m) => seq![
                "vexdoc: could not generate documentation for files: "@ + m,
            ],
            ErrorText::GenerationWriteError(e) => seq![
                "vexdoc: "@ + self.display() + ": "@ + e.message,
            ],
            ErrorText::UserError { causes, .. } => seq![
                "vexdoc: an error has occurred at runtime: "@ + self.display(),
            ] + caused_by(split_lines(causes)),
        }
    }
}

/// Each line, introduced as a cause.
pub open spec fn caused_by(lines: Seq<Seq<char>>) -> Seq<Seq<char>> {
    Seq::new(lines.len(), |i: int| "caused by: "@ + lines[i])
}

impl IoFailure {
    /// A copy of the failure.
    pub fn duplicate(&self) -> (copy: IoFailure)
        ensures
            copy@ == self@,
    {
        IoFailure { kind: self.kind, message: self.message.clone() }
    }
}

impl SubcommandError {
    /// A copy of the error.
    pub fn duplicate(&self) -> (copy: SubcommandError)
        ensures
            copy@ == self@,
    {
        match self {
            SubcommandError::InitError(e) => SubcommandError::InitError(e.duplicate()),
            SubcommandError::FileReadError(e) => SubcommandError::FileReadError(e.duplicate()),
            SubcommandError::GenerationError(m) => SubcommandError::GenerationError(m.clone()),
            SubcommandError::GenerationWriteError(e) => SubcommandError::GenerationWriteError(
                e.duplicate(),
            ),
            SubcommandError::UserError { causes, source, kind, file } => {
                SubcommandError::UserError {
                    causes: causes.clone(),
                    source: match source {
                        Some(m) => Some(m.clone()),
                        None => None,
                    },
                    kind: *kind,
                    file: file.clone(),
                }
            },
        }
    }

    /// The hint that tells the user where to look.
    pub fn get_solution_hint(&self) -> (hint: &'static str)
        ensures
            hint@ == self@.hint(),
    {
        match self {
            SubcommandError::InitError(_) => "Make sure you have write permissions in the current directory",
            SubcommandError::FileReadError(_) => "Verify file paths and permissions",
            SubcommandError::GenerationError(_) => "Check your VexDoc.toml configuration",
            SubcommandError::GenerationWriteError(_) => "Ensure the docs/ directory is writable",
            SubcommandError::UserError { kind, .. } => match kind {
                UserErrorKind::Config => "Fix the configuration file format",
                UserErrorKind::Annotations => "Check your documentation block syntax",
            },
        }
    }

    /// The message of the failure this error goes back to, if it has one.
    pub fn source(&self) -> (source: Option<String>)
        ensures
            match source {
                Some(m) => self@.source() == Some(m@),
                None => self@.source() is None,
            },
    {
        match self {
            SubcommandError::InitError(e) => Some(e.message.clone()),
            SubcommandError::FileReadError(e) => Some(e.message.clone()),
            SubcommandError::GenerationError(m) => Some(m.clone()),
            SubcommandError::GenerationWriteError(e) => Some(e.message.clone()),
            SubcommandError::UserError { source, .. } => match source {
                Some(m) => Some(m.clone()),
                None => None,
            },
        }
    }

    /// The characters of the error's message.
    fn display_chars(&self) -> (out: Vec<char>)
        ensures
            out@ == self@.display(),
    {
        let mut out: Vec<char> = Vec::new();
        match self {
            SubcommandError::InitError(e) => {
                push_str(&mut out, "Failed to create config file: ");
                push_str(&mut out, e.message.as_str());
                push_str(&mut out, ". Try running 'vexdoc init' in a writable directory.");
            },
            SubcommandError::FileReadError(e) => {
                push_str(&mut out, "Failed to read files: ");
                push_str(&mut out, e.message.as_str());
                push_str(&mut out, ". Check file permissions and paths.");
            },
            SubcommandError::GenerationError(m) => {
                push_str(&mut out, "Documentation generation failed: ");
                push_str(&mut out, m.as_str());
                push_str(&mut out, ". Check your configuration and file contents.");
            },
            SubcommandError::GenerationWriteError(e) => {
                push_str(&mut out, "Failed to write documentation files: ");
                push_str(&mut out, e.message.as_str());
                push_str(&mut out, ". Check write permissions in the docs/ directory.");
            },
            SubcommandError::UserError { causes, kind, file, .. } => {
                match kind {
                    UserErrorKind::Config => {
                        push_str(&mut out, "Configuration error in ");
                    },
                    UserErrorKind::Annotations => {
                        push_str(&mut out, "Annotation error in ");
                    },
                }
                push_str(&mut out, file.as_str());
                push_str(&mut out, ": ");
                push_str(&mut out, self.get_solution_hint());
                push_str(&mut out, "\n\nSuggested fixes:\n");
                push_str(&mut out, causes.as_str());
            },
        }
        assert(out@ =~= self@.display());
        out
    }

    /// The error as one message.
    pub fn to_string(&self) -> (message: String)
        ensures
            message@ == self@.display(),
    {
        let out = self.display_chars();
        string_of(&out)
    }

    /// The lines that report the error to the user.
    pub fn report(&self) -> (lines: Vec<String>)
        ensures
            string_views(lines@) == self@.report(),
    {
        let mut lines: Vec<String> = Vec::new();
        let mut head: Vec<char> = Vec::new();
        match self {
            SubcommandError::InitError(e) => {
                match e.kind {
                    IoErrorKind::NotFound => {
                        push_str(
                            &mut head,
                            "vexdoc: could not create new config file at requested location: ",
                        );
                    },
                    _ => {
                        push_str(&mut head, "vexdoc: could not create new config file: ");
                    },
                }
                push_str(&mut head, e.message.as_str());
                lines.push(string_of(&head));
                match e.kind {
                    IoErrorKind::AlreadyExists => {
                        let advice = chars_of(
                            "Delete the existing config file to generate a new one",
                        );
                        lines.push(string_of(&advice));
                    },
                    _ => {},
                }
            },
            SubcommandError::FileReadError(e) => {
                push_str(&mut head, "vexdoc: could not read config file: ");
                push_str(&mut head, e.message.as_str());
                lines.push(string_of(&head));
            },
            SubcommandError::GenerationError(m) => {
                push_str(&mut head, "vexdoc: could not generate documentation for files: ");
                push_str(&mut head, m.as_str());
                lines.push(string_of(&head));
            },
            SubcommandError::GenerationWriteError(e) => {
                let shown = self.display_chars();
                push_str(&mut head, "vexdoc: ");
                push_all(&mut head, &shown);
                push_str(&mut head, ": ");
                push_str(&mut head, e.message.as_str());
                lines.push(string_of(&head));
            },
            SubcommandError::UserError { causes, .. } => {
                let shown = self.display_chars();
                push_str(&mut head, "vexdoc: an error has occurred at runtime: ");
                push_all(&mut head, &shown);
                lines.push(string_of(&head));
                let text = chars_of(causes.as_str());
                let parts = lines_of(&text);
                let ghost wanted = caused_by(split_lines(causes@));
                let mut i: usize = 0;
                while i < parts.len()
                    invariant
                        i <= parts.len(),
                        views(parts@) == split_lines(causes@),
                        wanted == caused_by(split_lines(causes@)),
                        lines@.len() == i + 1,
                        lines@[0]@ == head@,
                        forall|j: int| 0 <= j < i ==> (#[trigger] lines@[j + 1])@ == wanted[j],
                    decreases parts.len() - i,
                {
                    let mut entry: Vec<char> = Vec::new();
                    push_str(&mut entry, "caused by: ");
                    push_all(&mut entry, &parts[i]);
                    assert(views(parts@)[i as int] == parts@[i as int]@);
                    lines.push(string_of(&entry));
                    i += 1;
                }
                assert(string_views(lines@) =~= self@.report()) by {
                    assert(views(parts@).len() == parts@.len());
                    assert forall|j: int| 0 <= j < lines@.len() implies string_views(
                        lines@,
                    )[j] == self@.report()[j] by {
                        if j > 0 {
                            assert(lines@[(j - 1) + 1]@ == wanted[j - 1]);
                        }
                    }
                }
            },
        }
        assert(string_views(lines@) =~= self@.report());
        lines
    }
}

} // verus!
