//! The configuration of a run, its validation, and the work on one file and
//! on the outcomes of all files.

pub mod locate;
pub mod render;

use crate::docgen::render::{page_text, render};
use crate::errors::{ErrorText, IoFailure, SubcommandError, UserErrorKind};
use crate::extract::{
    extract_blocks, extraction, is_skipped, lemma_unmarked_text_has_no_blocks, markers, Markers,
};
use crate::paths::{
    child_path, has_extension, join_path, matches_extension, output_name, page_name,
};
use crate::text::{
    chars_of, decimal, push_decimal, push_str, split_lines, string_of, string_views,
};
use vstd::prelude::*;
use vstd::string::StrSliceExecFns;

verus! {

/// How the files of a project are to be read: the comment delimiters of its
/// language, the directories to leave out, and the extensions of its source
/// files.
#[derive(Debug, Clone, PartialEq, Eq)]
pub struct DocGenConfig {
    /// The delimiter of a one-line comment.
    pub inline_comments: String,
    /// The delimiters that open and close a multi-line comment. Where there
    /// is only one, it also closes the comment.
    pub multi_comments: Vec<String>,
    /// The names of the directories that are not searched.
    pub ignored_dirs: Vec<String>,
    /// The extensions of the files to document, without a leading period.
    pub file_extensions: Vec<String>,
}

/// The mathematical value of a `DocGenConfig`.
pub struct ConfigText {
    pub inline_comments: Seq<char>,
    pub multi_comments: Seq<Seq<char>>,
    pub ignored_dirs: Seq<Seq<char>>,
    pub file_extensions: Seq<Seq<char>>,
}

impl View for DocGenConfig {
    type V = ConfigText;

    open spec fn view(&self) -> ConfigText {
        ConfigText {
            inline_comments: self.inline_comments@,
            multi_comments: string_views(self.multi_comments@),
            ignored_dirs: string_views(self.ignored_dirs@),
            file_extensions: string_views(self.file_extensions@),
        }
    }
}

/// One violated rule of the configuration, and how to mend it.
#[derive(Debug, Clone, PartialEq, Eq)]
pub struct ConfigIssue {
    pub error: String,
    pub suggestion: String,
}

/// The mathematical value of a `ConfigIssue`.
pub struct IssueText {
    pub error: Seq<char>,
    pub suggestion: Seq<char>,
}

impl View for ConfigIssue {
    type V = IssueText;

    open spec fn view(&self) -> IssueText {
        IssueText { error: self.error@, suggestion: self.suggestion@ }
    }
}

/// The values of a sequence of issues, element by element.
pub open spec fn issue_views(issues: Seq<ConfigIssue>) -> Seq<IssueText> {
    Seq::new(issues.len(), |i: int| issues[i]@)
}

/// Every violated rule of a configuration. It is never empty.
#[derive(Debug, Clone, PartialEq, Eq)]
pub struct ConfigError {
    pub issues: Vec<ConfigIssue>,
}

/// An extension that begins with a period.
pub open spec fn is_dotted(extension: Seq<char>) -> bool {
    extension.len() > 0 && extension[0] == '.'
}

/// The issue of a configuration without an opening multi-line delimiter.
pub open spec fn issue_no_open_marker() -> IssueText {
    IssueText {
        error: "No multiline comment delimiters specified"@,
        suggestion: "Add multiline comment delimiters, e.g., multi_comments = [\"/*\", \"*/\"]"@,
    }
}

/// The issue of a configuration without an inline delimiter.
pub open spec fn issue_no_inline_marker() -> IssueText {
    IssueText {
        error: "No inline comment delimiter specified"@,
        suggestion: "Add an inline comment delimiter, e.g., inline_comments = \"//\""@,
    }
}

/// The issue of a configuration without extensions.
pub open spec fn issue_no_extensions() -> IssueText {
    IssueText {
        error: "No file extensions specified"@,
        suggestion: "Add file extensions without the period, e.g., file_extensions = [\"rs\", \"py\", \"c\"]"@,
    }
}

/// The issue of an extension that begins with a period.
pub open spec fn issue_dotted(extension: Seq<char>) -> IssueText {
    IssueText {
        error: "File extension '"@ + extension + "' should not start with a period"@,
        suggestion: "Remove the leading period from file extensions"@,
    }
}

/// One issue for each extension that begins with a period, in their order.
pub open spec fn dotted_issues(extensions: Seq<Seq<char>>) -> Seq<IssueText>
    decreases extensions.len(),
{
    if extensions.len() == 0 {
        Seq::empty()
    } else if is_dotted(extensions.last()) {
        dotted_issues(extensions.drop_last()).push(issue_dotted(extensions.last()))
    } else {
        dotted_issues(extensions.drop_last())
    }
}

/// The items, one to a line, each after its number, counted from one.
pub open spec fn numbered(items: Seq<Seq<char>>) -> Seq<char>
    decreases items.len(),
{
    if items.len() == 0 {
        Seq::empty()
    } else {
        numbered(items.drop_last()) + decimal(items.len()) + ". "@ + items.last() + "\n"@
    }
}

/// The errors of the issues, in their order.
pub open spec fn errors_of(issues: Seq<IssueText>) -> Seq<Seq<char>> {
    Seq::new(issues.len(), |i: int| issues[i].error)
}

/// The suggestions of the issues, in their order.
pub open spec fn suggestions_of(issues: Seq<IssueText>) -> Seq<Seq<char>> {
    Seq::new(issues.len(), |i: int| issues[i].suggestion)
}

/// The message that lists every error, and then a fix for each.
pub open spec fn issues_message(issues: Seq<IssueText>) -> Seq<char> {
    "Configuration validation failed:\n\n"@ + numbered(errors_of(issues)) + "\nSuggested fixes:\n"@
        + numbered(suggestions_of(issues))
}

impl ConfigText {
    /// There is an opening multi-line delimiter, and it is not empty.
    pub open spec fn has_open_marker(self) -> bool {
        self.multi_comments.len() > 0 && self.multi_comments[0].len() > 0
    }

    /// The delimiter of a one-line comment.
    pub open spec fn inline_marker(self) -> Seq<char> {
        self.inline_comments
    }

    /// The delimiter that opens a multi-line comment.
    pub open spec fn open_marker(self) -> Seq<char> {
        self.multi_comments[0]
    }

    /// The delimiter that closes a multi-line comment: the second one, or
    /// the opening one where there is no second.
    pub open spec fn close_marker(self) -> Seq<char> {
        if self.multi_comments.len() >= 2 {
            self.multi_comments[1]
        } else {
            self.multi_comments[0]
        }
    }

    /// Every rule holds: the inline delimiter, the opening multi-line
    /// delimiter and the set of extensions are not empty, and no extension
    /// begins with a period.
    pub open spec fn valid(self) -> bool {
        &&& self.inline_comments.len() > 0
        &&& self.has_open_marker()
        &&& self.file_extensions.len() > 0
        &&& forall|i: int|
            0 <= i < self.file_extensions.len() ==> !is_dotted(#[trigger] self.file_extensions[i])
    }

    /// Every violated rule, in a fixed order: the multi-line delimiters, the
    /// inline delimiter, the extensions as a whole, then each extension.
    pub open spec fn issues(self) -> Seq<IssueText> {
        (if self.has_open_marker() {
            Seq::empty()
        } else {
            seq![issue_no_open_marker()]
        }) + (if self.inline_comments.len() > 0 {
            Seq::empty()
        } else {
            seq![issue_no_inline_marker()]
        }) + (if self.file_extensions.len() > 0 {
            Seq::empty()
        } else {
            seq![issue_no_extensions()]
        }) + dotted_issues(self.file_extensions)
    }
}

/// No extension begins with a period exactly where none gives an issue.
pub proof fn lemma_dotted_issues(extensions: Seq<Seq<char>>)
    ensures
        dotted_issues(extensions).len() == 0 <==> forall|i: int|
            0 <= i < extensions.len() ==> !is_dotted(#[trigger] extensions[i]),
    decreases extensions.len(),
{
    if extensions.len() > 0 {
        let front = extensions.drop_last();
        lemma_dotted_issues(front);
        if dotted_issues(extensions).len() == 0 {
            assert forall|i: int| 0 <= i < extensions.len() implies !is_dotted(
                #[trigger] extensions[i],
            ) by {
                if i < front.len() {
                    assert(front[i] == extensions[i]);
                }
            }
        } else if !is_dotted(extensions.last()) {
            let i = choose|i: int| 0 <= i < front.len() && is_dotted(#[trigger] front[i]);
            assert(is_dotted(extensions[i]));
        } else {
            assert(is_dotted(extensions[extensions.len() - 1]));
        }
    }
}

/// A configuration is valid exactly where it has no issues.
pub proof fn lemma_valid_iff_no_issues(c: ConfigText)
    ensures
        c.valid() <==> c.issues().len() == 0,
{
    lemma_dotted_issues(c.file_extensions);
}

impl ConfigError {
    /// The message that lists every error, and then a fix for each.
    pub fn message(&self) -> (text: String)
        ensures
            text@ == issues_message(issue_views(self.issues@)),
    {
        let ghost issues = issue_views(self.issues@);
        let mut out: Vec<char> = Vec::new();
        push_str(&mut out, "Configuration validation failed:\n\n");
        let ghost head = out@;
        let mut i: usize = 0;
        proof {
            assert(errors_of(issues).take(0) =~= Seq::<Seq<char>>::empty());
            assert(out@ =~= head + numbered(errors_of(issues).take(0)));
        }
        while i < self.issues.len()
            invariant
                i <= self.issues.len(),
                issues == issue_views(self.issues@),
                out@ == head + numbered(errors_of(issues).take(i as int)),
            decreases self.issues.len() - i,
        {
            let ghost before = out@;
            push_decimal(&mut out, i + 1);
            push_str(&mut out, ". ");
            push_str(&mut out, self.issues[i].error.as_str());
            push_str(&mut out, "\n");
            proof {
                let upto = errors_of(issues).take(i + 1);
                assert(upto.drop_last() =~= errors_of(issues).take(i as int));
                assert(upto.last() == self.issues@[i as int].error@);
                assert(out@ =~= head + numbered(upto));
            }
            i += 1;
        }
        proof {
            assert(errors_of(issues).take(issues.len() as int) =~= errors_of(issues));
        }
        push_str(&mut out, "\nSuggested fixes:\n");
        let ghost middle = out@;
        let mut k: usize = 0;
        proof {
            assert(suggestions_of(issues).take(0) =~= Seq::<Seq<char>>::empty());
            assert(out@ =~= middle + numbered(suggestions_of(issues).take(0)));
        }
        while k < self.issues.len()
            invariant
                k <= self.issues.len(),
                issues == issue_views(self.issues@),
                out@ == middle + numbered(suggestions_of(issues).take(k as int)),
            decreases self.issues.len() - k,
        {
            push_decimal(&mut out, k + 1);
            push_str(&mut out, ". ");
            push_str(&mut out, self.issues[k].suggestion.as_str());
            push_str(&mut out, "\n");
            proof {
                let upto = suggestions_of(issues).take(k + 1);
                assert(upto.drop_last() =~= suggestions_of(issues).take(k as int));
                assert(upto.last() == self.issues@[k as int].suggestion@);
                assert(out@ =~= middle + numbered(upto));
            }
            k += 1;
        }
        proof {
            assert(suggestions_of(issues).take(issues.len() as int) =~= suggestions_of(issues));
            assert(out@ =~= issues_message(issues));
        }
        string_of(&out)
    }
}

/// An issue with the given texts.
fn issue(error: &str, suggestion: &str) -> (made: ConfigIssue)
    ensures
        made@ == (IssueText { error: error@, suggestion: suggestion@ }),
{
    ConfigIssue { error: error.to_owned(), suggestion: suggestion.to_owned() }
}

impl DocGenConfig {
    /// Checks every rule of the configuration, and gives all the violated
    /// ones together.
    pub fn validate(&self) -> (r: Result<(), ConfigError>)
        ensures
            self@.valid() <==> r is Ok,
            r matches Err(e) ==> issue_views(e.issues@) == self@.issues(),
    {
        let mut issues: Vec<ConfigIssue> = Vec::new();
        if self.multi_comments.len() == 0 || self.multi_comments[0].as_str().is_empty() {
            issues.push(
                issue(
                    "No multiline comment delimiters specified",
                    "Add multiline comment delimiters, e.g., multi_comments = [\"/*\", \"*/\"]",
                ),
            );
        }
        if self.inline_comments.as_str().is_empty() {
            issues.push(
                issue(
                    "No inline comment delimiter specified",
                    "Add an inline comment delimiter, e.g., inline_comments = \"//\"",
                ),
            );
        }
        if self.file_extensions.len() == 0 {
            issues.push(
                issue(
                    "No file extensions specified",
                    "Add file extensions without the period, e.g., file_extensions = [\"rs\", \"py\", \"c\"]",
                ),
            );
        }
        let ghost fixed = issue_views(issues@);
        let ghost extensions = self@.file_extensions;
        let mut i: usize = 0;
        proof {
            assert(extensions.take(0) =~= Seq::<Seq<char>>::empty());
            assert(issue_views(issues@) =~= fixed + dotted_issues(extensions.take(0)));
            assert(fixed + dotted_issues(extensions) =~= self@.issues());
        }
        while i < self.file_extensions.len()
            invariant
                i <= self.file_extensions.len(),
                extensions == self@.file_extensions,
                issue_views(issues@) == fixed + dotted_issues(extensions.take(i as int)),
            decreases self.file_extensions.len() - i,
        {
            let extension = &self.file_extensions[i];
            let ghost before = issue_views(issues@);
            proof {
                assert(extensions.take(i + 1).drop_last() =~= extensions.take(i as int));
                assert(extensions.take(i + 1).last() == extension@);
            }
            if !extension.as_str().is_empty() && extension.as_str().get_char(0) == '.' {
                let mut error: Vec<char> = Vec::new();
                push_str(&mut error, "File extension '");
                push_str(&mut error, extension.as_str());
                push_str(&mut error, "' should not start with a period");
                issues.push(
                    ConfigIssue {
                        error: string_of(&error),
                        suggestion: "Remove the leading period from file extensions".to_owned(),
                    },
                );
                proof {
                    assert(issue_views(issues@) =~= before.push(issue_dotted(extension@)));
                    assert(issue_views(issues@) =~= fixed + dotted_issues(extensions.take(i + 1)));
                }
            }
            i += 1;
        }
        proof {
            assert(extensions.take(extensions.len() as int) =~= extensions);
            lemma_valid_iff_no_issues(self@);
        }
        if issues.len() == 0 {
            Ok(())
        } else {
            Err(ConfigError { issues })
        }
    }
}

/// The paths that have one of the extensions, in their order.
pub open spec fn kept_paths(paths: Seq<Seq<char>>, extensions: Seq<Seq<char>>) -> Seq<Seq<char>>
    decreases paths.len(),
{
    if paths.len() == 0 {
        Seq::empty()
    } else if has_extension(paths.last(), extensions) {
        kept_paths(paths.drop_last(), extensions).push(paths.last())
    } else {
        kept_paths(paths.drop_last(), extensions)
    }
}

/// The paths that are kept are the given paths that have one of the
/// extensions, no other and no fewer.
pub proof fn lemma_kept_paths(paths: Seq<Seq<char>>, extensions: Seq<Seq<char>>, path: Seq<char>)
    ensures
        kept_paths(paths, extensions).contains(path) <==> paths.contains(path) && has_extension(
            path,
            extensions,
        ),
    decreases paths.len(),
{
    if paths.len() > 0 {
        let front = paths.drop_last();
        let kept = kept_paths(paths, extensions);
        let kept_front = kept_paths(front, extensions);
        lemma_kept_paths(front, extensions, path);
        if kept.contains(path) {
            let i = choose|i: int| 0 <= i < kept.len() && kept[i] == path;
            if i < kept_front.len() {
                assert(kept_front[i] == path);
                let k = choose|k: int| 0 <= k < front.len() && front[k] == path;
                assert(paths[k] == path);
            } else {
                assert(paths[paths.len() - 1] == path);
            }
        }
        if paths.contains(path) && has_extension(path, extensions) {
            let k = choose|k: int| 0 <= k < paths.len() && paths[k] == path;
            if k < front.len() {
                assert(front[k] == path);
                let i = choose|i: int| 0 <= i < kept_front.len() && kept_front[i] == path;
                assert(kept[i] == path);
            } else {
                assert(kept[kept.len() - 1] == path);
            }
        }
    }
}

/// The name of the configuration file.
pub open spec fn config_file_name() -> Seq<char> {
    "VexDoc.toml"@
}

/// The content of a new configuration file: every setting, with no value.
pub open spec fn config_template() -> Seq<char> {
    "inline_comments = \"\"\nmulti_comments = []\nignored_dirs = []\nfile_extensions = []"@
}

/// A file to be written: where, and what.
#[derive(Debug, Clone, PartialEq, Eq)]
pub struct ConfigFile {
    pub path: String,
    pub content: String,
}

/// The error for a configuration file that could not be understood.
pub open spec fn unreadable_config(why: Seq<char>) -> ErrorText {
    ErrorText::UserError {
        causes: "fix missing values/incorrect syntax"@,
        source: Some(why),
        kind: UserErrorKind::Config,
        file: "./VexDoc.toml"@,
    }
}

/// The error for a configuration that breaks the rules.
pub open spec fn invalid_config(c: ConfigText) -> ErrorText {
    ErrorText::UserError {
        causes: issues_message(c.issues()),
        source: None,
        kind: UserErrorKind::Config,
        file: config_file_name(),
    }
}

/// The error for a file whose annotations break the structure.
pub open spec fn broken_annotations(path: Seq<char>) -> ErrorText {
    ErrorText::UserError {
        causes: "section titles must be followed by a summary"@,
        source: None,
        kind: UserErrorKind::Annotations,
        file: path,
    }
}

/// The page of one source file.
#[derive(Debug, Clone, PartialEq, Eq)]
pub struct DocPage {
    /// The file name of the page.
    pub name: String,
    /// The markup of the page.
    pub html: String,
}

/// The markers that the extractor looks for under a configuration.
pub open spec fn config_markers(c: ConfigText) -> Markers {
    markers(c.inline_marker(), c.open_marker(), c.close_marker())
}

impl DocGenConfig {
    /// Passes a valid configuration, and gives for any other the error that
    /// tells the user every rule it breaks.
    pub fn ensure_valid(&self) -> (r: Result<(), SubcommandError>)
        ensures
            self@.valid() <==> r is Ok,
            r matches Err(e) ==> e@ == invalid_config(self@),
    {
        match self.validate() {
            Ok(()) => Ok(()),
            Err(e) => Err(
                SubcommandError::UserError {
                    causes: e.message(),
                    source: None,
                    kind: UserErrorKind::Config,
                    file: "VexDoc.toml".to_owned(),
                },
            ),
        }
    }

    /// Takes what came of reading and parsing the configuration file: the
    /// configuration, or why the text could not be understood. Gives the
    /// configuration where it is valid, and else the error that tells the
    /// user every rule it breaks.
    pub fn read_config(parsed: Result<DocGenConfig, String>) -> (r: Result<
        DocGenConfig,
        SubcommandError,
    >)
        ensures
            match parsed {
                Err(why) => r matches Err(e) && e@ == unreadable_config(why@),
                Ok(c) => if c@.valid() {
                    r == Ok::<DocGenConfig, SubcommandError>(c)
                } else {
                    r matches Err(e) && e@ == invalid_config(c@)
                },
            },
    {
        match parsed {
            Err(why) => Err(
                SubcommandError::UserError {
                    causes: "fix missing values/incorrect syntax".to_owned(),
                    source: Some(why),
                    kind: UserErrorKind::Config,
                    file: "./VexDoc.toml".to_owned(),
                },
            ),
            Ok(config) => match config.ensure_valid() {
                Ok(()) => Ok(config),
                Err(e) => Err(e),
            },
        }
    }

    /// Takes what came of locating the files of the project: their paths, or
    /// the failure. Gives the paths that have one of the configured
    /// extensions, in their order.
    pub fn get_files(&self, located: Result<Vec<String>, IoFailure>) -> (r: Result<
        Vec<String>,
        SubcommandError,
    >)
        ensures
            match located {
                Err(failure) => r matches Err(e) && e@ == ErrorText::FileReadError(failure@),
                Ok(paths) => r matches Ok(kept) && string_views(kept@) == kept_paths(
                    string_views(paths@),
                    self@.file_extensions,
                ),
            },
    {
        match located {
            Err(failure) => Err(SubcommandError::FileReadError(failure)),
            Ok(paths) => {
                let ghost all = string_views(paths@);
                let ghost extensions = self@.file_extensions;
                let mut kept: Vec<String> = Vec::new();
                let mut i: usize = 0;
                proof {
                    assert(all.take(0) =~= Seq::<Seq<char>>::empty());
                    assert(string_views(kept@) =~= kept_paths(all.take(0), extensions));
                }
                while i < paths.len()
                    invariant
                        i <= paths.len(),
                        all == string_views(paths@),
                        extensions == self@.file_extensions,
                        string_views(kept@) == kept_paths(all.take(i as int), extensions),
                    decreases paths.len() - i,
                {
                    let ghost before = string_views(kept@);
                    let path = chars_of(paths[i].as_str());
                    proof {
                        assert(all.take(i + 1).drop_last() =~= all.take(i as int));
                        assert(all.take(i + 1).last() == path@);
                    }
                    if matches_extension(&path, &self.file_extensions) {
                        kept.push(paths[i].clone());
                        assert(string_views(kept@) =~= before.push(path@));
                    }
                    i += 1;
                }
                proof {
                    assert(all.take(all.len() as int) =~= all);
                }
                Ok(kept)
            },
        }
    }

    /// The configuration file to create in the directory `dir`.
    pub fn create_config(dir: &str) -> (file: ConfigFile)
        ensures
            file.path@ == child_path(dir@, config_file_name()),
            file.content@ == config_template(),
    {
        let dir_chars = chars_of(dir);
        let name = chars_of("VexDoc.toml");
        let path = join_path(&dir_chars, &name);
        ConfigFile {
            path: string_of(&path),
            content: "inline_comments = \"\"\nmulti_comments = []\nignored_dirs = []\nfile_extensions = []".to_owned(),
        }
    }
}

/// What the work on one file gives: the position of the line that broke the
/// structure, no page for a file without blocks, or the page.
pub open spec fn doc_of(path: Seq<char>, content: Seq<char>, c: ConfigText) -> Result<
    Option<(Seq<char>, Seq<char>)>,
    ErrorText,
> {
    match extraction(config_markers(c), split_lines(content)) {
        Err(_) => Err(broken_annotations(path)),
        Ok(blocks) => if blocks.len() == 0 {
            Ok(None)
        } else {
            Ok(Some((page_name(path), page_text(path, blocks))))
        },
    }
}

/// A file in which no line is a header or opens the summary of the file has
/// no page, and is no error.
pub proof fn lemma_unmarked_file_has_no_page(path: Seq<char>, content: Seq<char>, c: ConfigText)
    requires
        forall|i: int|
            0 <= i < split_lines(content).len() ==> is_skipped(
                config_markers(c),
                true,
                #[trigger] split_lines(content)[i],
            ),
    ensures
        doc_of(path, content, c) == Ok::<Option<(Seq<char>, Seq<char>)>, ErrorText>(None),
{
    lemma_unmarked_text_has_no_blocks(config_markers(c), split_lines(content));
}

/// The work on one file: extracts the blocks from its text and renders its
/// page. A file without blocks has no page. A file whose annotations break
/// the structure gives an error that names it.
pub fn create_doc(path: &str, content: &str, conf: &DocGenConfig) -> (r: Result<
    Option<DocPage>,
    SubcommandError,
>)
    requires
        conf@.valid(),
    ensures
        match r {
            Err(e) => doc_of(path@, content@, conf@) == Err::<
                Option<(Seq<char>, Seq<char>)>,
                ErrorText,
            >(e@),
            Ok(None) => doc_of(path@, content@, conf@) == Ok::<
                Option<(Seq<char>, Seq<char>)>,
                ErrorText,
            >(None),
            Ok(Some(page)) => doc_of(path@, content@, conf@) == Ok::<
                Option<(Seq<char>, Seq<char>)>,
                ErrorText,
            >(Some((page.name@, page.html@))),
        },
{
    let inline = conf.inline_comments.as_str();
    let open = conf.multi_comments[0].as_str();
    let close = if conf.multi_comments.len() >= 2 {
        conf.multi_comments[1].as_str()
    } else {
        conf.multi_comments[0].as_str()
    };
    match extract_blocks(content, inline, open, close) {
        Err(_) => Err(
            SubcommandError::UserError {
                causes: "section titles must be followed by a summary".to_owned(),
                source: None,
                kind: UserErrorKind::Annotations,
                file: path.to_owned(),
            },
        ),
        Ok(blocks) => {
            if blocks.len() == 0 {
                Ok(None)
            } else {
                let path_chars = chars_of(path);
                let name = output_name(&path_chars);
                Ok(Some(DocPage { name: string_of(&name), html: render(path, &blocks) }))
            }
        },
    }
}

/// How the work on one file ended.
#[derive(Debug, Clone, PartialEq, Eq)]
pub enum ExtractionOutcome {
    /// The file had blocks, and its page was written.
    HasBlocks,
    /// The file had no blocks.
    Empty,
    /// The work failed.
    Failed(SubcommandError),
}

/// The mathematical value of an `ExtractionOutcome`.
pub enum OutcomeText {
    HasBlocks,
    Empty,
    Failed(ErrorText),
}

impl View for ExtractionOutcome {
    type V = OutcomeText;

    open spec fn view(&self) -> OutcomeText {
        match *self {
            ExtractionOutcome::HasBlocks => OutcomeText::HasBlocks,
            ExtractionOutcome::Empty => OutcomeText::Empty,
            ExtractionOutcome::Failed(e) => OutcomeText::Failed(e@),
        }
    }
}

/// How the work on one file ended, from what `create_doc` gave and, where
/// it gave a page, from the failure to write that page, if there was one.
/// The file has blocks where its page was written, and is empty where it has
/// no page. Where the work failed, or the page could not be written, it has
/// failed.
pub fn file_outcome(doc: Result<Option<DocPage>, SubcommandError>, written: Option<IoFailure>) -> (o:
    ExtractionOutcome)
    ensures
        o@ == match doc {
            Err(e) => OutcomeText::Failed(e@),
            Ok(None) => OutcomeText::Empty,
            Ok(Some(_)) => match written {
                None => OutcomeText::HasBlocks,
                Some(failure) => OutcomeText::Failed(ErrorText::GenerationWriteError(failure@)),
            },
        },
{
    match doc {
        Err(e) => ExtractionOutcome::Failed(e),
        Ok(None) => ExtractionOutcome::Empty,
        Ok(Some(_)) => match written {
            None => ExtractionOutcome::HasBlocks,
            Some(failure) => ExtractionOutcome::Failed(
                SubcommandError::GenerationWriteError(failure),
            ),
        },
    }
}

/// A file and how the work on it ended.
#[derive(Debug, Clone, PartialEq, Eq)]
pub struct FileOutcome {
    pub path: String,
    pub outcome: ExtractionOutcome,
}

/// The mathematical value of a `FileOutcome`.
pub struct FileOutcomeText {
    pub path: Seq<char>,
    pub outcome: OutcomeText,
}

impl View for FileOutcome {
    type V = FileOutcomeText;

    open spec fn view(&self) -> FileOutcomeText {
        FileOutcomeText { path: self.path@, outcome: self.outcome@ }
    }
}

/// The values of a sequence of outcomes, element by element.
pub open spec fn outcome_views(outcomes: Seq<FileOutcome>) -> Seq<FileOutcomeText> {
    Seq::new(outcomes.len(), |i: int| outcomes[i]@)
}

/// The notice for a run without files.
pub open spec fn notice_no_files() -> Seq<char> {
    "NOTICE: no files were documented. Ensure your config has the appropriate file extensions"@
}

/// The notice for a file without blocks.
pub open spec fn notice_empty(path: Seq<char>) -> Seq<char> {
    "NOTICE: "@ + path
        + " contained no annotations, so nothing was actually written to its documentation. Ensure it has correct annotations"@
}

/// The error of the first file whose work failed, if there is one.
pub open spec fn first_failure(outcomes: Seq<FileOutcomeText>) -> Option<ErrorText>
    decreases outcomes.len(),
{
    if outcomes.len() == 0 {
        None
    } else {
        match first_failure(outcomes.drop_last()) {
            Some(e) => Some(e),
            None => match outcomes.last().outcome {
                OutcomeText::Failed(e) => Some(e),
                _ => None,
            },
        }
    }
}

/// One notice for each file without blocks, in the order of the files.
pub open spec fn empty_notices(outcomes: Seq<FileOutcomeText>) -> Seq<Seq<char>>
    decreases outcomes.len(),
{
    if outcomes.len() == 0 {
        Seq::empty()
    } else if outcomes.last().outcome is Empty {
        empty_notices(outcomes.drop_last()).push(notice_empty(outcomes.last().path))
    } else {
        empty_notices(outcomes.drop_last())
    }
}

/// What a run tells the user when all files are done: the error of the
/// first file that failed, or else its notices, which a quiet run keeps to
/// itself.
pub open spec fn run_result(outcomes: Seq<FileOutcomeText>, quiet: bool) -> Result<
    Seq<Seq<char>>,
    ErrorText,
> {
    match first_failure(outcomes) {
        Some(e) => Err(e),
        None => if quiet {
            Ok(Seq::empty())
        } else if outcomes.len() == 0 {
            Ok(seq![notice_no_files()])
        } else {
            Ok(empty_notices(outcomes))
        },
    }
}

/// A failure among the first files is the first failure of all.
pub proof fn lemma_first_failure_stays(a: Seq<FileOutcomeText>, b: Seq<FileOutcomeText>)
    requires
        first_failure(a) is Some,
    ensures
        first_failure(a + b) == first_failure(a),
    decreases b.len(),
{
    if b.len() == 0 {
        assert(a + b =~= a);
    } else {
        assert((a + b).drop_last() =~= a + b.drop_last());
        lemma_first_failure_stays(a, b.drop_last());
    }
}

/// Gathers the outcomes of all files, given in the order of the files: the
/// error of the first file that failed, or else the notices to print.
pub fn document(outcomes: &Vec<FileOutcome>, quiet: bool) -> (r: Result<
    Vec<String>,
    SubcommandError,
>)
    ensures
        match r {
            Ok(notices) => run_result(outcome_views(outcomes@), quiet) == Ok::<
                Seq<Seq<char>>,
                ErrorText,
            >(string_views(notices@)),
            Err(e) => run_result(outcome_views(outcomes@), quiet) == Err::<
                Seq<Seq<char>>,
                ErrorText,
            >(e@),
        },
{
    let ghost all = outcome_views(outcomes@);
    let mut notices: Vec<String> = Vec::new();
    let mut i: usize = 0;
    proof {
        assert(all.take(0) =~= Seq::<FileOutcomeText>::empty());
        assert(string_views(notices@) =~= empty_notices(all.take(0)));
    }
    while i < outcomes.len()
        invariant
            i <= outcomes.len(),
            all == outcome_views(outcomes@),
            first_failure(all.take(i as int)) is None,
            string_views(notices@) == empty_notices(all.take(i as int)),
        decreases outcomes.len() - i,
    {
        let ghost before = string_views(notices@);
        proof {
            assert(all.take(i + 1).drop_last() =~= all.take(i as int));
            assert(all.take(i + 1).last() == outcomes@[i as int]@);
        }
        match &outcomes[i].outcome {
            ExtractionOutcome::HasBlocks => {},
            ExtractionOutcome::Empty => {
                let mut notice: Vec<char> = Vec::new();
                push_str(&mut notice, "NOTICE: ");
                push_str(&mut notice, outcomes[i].path.as_str());
                push_str(
                    &mut notice,
                    " contained no annotations, so nothing was actually written to its documentation. Ensure it has correct annotations",
                );
                notices.push(string_of(&notice));
                proof {
                    assert(string_views(notices@) =~= before.push(
                        notice_empty(outcomes@[i as int]@.path),
                    ));
                }
            },
            ExtractionOutcome::Failed(e) => {
                proof {
                    assert(all =~= all.take(i + 1) + all.skip(i + 1));
                    lemma_first_failure_stays(all.take(i + 1), all.skip(i + 1));
                }
                return Err(e.duplicate());
            },
        }
        i += 1;
    }
    proof {
        assert(all.take(all.len() as int) =~= all);
    }
    if quiet {
        let none: Vec<String> = Vec::new();
        assert(string_views(none@) =~= Seq::<Seq<char>>::empty());
        Ok(none)
    } else if outcomes.len() == 0 {
        let mut only: Vec<String> = Vec::new();
        only.push(
            "NOTICE: no files were documented. Ensure your config has the appropriate file extensions".to_owned(),
        );
        assert(string_views(only@) =~= seq![notice_no_files()]);
        Ok(only)
    } else {
        Ok(notices)
    }
}

} // verus!
