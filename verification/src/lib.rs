//! Extraction of documentation blocks that are embedded as marked comments in
//! source files, and their rendering as static pages.
//!
//! The library computes; it reads and writes no file. A program around it
//! reads the configuration and the sources, hands their text in, and writes
//! the pages that come back.

pub mod cli;
pub mod docgen;
pub mod errors;
pub mod extract;
pub mod paths;
pub mod text;

use crate::cli::{VexDocArgs, VexDocSubcommands};
use crate::docgen::{config_file_name, config_template, DocGenConfig};
use crate::paths::child_path;
use crate::text::{push_str, string_of, string_views};
use vstd::prelude::*;

verus! {

/// What a command asks the program to do.
#[derive(Debug, Clone, PartialEq, Eq)]
pub enum Plan {
    /// Create the file at `path` with `content`, failing where it exists;
    /// then tell the user `done`.
    Init { path: String, content: String, done: String },
    /// Read the configuration; tell the user `announce`, if there is
    /// something to tell; then document `files`, or, where there are none,
    /// the files that are discovered.
    Generate { announce: Option<String>, files: Option<Vec<String>>, verbose: bool, quiet: bool },
}

/// The mathematical value of a `Plan`.
pub enum PlanText {
    Init { path: Seq<char>, content: Seq<char>, done: Seq<char> },
    Generate {
        announce: Option<Seq<char>>,
        files: Option<Seq<Seq<char>>>,
        verbose: bool,
        quiet: bool,
    },
}

impl View for Plan {
    type V = PlanText;

    open spec fn view(&self) -> PlanText {
        match *self {
            Plan::Init { path, content, done } => PlanText::Init {
                path: path@,
                content: content@,
                done: done@,
            },
            Plan::Generate { announce, files, verbose, quiet } => PlanText::Generate {
                announce: match announce {
                    Some(text) => Some(text@),
                    None => None,
                },
                files: match files {
                    Some(paths) => Some(string_views(paths@)),
                    None => None,
                },
                verbose,
                quiet,
            },
        }
    }
}

/// The plan for creating the configuration file in the directory `dir`.
pub open spec fn init_plan(dir: Seq<char>) -> PlanText {
    PlanText::Init {
        path: child_path(dir, config_file_name()),
        content: config_template(),
        done: "Created new, empty configuration file in "@ + dir,
    }
}

/// The plan for documenting `files`. A run that is not quiet announces
/// itself, and a run without files discovers them.
pub open spec fn generate_plan(files: Seq<Seq<char>>, verbose: bool, quiet: bool) -> PlanText {
    PlanText::Generate {
        announce: if quiet {
            None
        } else {
            Some("Beginning documentation"@)
        },
        files: if files.len() == 0 {
            None
        } else {
            Some(files)
        },
        verbose,
        quiet,
    }
}

/// Decides what a command asks for.
pub fn run(args: VexDocArgs) -> (plan: Plan)
    ensures
        plan@ == match args.subcommands {
            VexDocSubcommands::Init(init) => init_plan(init.dir@),
            VexDocSubcommands::Generate(generate) => generate_plan(
                string_views(generate.files@),
                generate.verbose,
                generate.quiet,
            ),
        },
{
    match args.subcommands {
        VexDocSubcommands::Init(init) => {
            let file = DocGenConfig::create_config(init.dir.as_str());
            let mut done: Vec<char> = Vec::new();
            push_str(&mut done, "Created new, empty configuration file in ");
            push_str(&mut done, init.dir.as_str());
            Plan::Init { path: file.path, content: file.content, done: string_of(&done) }
        },
        VexDocSubcommands::Generate(generate) => {
            let announce = if generate.quiet {
                None
            } else {
                Some("Beginning documentation".to_owned())
            };
            let files = if generate.files.len() == 0 {
                None
            } else {
                Some(generate.files)
            };
            Plan::Generate { announce, files, verbose: generate.verbose, quiet: generate.quiet }
        },
    }
}

} // verus!
