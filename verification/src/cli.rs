//! The commands of the command line tool, as values: which command was asked for and on which
//! files.

use std::path::PathBuf;

use vstd::prelude::*;

verus! {

/// `std::path::PathBuf`, an owned file system path; its value is carried through unread.
#[verifier::external_type_specification]
#[verifier::external_body]
pub struct ExPathBuf(PathBuf);

/// The parsed command line: the subcommand, where one was given.
pub struct Cli {
    /// The subcommand to run.
    pub cmd: Option<Command>,
}

/// A subcommand of the command line tool.
pub enum Command {
    /// Create a basic setup, at the given path or in the current directory.
    Init {
        /// Where to create the setup.
        path: Option<PathBuf>,
    },
    /// Check schema files for errors.
    Check {
        /// Glob patterns of the files to check (at least one).
        files: Vec<PathBuf>,
    },
    /// Format schema files in place.
    Format {
        /// Glob patterns of the files to format (at least one).
        files: Vec<PathBuf>,
    },
}

} // verus!
