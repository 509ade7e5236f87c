//! The input parameters of one run.

use std::path::PathBuf;
use vstd::prelude::*;

verus! {

/// `std::path::PathBuf`, carried through as it is: nothing is said of what a
/// path holds.
#[verifier::external_type_specification]
#[verifier::external_body]
pub struct ExPathBuf(PathBuf);

/// What a run was asked to do.
#[derive(Debug)]
pub struct Cli {
    /// The operation; none asks for a toggle.
    pub command: Option<Subcommands>,
    /// Paths to files or directories to read.
    pub paths: Vec<PathBuf>,
    /// Apply the operation to every file in a directory and below it.
    pub recursive: bool,
}

/// The operations that can be asked for by name.
#[derive(Clone, Copy, Debug, PartialEq, Eq, Structural)]
pub enum Subcommands {
    /// List all swap blocks.
    List,
    /// Strip all swap blocks.
    Clean,
    /// Rewrite in one pass, stopping at the first marker out of sequence.
    Test,
}

} // verus!
