//! The ways of visiting a directory.

use vstd::prelude::*;
use crate::args::Cli;

verus! {

/// How the entries of a directory are visited.
#[derive(Clone, Copy, Debug, PartialEq, Eq, Structural)]
pub enum VisitMethod {
    /// The files of the directory itself.
    Flat,
    /// The files of the directory and of every directory below it.
    Recursive,
}

/// What is done with one entry of a directory.
#[derive(Clone, Copy, Debug, PartialEq, Eq, Structural)]
pub enum EntryStep {
    /// Pass over the entry.
    Skip,
    /// Apply the operation to the entry.
    Apply,
    /// Visit the entries of the entry in the same way.
    Descend,
}

/// The visit that `recursive` asks for.
pub open spec fn visit_method_for(recursive: bool) -> VisitMethod {
    if recursive {
        VisitMethod::Recursive
    } else {
        VisitMethod::Flat
    }
}

/// Picks the way of visiting directories that the parameters ask for.
pub fn select_visit_method(args: &Cli) -> (method: VisitMethod)
    ensures
        method == visit_method_for(args.recursive),
{
    if args.recursive {
        VisitMethod::Recursive
    } else {
        VisitMethod::Flat
    }
}

/// What is done with a path that the parameters name: a directory is
/// visited, whatever the way of visiting, and a file is operated on.
pub open spec fn step_for_path(is_dir: bool) -> EntryStep {
    if is_dir {
        EntryStep::Descend
    } else {
        EntryStep::Apply
    }
}

/// Says what to do with a path that the parameters name.
pub fn on_path(is_dir: bool) -> (step: EntryStep)
    ensures
        step == step_for_path(is_dir),
{
    if is_dir {
        EntryStep::Descend
    } else {
        EntryStep::Apply
    }
}

impl VisitMethod {
    /// What this visit does with an entry: a file is operated on; a directory
    /// is entered by the recursive visit and passed over by the flat one.
    pub open spec fn step_for(self, is_dir: bool) -> EntryStep {
        if !is_dir {
            EntryStep::Apply
        } else if self == VisitMethod::Recursive {
            EntryStep::Descend
        } else {
            EntryStep::Skip
        }
    }

    /// Says what to do with an entry that is, or is not, a directory.
    pub fn on_entry(self, is_dir: bool) -> (step: EntryStep)
        ensures
            step == self.step_for(is_dir),
    {
        if !is_dir {
            EntryStep::Apply
        } else {
            match self {
                VisitMethod::Recursive => EntryStep::Descend,
                VisitMethod::Flat => EntryStep::Skip,
            }
        }
    }
}

} // verus!
