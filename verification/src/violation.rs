//! Markers out of sequence.

use vstd::prelude::*;
use crate::text::{decimal, decimal_text};

verus! {

/// How a marker can stand out of sequence.
#[derive(Clone, Copy, Debug, PartialEq, Eq, Structural)]
pub enum ViolationKind {
    /// A closing marker with no block open.
    UnmatchedClose,
    /// An opening marker inside a block, where nesting is not supported.
    NestedOpen,
}

/// What is said of a closing marker with no block open.
pub const UNMATCHED_CLOSE: &'static str = "closing marker without an open block";

/// What is said of an opening marker inside a block.
pub const NESTED_OPEN: &'static str = "opening marker inside a block";

impl ViolationKind {
    /// The nature of the violation, in words.
    pub open spec fn message(self) -> Seq<char> {
        match self {
            ViolationKind::UnmatchedClose => UNMATCHED_CLOSE@,
            ViolationKind::NestedOpen => NESTED_OPEN@,
        }
    }

    /// Says in words what kind of violation this is.
    pub fn describe(&self) -> (text: &'static str)
        ensures
            text@ == self.message(),
    {
        match self {
            ViolationKind::UnmatchedClose => UNMATCHED_CLOSE,
            ViolationKind::NestedOpen => NESTED_OPEN,
        }
    }
}

/// What a structural violation stands for: the line of the offending marker
/// and the kind of offence.
pub struct Violation {
    pub line: nat,
    pub kind: ViolationKind,
}

/// A marker out of sequence, at line `line`.
#[derive(Clone, Copy, Debug, PartialEq, Eq, Structural)]
pub struct StructuralViolation {
    pub line: usize,
    pub kind: ViolationKind,
}

impl View for StructuralViolation {
    type V = Violation;

    open spec fn view(&self) -> Violation {
        Violation { line: self.line as nat, kind: self.kind }
    }
}

impl DeepView for StructuralViolation {
    type V = Violation;

    open spec fn deep_view(&self) -> Violation {
        self@
    }
}

impl DeepView for ViolationKind {
    type V = ViolationKind;

    open spec fn deep_view(&self) -> ViolationKind {
        *self
    }
}

/// What a result stands for: what its value stands for, or what its error
/// stands for.
pub open spec fn model<T: DeepView, E: DeepView>(result: Result<T, E>) -> Result<T::V, E::V> {
    match result {
        Ok(value) => Ok(value.deep_view()),
        Err(error) => Err(error.deep_view()),
    }
}

/// The words that open the message of a violation.
pub const FAILURE: &'static str = "Error in swaps: ";

/// The words between the name of the file and the number of the line.
pub const AT_LINE: &'static str = ": line ";

/// The mark between the number of the line and the nature of the violation.
pub const COLON: &'static str = ": ";

/// The message of a violation in the file `name`: the file, the number of
/// the line, counted from one, and the nature of the violation.
pub open spec fn violation_text(name: Seq<char>, violation: Violation) -> Seq<char> {
    FAILURE@ + name + AT_LINE@ + decimal(violation.line + 1) + COLON@ + violation.kind.message()
}

impl StructuralViolation {
    /// The message that tells of this violation in the file `name`.
    pub fn describe(&self, name: &str) -> (text: String)
        ensures
            text@ == violation_text(name@, self@),
    {
        let mut text = String::from_str(FAILURE);
        text.append(name);
        text.append(AT_LINE);
        text.append(decimal_text(self.line as u128 + 1).as_str());
        text.append(COLON);
        text.append(self.kind.describe());
        text
    }
}

} // verus!
