//! The streaming rewriter: one pass over the lines, one line in and one line
//! out, stopping at the first marker that stands out of sequence.

use vstd::prelude::*;
use crate::marker::{
    anchor_of, carries_prefix, classify, has_prefix, is_closing, is_opening, toggle_line, toggled,
    LineKind,
};
use crate::violation::{model, Violation, ViolationKind};

verus! {

/// What a rewriter state stands for.
pub enum Mode {
    /// Between blocks.
    Outside,
    /// In a block anchored at `column`.
    Inside { column: nat },
}

/// Where the rewriter is: outside every block, or inside one whose opening
/// line had its first comment character at `indentation`.
#[derive(Clone, Copy, Debug, PartialEq, Eq, Structural)]
pub enum StreamState {
    Outside,
    Inside { indentation: usize },
}

impl View for StreamState {
    type V = Mode;

    open spec fn view(&self) -> Mode {
        match self {
            StreamState::Outside => Mode::Outside,
            StreamState::Inside { indentation } => Mode::Inside { column: *indentation as nat },
        }
    }
}

impl DeepView for StreamState {
    type V = Mode;

    open spec fn deep_view(&self) -> Mode {
        self@
    }
}

/// One step of the rewriter: the mode after `line` and the line to write, or
/// the violation that `line` is.
///
/// Outside a block every line is written as it stands; an opening line enters
/// a block, a closing line is a violation. Inside a block a line that carries
/// the comment prefix loses it; else a closing line leaves the block and is
/// written as it stands, an opening line is a violation, and any other line
/// gets the prefix.
pub open spec fn stream_step(mode: Mode, line: Seq<char>) -> Result<
    (Mode, Seq<char>),
    ViolationKind,
> {
    match mode {
        Mode::Outside => {
            if is_closing(line) {
                Err(ViolationKind::UnmatchedClose)
            } else if is_opening(line) {
                Ok((Mode::Inside { column: anchor_of(line).unwrap() as nat }, line))
            } else {
                Ok((Mode::Outside, line))
            }
        },
        Mode::Inside { column } => {
            if carries_prefix(line, column as int) {
                Ok((mode, toggled(line, column as int)))
            } else if is_closing(line) {
                Ok((Mode::Outside, line))
            } else if is_opening(line) {
                Err(ViolationKind::NestedOpen)
            } else {
                Ok((mode, toggled(line, column as int)))
            }
        },
    }
}

/// The rewriter after some lines: its mode and what it has written.
pub struct Streamed {
    pub mode: Mode,
    pub lines: Seq<Seq<char>>,
}

/// The rewriter after the first `upto` lines of `doc`, or the first violation
/// among them.
pub open spec fn stream_prefix(doc: Seq<Seq<char>>, upto: nat) -> Result<Streamed, Violation>
    decreases upto,
{
    if upto == 0 {
        Ok(Streamed { mode: Mode::Outside, lines: Seq::empty() })
    } else {
        match stream_prefix(doc, (upto - 1) as nat) {
            Ok(so_far) => match stream_step(so_far.mode, doc[upto - 1]) {
                Ok((mode, line)) => Ok(Streamed { mode, lines: so_far.lines.push(line) }),
                Err(kind) => Err(Violation { line: (upto - 1) as nat, kind }),
            },
            Err(violation) => Err(violation),
        }
    }
}

/// The rewriter after all of `doc`: what it has written and whether the file
/// ends inside a block; or the first violation in `doc`.
pub open spec fn streamed(doc: Seq<Seq<char>>) -> Result<Streamed, Violation> {
    stream_prefix(doc, doc.len())
}

/// What the rewriter has written for a file, and the state in which the file
/// ends.
#[derive(Debug, PartialEq, Eq)]
pub struct Rewritten {
    pub state: StreamState,
    pub lines: Vec<String>,
}

impl View for Rewritten {
    type V = Streamed;

    open spec fn view(&self) -> Streamed {
        Streamed { mode: self.state@, lines: self.lines.deep_view() }
    }
}

impl DeepView for Rewritten {
    type V = Streamed;

    open spec fn deep_view(&self) -> Streamed {
        self@
    }
}

/// A violation among the first lines is the violation of every longer prefix.
pub proof fn lemma_stream_violation_stays(doc: Seq<Seq<char>>, upto: nat, later: nat)
    requires
        upto <= later,
        stream_prefix(doc, upto) is Err,
    ensures
        stream_prefix(doc, later) == stream_prefix(doc, upto),
    decreases later,
{
    if upto < later {
        lemma_stream_violation_stays(doc, upto, (later - 1) as nat);
    }
}

/// Before the first opening line the rewriter is outside every block: it
/// has written the lines as they stand, or has met a closing line.
pub proof fn lemma_stream_before_first_open(doc: Seq<Seq<char>>, upto: nat)
    requires
        upto <= doc.len(),
        forall|line: int| 0 <= line < upto ==> !is_opening(#[trigger] doc[line]),
    ensures
        match stream_prefix(doc, upto) {
            Ok(so_far) => {
                &&& so_far.mode == Mode::Outside
                &&& so_far.lines == doc.subrange(0, upto as int)
                &&& forall|line: int| 0 <= line < upto ==> !is_closing(#[trigger] doc[line])
            },
            Err(violation) => {
                &&& violation.kind == ViolationKind::UnmatchedClose
                &&& violation.line < upto
                &&& is_closing(doc[violation.line as int])
                &&& forall|line: int|
                    0 <= line < violation.line ==> !is_closing(#[trigger] doc[line])
            },
        },
    decreases upto,
{
    if upto == 0 {
        assert(doc.subrange(0, 0) =~= Seq::<Seq<char>>::empty());
    } else {
        lemma_stream_before_first_open(doc, (upto - 1) as nat);
        if let Ok(so_far) = stream_prefix(doc, (upto - 1) as nat) {
            assert(!is_opening(doc[upto - 1]));
            assert(doc.subrange(0, upto as int) =~= doc.subrange(0, upto - 1).push(doc[upto - 1]));
        }
    }
}

/// A closing line that no opening line comes before is rejected: the
/// rewriter stops at the first closing line of the file.
pub proof fn lemma_close_before_open_is_rejected(doc: Seq<Seq<char>>, line: int)
    requires
        0 <= line < doc.len(),
        is_closing(doc[line]),
        forall|before: int| 0 <= before < line ==> !is_opening(#[trigger] doc[before]),
    ensures
        streamed(doc) matches Err(violation) && violation.kind == ViolationKind::UnmatchedClose
            && violation.line <= line && is_closing(doc[violation.line as int]),
{
    lemma_stream_before_first_open(doc, line as nat);
    if stream_prefix(doc, line as nat) is Err {
        lemma_stream_violation_stays(doc, line as nat, doc.len());
    } else {
        assert(stream_prefix(doc, (line + 1) as nat) is Err);
        lemma_stream_violation_stays(doc, (line + 1) as nat, doc.len());
    }
}

/// An opening line inside a block is rejected, unless it carries the comment
/// prefix at the block's column and so counts as a commented line.
pub proof fn lemma_open_inside_block_is_rejected(doc: Seq<Seq<char>>, line: int)
    requires
        0 <= line < doc.len(),
        is_opening(doc[line]),
        stream_prefix(doc, line as nat) matches Ok(so_far) && (so_far.mode matches Mode::Inside {
            column,
        } && !carries_prefix(doc[line], column as int)),
    ensures
        streamed(doc) matches Err(violation) && violation == (Violation {
            line: line as nat,
            kind: ViolationKind::NestedOpen,
        }),
{
    assert(stream_prefix(doc, (line + 1) as nat) is Err);
    lemma_stream_violation_stays(doc, (line + 1) as nat, doc.len());
}

/// A file without marker lines is written as it stands.
pub proof fn lemma_stream_without_markers(doc: Seq<Seq<char>>)
    requires
        forall|line: int|
            0 <= line < doc.len() ==> !is_opening(#[trigger] doc[line]) && !is_closing(doc[line]),
    ensures
        streamed(doc) matches Ok(end) && end == (Streamed { mode: Mode::Outside, lines: doc }),
{
    lemma_stream_before_first_open(doc, doc.len());
    if let Err(violation) = stream_prefix(doc, doc.len()) {
        assert(!is_closing(doc[violation.line as int]));
    }
    assert(doc.subrange(0, doc.len() as int) =~= doc);
}

impl StreamState {
    /// The state before the first line.
    pub fn new() -> (state: Self)
        ensures
            state@ == Mode::Outside,
    {
        StreamState::Outside
    }

    /// Takes one line: gives the state after it and the line to write, or the
    /// kind of violation that the line is.
    pub fn step(self, line: &str) -> (result: Result<(StreamState, String), ViolationKind>)
        ensures
            model(result) == stream_step(self@, line@),
    {
        match self {
            StreamState::Outside => {
                match classify(line) {
                    LineKind::Closing => Err(ViolationKind::UnmatchedClose),
                    LineKind::Opening { indentation } => Ok(
                        (StreamState::Inside { indentation }, line.to_owned()),
                    ),
                    LineKind::Plain => Ok((StreamState::Outside, line.to_owned())),
                }
            },
            StreamState::Inside { indentation } => {
                if has_prefix(line, indentation) {
                    Ok((self, toggle_line(line, indentation)))
                } else {
                    match classify(line) {
                        LineKind::Closing => Ok((StreamState::Outside, line.to_owned())),
                        LineKind::Opening { .. } => Err(ViolationKind::NestedOpen),
                        LineKind::Plain => Ok((self, toggle_line(line, indentation))),
                    }
                }
            },
        }
    }
}

} // verus!
