//! The operations on one file.

use vstd::prelude::*;
use crate::args::{Cli, Subcommands};
use crate::block::{Block, SwapBlock};
use crate::scanner::{scan, scanned};
use crate::violation::{model, StructuralViolation, Violation};
use crate::stream::{
    lemma_stream_violation_stays, stream_prefix, streamed, Rewritten, StreamState, Streamed,
};
use crate::text::same_text;
use crate::transform::{
    copy_lines, listing, report, strip, stripped, toggle, toggled_all, BlockListing, Listed,
};

verus! {

/// The operation to apply to each file.
#[derive(Clone, Copy, Debug, PartialEq, Eq, Structural)]
pub enum Action {
    /// Toggle the blocks.
    Swap,
    /// Report the blocks.
    List,
    /// Strip the blocks.
    Clean,
    /// Rewrite in one pass.
    Test,
}

/// The operation that `command` names; a toggle where it names none.
pub open spec fn action_for(command: Option<Subcommands>) -> Action {
    match command {
        Some(Subcommands::List) => Action::List,
        Some(Subcommands::Clean) => Action::Clean,
        Some(Subcommands::Test) => Action::Test,
        None => Action::Swap,
    }
}

/// Picks the operation that the parameters ask for.
pub fn select_action(args: &Cli) -> (action: Action)
    ensures
        action == action_for(args.command),
{
    match args.command {
        Some(Subcommands::List) => Action::List,
        Some(Subcommands::Clean) => Action::Clean,
        Some(Subcommands::Test) => Action::Test,
        None => Action::Swap,
    }
}

/// The extension of the files that the batch operations work on.
pub const EXTENSION: &'static str = "tf";

/// The file's extension is the recognized one.
pub open spec fn is_recognized(extension: Option<Seq<char>>) -> bool {
    extension == Some(EXTENSION@)
}

/// Every block is closed.
pub open spec fn all_complete(blocks: Seq<Block>) -> bool {
    forall|which: int| 0 <= which < blocks.len() ==> (#[trigger] blocks[which]).is_complete()
}

/// The blocks that a batch operation works on: those of the file, where its
/// extension is the recognized one, it has at least one block and every block
/// is closed. `None` where the operation does not apply; a violation where the
/// extension is recognized and a closing marker finds no block open.
pub open spec fn block_set(extension: Option<Seq<char>>, doc: Seq<Seq<char>>) -> Result<
    Option<Seq<Block>>,
    Violation,
> {
    if !is_recognized(extension) {
        Ok(None)
    } else {
        match scanned(doc) {
            Ok(blocks) => if blocks.len() > 0 && all_complete(blocks) {
                Ok(Some(blocks))
            } else {
                Ok(None)
            },
            Err(violation) => Err(violation),
        }
    }
}

/// A batch operation works on the file, and on the blocks `blocks`.
pub open spec fn acts_on(
    extension: Option<Seq<char>>,
    doc: Seq<Seq<char>>,
    blocks: Seq<Block>,
) -> bool {
    block_set(extension, doc) matches Ok(Some(found)) && found == blocks
}

/// Whether the extension of a file is the recognized one.
pub fn recognizes(extension: Option<&str>) -> (recognized: bool)
    ensures
        recognized == is_recognized(extension.deep_view()),
{
    match extension {
        Some(text) => same_text(text, EXTENSION),
        None => false,
    }
}

/// Whether every block is closed.
fn are_all_complete(blocks: &Vec<SwapBlock>) -> (complete: bool)
    ensures
        complete == all_complete(blocks.deep_view()),
{
    let mut which: usize = 0;
    while which < blocks.len()
        invariant
            which <= blocks.len(),
            forall|seen: int|
                0 <= seen < which ==> (#[trigger] blocks.deep_view()[seen]).is_complete(),
        decreases blocks.len() - which,
    {
        if !blocks[which].is_complete() {
            assert(!blocks.deep_view()[which as int].is_complete());
            return false;
        }
        which += 1;
    }
    true
}

/// The blocks that a batch operation works on in a file with this extension
/// and these lines.
pub fn file_blocks(extension: Option<&str>, lines: &Vec<String>) -> (result: Result<
    Option<Vec<SwapBlock>>,
    StructuralViolation,
>)
    ensures
        model(result) == block_set(extension.deep_view(), lines.deep_view()),
{
    if !recognizes(extension) {
        return Ok(None);
    }
    match scan(lines) {
        Ok(blocks) => {
            if blocks.len() > 0 && are_all_complete(&blocks) {
                Ok(Some(blocks))
            } else {
                Ok(None)
            }
        },
        Err(violation) => Err(violation),
    }
}

/// The file has blocks, and one of them is still open at its end.
pub open spec fn has_open_block(doc: Seq<Seq<char>>) -> bool {
    scanned(doc) matches Ok(blocks) && !all_complete(blocks)
}

/// The file has no block.
pub open spec fn has_no_block(doc: Seq<Seq<char>>) -> bool {
    scanned(doc) matches Ok(blocks) && blocks.len() == 0
}

/// A batch operation leaves the file as it is: the extension is not the
/// recognized one, or the file has no block, or one of its blocks is open.
pub open spec fn is_left_alone(extension: Option<Seq<char>>, doc: Seq<Seq<char>>) -> bool {
    !is_recognized(extension) || has_no_block(doc) || has_open_block(doc)
}

/// The lines that a toggle writes: `None` where the file is left alone.
pub open spec fn swapped(extension: Option<Seq<char>>, doc: Seq<Seq<char>>) -> Result<
    Option<Seq<Seq<char>>>,
    Violation,
> {
    match block_set(extension, doc) {
        Ok(Some(blocks)) => Ok(Some(toggled_all(doc, blocks))),
        Ok(None) => Ok(None),
        Err(violation) => Err(violation),
    }
}

/// The lines that a strip writes: `None` where the file is left alone.
pub open spec fn cleaned(extension: Option<Seq<char>>, doc: Seq<Seq<char>>) -> Result<
    Option<Seq<Seq<char>>>,
    Violation,
> {
    match block_set(extension, doc) {
        Ok(Some(blocks)) => Ok(Some(stripped(doc, blocks))),
        Ok(None) => Ok(None),
        Err(violation) => Err(violation),
    }
}

/// What a report of a file stands for: what is shown of each block, and the
/// lines to write.
pub struct Report {
    pub blocks: Seq<Listed>,
    pub lines: Seq<Seq<char>>,
}

/// The report of a file: its blocks to show, and its lines to write again.
#[derive(Debug, PartialEq, Eq)]
pub struct FileListing {
    pub blocks: Vec<BlockListing>,
    pub lines: Vec<String>,
}

impl View for FileListing {
    type V = Report;

    open spec fn view(&self) -> Report {
        Report { blocks: self.blocks.deep_view(), lines: self.lines.deep_view() }
    }
}

impl DeepView for FileListing {
    type V = Report;

    open spec fn deep_view(&self) -> Report {
        self@
    }
}

/// What a report shows and writes: every block with its ordinal and its inside
/// lines, and the lines of the file as they were. `None` where the file is
/// left alone.
pub open spec fn listed(extension: Option<Seq<char>>, doc: Seq<Seq<char>>) -> Result<
    Option<Report>,
    Violation,
> {
    match block_set(extension, doc) {
        Ok(Some(blocks)) => Ok(Some(Report { blocks: listing(doc, blocks), lines: doc })),
        Ok(None) => Ok(None),
        Err(violation) => Err(violation),
    }
}

/// Toggles the blocks of a file: every line strictly inside a block has its
/// comment state flipped about the block's column. Gives the lines to write,
/// or `None` where the file is to be left alone.
pub fn swap(extension: Option<&str>, lines: &Vec<String>) -> (result: Result<
    Option<Vec<String>>,
    StructuralViolation,
>)
    ensures
        model(result) == swapped(extension.deep_view(), lines.deep_view()),
        is_left_alone(extension.deep_view(), lines.deep_view()) <==> result matches Ok(None),
{
    match file_blocks(extension, lines) {
        Ok(Some(blocks)) => Ok(Some(toggle(lines, &blocks))),
        Ok(None) => Ok(None),
        Err(violation) => Err(violation),
    }
}

/// Reports the blocks of a file: for each its ordinal, counted from one, and
/// the lines inside it as they stand, together with the lines of the file to
/// write again. `None` where the file is to be left alone.
pub fn list(extension: Option<&str>, lines: &Vec<String>) -> (result: Result<
    Option<FileListing>,
    StructuralViolation,
>)
    ensures
        model(result) == listed(extension.deep_view(), lines.deep_view()),
        is_left_alone(extension.deep_view(), lines.deep_view()) <==> result matches Ok(None),
{
    match file_blocks(extension, lines) {
        Ok(Some(blocks)) => Ok(
            Some(FileListing { blocks: report(lines, &blocks), lines: copy_lines(lines) }),
        ),
        Ok(None) => Ok(None),
        Err(violation) => Err(violation),
    }
}

/// Strips the blocks of a file: the marker lines go, and with them every line
/// inside a block that carries the comment prefix at the block's column.
/// Gives the lines to write, or `None` where the file is to be left alone.
pub fn clean(extension: Option<&str>, lines: &Vec<String>) -> (result: Result<
    Option<Vec<String>>,
    StructuralViolation,
>)
    ensures
        model(result) == cleaned(extension.deep_view(), lines.deep_view()),
        is_left_alone(extension.deep_view(), lines.deep_view()) <==> result matches Ok(None),
{
    match file_blocks(extension, lines) {
        Ok(Some(blocks)) => Ok(Some(strip(lines, &blocks))),
        Ok(None) => Ok(None),
        Err(violation) => Err(violation),
    }
}

/// Rewrites a file in one pass, line by line. Gives the lines to write and
/// the state in which the file ends, or the first marker out of sequence, in
/// which case nothing is to be written.
pub fn test(lines: &Vec<String>) -> (result: Result<Rewritten, StructuralViolation>)
    ensures
        model(result) == streamed(lines.deep_view()),
{
    let ghost doc = lines.deep_view();
    let mut state = StreamState::new();
    let mut out: Vec<String> = Vec::new();
    let mut index: usize = 0;
    assert(out.deep_view() =~= Seq::<Seq<char>>::empty());
    while index < lines.len()
        invariant
            index <= lines.len(),
            doc == lines.deep_view(),
            stream_prefix(doc, index as nat) matches Ok(so_far) && so_far == (Streamed {
                mode: state@,
                lines: out.deep_view(),
            }),
        decreases lines.len() - index,
    {
        let ghost written = out.deep_view();
        assert(doc[index as int] == lines[index as int]@);
        match state.step(lines[index].as_str()) {
            Ok((next, line)) => {
                state = next;
                out.push(line);
                assert(out.deep_view() =~= written.push(line@));
            },
            Err(kind) => {
                proof {
                    lemma_stream_violation_stays(doc, (index + 1) as nat, doc.len());
                }
                return Err(StructuralViolation { line: index, kind });
            },
        }
        index += 1;
    }
    Ok(Rewritten { state, lines: out })
}

} // verus!
