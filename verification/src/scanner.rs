//! The marker scanner: from the lines of a file to its blocks.

use vstd::prelude::*;
use crate::block::{Block, SwapBlock};
use crate::marker::{
    anchor_of, classify, is_closing, is_opening, lemma_marker_has_anchor, LineKind,
};
use crate::violation::{model, StructuralViolation, Violation, ViolationKind};

verus! {

/// Block `at` is open and every later block is closed.
pub open spec fn is_last_open(blocks: Seq<Block>, at: int) -> bool {
    &&& 0 <= at < blocks.len()
    &&& !blocks[at].is_complete()
    &&& forall|later: int| at < later < blocks.len() ==> (#[trigger] blocks[later]).is_complete()
}

/// The most recently opened block that is still open.
pub open spec fn last_open(blocks: Seq<Block>) -> Option<int> {
    if exists|at: int| is_last_open(blocks, at) {
        Some(choose|at: int| is_last_open(blocks, at))
    } else {
        None
    }
}

/// The blocks after line `index` has been read. A closing line closes the most
/// recently opened block that is still open, and is a violation where none
/// is; an opening line opens a block anchored at its first comment character.
pub open spec fn scan_step(blocks: Seq<Block>, line: Seq<char>, index: nat) -> Result<
    Seq<Block>,
    Violation,
> {
    if is_closing(line) {
        match last_open(blocks) {
            Some(at) => Ok(blocks.update(at, Block { end: Some(index), ..blocks[at] })),
            None => Err(Violation { line: index, kind: ViolationKind::UnmatchedClose }),
        }
    } else if is_opening(line) {
        Ok(
            blocks.push(
                Block { start: index, end: None, indentation: anchor_of(line).unwrap() as nat },
            ),
        )
    } else {
        Ok(blocks)
    }
}

/// The blocks of the first `upto` lines of `doc`, or the first violation
/// among them.
pub open spec fn scan_prefix(doc: Seq<Seq<char>>, upto: nat) -> Result<Seq<Block>, Violation>
    decreases upto,
{
    if upto == 0 {
        Ok(Seq::empty())
    } else {
        match scan_prefix(doc, (upto - 1) as nat) {
            Ok(blocks) => scan_step(blocks, doc[upto - 1], (upto - 1) as nat),
            Err(violation) => Err(violation),
        }
    }
}

/// The blocks of `doc` in the order of their opening lines, or its first
/// violation.
pub open spec fn scanned(doc: Seq<Seq<char>>) -> Result<Seq<Block>, Violation> {
    scan_prefix(doc, doc.len())
}

/// The scan of `doc` meets no violation and gives `blocks`.
pub open spec fn scans_to(doc: Seq<Seq<char>>, blocks: Seq<Block>) -> bool {
    scanned(doc) matches Ok(found) && found == blocks
}

/// A block that is open, with every later block closed, is the one that
/// `last_open` gives.
pub proof fn lemma_last_open_is(blocks: Seq<Block>, at: int)
    requires
        is_last_open(blocks, at),
    ensures
        last_open(blocks) == Some(at),
{
    let chosen = choose|at: int| is_last_open(blocks, at);
    assert(is_last_open(blocks, chosen));
    if chosen < at {
        assert(blocks[at].is_complete());
    }
    if at < chosen {
        assert(blocks[chosen].is_complete());
    }
}

/// Where every block is closed, none is the last open one.
proof fn lemma_no_open(blocks: Seq<Block>)
    requires
        forall|at: int| 0 <= at < blocks.len() ==> (#[trigger] blocks[at]).is_complete(),
    ensures
        last_open(blocks) is None,
{
    if exists|at: int| is_last_open(blocks, at) {
        let at = choose|at: int| is_last_open(blocks, at);
        assert(blocks[at].is_complete());
    }
}

/// A violation among the first lines is the violation of every longer prefix.
pub proof fn lemma_violation_stays(doc: Seq<Seq<char>>, upto: nat, later: nat)
    requires
        upto <= later,
        scan_prefix(doc, upto) is Err,
    ensures
        scan_prefix(doc, later) == scan_prefix(doc, upto),
    decreases later,
{
    if upto < later {
        lemma_violation_stays(doc, upto, (later - 1) as nat);
    }
}

/// `block` lies within the first `upto` lines of `doc`: it starts at an
/// opening line, is anchored at that line's first comment character, and, once
/// closed, ends at a later closing line.
pub open spec fn fits(block: Block, doc: Seq<Seq<char>>, upto: nat) -> bool {
    &&& block.start < upto
    &&& is_opening(doc[block.start as int])
    &&& anchor_of(doc[block.start as int]) == Some(block.indentation as int)
    &&& block.end matches Some(end) ==> block.start < end < upto && is_closing(doc[end as int])
}

/// `first` starts before `second`, and where `first` is closed, `second`
/// either starts after its end or is closed before its end: two blocks lie
/// apart or one within the other, and never across each other.
pub open spec fn in_order(first: Block, second: Block) -> bool {
    &&& first.start < second.start
    &&& first.end matches Some(first_end) ==> first_end < second.start || (second.end matches Some(
        second_end,
    ) && second_end < first_end)
}

/// What holds of the blocks scanned from the first `upto` lines of `doc`.
pub open spec fn well_scanned(blocks: Seq<Block>, doc: Seq<Seq<char>>, upto: nat) -> bool {
    &&& forall|which: int| 0 <= which < blocks.len() ==> fits(#[trigger] blocks[which], doc, upto)
    &&& forall|first: int, second: int|
        0 <= first < second < blocks.len() ==> in_order(
            #[trigger] blocks[first],
            #[trigger] blocks[second],
        )
}

/// The scanner's blocks are well scanned, whatever the lines.
pub proof fn lemma_scan_prefix(doc: Seq<Seq<char>>, upto: nat)
    requires
        upto <= doc.len(),
    ensures
        scan_prefix(doc, upto) matches Ok(blocks) ==> well_scanned(blocks, doc, upto),
    decreases upto,
{
    if upto > 0 {
        let index = (upto - 1) as nat;
        lemma_scan_prefix(doc, index);
        if let Ok(before) = scan_prefix(doc, index) {
            let line = doc[index as int];
            if let Ok(blocks) = scan_step(before, line, index) {
                if is_closing(line) {
                    let at = last_open(before).unwrap();
                    assert(is_last_open(before, at));
                    assert forall|which: int| 0 <= which < blocks.len() implies fits(
                        #[trigger] blocks[which],
                        doc,
                        upto,
                    ) by {
                        assert(fits(before[which], doc, index));
                    }
                    assert forall|first: int, second: int|
                        0 <= first < second < blocks.len() implies in_order(
                        #[trigger] blocks[first],
                        #[trigger] blocks[second],
                    ) by {
                        assert(in_order(before[first], before[second]));
                        assert(fits(before[first], doc, index));
                        assert(fits(before[second], doc, index));
                        if first == at {
                            assert(before[second].is_complete());
                        }
                    }
                } else if is_opening(line) {
                    assert forall|which: int| 0 <= which < blocks.len() implies fits(
                        #[trigger] blocks[which],
                        doc,
                        upto,
                    ) by {
                        if which < before.len() {
                            assert(fits(before[which], doc, index));
                        } else {
                            lemma_marker_has_anchor(line);
                        }
                    }
                    assert forall|first: int, second: int|
                        0 <= first < second < blocks.len() implies in_order(
                        #[trigger] blocks[first],
                        #[trigger] blocks[second],
                    ) by {
                        assert(fits(before[first], doc, index));
                        if second < before.len() {
                            assert(in_order(before[first], before[second]));
                        }
                    }
                } else {
                    assert forall|which: int| 0 <= which < blocks.len() implies fits(
                        #[trigger] blocks[which],
                        doc,
                        upto,
                    ) by {
                        assert(fits(before[which], doc, index));
                    }
                }
            }
        }
    }
}

/// Some block starts at line `line`.
pub open spec fn starts_at(blocks: Seq<Block>, line: int) -> bool {
    exists|which: int| 0 <= which < blocks.len() && (#[trigger] blocks[which]).start == line
}

/// Some block ends at line `line`.
pub open spec fn ends_at(blocks: Seq<Block>, line: int) -> bool {
    exists|which: int|
        0 <= which < blocks.len() && (#[trigger] blocks[which]).end == Some(line as nat)
}

/// Every marker line among the first `upto` lines of `doc` belongs to a block
/// of `blocks`: an opening line starts one, a closing line ends one.
pub open spec fn covers(blocks: Seq<Block>, doc: Seq<Seq<char>>, upto: nat) -> bool {
    forall|line: int|
        0 <= line < upto ==> {
            &&& is_opening(#[trigger] doc[line]) ==> starts_at(blocks, line)
            &&& is_closing(doc[line]) ==> ends_at(blocks, line)
        }
}

/// Where the scan finds no violation, every marker line belongs to a block.
pub proof fn lemma_scan_covers(doc: Seq<Seq<char>>, upto: nat)
    requires
        upto <= doc.len(),
    ensures
        scan_prefix(doc, upto) matches Ok(blocks) ==> covers(blocks, doc, upto),
    decreases upto,
{
    if upto > 0 {
        let index = (upto - 1) as nat;
        lemma_scan_covers(doc, index);
        if let Ok(before) = scan_prefix(doc, index) {
            let here = doc[index as int];
            if let Ok(blocks) = scan_step(before, here, index) {
                assert forall|line: int| 0 <= line < upto implies {
                    &&& is_opening(#[trigger] doc[line]) ==> starts_at(blocks, line)
                    &&& is_closing(doc[line]) ==> ends_at(blocks, line)
                } by {
                    if line < index {
                        if is_opening(doc[line]) {
                            assert(starts_at(before, line));
                            let which = choose|which: int|
                                0 <= which < before.len() && (#[trigger] before[which]).start
                                    == line;
                            assert(blocks[which].start == line);
                        }
                        if is_closing(doc[line]) {
                            assert(ends_at(before, line));
                            let which = choose|which: int|
                                0 <= which < before.len() && (#[trigger] before[which]).end
                                    == Some(line as nat);
                            if is_closing(here) {
                                assert(is_last_open(before, last_open(before).unwrap()));
                            }
                            assert(blocks[which].end == Some(line as nat));
                        }
                    } else {
                        if is_closing(here) {
                            let at = last_open(before).unwrap();
                            assert(is_last_open(before, at));
                            assert(blocks[at].end == Some(line as nat));
                        } else if is_opening(here) {
                            assert(blocks[before.len() as int].start == line);
                        }
                    }
                }
            }
        }
    }
}

/// Two lines are the same to the scanner: both open a block, with the same
/// anchor, or both close one, or neither does either.
pub open spec fn same_marks(one: Seq<char>, other: Seq<char>) -> bool {
    &&& is_closing(one) == is_closing(other)
    &&& is_opening(one) == is_opening(other)
    &&& is_opening(one) ==> anchor_of(one) == anchor_of(other)
}

/// The scan looks at nothing but the marks of the lines.
pub proof fn lemma_scan_same_marks(doc: Seq<Seq<char>>, other: Seq<Seq<char>>, upto: nat)
    requires
        upto <= doc.len(),
        upto <= other.len(),
        forall|line: int| 0 <= line < upto ==> same_marks(#[trigger] doc[line], other[line]),
    ensures
        scan_prefix(doc, upto) == scan_prefix(other, upto),
    decreases upto,
{
    if upto > 0 {
        lemma_scan_same_marks(doc, other, (upto - 1) as nat);
        assert(same_marks(doc[upto - 1], other[upto - 1]));
    }
}

/// The blocks of a file stand in the order of their opening lines; each
/// starts at an opening line and, once closed, ends at a later closing line;
/// no two of them lie across each other; and every marker line of the file
/// starts or ends one of them.
pub proof fn lemma_scanned(doc: Seq<Seq<char>>)
    ensures
        scanned(doc) matches Ok(blocks) ==> well_scanned(blocks, doc, doc.len()) && covers(
            blocks,
            doc,
            doc.len(),
        ),
{
    lemma_scan_prefix(doc, doc.len());
    lemma_scan_covers(doc, doc.len());
}

/// Stack matching: where a block opens inside another one that gets closed,
/// the inner block is closed too, and before the outer one.
pub proof fn lemma_stack_matching(doc: Seq<Seq<char>>, blocks: Seq<Block>, outer: int, inner: int)
    requires
        scans_to(doc, blocks),
        0 <= outer < inner < blocks.len(),
        blocks[outer].end matches Some(outer_end) && blocks[inner].start < outer_end,
    ensures
        blocks[inner].end matches Some(inner_end) && inner_end < blocks[outer].end.unwrap(),
{
    lemma_scanned(doc);
    assert(in_order(blocks[outer], blocks[inner]));
}

/// The most recently opened block of `blocks` that is still open.
fn find_last_open(blocks: &Vec<SwapBlock>) -> (found: Option<usize>)
    ensures
        match found {
            Some(at) => last_open(blocks.deep_view()) == Some(at as int),
            None => last_open(blocks.deep_view()) is None,
        },
{
    let mut at: usize = blocks.len();
    while at > 0
        invariant
            at <= blocks.len(),
            forall|later: int|
                at <= later < blocks.len() ==> (#[trigger] blocks.deep_view()[later]).is_complete(),
        decreases at,
    {
        at -= 1;
        if !blocks[at].is_complete() {
            proof {
                lemma_last_open_is(blocks.deep_view(), at as int);
            }
            return Some(at);
        }
    }
    proof {
        lemma_no_open(blocks.deep_view());
    }
    None
}

/// Scans the lines of a file for its blocks. The result is the blocks in the
/// order of their opening lines, some of them perhaps still open, or the first
/// closing marker that found no block open.
pub fn scan(lines: &Vec<String>) -> (result: Result<Vec<SwapBlock>, StructuralViolation>)
    ensures
        model(result) == scanned(lines.deep_view()),
        result matches Ok(blocks) ==> well_scanned(
            blocks.deep_view(),
            lines.deep_view(),
            lines.len() as nat,
        ) && covers(blocks.deep_view(), lines.deep_view(), lines.len() as nat),
{
    let ghost doc = lines.deep_view();
    proof {
        lemma_scanned(doc);
    }
    let mut blocks: Vec<SwapBlock> = Vec::new();
    let mut index: usize = 0;
    assert(blocks.deep_view() =~= Seq::<Block>::empty());
    while index < lines.len()
        invariant
            doc == lines.deep_view(),
            index <= lines.len(),
            scan_prefix(doc, index as nat) matches Ok(found) && found == blocks.deep_view(),
            forall|at: int| 0 <= at < blocks.len() ==> (#[trigger] blocks[at]).start < index,
        decreases lines.len() - index,
    {
        let ghost before = blocks.deep_view();
        assert(doc[index as int] == lines[index as int]@);
        match classify(lines[index].as_str()) {
            LineKind::Closing => {
                match find_last_open(&blocks) {
                    Some(at) => {
                        let mut block = blocks[at];
                        block.set_end(index);
                        blocks.set(at, block);
                        assert(blocks.deep_view() =~= before.update(
                            at as int,
                            Block { end: Some(index as nat), ..before[at as int] },
                        ));
                    },
                    None => {
                        proof {
                            lemma_violation_stays(doc, (index + 1) as nat, doc.len());
                        }
                        let kind = ViolationKind::UnmatchedClose;
                        return Err(StructuralViolation { line: index, kind });
                    },
                }
            },
            LineKind::Opening { indentation } => {
                blocks.push(SwapBlock::new(index, indentation));
                assert(blocks.deep_view() =~= before.push(
                    Block {
                        start: index as nat,
                        end: None,
                        indentation: indentation as nat,
                    },
                ));
            },
            LineKind::Plain => {},
        }
        index += 1;
    }
    Ok(blocks)
}

} // verus!
