//! The three transforms of a scanned file: toggle, strip and report.

use vstd::prelude::*;
use crate::block::{Block, SwapBlock};
use crate::marker::{carries_prefix, has_prefix, toggle_line, toggled};
use crate::text::{decimal, decimal_text};

verus! {

/// `doc` with the comment state of every line inside `block` flipped.
pub open spec fn toggled_in(doc: Seq<Seq<char>>, block: Block) -> Seq<Seq<char>> {
    Seq::new(
        doc.len(),
        |index: int|
            if block.has_inside(index) {
                toggled(doc[index], block.indentation as int)
            } else {
                doc[index]
            },
    )
}

/// `doc` after the blocks have been toggled one after the other, in their
/// order.
pub open spec fn toggled_all(doc: Seq<Seq<char>>, blocks: Seq<Block>) -> Seq<Seq<char>>
    decreases blocks.len(),
{
    if blocks.len() == 0 {
        doc
    } else {
        toggled_in(toggled_all(doc, blocks.drop_last()), blocks.last())
    }
}

/// A copy of `lines`.
pub fn copy_lines(lines: &Vec<String>) -> (out: Vec<String>)
    ensures
        out.deep_view() == lines.deep_view(),
{
    let mut out: Vec<String> = Vec::new();
    let mut index: usize = 0;
    while index < lines.len()
        invariant
            index <= lines.len(),
            out.len() == index,
            forall|at: int| 0 <= at < index ==> out[at]@ == lines[at]@,
        decreases lines.len() - index,
    {
        out.push(lines[index].clone());
        index += 1;
    }
    assert(out.deep_view() =~= lines.deep_view());
    out
}

/// Flips the comment state of every line inside one block.
fn toggle_one(lines: &mut Vec<String>, block: &SwapBlock)
    ensures
        final(lines).deep_view() == toggled_in(old(lines).deep_view(), block@),
{
    let ghost doc = lines.deep_view();
    let n: usize = lines.len();
    if !block.is_complete() || block.start >= n {
        assert(lines.deep_view() =~= toggled_in(doc, block@));
        return ;
    }
    let stop: usize = if block.end < n {
        block.end
    } else {
        n
    };
    let mut index: usize = block.start + 1;
    while index < stop
        invariant
            n == lines.len(),
            n == doc.len(),
            block.start < index,
            stop <= n,
            stop <= block.end,
            block@.is_complete(),
            forall|at: int|
                0 <= at < n ==> (#[trigger] lines[at])@ == if block.start < at < index && at
                    < stop {
                    toggled(doc[at], block.indentation as int)
                } else {
                    doc[at]
                },
        decreases n - index,
    {
        let flipped = toggle_line(lines[index].as_str(), block.indentation);
        lines.set(index, flipped);
        index += 1;
    }
    assert(lines.deep_view() =~= toggled_in(doc, block@));
}

/// Toggles every block of `blocks` in `lines`, one block after the other.
pub fn toggle(lines: &Vec<String>, blocks: &Vec<SwapBlock>) -> (out: Vec<String>)
    ensures
        out.deep_view() == toggled_all(lines.deep_view(), blocks.deep_view()),
{
    let ghost doc = lines.deep_view();
    let ghost all = blocks.deep_view();
    let mut out = copy_lines(lines);
    let mut done: usize = 0;
    assert(all.take(0) =~= Seq::<Block>::empty());
    while done < blocks.len()
        invariant
            done <= blocks.len(),
            all == blocks.deep_view(),
            out.deep_view() == toggled_all(doc, all.take(done as int)),
        decreases blocks.len() - done,
    {
        assert(all.take(done + 1).drop_last() =~= all.take(done as int));
        assert(all.take(done + 1).last() == blocks[done as int]@);
        toggle_one(&mut out, &blocks[done]);
        done += 1;
    }
    assert(all.take(done as int) =~= all);
    out
}

/// `block` is closed and takes line `index` of `doc` away: the line is one of
/// its two marker lines, or lies inside it and carries the comment prefix at
/// the block's column.
pub open spec fn strips(block: Block, doc: Seq<Seq<char>>, index: int) -> bool {
    block.end matches Some(end) && (index == block.start || index == end || (block.start < index
        < end && carries_prefix(doc[index], block.indentation as int)))
}

/// Some block of `blocks` takes line `index` of `doc` away.
pub open spec fn is_stripped(doc: Seq<Seq<char>>, blocks: Seq<Block>, index: int) -> bool {
    exists|which: int| 0 <= which < blocks.len() && strips(#[trigger] blocks[which], doc, index)
}

/// The lines among the first `upto` of `doc` that no block takes away, in
/// their order.
pub open spec fn stripped_prefix(doc: Seq<Seq<char>>, blocks: Seq<Block>, upto: nat) -> Seq<
    Seq<char>,
>
    decreases upto,
{
    if upto == 0 {
        Seq::empty()
    } else {
        let kept = stripped_prefix(doc, blocks, (upto - 1) as nat);
        if is_stripped(doc, blocks, upto - 1) {
            kept
        } else {
            kept.push(doc[upto - 1])
        }
    }
}

/// `doc` without the marker lines of its closed blocks and without the
/// commented lines inside them.
pub open spec fn stripped(doc: Seq<Seq<char>>, blocks: Seq<Block>) -> Seq<Seq<char>> {
    stripped_prefix(doc, blocks, doc.len())
}

/// Where no line from `from` up to `upto` is taken away, those lines follow
/// what was kept before them.
pub proof fn lemma_stripped_keeps(doc: Seq<Seq<char>>, blocks: Seq<Block>, from: nat, upto: nat)
    requires
        from <= upto <= doc.len(),
        forall|index: int| from <= index < upto ==> !is_stripped(doc, blocks, index),
    ensures
        stripped_prefix(doc, blocks, upto) == stripped_prefix(doc, blocks, from) + doc.subrange(
            from as int,
            upto as int,
        ),
    decreases upto,
{
    if from < upto {
        lemma_stripped_keeps(doc, blocks, from, (upto - 1) as nat);
        assert(doc.subrange(from as int, upto as int) =~= doc.subrange(from as int, upto - 1).push(
            doc[upto - 1],
        ));
        assert(stripped_prefix(doc, blocks, upto) =~= stripped_prefix(doc, blocks, from)
            + doc.subrange(from as int, upto as int));
    } else {
        assert(stripped_prefix(doc, blocks, upto) =~= stripped_prefix(doc, blocks, from)
            + doc.subrange(from as int, upto as int));
    }
}

/// Where every line from `from` up to `upto` is taken away, nothing follows
/// what was kept before them.
pub proof fn lemma_stripped_drops(doc: Seq<Seq<char>>, blocks: Seq<Block>, from: nat, upto: nat)
    requires
        from <= upto <= doc.len(),
        forall|index: int| from <= index < upto ==> is_stripped(doc, blocks, index),
    ensures
        stripped_prefix(doc, blocks, upto) == stripped_prefix(doc, blocks, from),
    decreases upto,
{
    if from < upto {
        lemma_stripped_drops(doc, blocks, from, (upto - 1) as nat);
    }
}

/// Every line inside `block` carries the comment prefix at the block's
/// column.
pub open spec fn is_commented(doc: Seq<Seq<char>>, block: Block) -> bool {
    forall|index: int| #[trigger]
        block.has_inside(index) ==> carries_prefix(doc[index], block.indentation as int)
}

/// No line inside `block` carries the comment prefix at the block's column.
pub open spec fn is_active(doc: Seq<Seq<char>>, block: Block) -> bool {
    forall|index: int| #[trigger]
        block.has_inside(index) ==> !carries_prefix(doc[index], block.indentation as int)
}

/// The lines of `doc` before the closed block `block` and the lines after it.
pub open spec fn without_block(doc: Seq<Seq<char>>, block: Block) -> Seq<Seq<char>> {
    let end = block.end.unwrap() as int;
    doc.subrange(0, block.start as int) + doc.subrange(end + 1, doc.len() as int)
}

/// The lines of `doc` but for the two marker lines of the closed block
/// `block`.
pub open spec fn without_markers(doc: Seq<Seq<char>>, block: Block) -> Seq<Seq<char>> {
    let start = block.start as int;
    let end = block.end.unwrap() as int;
    doc.subrange(0, start) + doc.subrange(start + 1, end) + doc.subrange(end + 1, doc.len() as int)
}

/// Strip asymmetry, of one closed block within the file. Where every line
/// inside the block carries the comment prefix, the strip leaves the lines
/// before the block and the lines after it, and nothing of the block. Where
/// no line inside it carries the prefix, the strip takes the two marker lines
/// away and leaves the rest.
pub proof fn lemma_strip_one_block(doc: Seq<Seq<char>>, block: Block)
    requires
        block.end matches Some(end) && block.start < end < doc.len(),
    ensures
        is_commented(doc, block) ==> stripped(doc, seq![block]) == without_block(doc, block),
        is_active(doc, block) ==> stripped(doc, seq![block]) == without_markers(doc, block),
{
    let blocks = seq![block];
    let start = block.start as int;
    let end = block.end.unwrap() as int;
    let n = doc.len() as int;
    assert(blocks[0] == block);
    assert(strips(blocks[0], doc, start));
    assert(strips(blocks[0], doc, end));
    assert forall|index: int| 0 <= index < start implies !is_stripped(doc, blocks, index) by {}
    assert forall|index: int| end < index < n implies !is_stripped(doc, blocks, index) by {}
    lemma_stripped_keeps(doc, blocks, 0, start as nat);
    lemma_stripped_drops(doc, blocks, start as nat, (start + 1) as nat);
    assert(stripped_prefix(doc, blocks, 0) =~= Seq::<Seq<char>>::empty());
    if is_commented(doc, block) {
        assert forall|index: int| start <= index < end + 1 implies is_stripped(
            doc,
            blocks,
            index,
        ) by {
            if start < index < end {
                assert(block.has_inside(index));
            }
            assert(strips(blocks[0], doc, index));
        }
        lemma_stripped_drops(doc, blocks, start as nat, (end + 1) as nat);
        lemma_stripped_keeps(doc, blocks, (end + 1) as nat, n as nat);
        assert(stripped(doc, blocks) =~= doc.subrange(0, start) + doc.subrange(end + 1, n));
    }
    if is_active(doc, block) {
        assert forall|index: int| start < index < end implies !is_stripped(doc, blocks, index) by {
            assert(block.has_inside(index));
        }
        lemma_stripped_keeps(doc, blocks, (start + 1) as nat, end as nat);
        lemma_stripped_drops(doc, blocks, end as nat, (end + 1) as nat);
        lemma_stripped_keeps(doc, blocks, (end + 1) as nat, n as nat);
        assert(stripped(doc, blocks) =~= doc.subrange(0, start) + doc.subrange(start + 1, end)
            + doc.subrange(end + 1, n));
    }
}

/// Whether some block takes line `index` away.
fn is_line_stripped(lines: &Vec<String>, blocks: &Vec<SwapBlock>, index: usize) -> (gone: bool)
    requires
        index < lines.len(),
    ensures
        gone == is_stripped(lines.deep_view(), blocks.deep_view(), index as int),
{
    let ghost doc = lines.deep_view();
    let ghost all = blocks.deep_view();
    let mut which: usize = 0;
    while which < blocks.len()
        invariant
            which <= blocks.len(),
            index < lines.len(),
            doc == lines.deep_view(),
            all == blocks.deep_view(),
            forall|seen: int|
                0 <= seen < which ==> !strips(#[trigger] all[seen], doc, index as int),
        decreases blocks.len() - which,
    {
        let block = blocks[which];
        assert(all[which as int] == block@);
        if block.is_complete() {
            if index == block.start || index == block.end {
                return true;
            }
            if block.start < index && index < block.end && has_prefix(
                lines[index].as_str(),
                block.indentation,
            ) {
                return true;
            }
        }
        which += 1;
    }
    false
}

/// Strips every closed block of `blocks` from `lines`: its two marker lines
/// go, and so does each line inside it that carries the comment prefix.
pub fn strip(lines: &Vec<String>, blocks: &Vec<SwapBlock>) -> (out: Vec<String>)
    ensures
        out.deep_view() == stripped(lines.deep_view(), blocks.deep_view()),
{
    let ghost doc = lines.deep_view();
    let ghost all = blocks.deep_view();
    let mut out: Vec<String> = Vec::new();
    let mut index: usize = 0;
    assert(out.deep_view() =~= Seq::<Seq<char>>::empty());
    while index < lines.len()
        invariant
            index <= lines.len(),
            doc == lines.deep_view(),
            all == blocks.deep_view(),
            out.deep_view() == stripped_prefix(doc, all, index as nat),
        decreases lines.len() - index,
    {
        let ghost kept = out.deep_view();
        if !is_line_stripped(lines, blocks, index) {
            out.push(lines[index].clone());
            assert(out.deep_view() =~= kept.push(doc[index as int]));
        }
        index += 1;
    }
    out
}

/// What a report says of one block: its ordinal, counted from one, and the
/// lines inside it.
pub struct Listed {
    pub number: nat,
    pub lines: Seq<Seq<char>>,
}

/// One block of a report.
#[derive(Debug, PartialEq, Eq)]
pub struct BlockListing {
    pub number: usize,
    pub lines: Vec<String>,
}

impl View for BlockListing {
    type V = Listed;

    open spec fn view(&self) -> Listed {
        Listed { number: self.number as nat, lines: self.lines.deep_view() }
    }
}

impl DeepView for BlockListing {
    type V = Listed;

    open spec fn deep_view(&self) -> Listed {
        self@
    }
}

/// The lines of `doc` strictly between the two markers of `block`, as they
/// stand; none where the block is open.
pub open spec fn inside_lines(doc: Seq<Seq<char>>, block: Block) -> Seq<Seq<char>> {
    match block.end {
        Some(end) => {
            let stop = if end <= doc.len() {
                end as int
            } else {
                doc.len() as int
            };
            if block.start + 1 <= stop {
                doc.subrange(block.start + 1 as int, stop)
            } else {
                Seq::empty()
            }
        },
        None => Seq::empty(),
    }
}

/// The report of `blocks`: block by block, its ordinal and its inside lines.
pub open spec fn listing(doc: Seq<Seq<char>>, blocks: Seq<Block>) -> Seq<Listed> {
    Seq::new(
        blocks.len(),
        |which: int| Listed { number: (which + 1) as nat, lines: inside_lines(doc, blocks[which]) },
    )
}

/// The lines inside one block, copied.
fn copy_inside(lines: &Vec<String>, block: &SwapBlock) -> (out: Vec<String>)
    ensures
        out.deep_view() == inside_lines(lines.deep_view(), block@),
{
    let ghost doc = lines.deep_view();
    let mut out: Vec<String> = Vec::new();
    let n: usize = lines.len();
    if !block.is_complete() || block.start >= n {
        assert(out.deep_view() =~= inside_lines(doc, block@));
        return out;
    }
    let stop: usize = if block.end <= n {
        block.end
    } else {
        n
    };
    let first: usize = block.start + 1;
    if first > stop {
        assert(out.deep_view() =~= inside_lines(doc, block@));
        return out;
    }
    let mut index: usize = first;
    while index < stop
        invariant
            n == lines.len(),
            first <= index <= stop <= n,
            out.len() == index - first,
            forall|at: int| 0 <= at < out.len() ==> (#[trigger] out[at])@ == lines[first + at]@,
        decreases stop - index,
    {
        out.push(lines[index].clone());
        index += 1;
    }
    assert(out.deep_view() =~= doc.subrange(first as int, stop as int));
    out
}

/// Reports every block of `blocks`: its ordinal, counted from one, and the
/// lines inside it as they stand in `lines`.
pub fn report(lines: &Vec<String>, blocks: &Vec<SwapBlock>) -> (out: Vec<BlockListing>)
    ensures
        out.deep_view() == listing(lines.deep_view(), blocks.deep_view()),
{
    let ghost doc = lines.deep_view();
    let ghost all = blocks.deep_view();
    let mut out: Vec<BlockListing> = Vec::new();
    let mut which: usize = 0;
    while which < blocks.len()
        invariant
            which <= blocks.len(),
            out.len() == which,
            doc == lines.deep_view(),
            all == blocks.deep_view(),
            forall|seen: int|
                0 <= seen < which ==> (#[trigger] out[seen])@ == (Listed {
                    number: (seen + 1) as nat,
                    lines: inside_lines(doc, all[seen]),
                }),
        decreases blocks.len() - which,
    {
        let inside = copy_inside(lines, &blocks[which]);
        out.push(BlockListing { number: which + 1, lines: inside });
        which += 1;
    }
    assert(out.deep_view() =~= listing(doc, all));
    out
}

/// The word before the ordinal of a block in the text of a report.
pub const BLOCK_LABEL: &'static str = "Block ";

/// The text lines that show one block: the label with the ordinal, the
/// lines inside the block, and an empty line.
pub open spec fn block_text(block: Listed) -> Seq<Seq<char>> {
    seq![BLOCK_LABEL@ + decimal(block.number)] + block.lines + seq![Seq::<char>::empty()]
}

/// The text lines of a report: the name of the file, then block after block.
pub open spec fn report_text(name: Seq<char>, blocks: Seq<Listed>) -> Seq<Seq<char>>
    decreases blocks.len(),
{
    if blocks.len() == 0 {
        seq![name]
    } else {
        report_text(name, blocks.drop_last()) + block_text(blocks.last())
    }
}

/// The lines to print for a report of the file `name`.
pub fn render_report(name: &str, blocks: &Vec<BlockListing>) -> (out: Vec<String>)
    ensures
        out.deep_view() == report_text(name@, blocks.deep_view()),
{
    let ghost all = blocks.deep_view();
    let mut out: Vec<String> = Vec::new();
    out.push(name.to_owned());
    assert(out.deep_view() =~= seq![name@]);
    assert(all.take(0) =~= Seq::<Listed>::empty());
    let mut which: usize = 0;
    while which < blocks.len()
        invariant
            which <= blocks.len(),
            all == blocks.deep_view(),
            out.deep_view() == report_text(name@, all.take(which as int)),
        decreases blocks.len() - which,
    {
        let block = &blocks[which];
        let ghost before = out.deep_view();
        let ghost shown = block@;
        assert(all.take(which + 1).drop_last() =~= all.take(which as int));
        assert(all.take(which + 1).last() == shown);
        let mut title = String::from_str(BLOCK_LABEL);
        title.append(decimal_text(block.number as u128).as_str());
        out.push(title);
        assert(out.deep_view() =~= before + seq![BLOCK_LABEL@ + decimal(shown.number)]);
        let mut index: usize = 0;
        while index < block.lines.len()
            invariant
                index <= block.lines.len(),
                shown == block@,
                out.deep_view() == before + seq![BLOCK_LABEL@ + decimal(shown.number)]
                    + shown.lines.take(index as int),
            decreases block.lines.len() - index,
        {
            let ghost so_far = out.deep_view();
            out.push(block.lines[index].clone());
            assert(shown.lines[index as int] == block.lines[index as int]@);
            assert(out.deep_view() =~= so_far.push(shown.lines[index as int]));
            assert(shown.lines.take(index + 1) =~= shown.lines.take(index as int).push(
                shown.lines[index as int],
            ));
            index += 1;
        }
        assert(shown.lines.take(index as int) =~= shown.lines);
        let ghost listed = out.deep_view();
        out.push(String::new());
        assert(out.deep_view() =~= listed.push(Seq::<char>::empty()));
        assert(out.deep_view() =~= before + block_text(shown));
        which += 1;
    }
    assert(all.take(which as int) =~= all);
    out
}

} // verus!
