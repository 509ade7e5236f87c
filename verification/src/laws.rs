//! What holds of the operations, whatever the file.

use vstd::prelude::*;
use crate::action::{
    acts_on, all_complete, cleaned, has_no_block, has_open_block, is_recognized, listed,
    swapped,
};
use crate::block::Block;
use crate::marker::{
    is_closing, is_opening, is_steady, lemma_closing_has_start,
    lemma_steady_round_trips, round_trips, toggled,
};
use crate::scanner::{
    ends_at, fits, in_order, lemma_scan_same_marks, lemma_scanned, same_marks, scan_prefix,
    scanned, scans_to, starts_at,
};
use crate::transform::{
    is_active, is_commented, is_stripped, lemma_strip_one_block, stripped, stripped_prefix,
    strips, toggled_all, without_block, without_markers,
};

verus! {

/// What a toggle of `blocks` makes of the text of line `line`: every block
/// that has the line inside flips it about its own column, one block after
/// the other.
pub open spec fn flipped(text: Seq<char>, blocks: Seq<Block>, line: int) -> Seq<char>
    decreases blocks.len(),
{
    if blocks.len() == 0 {
        text
    } else {
        let so_far = flipped(text, blocks.drop_last(), line);
        if blocks.last().has_inside(line) {
            toggled(so_far, blocks.last().indentation as int)
        } else {
            so_far
        }
    }
}

/// A toggle keeps every line what it is to the scanner, and a second toggle
/// gives every line back.
pub open spec fn flips_back(doc: Seq<Seq<char>>, blocks: Seq<Block>) -> bool {
    forall|line: int|
        0 <= line < doc.len() ==> {
            &&& same_marks(#[trigger] doc[line], flipped(doc[line], blocks, line))
            &&& flipped(flipped(doc[line], blocks, line), blocks, line) == doc[line]
        }
}

/// Every block is closed before the next one starts: no block lies within
/// another.
pub open spec fn lie_apart(blocks: Seq<Block>) -> bool {
    forall|first: int, second: int|
        0 <= first < second < blocks.len() ==> ((#[trigger] blocks[first]).end matches Some(end)
            && end < (#[trigger] blocks[second]).start)
}

/// Every line inside a block round-trips about the column of its block.
pub open spec fn lines_round_trip(doc: Seq<Seq<char>>, blocks: Seq<Block>) -> bool {
    forall|which: int, line: int|
        0 <= which < blocks.len() && (#[trigger] blocks[which]).has_inside(line) ==> round_trips(
            #[trigger] doc[line],
            blocks[which].indentation as int,
        )
}

/// Every line inside a block is steady about the column of its block.
pub open spec fn lines_are_steady(doc: Seq<Seq<char>>, blocks: Seq<Block>) -> bool {
    forall|which: int, line: int|
        0 <= which < blocks.len() && (#[trigger] blocks[which]).has_inside(line) ==> is_steady(
            #[trigger] doc[line],
            blocks[which].indentation as int,
        )
}

/// A toggle works line by line: it keeps the number of lines, and makes of
/// each line what its blocks make of it.
pub proof fn lemma_toggled_all_by_line(doc: Seq<Seq<char>>, blocks: Seq<Block>)
    ensures
        toggled_all(doc, blocks).len() == doc.len(),
        forall|line: int|
            0 <= line < doc.len() ==> #[trigger] toggled_all(doc, blocks)[line] == flipped(
                doc[line],
                blocks,
                line,
            ),
    decreases blocks.len(),
{
    if blocks.len() > 0 {
        lemma_toggled_all_by_line(doc, blocks.drop_last());
    }
}

/// Line `line` lies inside no block.
pub open spec fn lies_outside(blocks: Seq<Block>, line: int) -> bool {
    forall|which: int| 0 <= which < blocks.len() ==> !(#[trigger] blocks[which]).has_inside(line)
}

/// Line `line` lies inside block `which` and inside no other block.
pub open spec fn lies_only_inside(blocks: Seq<Block>, which: int, line: int) -> bool {
    &&& 0 <= which < blocks.len()
    &&& blocks[which].has_inside(line)
    &&& forall|other: int|
        0 <= other < blocks.len() && other != which ==> !(#[trigger] blocks[other]).has_inside(line)
}

/// A line that lies inside no block is left alone.
pub proof fn lemma_flipped_outside(text: Seq<char>, blocks: Seq<Block>, line: int)
    requires
        lies_outside(blocks, line),
    ensures
        flipped(text, blocks, line) == text,
    decreases blocks.len(),
{
    if blocks.len() > 0 {
        let rest = blocks.drop_last();
        assert forall|which: int| 0 <= which < rest.len() implies !(#[trigger] rest[which])
            .has_inside(line) by {
            assert(rest[which] == blocks[which]);
        }
        lemma_flipped_outside(text, rest, line);
        assert(!blocks[blocks.len() - 1].has_inside(line));
    }
}

/// A line that lies inside one block only is flipped once, about the column
/// of that block.
pub proof fn lemma_flipped_inside(text: Seq<char>, blocks: Seq<Block>, which: int, line: int)
    requires
        lies_only_inside(blocks, which, line),
    ensures
        flipped(text, blocks, line) == toggled(text, blocks[which].indentation as int),
    decreases blocks.len(),
{
    let rest = blocks.drop_last();
    let last = blocks.len() - 1;
    assert forall|other: int| 0 <= other < rest.len() && other != which implies !(
    #[trigger] rest[other]).has_inside(line) by {
        assert(rest[other] == blocks[other]);
    }
    if which == last {
        lemma_flipped_outside(text, rest, line);
    } else {
        assert(rest[which] == blocks[which]);
        lemma_flipped_inside(text, rest, which, line);
        assert(!blocks[last].has_inside(line));
    }
}

/// In a scanned file whose blocks lie apart, a line inside a block is no
/// marker line, and lies inside no other block.
pub proof fn lemma_inside_lines_are_plain(
    doc: Seq<Seq<char>>,
    blocks: Seq<Block>,
    which: int,
    line: int,
)
    requires
        scans_to(doc, blocks),
        lie_apart(blocks),
        0 <= which < blocks.len(),
        blocks[which].has_inside(line),
    ensures
        0 <= line < doc.len(),
        !is_opening(doc[line]),
        !is_closing(doc[line]),
        lies_only_inside(blocks, which, line),
{
    lemma_scanned(doc);
    assert(fits(blocks[which], doc, doc.len()));
    assert forall|other: int| 0 <= other < blocks.len() && other != which implies !(
    #[trigger] blocks[other]).has_inside(line) by {
        assert(fits(blocks[other], doc, doc.len()));
        if other < which {
            assert(blocks[other].end.unwrap() < blocks[which].start);
        } else {
            assert(blocks[which].end.unwrap() < blocks[other].start);
        }
    }
    if is_opening(doc[line]) {
        assert(starts_at(blocks, line));
        let other = choose|other: int|
            0 <= other < blocks.len() && (#[trigger] blocks[other]).start == line;
        assert(fits(blocks[other], doc, doc.len()));
        if other < which {
            assert(in_order(blocks[other], blocks[which]));
        } else if other > which {
            assert(blocks[which].end.unwrap() < blocks[other].start);
        }
    }
    if is_closing(doc[line]) {
        assert(ends_at(blocks, line));
        let other = choose|other: int|
            0 <= other < blocks.len() && (#[trigger] blocks[other]).end == Some(line as nat);
        assert(fits(blocks[other], doc, doc.len()));
        if other < which {
            assert(blocks[other].end.unwrap() < blocks[which].start);
        } else if other > which {
            assert(blocks[which].end.unwrap() < blocks[other].start);
        }
    }
}

/// Double toggle. Where a toggle applies to a file and flips back, a second
/// toggle applies to what the first one wrote, and gives the file back, line
/// for line.
pub proof fn lemma_double_toggle(
    extension: Option<Seq<char>>,
    doc: Seq<Seq<char>>,
    blocks: Seq<Block>,
)
    requires
        acts_on(extension, doc, blocks),
        flips_back(doc, blocks),
    ensures
        swapped(extension, doc) matches Ok(Some(once)) && once == toggled_all(doc, blocks),
        swapped(extension, toggled_all(doc, blocks)) matches Ok(Some(twice)) && twice == doc,
{
    let once = toggled_all(doc, blocks);
    lemma_toggled_all_by_line(doc, blocks);
    assert forall|line: int| 0 <= line < doc.len() implies same_marks(
        #[trigger] doc[line],
        once[line],
    ) by {}
    lemma_scan_same_marks(doc, once, doc.len());
    assert(scanned(once) == scanned(doc));
    let twice = toggled_all(once, blocks);
    lemma_toggled_all_by_line(once, blocks);
    assert forall|line: int| 0 <= line < doc.len() implies twice[line] == doc[line] by {
        assert(once[line] == flipped(doc[line], blocks, line));
    }
    assert(twice =~= doc);
}

/// A file whose blocks lie apart and whose lines inside the blocks round-trip
/// flips back.
pub proof fn lemma_round_trips_flip_back(doc: Seq<Seq<char>>, blocks: Seq<Block>)
    requires
        scans_to(doc, blocks),
        lie_apart(blocks),
        lines_round_trip(doc, blocks),
    ensures
        flips_back(doc, blocks),
{
    assert forall|line: int| 0 <= line < doc.len() implies {
        &&& same_marks(#[trigger] doc[line], flipped(doc[line], blocks, line))
        &&& flipped(flipped(doc[line], blocks, line), blocks, line) == doc[line]
    } by {
        let text = doc[line];
        if lies_outside(blocks, line) {
            lemma_flipped_outside(text, blocks, line);
        } else {
            let which = choose|which: int|
                0 <= which < blocks.len() && (#[trigger] blocks[which]).has_inside(line);
            let column = blocks[which].indentation as int;
            lemma_inside_lines_are_plain(doc, blocks, which, line);
            lemma_flipped_inside(text, blocks, which, line);
            lemma_flipped_inside(toggled(text, column), blocks, which, line);
            assert(round_trips(text, column));
            if is_closing(toggled(text, column)) {
                lemma_closing_has_start(toggled(text, column));
            }
        }
    }
}

/// Double toggle, of blocks that lie apart. Where a toggle applies to a file
/// whose blocks lie apart and whose lines inside the blocks are steady, a
/// second toggle gives the file back.
pub proof fn lemma_double_toggle_of_steady_lines(
    extension: Option<Seq<char>>,
    doc: Seq<Seq<char>>,
    blocks: Seq<Block>,
)
    requires
        acts_on(extension, doc, blocks),
        lie_apart(blocks),
        lines_are_steady(doc, blocks),
    ensures
        swapped(extension, doc) matches Ok(Some(once)) && once == toggled_all(doc, blocks),
        swapped(extension, toggled_all(doc, blocks)) matches Ok(Some(twice)) && twice == doc,
{
    assert forall|which: int, line: int|
        0 <= which < blocks.len() && (#[trigger] blocks[which]).has_inside(line)
        implies round_trips(#[trigger] doc[line], blocks[which].indentation as int) by {
        assert(is_steady(doc[line], blocks[which].indentation as int));
        lemma_inside_lines_are_plain(doc, blocks, which, line);
        lemma_steady_round_trips(doc[line], blocks[which].indentation as int);
    }
    lemma_round_trips_flip_back(doc, blocks);
    lemma_double_toggle(extension, doc, blocks);
}

/// All or nothing. A file with a block that is still open at its end is left
/// alone by the toggle, the report and the strip, whatever its extension.
pub proof fn lemma_open_block_leaves_file_alone(extension: Option<Seq<char>>, doc: Seq<Seq<char>>)
    requires
        has_open_block(doc),
    ensures
        swapped(extension, doc) matches Ok(None),
        listed(extension, doc) matches Ok(None),
        cleaned(extension, doc) matches Ok(None),
{
}

/// Not applicable. A file whose extension is not the recognized one is left
/// alone by the toggle, the report and the strip, whatever it holds; and so
/// is a file without blocks.
pub proof fn lemma_not_applicable(extension: Option<Seq<char>>, doc: Seq<Seq<char>>)
    requires
        !is_recognized(extension) || has_no_block(doc),
    ensures
        swapped(extension, doc) matches Ok(None),
        listed(extension, doc) matches Ok(None),
        cleaned(extension, doc) matches Ok(None),
{
}

/// Strip asymmetry. In a file with one block, closed: where every line inside
/// the block carries the comment prefix at the block's column, the strip
/// writes the lines before the block and the lines after it, and nothing of
/// the block; where no line inside it carries the prefix, the strip takes the
/// two marker lines away and writes all the rest.
pub proof fn lemma_strip_asymmetry(extension: Option<Seq<char>>, doc: Seq<Seq<char>>, block: Block)
    requires
        acts_on(extension, doc, seq![block]),
    ensures
        block.end matches Some(end) && block.start < end < doc.len(),
        is_commented(doc, block) ==> (cleaned(extension, doc) matches Ok(Some(out)) && out
            == without_block(doc, block)),
        is_active(doc, block) ==> (cleaned(extension, doc) matches Ok(Some(out)) && out
            == without_markers(doc, block)),
{
    let blocks = seq![block];
    assert(blocks[0] == block);
    assert(blocks[0].is_complete());
    lemma_scanned(doc);
    assert(fits(blocks[0], doc, doc.len()));
    lemma_strip_one_block(doc, block);
}

/// A file without marker lines has no block.
pub proof fn lemma_no_marker_no_block(doc: Seq<Seq<char>>, upto: nat)
    requires
        upto <= doc.len(),
        forall|line: int|
            0 <= line < upto ==> !is_opening(#[trigger] doc[line]) && !is_closing(doc[line]),
    ensures
        scan_prefix(doc, upto) matches Ok(blocks) && blocks == Seq::<Block>::empty(),
    decreases upto,
{
    if upto > 0 {
        lemma_no_marker_no_block(doc, (upto - 1) as nat);
        assert(!is_opening(doc[upto - 1]) && !is_closing(doc[upto - 1]));
    }
}

/// Of a file whose blocks are all closed, a strip keeps no marker line.
pub proof fn lemma_stripped_lines_are_plain(doc: Seq<Seq<char>>, blocks: Seq<Block>, upto: nat)
    requires
        scans_to(doc, blocks),
        all_complete(blocks),
        upto <= doc.len(),
    ensures
        forall|line: int|
            0 <= line < stripped_prefix(doc, blocks, upto).len() ==> !is_opening(
                #[trigger] stripped_prefix(doc, blocks, upto)[line],
            ) && !is_closing(stripped_prefix(doc, blocks, upto)[line]),
    decreases upto,
{
    if upto > 0 {
        let index = upto - 1;
        let kept = stripped_prefix(doc, blocks, index as nat);
        let now = stripped_prefix(doc, blocks, upto);
        lemma_stripped_lines_are_plain(doc, blocks, index as nat);
        if !is_stripped(doc, blocks, index) {
            lemma_scanned(doc);
            if is_opening(doc[index]) {
                assert(starts_at(blocks, index));
                let which = choose|which: int|
                    0 <= which < blocks.len() && (#[trigger] blocks[which]).start == index;
                assert(blocks[which].is_complete());
                assert(strips(blocks[which], doc, index));
            }
            if is_closing(doc[index]) {
                assert(ends_at(blocks, index));
                let which = choose|which: int|
                    0 <= which < blocks.len() && (#[trigger] blocks[which]).end == Some(
                        index as nat,
                    );
                assert(strips(blocks[which], doc, index));
            }
            assert(now == kept.push(doc[index]));
            assert forall|line: int| 0 <= line < now.len() implies !is_opening(
                #[trigger] now[line],
            ) && !is_closing(now[line]) by {
                if line < kept.len() {
                    assert(now[line] == kept[line]);
                }
            }
        } else {
            assert(now == kept);
        }
    }
}

/// No trace. What a strip writes has no block left in it: a second strip, a
/// toggle or a report leaves it alone.
pub proof fn lemma_strip_leaves_no_block(
    extension: Option<Seq<char>>,
    doc: Seq<Seq<char>>,
    out: Seq<Seq<char>>,
)
    requires
        cleaned(extension, doc) matches Ok(Some(written)) && written == out,
    ensures
        has_no_block(out),
        cleaned(extension, out) matches Ok(None),
        swapped(extension, out) matches Ok(None),
        listed(extension, out) matches Ok(None),
{
    let blocks = scanned(doc)->Ok_0;
    assert(out == stripped(doc, blocks));
    lemma_stripped_lines_are_plain(doc, blocks, doc.len());
    lemma_no_marker_no_block(out, out.len());
}

} // verus!
