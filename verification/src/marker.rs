//! The marker syntax, and what a single line is under it.

use vstd::prelude::*;
use crate::text::{
    chars_of, contains, find, find_up_to, first_index_of, first_occurrence, insert_at,
    is_first_index_of, lemma_first_index_of, lemma_first_occurrence, lemma_first_occurrence_is,
    matches_at, occurs_at, position_up_to, remove_first, with_insertion, without_range,
};

verus! {

/// The text that opens a swap block.
pub const START: &'static str = "#SWAP";

/// The text that closes a swap block.
pub const END: &'static str = "#SWAPEND";

/// The comment prefix that a toggle puts in or takes out: the comment
/// character and one space.
pub const COMMENT_PREFIX: &'static str = "# ";

/// The character that introduces a comment. Its column on an opening line
/// anchors the block.
pub const COMMENT_CHAR: char = '#';

/// The line closes a block: the closing marker stands somewhere in it.
pub open spec fn is_closing(line: Seq<char>) -> bool {
    contains(line, END@)
}

/// The line opens a block: the opening marker stands somewhere in it, and the
/// line is no closing line.
pub open spec fn is_opening(line: Seq<char>) -> bool {
    contains(line, START@) && !contains(line, END@)
}

/// The column of the first comment character of a line.
pub open spec fn anchor_of(line: Seq<char>) -> Option<int> {
    first_index_of(line, COMMENT_CHAR)
}

/// The line carries the comment prefix at `column`.
pub open spec fn carries_prefix(line: Seq<char>, column: int) -> bool {
    occurs_at(line, COMMENT_PREFIX@, column)
}

/// The line with its comment state flipped about `column`: where it carries
/// the prefix there, the leftmost prefix of the line is taken out; else the
/// prefix is put in at `column`, or at the end of a shorter line.
pub open spec fn toggled(line: Seq<char>, column: int) -> Seq<char> {
    if carries_prefix(line, column) {
        remove_first(line, COMMENT_PREFIX@)
    } else {
        insert_at(line, column, COMMENT_PREFIX@)
    }
}

/// What a line is to the scanner.
#[derive(Clone, Copy, Debug, PartialEq, Eq, Structural)]
pub enum LineKind {
    /// No marker.
    Plain,
    /// An opening marker, with the column of the line's first comment character.
    Opening { indentation: usize },
    /// A closing marker.
    Closing,
}

impl LineKind {
    /// The kind is the one that `line` has.
    pub open spec fn describes(self, line: Seq<char>) -> bool {
        match self {
            LineKind::Closing => is_closing(line),
            LineKind::Opening { indentation } => is_opening(line) && anchor_of(line) == Some(
                indentation as int,
            ),
            LineKind::Plain => !is_closing(line) && !is_opening(line),
        }
    }
}

/// What the marker constants hold.
pub proof fn lemma_marker_text()
    ensures
        START@ == seq!['#', 'S', 'W', 'A', 'P'],
        END@ == seq!['#', 'S', 'W', 'A', 'P', 'E', 'N', 'D'],
        COMMENT_PREFIX@ == seq!['#', ' '],
        COMMENT_CHAR == '#',
{
    reveal_strlit("#SWAP");
    reveal_strlit("#SWAPEND");
    reveal_strlit("# ");
    assert(START@ =~= seq!['#', 'S', 'W', 'A', 'P']);
    assert(END@ =~= seq!['#', 'S', 'W', 'A', 'P', 'E', 'N', 'D']);
    assert(COMMENT_PREFIX@ =~= seq!['#', ' ']);
}

/// A line with a marker in it has a comment character, so an anchor.
pub proof fn lemma_marker_has_anchor(line: Seq<char>)
    requires
        contains(line, START@),
    ensures
        anchor_of(line) matches Some(at) && is_first_index_of(line, COMMENT_CHAR, at),
{
    lemma_marker_text();
    let at = choose|at: int| occurs_at(line, START@, at);
    assert(line.subrange(at, at + START@.len())[0] == '#');
    assert(line[at] == COMMENT_CHAR);
    lemma_first_index_of(line, COMMENT_CHAR);
}

/// A line with the closing marker in it has the opening marker in it too.
pub proof fn lemma_closing_has_start(line: Seq<char>)
    requires
        contains(line, END@),
    ensures
        contains(line, START@),
{
    lemma_marker_text();
    let at = choose|at: int| occurs_at(line, END@, at);
    assert(line.subrange(at, at + START@.len()) =~= line.subrange(at, at + END@.len()).subrange(
        0,
        START@.len() as int,
    ));
    assert(line.subrange(at, at + START@.len()) =~= START@);
    assert(occurs_at(line, START@, at));
}

/// Two toggles about `column` give the line back, and the line between them
/// has no marker in it.
pub open spec fn round_trips(line: Seq<char>, column: int) -> bool {
    &&& toggled(toggled(line, column), column) == line
    &&& !contains(toggled(line, column), START@)
}

/// The line reaches `column` and has no comment prefix before `column`; where
/// it carries the prefix at `column`, it carries no second one right behind,
/// and no marker comes together when the prefix goes.
pub open spec fn is_steady(line: Seq<char>, column: int) -> bool {
    &&& 0 <= column <= line.len()
    &&& !contains(line.subrange(0, column), COMMENT_PREFIX@)
    &&& carries_prefix(line, column) ==> {
        &&& !carries_prefix(line, column + 2)
        &&& !contains(
            line.subrange(0, column) + line.subrange(column + 2, line.len() as int),
            START@,
        )
    }
}

/// In a line that has no comment prefix before `column`, a prefix at
/// `column` is the leftmost one.
proof fn lemma_prefix_at_column_is_first(line: Seq<char>, column: int)
    requires
        carries_prefix(line, column),
        !contains(line.subrange(0, column), COMMENT_PREFIX@),
    ensures
        first_occurrence(line, COMMENT_PREFIX@) == Some(column),
{
    lemma_marker_text();
    let prefix = COMMENT_PREFIX@;
    assert(line.subrange(column, column + 2)[0] == '#');
    assert forall|before: int| 0 <= before < column implies !occurs_at(line, prefix, before) by {
        if occurs_at(line, prefix, before) {
            if before + 2 <= column {
                assert(line.subrange(0, column).subrange(before, before + 2) =~= line.subrange(
                    before,
                    before + 2,
                ));
                assert(occurs_at(line.subrange(0, column), prefix, before));
            } else {
                assert(line.subrange(before, before + 2)[1] == ' ');
                assert(line[column] == '#');
            }
        }
    }
    lemma_first_occurrence_is(line, prefix, column);
}

/// Putting the comment prefix into a line that has no marker brings no
/// marker about.
proof fn lemma_insertion_makes_no_marker(line: Seq<char>, column: int)
    requires
        0 <= column <= line.len(),
        !contains(line, START@),
    ensures
        !contains(insert_at(line, column, COMMENT_PREFIX@), START@),
{
    lemma_marker_text();
    let once = insert_at(line, column, COMMENT_PREFIX@);
    assert(once.len() == line.len() + 2);
    assert(once[column] == '#');
    assert(once[column + 1] == ' ');
    assert forall|at: int| !occurs_at(once, START@, at) by {
        if occurs_at(once, START@, at) {
            let found = once.subrange(at, at + 5);
            assert(found == START@);
            if at + 5 <= column {
                assert(line.subrange(at, at + 5) =~= found);
                assert(occurs_at(line, START@, at));
            } else if at >= column + 2 {
                assert(line.subrange(at - 2, at + 3) =~= found);
                assert(occurs_at(line, START@, at - 2));
            } else if at + 5 == column + 1 {
                assert(found[4] == once[column]);
            } else {
                assert(found[column + 1 - at] == once[column + 1]);
            }
        }
    }
}

/// A line that carries the prefix at `column`, with none before and no second
/// one right behind, comes back after two toggles.
proof fn lemma_remove_then_insert(line: Seq<char>, column: int)
    requires
        carries_prefix(line, column),
        !contains(line.subrange(0, column), COMMENT_PREFIX@),
        !carries_prefix(line, column + 2),
    ensures
        toggled(line, column) == line.subrange(0, column) + line.subrange(
            column + 2,
            line.len() as int,
        ),
        toggled(toggled(line, column), column) == line,
{
    lemma_marker_text();
    let prefix = COMMENT_PREFIX@;
    let n = line.len() as int;
    lemma_prefix_at_column_is_first(line, column);
    let once = line.subrange(0, column) + line.subrange(column + 2, n);
    assert(toggled(line, column) == once);
    if carries_prefix(once, column) {
        assert(line.subrange(column + 2, column + 4) =~= once.subrange(column, column + 2));
        assert(carries_prefix(line, column + 2));
    }
    assert(toggled(once, column) == insert_at(once, column, prefix));
    assert(line.subrange(column, column + 2) == prefix);
    assert(once.subrange(0, column) =~= line.subrange(0, column));
    assert(once.subrange(column, once.len() as int) =~= line.subrange(column + 2, n));
    assert(line =~= line.subrange(0, column) + line.subrange(column, column + 2) + line.subrange(
        column + 2,
        n,
    ));
}

/// A line that reaches `column` and carries no prefix there, nor any before,
/// comes back after two toggles.
proof fn lemma_insert_then_remove(line: Seq<char>, column: int)
    requires
        0 <= column <= line.len(),
        !carries_prefix(line, column),
        !contains(line.subrange(0, column), COMMENT_PREFIX@),
    ensures
        toggled(line, column) == insert_at(line, column, COMMENT_PREFIX@),
        toggled(toggled(line, column), column) == line,
{
    lemma_marker_text();
    let prefix = COMMENT_PREFIX@;
    let n = line.len() as int;
    let once = line.subrange(0, column) + prefix + line.subrange(column, n);
    assert(toggled(line, column) == once);
    assert(once.subrange(column, column + 2) =~= prefix);
    assert(carries_prefix(once, column));
    assert(once.subrange(0, column) =~= line.subrange(0, column));
    lemma_prefix_at_column_is_first(once, column);
    assert(toggled(once, column) == once.subrange(0, column) + once.subrange(
        column + 2,
        once.len() as int,
    ));
    assert(once.subrange(column + 2, once.len() as int) =~= line.subrange(column, n));
    assert(line =~= line.subrange(0, column) + line.subrange(column, n));
}

/// A steady line without a marker round-trips.
pub proof fn lemma_steady_round_trips(line: Seq<char>, column: int)
    requires
        is_steady(line, column),
        !contains(line, START@),
    ensures
        round_trips(line, column),
{
    if carries_prefix(line, column) {
        lemma_remove_then_insert(line, column);
    } else {
        lemma_insert_then_remove(line, column);
        lemma_insertion_makes_no_marker(line, column);
    }
}

/// Says what kind of line `line` is.
pub fn classify(line: &str) -> (kind: LineKind)
    ensures
        kind.describes(line@),
{
    let chars = chars_of(line);
    let end = chars_of(END);
    let start = chars_of(START);
    proof {
        lemma_marker_text();
        lemma_first_occurrence(chars@, end@);
        lemma_first_occurrence(chars@, start@);
    }
    if find(&chars, &end).is_some() {
        LineKind::Closing
    } else {
        match find(&chars, &start) {
            Some(marker) => {
                assert(chars@.subrange(marker as int, marker + 5)[0] == COMMENT_CHAR);
                LineKind::Opening { indentation: position_up_to(&chars, COMMENT_CHAR, marker) }
            },
            None => LineKind::Plain,
        }
    }
}

/// Whether `line` carries the comment prefix at `column`.
pub fn has_prefix(line: &str, column: usize) -> (carried: bool)
    ensures
        carried == carries_prefix(line@, column as int),
{
    let chars = chars_of(line);
    let prefix = chars_of(COMMENT_PREFIX);
    matches_at(&chars, &prefix, column)
}

/// Flips the comment state of `line` about `column`.
pub fn toggle_line(line: &str, column: usize) -> (out: String)
    ensures
        out@ == toggled(line@, column as int),
{
    let chars = chars_of(line);
    let prefix = chars_of(COMMENT_PREFIX);
    if matches_at(&chars, &prefix, column) {
        let at = find_up_to(&chars, &prefix, column);
        assert(at + prefix.len() <= column + prefix.len() <= chars.len());
        without_range(line, at, at + prefix.len())
    } else {
        with_insertion(line, column, COMMENT_PREFIX)
    }
}

} // verus!
