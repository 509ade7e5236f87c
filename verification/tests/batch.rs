use swapblocks::action::{clean, file_blocks, list, recognizes, swap};
use swapblocks::block::SwapBlock;
use swapblocks::scanner::scan;
use swapblocks::violation::{StructuralViolation, ViolationKind};
use swapblocks::transform::BlockListing;

fn lines(text: &[&str]) -> Vec<String> {
    text.iter().map(|line| line.to_string()).collect()
}

#[test]
fn toggle_uncomments_a_commented_block() {
    let input = lines(&["a", "#SWAP", "# b", "#SWAPEND", "c"]);
    let out = swap(Some("tf"), &input);
    assert_eq!(out, Ok(Some(lines(&["a", "#SWAP", "b", "#SWAPEND", "c"]))));
}

#[test]
fn toggle_comments_an_active_block() {
    let input = lines(&["a", "#SWAP", "b", "#SWAPEND", "c"]);
    let out = swap(Some("tf"), &input);
    assert_eq!(out, Ok(Some(lines(&["a", "#SWAP", "# b", "#SWAPEND", "c"]))));
}

#[test]
fn toggle_twice_gives_the_file_back() {
    let input = lines(&[
        "resource \"x\" \"y\" {",
        "  #SWAP",
        "  # source = \"a\"",
        "  source = \"b\"",
        "  #SWAPEND",
        "}",
    ]);
    let once = swap(Some("tf"), &input).unwrap().unwrap();
    assert_eq!(
        once,
        lines(&[
            "resource \"x\" \"y\" {",
            "  #SWAP",
            "  source = \"a\"",
            "  # source = \"b\"",
            "  #SWAPEND",
            "}",
        ])
    );
    let twice = swap(Some("tf"), &once).unwrap().unwrap();
    assert_eq!(twice, input);
}

#[test]
fn toggle_puts_the_prefix_at_the_end_of_a_short_line() {
    let input = lines(&["    #SWAP", "ab", "", "    #SWAPEND"]);
    let out = swap(Some("tf"), &input);
    assert_eq!(out, Ok(Some(lines(&["    #SWAP", "ab# ", "# ", "    #SWAPEND"]))));
}

#[test]
fn toggle_takes_the_prefix_only_at_the_column() {
    let input = lines(&["  #SWAP", "  a = 1 # note", "  #SWAPEND"]);
    let out = swap(Some("tf"), &input);
    assert_eq!(out, Ok(Some(lines(&["  #SWAP", "  # a = 1 # note", "  #SWAPEND"]))));
}

#[test]
fn toggle_removes_the_leftmost_prefix() {
    let input = lines(&["   #SWAP", "# a# b", "   #SWAPEND"]);
    let out = swap(Some("tf"), &input);
    assert_eq!(out, Ok(Some(lines(&["   #SWAP", "a# b", "   #SWAPEND"]))));
}

#[test]
fn strip_removes_a_commented_block_whole() {
    let input = lines(&["a", "#SWAP", "# b", "#SWAPEND", "c"]);
    assert_eq!(clean(Some("tf"), &input), Ok(Some(lines(&["a", "c"]))));
}

#[test]
fn strip_removes_every_commented_line() {
    let input = lines(&["a", "#SWAP", "# b", "# c", "# d", "#SWAPEND", "e"]);
    assert_eq!(clean(Some("tf"), &input), Ok(Some(lines(&["a", "e"]))));
}

#[test]
fn strip_keeps_the_active_lines() {
    let input = lines(&["a", "#SWAP", "b", "#SWAPEND", "c"]);
    assert_eq!(clean(Some("tf"), &input), Ok(Some(lines(&["a", "b", "c"]))));
}

#[test]
fn strip_of_two_blocks() {
    let input = lines(&[
        "#SWAP", "# x", "y", "#SWAPEND", "mid", "  #SWAP", "  # z", "  w", "  #SWAPEND", "end",
    ]);
    assert_eq!(clean(Some("tf"), &input), Ok(Some(lines(&["y", "mid", "  w", "end"]))));
}

#[test]
fn report_shows_block_one_with_its_line() {
    let input = lines(&["a", "#SWAP", "# b", "#SWAPEND", "c"]);
    let out = list(Some("tf"), &input).unwrap().unwrap();
    assert_eq!(out.blocks, vec![BlockListing { number: 1, lines: lines(&["# b"]) }]);
    assert_eq!(out.lines, input);
}

#[test]
fn report_counts_blocks_from_one() {
    let input =
        lines(&["#SWAP", "x", "y", "#SWAPEND", "#SWAP", "#SWAPEND", " #SWAP", "z", "#SWAPEND"]);
    let out = list(Some("tf"), &input).unwrap().unwrap();
    assert_eq!(
        out.blocks,
        vec![
            BlockListing { number: 1, lines: lines(&["x", "y"]) },
            BlockListing { number: 2, lines: lines(&[]) },
            BlockListing { number: 3, lines: lines(&["z"]) },
        ]
    );
    assert_eq!(out.lines, input);
}

#[test]
fn wrong_extension_is_left_alone() {
    let input = lines(&["a", "#SWAP", "# b", "#SWAPEND", "c"]);
    assert_eq!(swap(Some("txt"), &input), Ok(None));
    assert_eq!(swap(None, &input), Ok(None));
    assert_eq!(swap(Some("TF"), &input), Ok(None));
    assert_eq!(clean(Some("tfvars"), &input), Ok(None));
    assert_eq!(list(Some("t"), &input), Ok(None));
    assert_eq!(list(Some(""), &input), Ok(None));
}

#[test]
fn wrong_extension_hides_a_violation() {
    let input = lines(&["#SWAPEND"]);
    assert_eq!(swap(Some("txt"), &input), Ok(None));
    assert_eq!(clean(None, &input), Ok(None));
    assert_eq!(list(None, &input), Ok(None));
}

#[test]
fn file_without_blocks_is_left_alone() {
    let input = lines(&["a", "# b", "c"]);
    assert_eq!(swap(Some("tf"), &input), Ok(None));
    assert_eq!(clean(Some("tf"), &input), Ok(None));
    assert_eq!(list(Some("tf"), &input), Ok(None));
    assert_eq!(swap(Some("tf"), &lines(&[])), Ok(None));
}

#[test]
fn file_with_an_open_block_is_left_alone() {
    let input = lines(&["#SWAP", "# a", "#SWAPEND", "#SWAP", "# b"]);
    assert_eq!(swap(Some("tf"), &input), Ok(None));
    assert_eq!(clean(Some("tf"), &input), Ok(None));
    assert_eq!(list(Some("tf"), &input), Ok(None));
}

#[test]
fn unmatched_close_is_a_violation() {
    let input = lines(&["a", "#SWAPEND", "#SWAP", "#SWAPEND"]);
    let violation = StructuralViolation { line: 1, kind: ViolationKind::UnmatchedClose };
    assert_eq!(scan(&input), Err(violation));
    assert_eq!(swap(Some("tf"), &input), Err(violation));
    assert_eq!(clean(Some("tf"), &input), Err(violation));
    assert_eq!(list(Some("tf"), &input), Err(violation));
    assert_eq!(file_blocks(Some("tf"), &input), Err(violation));
}

#[test]
fn second_close_of_one_block_is_a_violation() {
    let input = lines(&["#SWAP", "#SWAPEND", "x", "#SWAPEND"]);
    assert_eq!(
        scan(&input),
        Err(StructuralViolation { line: 3, kind: ViolationKind::UnmatchedClose })
    );
}

#[test]
fn scan_gives_the_blocks_in_file_order() {
    let input = lines(&["a", "  #SWAP", "b", "  #SWAPEND", "x #SWAP y", "#SWAPEND"]);
    assert_eq!(
        scan(&input),
        Ok(vec![
            SwapBlock { start: 1, end: 3, indentation: 2 },
            SwapBlock { start: 4, end: 5, indentation: 2 },
        ])
    );
}

#[test]
fn scan_anchors_at_the_first_comment_character() {
    let input = lines(&["# note #SWAP", "#SWAPEND"]);
    assert_eq!(scan(&input), Ok(vec![SwapBlock { start: 0, end: 1, indentation: 0 }]));
}

#[test]
fn scan_leaves_an_unclosed_block_open() {
    let input = lines(&["#SWAP", "a"]);
    let blocks = scan(&input).unwrap();
    assert_eq!(blocks, vec![SwapBlock { start: 0, end: 0, indentation: 0 }]);
    assert!(!blocks[0].is_complete());
}

#[test]
fn nested_blocks_close_innermost_first() {
    let input = lines(&["#SWAP", " #SWAP", "x", " #SWAPEND", "#SWAPEND"]);
    let blocks = scan(&input).unwrap();
    assert_eq!(
        blocks,
        vec![
            SwapBlock { start: 0, end: 4, indentation: 0 },
            SwapBlock { start: 1, end: 3, indentation: 1 },
        ]
    );
    assert!(blocks[1].end < blocks[0].end);
}

#[test]
fn closing_marker_wins_over_opening_marker() {
    let input = lines(&["#SWAP", "#SWAP #SWAPEND"]);
    assert_eq!(scan(&input), Ok(vec![SwapBlock { start: 0, end: 1, indentation: 0 }]));
}

#[test]
fn recognizes_only_the_extension() {
    assert!(recognizes(Some("tf")));
    assert!(!recognizes(Some("tff")));
    assert!(!recognizes(Some("t")));
    assert!(!recognizes(Some(".tf")));
    assert!(!recognizes(None));
}

#[test]
fn block_descriptor_lifecycle() {
    let mut block = SwapBlock::new(3, 2);
    assert_eq!(block, SwapBlock { start: 3, end: 0, indentation: 2 });
    assert!(!block.is_complete());
    block.set_end(7);
    assert_eq!(block, SwapBlock { start: 3, end: 7, indentation: 2 });
    assert!(block.is_complete());
}

#[test]
fn file_blocks_of_a_complete_file() {
    let input = lines(&["#SWAP", "#SWAPEND"]);
    assert_eq!(
        file_blocks(Some("tf"), &input),
        Ok(Some(vec![SwapBlock { start: 0, end: 1, indentation: 0 }]))
    );
    assert_eq!(file_blocks(Some("rs"), &input), Ok(None));
}

#[test]
fn toggle_twice_gives_a_file_of_several_blocks_back() {
    let input = lines(&[
        "a",
        "#SWAP",
        "# one",
        "two",
        "#SWAPEND",
        "b",
        "    #SWAP",
        "    # three = 3",
        "    four = 4 # note",
        "    #SWAPEND",
    ]);
    let once = swap(Some("tf"), &input).unwrap().unwrap();
    assert_eq!(
        once,
        lines(&[
            "a",
            "#SWAP",
            "one",
            "# two",
            "#SWAPEND",
            "b",
            "    #SWAP",
            "    three = 3",
            "    # four = 4 # note",
            "    #SWAPEND",
        ])
    );
    assert_eq!(swap(Some("tf"), &once), Ok(Some(input)));
}

#[test]
fn toggle_twice_does_not_give_a_short_line_back() {
    let input = lines(&["  #SWAP", "", "  #SWAPEND"]);
    let once = swap(Some("tf"), &input).unwrap().unwrap();
    assert_eq!(once, lines(&["  #SWAP", "# ", "  #SWAPEND"]));
    let twice = swap(Some("tf"), &once).unwrap().unwrap();
    assert_eq!(twice, lines(&["  #SWAP", "# # ", "  #SWAPEND"]));
}

#[test]
fn toggle_can_bring_a_marker_about() {
    let input = lines(&["#SWAP", "# #SWAP", "#SWAPEND"]);
    assert_eq!(scan(&input), Ok(vec![
        SwapBlock { start: 0, end: 0, indentation: 0 },
        SwapBlock { start: 1, end: 2, indentation: 0 },
    ]));
    assert_eq!(swap(Some("tf"), &input), Ok(None));
}

#[test]
fn strip_is_not_undone_by_a_toggle() {
    let input = lines(&["#SWAP", "# a", "b", "#SWAPEND"]);
    let stripped = clean(Some("tf"), &input).unwrap().unwrap();
    assert_eq!(stripped, lines(&["b"]));
    assert_eq!(swap(Some("tf"), &stripped), Ok(None));
}

#[test]
fn toggle_twice_gives_nested_blocks_of_one_column_back() {
    let input = lines(&["#SWAP", "a", "#SWAP", "b", "#SWAPEND", "c", "#SWAPEND"]);
    let once = swap(Some("tf"), &input).unwrap().unwrap();
    assert_eq!(
        once,
        lines(&["#SWAP", "# a", "# #SWAP", "b", "# #SWAPEND", "# c", "#SWAPEND"])
    );
    assert_eq!(swap(Some("tf"), &once), Ok(Some(input)));
}

#[test]
fn toggle_twice_does_not_give_nested_blocks_of_two_columns_back() {
    let input = lines(&["#SWAP", " #SWAP", "x", " #SWAPEND", "#SWAPEND"]);
    let once = swap(Some("tf"), &input).unwrap().unwrap();
    assert_eq!(once, lines(&["#SWAP", "#  #SWAP", "##  x", "#  #SWAPEND", "#SWAPEND"]));
    let twice = swap(Some("tf"), &once).unwrap().unwrap();
    assert_eq!(twice, lines(&["#SWAP", " #SWAP", "##  x", " #SWAPEND", "#SWAPEND"]));
}

#[test]
fn what_a_strip_writes_has_no_block() {
    let input = lines(&["a", "#SWAP", "# b", "c", "#SWAPEND", "  #SWAP", "  #SWAPEND", "d"]);
    let out = clean(Some("tf"), &input).unwrap().unwrap();
    assert_eq!(out, lines(&["a", "c", "d"]));
    assert_eq!(scan(&out), Ok(vec![]));
    assert_eq!(clean(Some("tf"), &out), Ok(None));
    assert_eq!(list(Some("tf"), &out), Ok(None));
}

#[test]
fn violation_before_an_open_block_is_told() {
    let input = lines(&["#SWAPEND", "#SWAP"]);
    let violation = StructuralViolation { line: 0, kind: ViolationKind::UnmatchedClose };
    assert_eq!(swap(Some("tf"), &input), Err(violation));
    assert_eq!(swap(Some("md"), &input), Ok(None));
}
