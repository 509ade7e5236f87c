use swapblocks::marker::{
    classify, has_prefix, toggle_line, LineKind, COMMENT_CHAR, COMMENT_PREFIX, END, START,
};
use swapblocks::text::{
    chars_of, decimal_text, find, find_up_to, matches_at, position_up_to, render, same_text,
    with_insertion, without_range, NEWLINE,
};

fn chars(text: &str) -> Vec<char> {
    text.chars().collect()
}

fn lines(text: &[&str]) -> Vec<String> {
    text.iter().map(|line| line.to_string()).collect()
}

#[test]
fn marker_syntax() {
    assert_eq!(START, "#SWAP");
    assert_eq!(END, "#SWAPEND");
    assert_eq!(COMMENT_PREFIX, "# ");
    assert_eq!(COMMENT_CHAR, '#');
    assert_eq!(NEWLINE, "\n");
}

#[test]
fn chars_of_gives_every_character() {
    assert_eq!(chars_of(""), Vec::<char>::new());
    assert_eq!(chars_of("a#é "), vec!['a', '#', 'é', ' ']);
}

#[test]
fn matches_at_tells_where_a_pattern_stands() {
    let text = chars("ab# cd");
    assert!(matches_at(&text, &chars("# "), 2));
    assert!(!matches_at(&text, &chars("# "), 1));
    assert!(!matches_at(&text, &chars("# "), 5));
    assert!(!matches_at(&text, &chars("# "), 6));
    assert!(!matches_at(&text, &chars("# "), 60));
    assert!(matches_at(&text, &chars(""), 6));
    assert!(!matches_at(&text, &chars(""), 7));
    assert!(matches_at(&text, &chars("ab# cd"), 0));
    assert!(!matches_at(&text, &chars("ab# cd "), 0));
}

#[test]
fn find_gives_the_leftmost_occurrence() {
    assert_eq!(find(&chars("x# y# z"), &chars("# ")), Some(1));
    assert_eq!(find(&chars("# "), &chars("# ")), Some(0));
    assert_eq!(find(&chars("ab#"), &chars("# ")), None);
    assert_eq!(find(&chars(""), &chars("# ")), None);
    assert_eq!(find(&chars("abc"), &chars("")), Some(0));
    assert_eq!(find(&chars(""), &chars("")), Some(0));
    assert_eq!(find(&chars("aab"), &chars("ab")), Some(1));
    assert_eq!(find(&chars("é#SWAP"), &chars("#SWAP")), Some(1));
}

#[test]
fn find_up_to_gives_the_leftmost_occurrence() {
    assert_eq!(find_up_to(&chars("x# y# z"), &chars("# "), 4), 1);
    assert_eq!(find_up_to(&chars("x# y# z"), &chars("# "), 1), 1);
    assert_eq!(find_up_to(&chars("# "), &chars("# "), 0), 0);
    assert_eq!(find_up_to(&chars("é# "), &chars("# "), 1), 1);
}

#[test]
fn position_up_to_gives_the_leftmost_place_of_a_character() {
    assert_eq!(position_up_to(&chars("  #a#"), '#', 4), 2);
    assert_eq!(position_up_to(&chars("  #a#"), '#', 2), 2);
    assert_eq!(position_up_to(&chars("#"), '#', 0), 0);
    assert_eq!(position_up_to(&chars("éé#"), '#', 2), 2);
}

#[test]
fn without_range_cuts_characters_out() {
    assert_eq!(without_range("ab# cd", 2, 4), "abcd");
    assert_eq!(without_range("ab# cd", 0, 0), "ab# cd");
    assert_eq!(without_range("ab# cd", 0, 6), "");
    assert_eq!(without_range("ab# cd", 6, 6), "ab# cd");
    assert_eq!(without_range("é# x", 1, 3), "éx");
}

#[test]
fn with_insertion_puts_a_piece_in() {
    assert_eq!(with_insertion("abcd", 2, "# "), "ab# cd");
    assert_eq!(with_insertion("abcd", 0, "# "), "# abcd");
    assert_eq!(with_insertion("abcd", 4, "# "), "abcd# ");
    assert_eq!(with_insertion("abcd", 9, "# "), "abcd# ");
    assert_eq!(with_insertion("", 3, "# "), "# ");
    assert_eq!(with_insertion("éa", 1, "# "), "é# a");
}

#[test]
fn same_text_compares_character_by_character() {
    assert!(same_text("tf", "tf"));
    assert!(same_text("", ""));
    assert!(!same_text("tf", "tg"));
    assert!(!same_text("tf", "t"));
    assert!(!same_text("", "tf"));
}

#[test]
fn render_joins_with_newlines_and_ends_with_one() {
    assert_eq!(render(&lines(&["a", "b", "c"])), "a\nb\nc\n");
    assert_eq!(render(&lines(&["a"])), "a\n");
    assert_eq!(render(&lines(&["a", ""])), "a\n\n");
    assert_eq!(render(&lines(&[])), "\n");
}

#[test]
fn decimal_text_writes_numerals() {
    assert_eq!(decimal_text(0), "0");
    assert_eq!(decimal_text(7), "7");
    assert_eq!(decimal_text(10), "10");
    assert_eq!(decimal_text(109), "109");
    assert_eq!(decimal_text(1234567890), "1234567890");
    assert_eq!(decimal_text(u128::MAX), "340282366920938463463374607431768211455");
}

#[test]
fn classify_tells_the_markers() {
    assert_eq!(classify("#SWAP"), LineKind::Opening { indentation: 0 });
    assert_eq!(classify("    #SWAP"), LineKind::Opening { indentation: 4 });
    assert_eq!(classify("# x #SWAP y"), LineKind::Opening { indentation: 0 });
    assert_eq!(classify("a = 1 #SWAP"), LineKind::Opening { indentation: 6 });
    assert_eq!(classify("#SWAPEND"), LineKind::Closing);
    assert_eq!(classify("  #SWAPEND  "), LineKind::Closing);
    assert_eq!(classify("#SWAP #SWAPEND"), LineKind::Closing);
    assert_eq!(classify("#SWAPEN"), LineKind::Opening { indentation: 0 });
    assert_eq!(classify("SWAP"), LineKind::Plain);
    assert_eq!(classify("# SWAP"), LineKind::Plain);
    assert_eq!(classify("#swap"), LineKind::Plain);
    assert_eq!(classify(""), LineKind::Plain);
}

#[test]
fn has_prefix_looks_at_the_column_only() {
    assert!(has_prefix("# a", 0));
    assert!(has_prefix("  # a", 2));
    assert!(!has_prefix("  # a", 0));
    assert!(!has_prefix("  # a", 3));
    assert!(!has_prefix("  #a", 2));
    assert!(!has_prefix("  #", 2));
    assert!(!has_prefix("", 0));
    assert!(!has_prefix("# a", 7));
    assert!(has_prefix("é# a", 1));
}

#[test]
fn toggle_line_takes_the_prefix_out() {
    assert_eq!(toggle_line("# b", 0), "b");
    assert_eq!(toggle_line("  # b", 2), "  b");
    assert_eq!(toggle_line("  # # b", 2), "  # b");
    assert_eq!(toggle_line("  # ", 2), "  ");
    assert_eq!(toggle_line("# a# b", 3), "a# b");
}

#[test]
fn toggle_line_puts_the_prefix_in() {
    assert_eq!(toggle_line("b", 0), "# b");
    assert_eq!(toggle_line("  b", 2), "  # b");
    assert_eq!(toggle_line("  b # c", 2), "  # b # c");
    assert_eq!(toggle_line("#b", 0), "# #b");
    assert_eq!(toggle_line("", 0), "# ");
    assert_eq!(toggle_line("éé", 1), "é# é");
}

#[test]
fn toggle_line_splits_a_short_line_at_its_end() {
    assert_eq!(toggle_line("ab", 4), "ab# ");
    assert_eq!(toggle_line("", 4), "# ");
    assert_eq!(toggle_line("ab# ", 4), "ab# # ");
}

#[test]
fn toggle_line_twice_gives_a_steady_line_back() {
    for (line, column) in [("  a = 1", 2), ("  # a = 1", 2), ("x", 0), ("# x", 0), ("a # b", 0)] {
        let once = toggle_line(line, column);
        assert_ne!(once, line);
        assert_eq!(toggle_line(&once, column), line);
    }
}
