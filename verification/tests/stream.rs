use swapblocks::action;
use swapblocks::violation::{StructuralViolation, ViolationKind};
use swapblocks::stream::{Rewritten, StreamState};

fn lines(text: &[&str]) -> Vec<String> {
    text.iter().map(|line| line.to_string()).collect()
}

#[test]
fn stream_flips_the_lines_of_a_block() {
    let input = lines(&["a", "  #SWAP", "  # b", "  c", "", "  #SWAPEND", "# d"]);
    assert_eq!(
        action::test(&input),
        Ok(Rewritten {
            state: StreamState::Outside,
            lines: lines(&["a", "  #SWAP", "  b", "  # c", "# ", "  #SWAPEND", "# d"]),
        })
    );
}

#[test]
fn stream_rejects_a_close_without_an_open() {
    let input = lines(&["a", "#SWAPEND", "b"]);
    assert_eq!(
        action::test(&input),
        Err(StructuralViolation { line: 1, kind: ViolationKind::UnmatchedClose })
    );
}

#[test]
fn stream_rejects_an_open_inside_a_block() {
    let input = lines(&["#SWAP", "a", "#SWAP", "#SWAPEND"]);
    assert_eq!(
        action::test(&input),
        Err(StructuralViolation { line: 2, kind: ViolationKind::NestedOpen })
    );
}

#[test]
fn stream_rejects_a_second_close() {
    let input = lines(&["#SWAP", "#SWAPEND", "#SWAPEND"]);
    assert_eq!(
        action::test(&input),
        Err(StructuralViolation { line: 2, kind: ViolationKind::UnmatchedClose })
    );
}

#[test]
fn stream_takes_the_prefix_before_it_looks_for_markers() {
    let input = lines(&["#SWAP", "# #SWAPEND", "x", "#SWAPEND"]);
    assert_eq!(
        action::test(&input),
        Ok(Rewritten {
            state: StreamState::Outside,
            lines: lines(&["#SWAP", "#SWAPEND", "# x", "#SWAPEND"]),
        })
    );
}

#[test]
fn stream_writes_a_file_without_markers_as_it_is() {
    let input = lines(&["a", "# b", ""]);
    assert_eq!(
        action::test(&input),
        Ok(Rewritten { state: StreamState::Outside, lines: input.clone() })
    );
    assert_eq!(
        action::test(&lines(&[])),
        Ok(Rewritten { state: StreamState::Outside, lines: lines(&[]) })
    );
}

#[test]
fn stream_goes_on_in_a_block_left_open() {
    let input = lines(&["#SWAP", "a"]);
    assert_eq!(
        action::test(&input),
        Ok(Rewritten {
            state: StreamState::Inside { indentation: 0 },
            lines: lines(&["#SWAP", "# a"]),
        })
    );
}

#[test]
fn step_by_step() {
    let state = StreamState::new();
    assert_eq!(state, StreamState::Outside);
    let (state, out) = state.step("x").unwrap();
    assert_eq!((state, out.as_str()), (StreamState::Outside, "x"));
    let (state, out) = state.step("  #SWAP").unwrap();
    assert_eq!((state, out.as_str()), (StreamState::Inside { indentation: 2 }, "  #SWAP"));
    let (state, out) = state.step("  # y").unwrap();
    assert_eq!((state, out.as_str()), (StreamState::Inside { indentation: 2 }, "  y"));
    let (state, out) = state.step("  z").unwrap();
    assert_eq!((state, out.as_str()), (StreamState::Inside { indentation: 2 }, "  # z"));
    assert_eq!(state.step("#SWAP"), Err(ViolationKind::NestedOpen));
    let (state, out) = state.step("  #SWAPEND").unwrap();
    assert_eq!((state, out.as_str()), (StreamState::Outside, "  #SWAPEND"));
    assert_eq!(state.step("#SWAPEND"), Err(ViolationKind::UnmatchedClose));
}
