//! The marker by which a launcher tells how its program ended.

use wand_render::marker::MarkerStripper;

#[test]
fn strips_marker_in_one_chunk() {
    let mut stripper = MarkerStripper::new("tok");
    let visible = stripper.consume("before\u{1e}WAND_CLI_EXIT:tok:0\u{1f}after");
    assert_eq!(visible, "beforeafter");
    assert!(stripper.is_completed());
    assert_eq!(stripper.consume("later"), "later");
}

#[test]
fn strips_marker_split_across_chunks() {
    let mut stripper = MarkerStripper::new("tok");
    let mut visible = String::new();
    visible.push_str(&stripper.consume("hello\u{1e}WAND_CLI_EX"));
    visible.push_str(&stripper.consume("IT:tok:13"));
    visible.push_str(&stripper.consume("0\u{1f}bye"));
    assert_eq!(visible, "hellobye");
    assert!(stripper.is_completed());
}

#[test]
fn holds_partial_prefix_at_the_end_without_data_loss() {
    let mut stripper = MarkerStripper::new("tok");
    let first = stripper.consume("abc\u{1e}WAND");
    assert_eq!(first, "abc");
    let second = stripper.consume("_CLI_EXIT:tok:9\u{1f}");
    assert_eq!(second, "");
    assert!(stripper.is_completed());
}

#[test]
fn keeps_foreign_markers_visible() {
    let mut stripper = MarkerStripper::new("tok");
    let visible = stripper.consume("x\u{1e}WAND_CLI_EXIT:other:0\u{1f}y");
    assert_eq!(visible, "x\u{1e}WAND_CLI_EXIT:other:0\u{1f}y");
    assert!(!stripper.is_completed());
}

#[test]
fn ignores_non_numeric_status() {
    let mut stripper = MarkerStripper::new("tok");
    let visible = stripper.consume("\u{1e}WAND_CLI_EXIT:tok:abc\u{1f}");
    assert_eq!(visible, "\u{1e}WAND_CLI_EXIT:tok:abc\u{1f}");
    assert!(!stripper.is_completed());
}

#[test]
fn any_cut_of_the_stream_shows_the_same_text() {
    let stream: Vec<char> = "one\u{1e}WAND_CLI_EXIT:tok:137\u{1f}two\u{1e}WAND".chars().collect();
    for cut in 0..stream.len() {
        let mut stripper = MarkerStripper::new("tok");
        let head: String = stream[..cut].iter().collect();
        let tail: String = stream[cut..].iter().collect();
        let mut visible = stripper.consume(&head);
        visible.push_str(&stripper.consume(&tail));
        assert_eq!(visible, "onetwo\u{1e}WAND", "cut at {cut}");
        assert!(stripper.is_completed());
    }
}

#[test]
fn only_a_possible_beginning_of_the_marker_waits() {
    let mut stripper = MarkerStripper::new("tok");
    assert_eq!(stripper.consume("a\u{1e}b"), "a\u{1e}b");
    assert_eq!(stripper.consume("c\u{1e}"), "c");
    assert_eq!(stripper.consume("d"), "\u{1e}d");
    assert!(!stripper.is_completed());
}

#[test]
fn tokens_outside_ascii_are_found_too() {
    let mut stripper = MarkerStripper::new("标记");
    let mut visible = stripper.consume("x\u{1e}WAND_CLI_EXIT:标");
    visible.push_str(&stripper.consume("记:0\u{1f}y"));
    assert_eq!(visible, "xy");
    assert!(stripper.is_completed());
}
