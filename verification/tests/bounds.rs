//! Windows on the newest output.

use wand_render::bounds::{tail_chars, ChunkWindow, TextWindow};
use wand_render::protocol::PTY_OUTPUT_MAX_CHARS;

#[test]
fn text_window_keeps_the_tail() {
    let mut window = TextWindow::new(10);
    window.push("abcde");
    window.push("fghij");
    assert_eq!(window.to_string_value(), "abcdefghij");
    window.push("klm");
    assert_eq!(window.to_string_value(), "defghijklm");
    assert_eq!(window.chars(), 10);
    assert_eq!(window.bytes(), 10);
}

#[test]
fn text_window_truncates_oversized_chunk_to_its_tail() {
    let mut window = TextWindow::new(4);
    window.push("abcdefgh");
    assert_eq!(window.to_string_value(), "efgh");
}

#[test]
fn text_window_never_splits_scalars() {
    let mut window = TextWindow::new(2);
    window.push("中文字");
    assert_eq!(window.to_string_value(), "文字");
}

#[test]
fn chunk_window_bounds_by_chars_and_keeps_newest() {
    let mut window = ChunkWindow::new(10);
    window.push(1, "aaa");
    window.push(2, "bbb");
    window.push(3, "ccc");
    window.push(4, "ddd");
    let seqs: Vec<u64> = window.iter().into_iter().map(|(seq, _)| seq).collect();
    assert_eq!(window.chars(), 9);
    assert_eq!(seqs, vec![2, 3, 4]);
    assert_eq!(window.last_seq(), Some(4));
}

#[test]
fn chunk_window_truncates_single_oversized_chunk() {
    let mut window = ChunkWindow::new(5);
    window.push(1, "0123456789");
    assert_eq!(window.chars(), 5);
    assert_eq!(window.iter(), vec![(1, "56789")]);
}

#[test]
fn chunk_window_bounds_three_hundred_thousand_chars() {
    let mut window = ChunkWindow::new(PTY_OUTPUT_MAX_CHARS);
    let mut expected_tail = String::new();
    for index in 0..300_000usize {
        let chunk = format!("{index:07}");
        expected_tail.push_str(&chunk);
        window.push(index as u64 + 1, &chunk);
    }
    assert!(window.chars() <= PTY_OUTPUT_MAX_CHARS, "chars={}", window.chars());
    let joined: String = window.iter().into_iter().map(|(_, data)| data).collect();
    assert!(expected_tail.ends_with(&joined));
    assert_eq!(window.last_seq(), Some(300_000));
}

#[test]
fn tail_chars_handles_empty_and_zero() {
    assert_eq!(tail_chars("abc", 0), "");
    assert_eq!(tail_chars("", 5), "");
    assert_eq!(tail_chars("abc", 9), "abc");
}

#[test]
fn tail_chars_counts_characters_not_bytes() {
    assert_eq!(tail_chars("a中文", 2), "中文");
    assert_eq!(tail_chars("a中文", 3), "a中文");
}

#[test]
fn text_window_depends_only_on_the_whole_text() {
    let whole = "öffne die Tür, 打开门";
    let mut pieces = TextWindow::new(7);
    for c in whole.chars() {
        pieces.push(&c.to_string());
    }
    let mut once = TextWindow::new(7);
    once.push(whole);
    assert_eq!(pieces.to_string_value(), once.to_string_value());
    assert_eq!(pieces.to_string_value(), tail_chars(whole, 7));
    assert_eq!(pieces.bytes(), pieces.to_string_value().len());
    assert!(pieces.allocated_bytes() >= pieces.bytes());
}

#[test]
fn empty_windows_hold_nothing() {
    let text = TextWindow::new(3);
    assert_eq!((text.chars(), text.bytes()), (0, 0));
    let chunks = ChunkWindow::new(3);
    assert_eq!(chunks.last_seq(), None);
    assert_eq!((chunks.chars(), chunks.bytes()), (0, 0));
    assert!(chunks.iter().is_empty());
}

#[test]
fn chunk_window_counts_bytes_too() {
    let mut window = ChunkWindow::new(4);
    window.push(1, "ab");
    window.push(2, "中文");
    assert_eq!(window.chars(), 4);
    assert_eq!(window.bytes(), 8);
    window.push(3, "c");
    assert_eq!(window.iter(), vec![(2, "中文"), (3, "c")]);
}
