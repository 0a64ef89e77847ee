//! Decoding a stream of bytes into text.

use wand_render::utf8::{decode_lossy, IncrementalUtf8Decoder};

#[test]
fn splits_multibyte_scalar_across_chunks() {
    let text = "a中b";
    let bytes = text.as_bytes();
    let mut decoder = IncrementalUtf8Decoder::new();
    let mut out = decoder.push(&bytes[..3]);
    assert_eq!(out, "a");
    out.push_str(&decoder.push(&bytes[3..]));
    assert_eq!(out, text);
    assert_eq!(decoder.pending_bytes(), 0);
}

#[test]
fn splits_four_byte_scalar_into_three_chunks() {
    let text = "😀ok";
    let bytes = text.as_bytes();
    let mut decoder = IncrementalUtf8Decoder::new();
    let mut out = decoder.push(&bytes[..1]);
    out.push_str(&decoder.push(&bytes[1..2]));
    out.push_str(&decoder.push(&bytes[2..]));
    assert_eq!(out, text);
}

#[test]
fn never_produces_replacement_character() {
    let mut decoder = IncrementalUtf8Decoder::new();
    let out = decoder.push(&[0x41, 0xff, 0xfe, 0x42]);
    assert_eq!(out, "AB");
    assert!(!out.contains('\u{fffd}'));
}

#[test]
fn discarded_tail_never_emits_replacement_character() {
    let mut decoder = IncrementalUtf8Decoder::new();
    let first = decoder.push(&"中".as_bytes()[..2]);
    assert_eq!(first, "");
    assert_eq!(decoder.pending_bytes(), 2);
    decoder.discard_tail();
    assert_eq!(decoder.pending_bytes(), 0);
    assert_eq!(decoder.push(b"x"), "x");
}

#[test]
fn long_multibyte_stream_round_trips() {
    let text = "中文🙂abc".repeat(1000);
    let bytes = text.as_bytes();
    let mut decoder = IncrementalUtf8Decoder::new();
    let mut out = String::new();
    for chunk in bytes.chunks(3) {
        out.push_str(&decoder.push(chunk));
    }
    assert_eq!(out, text);
    assert!(!out.contains('\u{fffd}'));
}

/// Every sequence of bytes of these lengths, in every cut, decodes as the whole does.
#[test]
fn cutting_the_stream_changes_nothing() {
    let interesting: Vec<u8> = vec![
        0x41, 0x80, 0xbf, 0xc0, 0xc2, 0xdf, 0xe0, 0xa0, 0xed, 0x9f, 0xee, 0xf0, 0x90, 0xf4, 0x8f,
        0xf5, 0xff,
    ];
    for first in &interesting {
        for second in &interesting {
            for third in &interesting {
                let bytes = vec![*first, *second, *third, 0x80, 0x42];
                let mut whole = IncrementalUtf8Decoder::new();
                let expected = whole.push(&bytes);
                for cut in 0..=bytes.len() {
                    let mut decoder = IncrementalUtf8Decoder::default();
                    let mut out = decoder.push(&bytes[..cut]);
                    assert!(decoder.pending_bytes() <= 3);
                    out.push_str(&decoder.push(&bytes[cut..]));
                    assert_eq!(out, expected, "{bytes:?} cut at {cut}");
                    assert_eq!(decoder.pending_bytes(), whole.pending_bytes());
                }
            }
        }
    }
}

/// The units that are dropped or replaced are those that the standard library finds.
#[test]
fn broken_bytes_are_taken_apart_as_in_the_standard_library() {
    let interesting: Vec<u8> = vec![
        0x41, 0x80, 0xbf, 0xc0, 0xc2, 0xdf, 0xe0, 0xa0, 0xed, 0x9f, 0xee, 0xf0, 0x90, 0xf4, 0x8f,
        0xf5, 0xff,
    ];
    for first in &interesting {
        for second in &interesting {
            for third in &interesting {
                for fourth in &interesting {
                    let bytes = vec![*first, *second, *third, *fourth, 0x42];
                    let expected = String::from_utf8_lossy(&bytes).into_owned();
                    assert_eq!(decode_lossy(&bytes), expected, "{bytes:?}");
                    let mut decoder = IncrementalUtf8Decoder::new();
                    let kept: String = expected.chars().filter(|c| *c != '\u{fffd}').collect();
                    assert_eq!(decoder.push(&bytes), kept, "{bytes:?}");
                }
            }
        }
    }
}

#[test]
fn a_replacement_character_in_the_input_is_kept() {
    let mut decoder = IncrementalUtf8Decoder::new();
    assert_eq!(decoder.push("a\u{fffd}b".as_bytes()), "a\u{fffd}b");
    assert_eq!(decode_lossy("a\u{fffd}b".as_bytes()), "a\u{fffd}b");
}
