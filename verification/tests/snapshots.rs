//! Snapshots of screens, fed back into the emulator.

use serde_json::Value;
use vt100::Parser;
use wand_render::protocol::{PendingOp, TerminalSnapshot, SCROLLBACK_LINES};
use wand_render::snapshot::{
    bound_for_list, build, build_baseline, DecModeTracker, LIST_SNAPSHOT_MAX_BYTES,
};

const ROWS: u16 = 10;
const COLS: u16 = 40;

fn feed(parser: &mut Parser, bytes: &[u8]) {
    parser.process(bytes);
}

#[test]
fn snapshot_restores_screen_equivalence() {
    let mut parser = Parser::new(ROWS, COLS, 0);
    feed(
        &mut parser,
        b"\x1b[31mred\x1b[0m plain\r\n\x1b[1;32mbold green\x1b[0m\r\n",
    );
    feed(&mut parser, b"line3\r\nline4\r\n");
    feed(&mut parser, b"\x1b[2;3HXX\x1b[5;1Hlast\x1b[3;7H\x1b[4mU\x1b[0m");

    let snapshot = build(parser.screen(), Vec::new(), true);
    assert_eq!(snapshot.version, 1);
    assert_eq!(snapshot.cols, COLS);
    assert_eq!(snapshot.rows, ROWS);

    let mut replay = Parser::new(ROWS, COLS, 0);
    feed(&mut replay, snapshot.data.as_bytes());

    assert_eq!(replay.screen().contents(), parser.screen().contents());
    assert_eq!(
        replay.screen().cursor_position(),
        parser.screen().cursor_position()
    );
    for (row, col) in [(0u16, 0u16), (1, 0), (2, 0)] {
        let live = parser.screen().cell(row, col);
        let restored = replay.screen().cell(row, col);
        assert_eq!(live.map(|c| c.contents()), restored.map(|c| c.contents()));
        assert_eq!(live.map(|c| c.fgcolor()), restored.map(|c| c.fgcolor()));
        assert_eq!(live.map(|c| c.bold()), restored.map(|c| c.bold()));
    }
}

#[test]
fn snapshot_matches_attributes_and_cursor_position() {
    let mut parser = Parser::new(ROWS, COLS, 0);
    feed(&mut parser, b"\x1b[33;44mstyled\x1b[0m\x1b[4;10Hmid");
    let snapshot = build(parser.screen(), Vec::new(), true);
    let mut replay = Parser::new(ROWS, COLS, 0);
    feed(&mut replay, snapshot.data.as_bytes());
    assert_eq!(
        replay.screen().cursor_position(),
        parser.screen().cursor_position()
    );
    assert_eq!(
        replay.screen().cell(0, 0).map(|cell| cell.fgcolor()),
        parser.screen().cell(0, 0).map(|cell| cell.fgcolor())
    );
    assert_eq!(
        replay.screen().cell(0, 0).map(|cell| cell.bgcolor()),
        parser.screen().cell(0, 0).map(|cell| cell.bgcolor())
    );
}

#[test]
fn snapshot_rebuilds_the_alternate_screen() {
    let mut parser = Parser::new(ROWS, COLS, 0);
    feed(&mut parser, b"normal screen\r\n");
    feed(&mut parser, b"\x1b[?1049h\x1b[2J\x1b[Halt content");
    assert!(parser.screen().alternate_screen());

    let snapshot = build(parser.screen(), Vec::new(), true);
    assert!(snapshot.data.contains("\x1b[?1049h"));
    let mut replay = Parser::new(ROWS, COLS, 0);
    feed(&mut replay, snapshot.data.as_bytes());
    assert!(replay.screen().alternate_screen());
    assert_eq!(replay.screen().contents(), parser.screen().contents());
}

#[test]
fn snapshot_replays_pending_after_the_baseline() {
    let mut parser = Parser::new(ROWS, COLS, 0);
    feed(&mut parser, b"base\r\n");
    let pending = vec![
        PendingOp::Data { data: "next line\r\n".to_string() },
        PendingOp::Resize { cols: 30, rows: 8 },
    ];
    let snapshot = build(parser.screen(), pending, true);
    assert_eq!(snapshot.pending.len(), 2);

    let mut replay = Parser::new(ROWS, COLS, 0);
    feed(&mut replay, snapshot.data.as_bytes());
    for op in &snapshot.pending {
        match op {
            PendingOp::Data { data } => feed(&mut replay, data.as_bytes()),
            PendingOp::Resize { cols, rows } => replay.screen_mut().set_size(*rows, *cols),
        }
    }
    assert!(replay.screen().contents().starts_with("base"));
    assert!(replay.screen().contents().contains("next line"));
}

#[test]
fn scrollback_is_bounded_and_pushed_above_the_screen() {
    let mut parser = Parser::new(4, 20, SCROLLBACK_LINES);
    for index in 0..100 {
        feed(&mut parser, format!("history-{index}\r\n").as_bytes());
    }
    let snapshot = build(parser.screen(), Vec::new(), true);
    assert!(snapshot.data.contains("history-99"));
    let mut replay = Parser::new(4, 20, 0);
    feed(&mut replay, snapshot.data.as_bytes());
    assert_eq!(replay.screen().contents(), parser.screen().contents());
}

#[test]
fn scrollback_cap_drops_the_oldest_lines() {
    let mut parser = Parser::new(4, 20, 20_000);
    for index in 0..6_000 {
        feed(&mut parser, format!("line-{index}\r\n").as_bytes());
    }
    let snapshot = build(parser.screen(), Vec::new(), true);
    let history_lines = snapshot.data.matches("\r\n").count();
    assert!(
        history_lines <= SCROLLBACK_LINES + usize::from(ROWS),
        "history lines {history_lines} exceeded the {SCROLLBACK_LINES} cap"
    );
    let mut replay = Parser::new(4, 20, 0);
    feed(&mut replay, snapshot.data.as_bytes());
    assert_eq!(replay.screen().contents(), parser.screen().contents());
    assert!(!snapshot.data.contains("line-0\r\n"));
    assert!(!snapshot.data.contains("line-996\r\n"));
    assert!(snapshot.data.contains("line-997\r\n"));
    assert!(snapshot.data.contains("line-5996\r\n"));
}

#[test]
fn autowrap_mode_is_tracked_across_chunks() {
    let mut tracker = DecModeTracker::new();
    assert!(tracker.autowrap());
    tracker.scan(b"abc\x1b[?7");
    assert!(tracker.autowrap());
    tracker.scan(b"lrest");
    assert!(!tracker.autowrap());
    tracker.scan(b"\x1b[?25l\x1b[?7h");
    assert!(tracker.autowrap());
}

#[test]
fn snapshot_emits_the_autowrap_mode() {
    let mut parser = Parser::new(ROWS, COLS, 0);
    feed(&mut parser, b"\x1b[?7lwrapped-off");
    let mut tracker = DecModeTracker::new();
    tracker.scan(b"\x1b[?7l");
    let snapshot = build(parser.screen(), Vec::new(), tracker.autowrap());
    assert!(snapshot.data.contains("\x1b[?7l"));
    let on = build(parser.screen(), Vec::new(), true);
    assert!(on.data.contains("\x1b[?7h"));
}

#[test]
fn modes_are_found_however_the_stream_is_cut() {
    let stream = b"x\x1b[?25;7l\x1b[7hy\x1b[?1;2\x1bq\x1b[?7;1049h\x1b[?7l";
    for cut in 0..=stream.len() {
        let mut tracker = DecModeTracker::default();
        tracker.scan(&stream[..cut]);
        tracker.scan(&stream[cut..]);
        assert!(!tracker.autowrap(), "cut at {cut}");
    }
    let mut tracker = DecModeTracker::new();
    for byte in b"\x1b[?25;7l" {
        tracker.scan(&[*byte]);
    }
    assert!(!tracker.autowrap());
    tracker.scan(b"\x1b[?77h\x1b[?7x");
    assert!(!tracker.autowrap());
}

#[test]
fn a_snapshot_without_history_starts_with_the_switch_to_the_main_screen() {
    let mut parser = Parser::new(2, 5, 0);
    feed(&mut parser, b"ab");
    let snapshot = build_baseline(parser.screen(), false);
    assert!(snapshot.data.starts_with("\x1b[?1049l"));
    assert!(snapshot.data.ends_with("\x1b[?7l"));
    assert!(snapshot.data.contains("ab"));
    assert!(snapshot.pending.is_empty());
    assert_eq!((snapshot.rows, snapshot.cols, snapshot.version), (2, 5, 1));
}

/// Lines that were wrapped in history are drawn without a line break between them, and input modes
/// and attributes are restored.
#[test]
fn wrapped_history_and_modes_come_back() {
    let mut parser = Parser::new(3, 8, 100);
    feed(&mut parser, b"abcdefghijkl\r\n2\r\n3\r\n4\r\n\x1b[?2004h\x1b[1mB");
    let snapshot = build_baseline(parser.screen(), true);
    assert!(snapshot.data.contains("abcdefghijkl"));
    let mut replay = Parser::new(3, 8, 100);
    feed(&mut replay, snapshot.data.as_bytes());
    assert!(replay.screen().bracketed_paste());
    assert!(replay.screen().bold());
    assert_eq!(replay.screen().contents(), parser.screen().contents());
}

fn object(members: Vec<(&str, Value)>) -> Value {
    let mut map = serde_json::Map::new();
    for (key, value) in members {
        map.insert(key.to_string(), value);
    }
    Value::Object(map)
}

fn json_bytes(snapshot: &TerminalSnapshot) -> usize {
    let pending: Vec<Value> = snapshot
        .pending
        .iter()
        .map(|op| match op {
            PendingOp::Data { data } => object(vec![
                ("type", Value::from("data")),
                ("data", Value::from(data.clone())),
            ]),
            PendingOp::Resize { cols, rows } => object(vec![
                ("type", Value::from("resize")),
                ("cols", Value::from(*cols)),
                ("rows", Value::from(*rows)),
            ]),
        })
        .collect();
    let value = object(vec![
        ("version", Value::from(snapshot.version)),
        ("data", Value::from(snapshot.data.clone())),
        ("cols", Value::from(snapshot.cols)),
        ("rows", Value::from(snapshot.rows)),
        ("pending", Value::Array(pending)),
    ]);
    serde_json::to_vec(&value).expect("json").len()
}

fn snapshot_of(data: &str, pending: Vec<PendingOp>) -> TerminalSnapshot {
    TerminalSnapshot { version: 1, data: data.to_string(), cols: 80, rows: 24, pending }
}

/// The limit is on the length that the crate for JSON writes, to the byte.
#[test]
fn the_bound_is_on_the_written_length() {
    let data = "a\"b\\c\n\r\t\u{8}\u{c}\u{1}\u{7f}\u{1b}[0mé中😀/";
    let pending = || {
        vec![
            PendingOp::Data { data: "\u{1b}x\"".to_string() },
            PendingOp::Resize { cols: 65535, rows: 7 },
        ]
    };
    let exact = json_bytes(&snapshot_of(data, pending()));
    let kept = bound_for_list(snapshot_of(data, pending()), exact).expect("fits");
    assert_eq!(kept, snapshot_of(data, pending()));
    let cut = bound_for_list(snapshot_of(data, pending()), exact - 1).expect("without pending");
    assert_eq!(cut, snapshot_of(data, Vec::new()));
}

#[test]
fn a_cut_snapshot_ends_at_a_whole_sequence() {
    let data = "ab\u{1b}[1;31mcd\u{1b}]0;title\u{7}ef\u{1b}(Bgh";
    let whole = json_bytes(&snapshot_of(data, Vec::new()));
    let empty = json_bytes(&snapshot_of("", Vec::new()));
    for limit in 0..whole {
        match bound_for_list(snapshot_of(data, Vec::new()), limit) {
            None => assert!(limit < empty, "limit {limit}"),
            Some(kept) => {
                assert!(json_bytes(&kept) <= limit, "limit {limit}");
                assert!(data.starts_with(&kept.data));
                let mut replay = Parser::new(24, 80, 0);
                feed(&mut replay, kept.data.as_bytes());
                feed(&mut replay, b"Z");
                assert!(replay.screen().contents().ends_with('Z'), "limit {limit}");
            }
        }
    }
}

#[test]
fn list_snapshots_have_a_limit_of_64_kib() {
    assert_eq!(LIST_SNAPSHOT_MAX_BYTES, 64 * 1024);
    let long = "x".repeat(200_000);
    let kept = bound_for_list(snapshot_of(&long, Vec::new()), LIST_SNAPSHOT_MAX_BYTES).expect("cut");
    assert_eq!(json_bytes(&kept), LIST_SNAPSHOT_MAX_BYTES);
}

#[test]
fn snapshot_holds_the_drawing_byte_for_byte() {
    let mut parser = Parser::new(ROWS, COLS, 0);
    feed(&mut parser, "\u{4e2d}\u{6587} e\u{301} \u{1f600}".as_bytes());
    feed(&mut parser, b"\x1b[1;4;38;5;208m\x1b[?1h\x1b=\x1b[?2004h\x1b[?1002h\x1b[?1006h");
    let screen = parser.screen();
    let mut expected: Vec<u8> = b"\x1b[?1049l".to_vec();
    expected.extend_from_slice(&screen.contents_formatted());
    expected.extend_from_slice(&screen.attributes_formatted());
    expected.extend_from_slice(&screen.input_mode_formatted());
    expected.extend_from_slice(b"\x1b[?7l");
    let snapshot = build_baseline(screen, false);
    assert_eq!(snapshot.data.as_bytes(), expected.as_slice());
    assert!(!snapshot.data.contains('\u{fffd}'));

    let mut attributes = Parser::new(ROWS, COLS, 0);
    feed(&mut attributes, &screen.attributes_formatted());
    assert_eq!(
        attributes.screen().attributes_formatted(),
        screen.attributes_formatted()
    );
    assert_ne!(
        attributes.screen().attributes_formatted(),
        Parser::new(ROWS, COLS, 0).screen().attributes_formatted()
    );
    let mut modes = Parser::new(ROWS, COLS, 0);
    feed(&mut modes, &screen.input_mode_formatted());
    assert_eq!(
        modes.screen().input_mode_formatted(),
        screen.input_mode_formatted()
    );
    assert_ne!(
        modes.screen().input_mode_formatted(),
        Parser::new(ROWS, COLS, 0).screen().input_mode_formatted()
    );
}
