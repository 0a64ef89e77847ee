//! Snapshots of a screen: control sequences that rebuild it in another terminal.
//!
//! The measure is that the rebuilt screen is equivalent: visible lines, cursor, attributes and
//! the alternate screen. A snapshot is put together as follows:
//!
//! 1. the lines of history, which scroll up as they are drawn;
//! 2. the switch to the main or the alternate screen;
//! 3. the visible lines and the cursor;
//! 4. the attributes for text to come and the input modes;
//! 5. the automatic wrap mode.
//!
//! What these sequences do to a terminal is known to the emulator alone. What is proved here is
//! which of them a snapshot holds and in which order, that none is lost in decoding, and, from what
//! the emulator says of itself, that the screen is shown again (`is_steady` says of which terminals
//! that can be said).

use vstd::prelude::*;
use vstd::utf8::{encode_utf8, valid_utf8, valid_utf8_concat};

pub use crate::modes::DecModeTracker;
pub use crate::preview::{bound_for_list, LIST_SNAPSHOT_MAX_BYTES};
use crate::protocol::{
    operations, Operation, PendingOp, ScreenImage, TerminalSnapshot, SCROLLBACK_LINES,
};
use crate::terminal::{
    alternate_screen, attributes_formatted, contents_formatted, copy_screen, feed_size,
    first_row_formatted, formatted_attributes, formatted_contents, formatted_first_row,
    formatted_input_modes, has_history_of, history_length, input_mode_formatted, is_plain,
    is_steady, redrawing, row_continues, row_wrapped, rows_above, rows_kept, screen_feed,
    screen_offset, scrollback, set_scrollback, shows_alternate, shows_same, size, started_with,
    TerminalOp,
};
use crate::utf8::{
    decode_lossy, decoded_lossily, law_valid_bytes_lose_nothing, lemma_ascii_is_valid,
};

verus! {

/// The version that a snapshot carries.
pub const VERSION: u32 = 1;

/// `ESC [ ? 1049 h`: show the alternate screen.
pub const ENTER_ALTERNATE: [u8; 8] = [0x1b, 0x5b, 0x3f, 0x31, 0x30, 0x34, 0x39, 0x68];

/// `ESC [ ? 1049 l`: show the main screen.
pub const LEAVE_ALTERNATE: [u8; 8] = [0x1b, 0x5b, 0x3f, 0x31, 0x30, 0x34, 0x39, 0x6c];

/// `ESC [ ? 7 h`: wrap text.
pub const WRAP_ON: [u8; 5] = [0x1b, 0x5b, 0x3f, 0x37, 0x68];

/// `ESC [ ? 7 l`: do not wrap text.
pub const WRAP_OFF: [u8; 5] = [0x1b, 0x5b, 0x3f, 0x37, 0x6c];

/// A line break.
pub const LINE_BREAK: [u8; 2] = [0x0d, 0x0a];

/// A line of history.
pub struct HistoryLine {
    /// The control sequences that draw it.
    pub bytes: Vec<u8>,
    /// Whether it continues in the next line without a line break.
    pub wrapped: bool,
}

/// All that a snapshot takes from a screen.
pub struct ScreenReading {
    pub rows: u16,
    pub cols: u16,
    pub alternate: bool,
    /// Oldest line first.
    pub history: Vec<HistoryLine>,
    pub contents: Vec<u8>,
    pub attributes: Vec<u8>,
    pub input_modes: Vec<u8>,
}

/// The bytes that draw lines of history one below the other.
pub open spec fn history_bytes(history: Seq<(Seq<u8>, bool)>) -> Seq<u8>
    decreases history.len(),
{
    if history.len() == 0 {
        Seq::empty()
    } else {
        history_bytes(history.drop_last()) + history.last().0 + (if history.last().1 {
            Seq::empty()
        } else {
            LINE_BREAK@
        })
    }
}

/// The bytes of a snapshot.
pub open spec fn snapshot_bytes(
    alternate: bool,
    history: Seq<(Seq<u8>, bool)>,
    contents: Seq<u8>,
    attributes: Seq<u8>,
    input_modes: Seq<u8>,
    autowrap: bool,
) -> Seq<u8> {
    (if alternate {
        ENTER_ALTERNATE@
    } else {
        history_bytes(history) + LEAVE_ALTERNATE@
    }) + contents + attributes + input_modes + (if autowrap {
        WRAP_ON@
    } else {
        WRAP_OFF@
    })
}

/// The lines of history as plain values.
pub open spec fn lines_of(history: Seq<HistoryLine>) -> Seq<(Seq<u8>, bool)> {
    Seq::new(history.len(), |i: int| (history[i].bytes@, history[i].wrapped))
}

/// Whether every line of history is UTF-8.
pub open spec fn lines_are_text(history: Seq<(Seq<u8>, bool)>) -> bool {
    forall|i: int| 0 <= i < history.len() ==> valid_utf8((#[trigger] history[i]).0)
}

proof fn lemma_history_is_text(history: Seq<(Seq<u8>, bool)>)
    requires
        lines_are_text(history),
    ensures
        valid_utf8(history_bytes(history)),
    decreases history.len(),
{
    if history.len() > 0 {
        lemma_history_is_text(history.drop_last());
        lemma_ascii_is_valid(LINE_BREAK@);
        assert(valid_utf8(history.last().0));
        valid_utf8_concat(history_bytes(history.drop_last()), history.last().0);
        valid_utf8_concat(
            history_bytes(history.drop_last()) + history.last().0,
            if history.last().1 {
                Seq::empty()
            } else {
                LINE_BREAK@
            },
        );
    }
}

/// A snapshot that is put together from UTF-8 is UTF-8.
proof fn lemma_snapshot_is_text(
    alternate: bool,
    history: Seq<(Seq<u8>, bool)>,
    contents: Seq<u8>,
    attributes: Seq<u8>,
    input_modes: Seq<u8>,
    autowrap: bool,
)
    requires
        lines_are_text(history),
        valid_utf8(contents),
        valid_utf8(attributes),
        valid_utf8(input_modes),
    ensures
        valid_utf8(
            snapshot_bytes(alternate, history, contents, attributes, input_modes, autowrap),
        ),
{
    lemma_history_is_text(history);
    lemma_ascii_is_valid(ENTER_ALTERNATE@);
    lemma_ascii_is_valid(LEAVE_ALTERNATE@);
    lemma_ascii_is_valid(WRAP_ON@);
    lemma_ascii_is_valid(WRAP_OFF@);
    let head = if alternate {
        ENTER_ALTERNATE@
    } else {
        history_bytes(history) + LEAVE_ALTERNATE@
    };
    let tail = if autowrap {
        WRAP_ON@
    } else {
        WRAP_OFF@
    };
    valid_utf8_concat(history_bytes(history), LEAVE_ALTERNATE@);
    valid_utf8_concat(head, contents);
    valid_utf8_concat(head + contents, attributes);
    valid_utf8_concat(head + contents + attributes, input_modes);
    valid_utf8_concat(head + contents + attributes + input_modes, tail);
}

impl ScreenReading {
    /// Whether all that was read is UTF-8.
    pub open spec fn is_text(&self) -> bool {
        &&& lines_are_text(lines_of(self.history@))
        &&& valid_utf8(self.contents@)
        &&& valid_utf8(self.attributes@)
        &&& valid_utf8(self.input_modes@)
    }

    /// The bytes of the snapshot of the screen that was read.
    pub open spec fn bytes(&self, autowrap: bool) -> Seq<u8> {
        snapshot_bytes(
            self.alternate,
            lines_of(self.history@),
            self.contents@,
            self.attributes@,
            self.input_modes@,
            autowrap,
        )
    }

    /// The snapshot of the screen that was read.
    pub open spec fn image(&self, autowrap: bool, pending: Seq<Operation>) -> ScreenImage {
        ScreenImage {
            version: VERSION,
            data: decoded_lossily(self.bytes(autowrap)),
            cols: self.cols,
            rows: self.rows,
            pending,
        }
    }
}

/// Puts the bytes of a snapshot together from what was read of a screen.
pub fn drawing(reading: &ScreenReading, autowrap: bool) -> (data: Vec<u8>)
    ensures
        data@ == reading.bytes(autowrap),
{
    let mut data: Vec<u8> = Vec::new();
    if reading.alternate {
        data.extend_from_slice(&ENTER_ALTERNATE);
    } else {
        let mut index: usize = 0;
        let ghost lines = lines_of(reading.history@);
        assert(lines.take(0) == Seq::<(Seq<u8>, bool)>::empty());
        while index < reading.history.len()
            invariant
                index <= reading.history@.len(),
                lines == lines_of(reading.history@),
                data@ == history_bytes(lines.take(index as int)),
            decreases reading.history@.len() - index,
        {
            data.extend_from_slice(reading.history[index].bytes.as_slice());
            if !reading.history[index].wrapped {
                data.extend_from_slice(&LINE_BREAK);
            }
            proof {
                let longer = lines.take(index + 1);
                assert(longer.drop_last() == lines.take(index as int));
                assert(data@ == history_bytes(longer));
            }
            index = index + 1;
        }
        assert(lines.take(index as int) == lines);
        data.extend_from_slice(&LEAVE_ALTERNATE);
    }
    data.extend_from_slice(reading.contents.as_slice());
    data.extend_from_slice(reading.attributes.as_slice());
    data.extend_from_slice(reading.input_modes.as_slice());
    if autowrap {
        data.extend_from_slice(&WRAP_ON);
    } else {
        data.extend_from_slice(&WRAP_OFF);
    }
    assert(data@ == reading.bytes(autowrap));
    data
}

/// Puts the snapshot of a screen together from what was read of it.
pub fn compose(reading: &ScreenReading, pending: Vec<PendingOp>, autowrap: bool) -> (snapshot:
    TerminalSnapshot)
    ensures
        snapshot@ == reading.image(autowrap, operations(pending@)),
        reading.is_text() ==> encode_utf8(snapshot@.data) == reading.bytes(autowrap),
{
    let data: Vec<u8> = drawing(reading, autowrap);
    proof {
        if reading.is_text() {
            lemma_snapshot_is_text(
                reading.alternate,
                lines_of(reading.history@),
                reading.contents@,
                reading.attributes@,
                reading.input_modes@,
                autowrap,
            );
            law_valid_bytes_lose_nothing(data@);
        }
    }
    TerminalSnapshot {
        version: VERSION,
        data: decode_lossy(data.as_slice()),
        cols: reading.cols,
        rows: reading.rows,
        pending,
    }
}

/// The number of lines of history that a snapshot holds.
pub open spec fn history_kept(feed: Seq<TerminalOp>) -> nat {
    if history_length(feed) < SCROLLBACK_LINES {
        history_length(feed)
    } else {
        SCROLLBACK_LINES as nat
    }
}

/// The number of lines of history that the snapshot of a screen with this feed shows.
pub open spec fn history_rows(feed: Seq<TerminalOp>) -> nat {
    if shows_alternate(feed) {
        0
    } else {
        history_kept(feed)
    }
}

/// The line of history that is `offset` lines above the screen.
pub open spec fn history_line(feed: Seq<TerminalOp>, cols: u16, offset: nat) -> (Seq<u8>, bool) {
    (
        match formatted_first_row(feed, offset, 0, cols) {
            Some(bytes) => bytes,
            None => Seq::empty(),
        },
        row_continues(feed, offset, 0),
    )
}

/// The newest lines of history, oldest first.
pub open spec fn history_lines(feed: Seq<TerminalOp>) -> Seq<(Seq<u8>, bool)> {
    Seq::new(
        history_kept(feed),
        |i: int| history_line(feed, feed_size(feed).1, (history_kept(feed) - i) as nat),
    )
}

/// The bytes of the snapshot of a screen of a terminal with this feed.
pub open spec fn drawn_bytes(feed: Seq<TerminalOp>, offset: nat, autowrap: bool) -> Seq<u8> {
    snapshot_bytes(
        shows_alternate(feed),
        history_lines(feed),
        formatted_contents(feed, offset),
        formatted_attributes(feed),
        formatted_input_modes(feed),
        autowrap,
    )
}

proof fn lemma_history_from_the_top(first: (Seq<u8>, bool), rest: Seq<(Seq<u8>, bool)>)
    ensures
        history_bytes(seq![first] + rest) == first.0 + (if first.1 {
            Seq::empty()
        } else {
            LINE_BREAK@
        }) + history_bytes(rest),
    decreases rest.len(),
{
    let all = seq![first] + rest;
    let break_of = |line: (Seq<u8>, bool)|
        if line.1 {
            Seq::empty()
        } else {
            LINE_BREAK@
        };
    if rest.len() == 0 {
        assert(all.drop_last() == Seq::<(Seq<u8>, bool)>::empty());
        assert(history_bytes(all.drop_last()) == Seq::<u8>::empty());
        assert(history_bytes(all) == first.0 + break_of(first) + history_bytes(rest));
    } else {
        lemma_history_from_the_top(first, rest.drop_last());
        assert(all.drop_last() == seq![first] + rest.drop_last());
        assert(all.last() == rest.last());
        assert(history_bytes(all) == first.0 + break_of(first) + history_bytes(rest));
    }
}

proof fn lemma_history_is_the_rows_above(feed: Seq<TerminalOp>, count: nat)
    requires
        count <= history_kept(feed),
    ensures
        history_bytes(history_lines(feed).skip(history_kept(feed) - count)) == rows_above(
            feed,
            count,
        ),
    decreases count,
{
    let lines = history_lines(feed);
    let shown = lines.skip(history_kept(feed) - count);
    if count == 0 {
        assert(shown == Seq::<(Seq<u8>, bool)>::empty());
    } else {
        let rest = lines.skip(history_kept(feed) - (count - 1));
        lemma_history_is_the_rows_above(feed, (count - 1) as nat);
        assert(shown == seq![shown[0]] + rest);
        lemma_history_from_the_top(shown[0], rest);
        assert(shown[0] == lines[history_kept(feed) - count]);
        assert(LINE_BREAK@ == seq![0x0du8, 0x0au8]);
    }
}

/// A snapshot is complete and in order: of the main screen it holds every line above it, up to
/// 5000, from the oldest one down, each drawn over all columns of the screen and ended by CR LF
/// unless it continues, and then the switch to the main screen; of the alternate screen it holds
/// the switch to that; then the visible lines and the cursor, the attributes, the input modes and
/// the wrap mode.
pub proof fn law_snapshot_leaves_nothing_out(feed: Seq<TerminalOp>, offset: nat, autowrap: bool)
    ensures
        drawn_bytes(feed, offset, autowrap) == redrawing(
            feed,
            formatted_contents(feed, offset),
            autowrap,
        ),
{
    let lines = history_lines(feed);
    assert(history_kept(feed) == rows_kept(feed));
    lemma_history_is_the_rows_above(feed, history_kept(feed));
    assert(lines.skip(0) == lines);
    assert(ENTER_ALTERNATE@ == seq![
        0x1bu8,
        0x5bu8,
        0x3fu8,
        0x31u8,
        0x30u8,
        0x34u8,
        0x39u8,
        0x68u8,
    ]);
    assert(LEAVE_ALTERNATE@ == seq![
        0x1bu8,
        0x5bu8,
        0x3fu8,
        0x31u8,
        0x30u8,
        0x34u8,
        0x39u8,
        0x6cu8,
    ]);
    assert(WRAP_ON@ == seq![0x1bu8, 0x5bu8, 0x3fu8, 0x37u8, 0x68u8]);
    assert(WRAP_OFF@ == seq![0x1bu8, 0x5bu8, 0x3fu8, 0x37u8, 0x6cu8]);
}

/// Every line above the main screen, up to 5000, is in its snapshot with all of its columns: the
/// lines that are older come before it, and it is followed by CR LF, unless it continues, and by
/// the newer lines.
pub proof fn law_snapshot_holds_every_line_of_history(
    feed: Seq<TerminalOp>,
    autowrap: bool,
    line: nat,
) -> (parts: (Seq<u8>, Seq<u8>))
    requires
        !shows_alternate(feed),
        0 < line <= history_length(feed),
        line <= 5_000,
    ensures
        ({
            let (older, rest) = parts;
            let break_bytes = if row_continues(feed, line, 0) {
                Seq::empty()
            } else {
                seq![0x0du8, 0x0au8]
            };
            let row = match formatted_first_row(feed, line, 0, feed_size(feed).1) {
                Some(bytes) => bytes,
                None => Seq::empty(),
            };
            &&& drawn_bytes(feed, 0, autowrap) == older + row + break_bytes + rest
            &&& rest.take(rows_above(feed, (line - 1) as nat).len() as int) == rows_above(
                feed,
                (line - 1) as nat,
            )
            &&& rest.len() >= rows_above(feed, (line - 1) as nat).len()
        }),
{
    law_snapshot_leaves_nothing_out(feed, 0, autowrap);
    let older = lemma_rows_above_split(feed, rows_kept(feed), line);
    let whole = drawn_bytes(feed, 0, autowrap);
    let above = rows_above(feed, rows_kept(feed));
    let lower = rows_above(feed, line);
    let newer = rows_above(feed, (line - 1) as nat);
    let tail = whole.skip(above.len() as int);
    assert(whole == above + tail);
    let rest = newer + tail;
    assert(rest.take(newer.len() as int) == newer);
    assert(whole == older + (lower + tail));
    (older, rest)
}

proof fn lemma_rows_above_split(feed: Seq<TerminalOp>, count: nat, line: nat) -> (older: Seq<u8>)
    requires
        line <= count,
    ensures
        rows_above(feed, count) == older + rows_above(feed, line),
    decreases count,
{
    if line == count {
        assert(Seq::<u8>::empty() + rows_above(feed, line) == rows_above(feed, line));
        Seq::empty()
    } else {
        let shorter = (count - 1) as nat;
        let between = lemma_rows_above_split(feed, shorter, line);
        let whole = rows_above(feed, count);
        let top = whole.take(whole.len() - rows_above(feed, shorter).len());
        assert(whole == top + rows_above(feed, shorter));
        assert(whole == (top + between) + rows_above(feed, line));
        top + between
    }
}

/// Whether the attributes and the input modes that a snapshot sets, each written to a terminal
/// that has just started, become that terminal's own.
pub open spec fn modes_are_restored(feed: Seq<TerminalOp>) -> bool {
    &&& forall|rows: u16, cols: u16, scrollback: usize|
        rows > 0 && cols > 0 ==> formatted_attributes(
            #[trigger] started_with(rows, cols, scrollback, formatted_attributes(feed)),
        ) == formatted_attributes(feed)
    &&& forall|rows: u16, cols: u16, scrollback: usize|
        rows > 0 && cols > 0 ==> formatted_input_modes(
            #[trigger] started_with(rows, cols, scrollback, formatted_input_modes(feed)),
        ) == formatted_input_modes(feed)
}

/// Whether these bytes, written to a terminal of the same size that has just started, make it show
/// what a terminal with this feed shows.
pub open spec fn redraws(bytes: Seq<u8>, feed: Seq<TerminalOp>) -> bool {
    forall|scrollback: usize|
        shows_same(
            #[trigger] started_with(feed_size(feed).0, feed_size(feed).1, scrollback, bytes),
            feed,
        )
}

/// Whether these bytes, written to a terminal of the same size that has just started and that keeps
/// as many lines, give it the history of a terminal with this feed.
pub open spec fn redraws_history(bytes: Seq<u8>, feed: Seq<TerminalOp>) -> bool {
    forall|scrollback: usize|
        scrollback >= rows_kept(feed) ==> has_history_of(
            #[trigger] started_with(feed_size(feed).0, feed_size(feed).1, scrollback, bytes),
            feed,
        )
}

/// The snapshot of a screen of a terminal with this feed.
pub open spec fn image_of(
    feed: Seq<TerminalOp>,
    offset: nat,
    autowrap: bool,
    pending: Seq<Operation>,
) -> ScreenImage {
    ScreenImage {
        version: VERSION,
        data: decoded_lossily(drawn_bytes(feed, offset, autowrap)),
        cols: feed_size(feed).1,
        rows: feed_size(feed).0,
        pending,
    }
}

/// Reads the lines of history above a screen, at most `SCROLLBACK_LINES` of them, oldest first.
fn read_history(screen: &vt100::Screen, cols: u16) -> (history: Vec<HistoryLine>)
    requires
        cols == feed_size(screen_feed(*screen)).1,
    ensures
        lines_of(history@) == history_lines(screen_feed(*screen)),
        lines_are_text(lines_of(history@)),
{
    let ghost feed = screen_feed(*screen);
    let mut view = copy_screen(screen);
    set_scrollback(&mut view, usize::MAX);
    let total: usize = scrollback(&view);
    let kept: usize = if total < SCROLLBACK_LINES {
        total
    } else {
        SCROLLBACK_LINES
    };
    let mut history: Vec<HistoryLine> = Vec::new();
    let mut offset: usize = kept;
    while offset > 0
        invariant
            offset <= kept,
            kept == history_kept(feed),
            screen_feed(view) == feed,
            cols == feed_size(feed).1,
            lines_of(history@) == history_lines(feed).take(kept - offset),
            lines_are_text(lines_of(history@)),
        decreases offset,
    {
        set_scrollback(&mut view, offset);
        let wrapped = row_wrapped(&view, 0);
        let bytes: Vec<u8> = match first_row_formatted(&view, 0, cols) {
            Some(bytes) => bytes,
            None => Vec::new(),
        };
        let ghost before = history@;
        history.push(HistoryLine { bytes, wrapped });
        proof {
            assert(lines_of(history@) == lines_of(before).push((bytes@, wrapped)));
            assert(history_lines(feed).take(kept - offset + 1) == history_lines(feed).take(
                kept - offset,
            ).push(history_line(feed, cols, offset as nat)));
        }
        offset = offset - 1;
    }
    assert(history_lines(feed).take(kept as int) == history_lines(feed));
    history
}

/// Reads all that a snapshot takes from a screen. The alternate screen has no history.
pub fn read_screen(screen: &vt100::Screen) -> (reading: ScreenReading)
    ensures
        forall|autowrap: bool, pending: Seq<Operation>| #[trigger]
            reading.image(autowrap, pending) == image_of(
                screen_feed(*screen),
                screen_offset(*screen),
                autowrap,
                pending,
            ),
        reading.history@.len() == history_rows(screen_feed(*screen)),
        reading.is_text(),
        reading.alternate == shows_alternate(screen_feed(*screen)),
        modes_are_restored(screen_feed(*screen)),
        screen_offset(*screen) == 0 && is_steady(screen_feed(*screen)) ==> forall|autowrap: bool|
            redraws(#[trigger] drawn_bytes(screen_feed(*screen), 0, autowrap), screen_feed(*screen)),
        screen_offset(*screen) == 0 && is_plain(screen_feed(*screen)) ==> forall|autowrap: bool|
            redraws_history(
                #[trigger] drawn_bytes(screen_feed(*screen), 0, autowrap),
                screen_feed(*screen),
            ),
        forall|autowrap: bool| #[trigger]
            reading.bytes(autowrap) == drawn_bytes(
                screen_feed(*screen),
                screen_offset(*screen),
                autowrap,
            ),
{
    let (rows, cols) = size(screen);
    let alternate = alternate_screen(screen);
    let history: Vec<HistoryLine> = if alternate {
        Vec::new()
    } else {
        read_history(screen, cols)
    };
    assert(!alternate ==> lines_of(history@).len() == history@.len());
    let contents: Vec<u8> = contents_formatted(screen);
    proof {
        let feed = screen_feed(*screen);
        if screen_offset(*screen) == 0 {
            assert forall|autowrap: bool| #[trigger]
                drawn_bytes(feed, 0, autowrap) == redrawing(feed, contents@, autowrap) by {
                law_snapshot_leaves_nothing_out(feed, 0, autowrap);
            }
        }
    }
    ScreenReading {
        rows,
        cols,
        alternate,
        history,
        contents,
        attributes: attributes_formatted(screen),
        input_modes: input_mode_formatted(screen),
    }
}

/// Takes the snapshot of a screen; `pending` is what happened to the screen afterwards.
pub fn build(screen: &vt100::Screen, pending: Vec<PendingOp>, autowrap: bool) -> (snapshot:
    TerminalSnapshot)
    ensures
        snapshot@ == image_of(
            screen_feed(*screen),
            screen_offset(*screen),
            autowrap,
            operations(pending@),
        ),
        encode_utf8(snapshot@.data) == drawn_bytes(
            screen_feed(*screen),
            screen_offset(*screen),
            autowrap,
        ),
        modes_are_restored(screen_feed(*screen)),
        screen_offset(*screen) == 0 && is_steady(screen_feed(*screen)) ==> redraws(
            encode_utf8(snapshot@.data),
            screen_feed(*screen),
        ),
        screen_offset(*screen) == 0 && is_plain(screen_feed(*screen)) ==> redraws_history(
            encode_utf8(snapshot@.data),
            screen_feed(*screen),
        ),
{
    let reading = read_screen(screen);
    compose(&reading, pending, autowrap)
}

/// Takes the snapshot of a screen to which nothing has happened since.
pub fn build_baseline(screen: &vt100::Screen, autowrap: bool) -> (snapshot: TerminalSnapshot)
    ensures
        snapshot@ == image_of(screen_feed(*screen), screen_offset(*screen), autowrap, Seq::empty()),
        encode_utf8(snapshot@.data) == drawn_bytes(
            screen_feed(*screen),
            screen_offset(*screen),
            autowrap,
        ),
        modes_are_restored(screen_feed(*screen)),
        screen_offset(*screen) == 0 && is_steady(screen_feed(*screen)) ==> redraws(
            encode_utf8(snapshot@.data),
            screen_feed(*screen),
        ),
        screen_offset(*screen) == 0 && is_plain(screen_feed(*screen)) ==> redraws_history(
            encode_utf8(snapshot@.data),
            screen_feed(*screen),
        ),
{
    let pending: Vec<PendingOp> = Vec::new();
    assert(operations(pending@) == Seq::<Operation>::empty());
    build(screen, pending, autowrap)
}

/// A snapshot carries the size of the screen, the version 1 and what is pending as it was given.
pub proof fn law_snapshot_carries_size_and_pending(
    feed: Seq<TerminalOp>,
    offset: nat,
    autowrap: bool,
    pending: Seq<Operation>,
)
    ensures
        image_of(feed, offset, autowrap, pending).version == 1,
        (
            image_of(feed, offset, autowrap, pending).rows,
            image_of(feed, offset, autowrap, pending).cols,
        ) == feed_size(feed),
        image_of(feed, offset, autowrap, pending).pending == pending,
        image_of(feed, offset, autowrap, pending).data == decoded_lossily(
            redrawing(feed, formatted_contents(feed, offset), autowrap),
        ),
{
    law_snapshot_leaves_nothing_out(feed, offset, autowrap);
}

} // verus!
