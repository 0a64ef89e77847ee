//! One terminal session: its bounded journal, its screen and the snapshot of the screen.
//!
//! The process and its terminal device belong to the caller, which reports what happens to them
//! and does what a session asks for. The baseline is a snapshot of the screen as it was at some
//! moment; operations since then are kept in order. At every moment the baseline followed by the
//! pending operations is the current screen.

use vstd::prelude::*;
use vstd::utf8::encode_utf8;

use crate::bounds::{
    law_window_keeps_the_newest_chunks, newest_chars, newest_entries, total_bytes, total_chars,
    ChunkWindow, TextWindow,
};
use crate::error::RenderError;
use crate::launch::{check_size, size_error, LaunchFailure};
use crate::marker::{marker_prefix, strip, stripped_through, MarkerStripper};
use crate::modes::{dec_scanned, law_scanning_in_chunks, DecModeTracker};
use crate::protocol::{
    copy_pending, numbered, operations, optional_text, Chunk, CreateOrAttachParams, Event, Notice,
    Operation, PendingOp, ScreenImage, SessionState, SessionStatus, StateImage, TerminalSnapshot,
    PTY_OUTPUT_MAX_CHARS, SCROLLBACK_LINES, SNAPSHOT_PENDING_MAX_CHARS, SNAPSHOT_PENDING_MAX_OPS,
    SNAPSHOT_QUIET_MS,
};
use crate::replay::{
    fed_bytes, joined_feed, law_joining_keeps_the_data, lemma_fed_push, lemma_with_data,
    lemma_with_resize, pending_chars, push_data, replayed_all, with_data,
};
use crate::signal::{self, is_number_of, signal_named, Signal};
use crate::snapshot::{
    compose, drawing, drawn_bytes, history_rows, image_of, law_snapshot_leaves_nothing_out,
    modes_are_restored, read_screen, redraws, redraws_history,
};
use crate::terminal::{
    alternate_screen, begins_wide, feed_size, feed_tallest, feed_widest, formatted_contents, grid_cols, grid_rows,
    grid_size, has_clear_edge, has_history_of, has_room, holds_widest, is_at_rest, is_plain,
    is_steady, is_uncut, is_unbroken,
    is_wide_at, keeps_regions, other_trial, redrawing, screen_feed, screen_offset, shows_alternate, shows_same,
    size, started_with, terminal_feed, trial, Terminal, TerminalOp, SHOW_ALTERNATE, SHOW_MAIN,
};
use crate::text::{
    capped, decimal, is_digit, is_digits, lemma_decimal_has_digits, lemma_decimal_is_injective,
    lemma_encode_concat, trim, trimmed, write_decimal,
};

verus! {

/// Chunks one after another.
pub open spec fn all_text(chunks: Seq<Seq<char>>) -> Seq<char>
    decreases chunks.len(),
{
    if chunks.len() == 0 {
        Seq::empty()
    } else {
        all_text(chunks.drop_last()) + chunks.last()
    }
}

/// What a session shows of its output: everything but the exit marker of its launch, if it has
/// one.
pub open spec fn shown(token: Option<Seq<char>>, raw: Seq<Seq<char>>) -> Seq<char> {
    match token {
        Some(token) if token.len() > 0 => stripped_through(marker_prefix(token), raw).visible,
        _ => all_text(raw),
    }
}

/// What one more chunk adds to what a session shows.
pub open spec fn newly_shown(
    token: Option<Seq<char>>,
    raw: Seq<Seq<char>>,
    chunk: Seq<char>,
) -> Seq<char> {
    match token {
        Some(token) if token.len() > 0 => {
            let before = stripped_through(marker_prefix(token), raw);
            if before.completed {
                chunk
            } else {
                strip(marker_prefix(token), before.pending + chunk).visible
            }
        },
        _ => chunk,
    }
}

/// The numbered chunks that a session keeps for replay, out of all of them.
pub open spec fn replay_window(raw: Seq<Seq<char>>) -> Seq<(u64, Seq<char>)>
    decreases raw.len(),
{
    if raw.len() == 0 {
        Seq::empty()
    } else {
        newest_entries(
            replay_window(raw.drop_last()).push(
                (raw.len() as u64, newest_chars(raw.last(), PTY_OUTPUT_MAX_CHARS as int)),
            ),
            PTY_OUTPUT_MAX_CHARS as int,
        )
    }
}

/// The chunks numbered above `after_seq`.
pub open spec fn newer_than(entries: Seq<(u64, Seq<char>)>, after_seq: u64) -> Seq<
    (u64, Seq<char>),
>
    decreases entries.len(),
{
    if entries.len() == 0 {
        Seq::empty()
    } else {
        let older = newer_than(entries.drop_last(), after_seq);
        if entries.last().0 > after_seq {
            older.push(entries.last())
        } else {
            older
        }
    }
}

/// The wrap mode of a terminal with this feed.
pub open spec fn feed_wraps(feed: Seq<TerminalOp>) -> bool {
    dec_scanned(true, fed_bytes(feed)).0
}

/// Whether pending operations are too many to wait for a quiet moment.
pub open spec fn over_budget(pending: Seq<Operation>) -> bool {
    pending_chars(pending) > SNAPSHOT_PENDING_MAX_CHARS || pending.len() > SNAPSHOT_PENDING_MAX_OPS
}

/// What a session is.
#[verifier::ext_equal]
pub struct SessionModel {
    pub id: Seq<char>,
    pub incarnation: Seq<char>,
    pub pid: u32,
    pub token: Option<Seq<char>>,
    /// The session was forgotten: it records and reports nothing any more.
    pub retired: bool,
    pub status: SessionStatus,
    pub exit_code: Option<i32>,
    pub cols: u16,
    pub rows: u16,
    /// Every chunk of output since the start.
    pub raw: Seq<Seq<char>>,
    /// All that was done to the screen.
    pub feed: Seq<TerminalOp>,
    /// All that had been done to the screen when the baseline was taken.
    pub baseline_feed: Seq<TerminalOp>,
    /// What was done since, as handed out to clients.
    pub pending: Seq<Operation>,
    /// When output was last shown, in milliseconds.
    pub last_write: Option<u64>,
    /// The end of the process has been reported; nothing more will be.
    pub finished: bool,
    /// The screen was drawn anew: in place of the output until then it was given a drawing.
    pub redrawn: bool,
}

/// A feed that draws a screen anew at another size, as it is when cut to that size: the screen that
/// is shown, and before it the main screen where that is another one. A drawing leaves out the
/// scroll region, the saved cursor and what was begun of a control sequence.
pub open spec fn drawn_anew(feed: Seq<TerminalOp>, rows: u16, cols: u16) -> Seq<TerminalOp> {
    let cut = trial(feed, rows, cols);
    let below = other_trial(feed, rows, cols);
    let blank = seq![TerminalOp::Start { rows, cols, scrollback: SCROLLBACK_LINES }];
    let top = TerminalOp::Data { bytes: drawn_bytes(cut, 0, feed_wraps(feed)) };
    if shows_alternate(cut) {
        blank.push(TerminalOp::Data { bytes: drawn_bytes(below, 0, feed_wraps(feed)) }).push(top)
    } else {
        blank.push(top)
    }
}

impl SessionModel {
    /// The model with the baseline taken anew.
    pub open spec fn checkpointed(self) -> SessionModel {
        SessionModel { baseline_feed: self.feed, pending: Seq::empty(), ..self }
    }

    /// The model after a moment that may be quiet: then the baseline is taken anew.
    pub open spec fn refreshed(self, now_ms: u64) -> SessionModel {
        if self.pending.len() > 0 && is_quiet(self.last_write, now_ms) {
            self.checkpointed()
        } else {
            self
        }
    }

    /// The model of a process that has ended.
    pub open spec fn exited(self, exit: ChildExit) -> SessionModel {
        SessionModel { status: SessionStatus::Exited, exit_code: exit.exit_code, ..self }
    }

    /// What clients are told of one more chunk of output.
    pub open spec fn output_notice(self, data: Seq<char>) -> Notice {
        Notice::Data {
            session_id: self.id,
            incarnation_id: self.incarnation,
            data,
            seq: (self.raw.len() + 1) as u64,
        }
    }

    /// What clients are told of the end of the process.
    pub open spec fn exit_notice(self, exit: ChildExit) -> Notice {
        Notice::Exit {
            session_id: self.id,
            incarnation_id: self.incarnation,
            exit_code: exit.exit_code,
            signal: exit.signal,
        }
    }

    /// The model with one more chunk of output.
    pub open spec fn appended(self, data: Seq<char>, now_ms: u64) -> SessionModel {
        let visible = newly_shown(self.token, self.raw, data);
        let recorded = SessionModel { raw: self.raw.push(data), ..self };
        if self.retired {
            self
        } else if visible.len() == 0 {
            recorded
        } else {
            let written = SessionModel {
                feed: self.feed.push(TerminalOp::Data { bytes: encode_utf8(visible) }),
                pending: with_data(self.pending, visible),
                last_write: Some(now_ms),
                ..recorded
            };
            if over_budget(written.pending) {
                written.checkpointed()
            } else {
                written
            }
        }
    }

    /// The model once the end of the process has been reported.
    pub open spec fn settled(self) -> SessionModel {
        SessionModel {
            finished: true,
            ..if self.pending.len() > 0 {
                self.checkpointed()
            } else {
                self
            }
        }
    }

    /// The model with another size. Where fewer columns cut a character in two, the screen is drawn
    /// anew.
    pub open spec fn resized(self, cols: u16, rows: u16) -> SessionModel {
        let (grid_rows, grid_cols) = (grid_rows(rows), grid_cols(cols));
        if grid_cols < feed_size(self.feed).1 && !is_uncut(self.feed, grid_rows, grid_cols) {
            let feed = drawn_anew(self.feed, grid_rows, grid_cols);
            SessionModel {
                cols,
                rows,
                feed,
                baseline_feed: feed,
                pending: Seq::empty(),
                redrawn: true,
                ..self
            }
        } else {
            SessionModel {
                cols,
                rows,
                feed: self.feed.push(TerminalOp::Resize { rows: grid_rows, cols: grid_cols }),
                pending: self.pending.push(Operation::Resize { cols, rows }),
                ..self
            }
        }
    }

    /// The snapshot that clients get: the baseline and what was done since.
    pub open spec fn snapshot(self) -> ScreenImage {
        image_of(self.baseline_feed, 0, feed_wraps(self.baseline_feed), self.pending)
    }

    /// The state that clients get, with the chunks numbered above `after_seq`.
    pub open spec fn state(self, after_seq: u64) -> StateImage {
        StateImage {
            session_id: self.id,
            incarnation_id: self.incarnation,
            pid: self.pid,
            status: self.status,
            exit_code: self.exit_code,
            cols: self.cols,
            rows: self.rows,
            seq: self.raw.len() as u64,
            output: newest_chars(shown(self.token, self.raw), PTY_OUTPUT_MAX_CHARS as int),
            chunks: newer_than(replay_window(self.raw), after_seq),
            terminal_snapshot: Some(self.snapshot()),
            launch_marker_token: self.token,
        }
    }

    /// The screen has the size of the session, or the nearest one that there is room in; it always
    /// had room, and no character on it was cut in two; and unless it was drawn anew, it was given
    /// what the journal was given.
    pub open spec fn screen_valid(self) -> bool {
        &&& self.raw.len() <= u64::MAX
        &&& self.cols > 0 && self.rows > 0
        &&& feed_size(self.feed) == (grid_rows(self.rows), grid_cols(self.cols))
        &&& is_unbroken(self.feed)
        &&& !self.redrawn ==> fed_bytes(self.feed) == encode_utf8(shown(self.token, self.raw))
    }

    /// What holds of every session. In particular the baseline followed by the pending operations
    /// is all that was done to the screen.
    pub open spec fn valid(self) -> bool {
        &&& self.screen_valid()
        &&& is_unbroken(self.baseline_feed)
        &&& self.baseline_feed.len() <= self.feed.len()
        &&& self.feed.take(self.baseline_feed.len() as int) == self.baseline_feed
        &&& joined_feed(self.feed.skip(self.baseline_feed.len() as int)) == replayed_all(
            self.pending,
        )
        &&& pending_chars(self.pending) <= SNAPSHOT_PENDING_MAX_CHARS
    }
}

/// Whether no cell of the last column of a screen begins a character of two columns.
fn edge_is_clear(screen: &vt100::Screen, rows: u16, cols: u16) -> (clear: bool)
    requires
        cols > 0,
        screen_offset(*screen) == 0,
    ensures
        clear == has_clear_edge(screen_feed(*screen), rows, cols),
{
    let mut row: u16 = 0;
    while row < rows
        invariant
            row <= rows,
            cols > 0,
            screen_offset(*screen) == 0,
            forall|above: u16|
                above < row ==> !#[trigger] begins_wide(
                    screen_feed(*screen),
                    0,
                    above,
                    (cols - 1) as u16,
                ),
        decreases rows - row,
    {
        if is_wide_at(screen, row, cols - 1) {
            return false;
        }
        row = row + 1;
    }
    true
}

/// Whether a terminal can be given this size without cutting a character in two. This is tried on
/// a copy.
fn stays_whole(terminal: &Terminal, rows: u16, cols: u16) -> (whole: bool)
    requires
        rows > 0,
        cols > 0,
    ensures
        whole == is_uncut(terminal_feed(*terminal), rows, cols),
{
    let ghost feed = terminal_feed(*terminal);
    let mut cut = terminal.copy();
    cut.set_size(rows, cols);
    proof {
        lemma_trial_is_at_rest(feed, rows, cols);
    }
    if !edge_is_clear(cut.screen(), rows, cols) {
        return false;
    }
    if alternate_screen(cut.screen()) {
        cut.process(&SHOW_MAIN);
    } else {
        cut.process(&SHOW_ALTERNATE);
    }
    assert(terminal_feed(cut) == other_trial(feed, rows, cols));
    edge_is_clear(cut.screen(), rows, cols)
}

proof fn lemma_trial_is_at_rest(feed: Seq<TerminalOp>, rows: u16, cols: u16)
    ensures
        is_at_rest(trial(feed, rows, cols)),
{
    assert(trial(feed, rows, cols).drop_last() == feed.push(TerminalOp::Rest));
    assert(is_at_rest(feed.push(TerminalOp::Rest)));
}

/// Whether no character on a terminal was cut in two, and its wrap mode is known.
spec fn is_tracked(terminal: Terminal, modes: DecModeTracker) -> bool {
    let feed = terminal_feed(terminal);
    &&& is_unbroken(feed)
    &&& (modes.wraps(), modes.tail()) == dec_scanned(true, fed_bytes(feed))
}

/// Draws on a terminal, and keeps track of the wrap mode.
fn draw(terminal: &mut Terminal, modes: &mut DecModeTracker, bytes: &[u8])
    requires
        is_tracked(*old(terminal), *old(modes)),
    ensures
        terminal_feed(*final(terminal)) == terminal_feed(*old(terminal)).push(
            TerminalOp::Data { bytes: bytes@ },
        ),
        is_tracked(*final(terminal), *final(modes)),
        feed_size(terminal_feed(*final(terminal))) == feed_size(terminal_feed(*old(terminal))),
        feed_widest(terminal_feed(*final(terminal))) == feed_widest(terminal_feed(*old(terminal))),
        feed_tallest(terminal_feed(*final(terminal))) == feed_tallest(
            terminal_feed(*old(terminal)),
        ),
        fed_bytes(terminal_feed(*final(terminal))) == fed_bytes(terminal_feed(*old(terminal)))
            + bytes@,
{
    let ghost before = terminal_feed(*terminal);
    modes.scan(bytes);
    terminal.process(bytes);
    proof {
        let after = terminal_feed(*terminal);
        assert(after.drop_last() == before);
        lemma_fed_push(before, TerminalOp::Data { bytes: bytes@ });
        law_scanning_in_chunks(true, fed_bytes(before), bytes@);
    }
}

/// A terminal to which nothing was done has its size, and was given nothing.
proof fn lemma_blank(rows: u16, cols: u16)
    requires
        has_room(rows, cols),
    ensures
        ({
            let feed = seq![TerminalOp::Start { rows, cols, scrollback: SCROLLBACK_LINES }];
            &&& feed_size(feed) == (rows, cols)
            &&& is_unbroken(feed)
            &&& feed_widest(feed) == cols
            &&& feed_tallest(feed) == rows
            &&& fed_bytes(feed) == Seq::<u8>::empty()
        }),
{
    let feed = seq![TerminalOp::Start { rows, cols, scrollback: SCROLLBACK_LINES }];
    assert(feed.drop_last() == Seq::<TerminalOp>::empty());
    assert(fed_bytes(feed.drop_last()) == Seq::<u8>::empty());
    assert(feed_widest(feed.drop_last()) == 0);
    assert(feed_tallest(feed.drop_last()) == 0);
}

/// A terminal session.
pub struct Session {
    session_id: String,
    incarnation_id: String,
    pid: u32,
    launch_marker_token: Option<String>,
    retired: bool,
    status: SessionStatus,
    exit_code: Option<i32>,
    cols: u16,
    rows: u16,
    seq: u64,
    output: TextWindow,
    chunks: ChunkWindow,
    terminal: Terminal,
    baseline: TerminalSnapshot,
    pending: Vec<PendingOp>,
    pending_chars: usize,
    snapshot_dirty: bool,
    last_write_at: Option<u64>,
    finished: bool,
    marker: Option<MarkerStripper>,
    modes: DecModeTracker,
    widest: u16,
    tallest: u16,
    baseline_history: usize,
    redrawn: bool,
    raw: Ghost<Seq<Seq<char>>>,
    baseline_feed: Ghost<Seq<TerminalOp>>,
}

impl View for Session {
    type V = SessionModel;

    closed spec fn view(&self) -> SessionModel {
        SessionModel {
            id: self.session_id@,
            incarnation: self.incarnation_id@,
            pid: self.pid,
            token: optional_text(self.launch_marker_token),
            retired: self.retired,
            status: self.status,
            exit_code: self.exit_code,
            cols: self.cols,
            rows: self.rows,
            raw: self.raw@,
            feed: terminal_feed(self.terminal),
            baseline_feed: self.baseline_feed@,
            pending: operations(self.pending@),
            last_write: self.last_write_at,
            finished: self.finished,
            redrawn: self.redrawn,
        }
    }
}

impl Session {
    /// Whether the session is in order: it is a valid model, and what it keeps is what the model
    /// says.
    pub closed spec fn well_formed(&self) -> bool {
        &&& self@.valid()
        &&& self.journal_in_order()
        &&& self.screen_in_order()
        &&& self.baseline@ == image_of(
            self.baseline_feed@,
            0,
            feed_wraps(self.baseline_feed@),
            Seq::empty(),
        )
        &&& encode_utf8(self.baseline@.data) == drawn_bytes(
            self.baseline_feed@,
            0,
            feed_wraps(self.baseline_feed@),
        )
        &&& modes_are_restored(self.baseline_feed@)
        &&& is_steady(self.baseline_feed@) ==> redraws(
            encode_utf8(self.baseline@.data),
            self.baseline_feed@,
        )
        &&& is_plain(self.baseline_feed@) ==> redraws_history(
            encode_utf8(self.baseline@.data),
            self.baseline_feed@,
        )
        &&& self.pending_chars == pending_chars(self@.pending)
        &&& self.snapshot_dirty == (self@.pending.len() > 0)
        &&& self.baseline_history == history_rows(self.baseline_feed@)
    }

    /// Whether the wrap mode and the largest size of the screen are what the model says.
    spec fn screen_in_order(&self) -> bool {
        &&& (self.modes.wraps(), self.modes.tail()) == dec_scanned(true, fed_bytes(self@.feed))
        &&& self.widest == feed_widest(self@.feed)
        &&& self.tallest == feed_tallest(self@.feed)
    }

    /// Whether the journal and the marker are what the model says.
    spec fn journal_in_order(&self) -> bool {
        &&& self.seq == self.raw@.len()
        &&& self.output.well_formed()
        &&& self.output.limit() == PTY_OUTPUT_MAX_CHARS
        &&& self.output.text() == newest_chars(
            shown(self@.token, self.raw@),
            PTY_OUTPUT_MAX_CHARS as int,
        )
        &&& self.chunks.well_formed()
        &&& self.chunks.limit() == PTY_OUTPUT_MAX_CHARS
        &&& self.chunks.entries() == replay_window(self.raw@)
        &&& match (self.marker, self@.token) {
            (Some(marker), Some(token)) => {
                let state = stripped_through(marker_prefix(token), self.raw@);
                &&& token.len() > 0
                &&& marker.well_formed()
                &&& marker.prefix() == marker_prefix(token)
                &&& marker.pending() == state.pending
                &&& marker.completed() == state.completed
            },
            (None, Some(token)) => token.len() == 0,
            (None, None) => true,
            (Some(_), None) => false,
        }
    }

    /// Every session in order has a valid model.
    pub proof fn law_session_is_valid(&self)
        requires
            self.well_formed(),
        ensures
            self@.valid(),
    {
    }

    /// In a session in order nothing was replaced in decoding the snapshot, and the attributes and
    /// the input modes that it sets are those of the screen.
    pub proof fn law_snapshot_is_exact(&self)
        requires
            self.well_formed(),
        ensures
            encode_utf8(self@.snapshot().data) == drawn_bytes(
                self@.baseline_feed,
                0,
                feed_wraps(self@.baseline_feed),
            ),
            modes_are_restored(self@.baseline_feed),
    {
    }

    /// The snapshot that a session hands out shows its baseline again: a client that writes the
    /// data to a terminal of that size that has just started sees the visible lines, the cursor,
    /// the attributes, the input modes and the main or the alternate screen as they were. This
    /// holds unless the screen lost rows while it may have had a scroll region, or was given the
    /// one character that asks for three columns.
    pub proof fn law_snapshot_shows_the_screen_again(&self, scrollback: usize)
        requires
            self.well_formed(),
            keeps_regions(self@.baseline_feed),
            !holds_widest(fed_bytes(self@.baseline_feed)),
        ensures
            shows_same(
                started_with(
                    self@.snapshot().rows,
                    self@.snapshot().cols,
                    scrollback,
                    encode_utf8(self@.snapshot().data),
                ),
                self@.baseline_feed,
            ),
    {
    }

    /// The snapshot that a session hands out brings the history of its baseline back: a client that
    /// writes the data to a terminal of that size that has just started, and that keeps as many
    /// lines, has the same lines above its screen, from the oldest one on, each with all of its
    /// columns; no more of the newest ones are missing than the screen has rows. This is stated of
    /// plain text on a screen that kept its size.
    pub proof fn law_snapshot_brings_the_history_back(&self, scrollback: usize)
        requires
            self.well_formed(),
            is_plain(self@.baseline_feed),
            scrollback >= 5_000,
        ensures
            ({
                let snapshot = self@.snapshot();
                has_history_of(
                    started_with(
                        snapshot.rows,
                        snapshot.cols,
                        scrollback,
                        encode_utf8(snapshot.data),
                    ),
                    self@.baseline_feed,
                )
            }),
    {
    }

    /// The snapshot that a session hands out is all of its baseline: the bytes of its data are those
    /// that draw the baseline again, with the wrap mode that the baseline was left in, at the size
    /// of the baseline; and what was done since is pending.
    pub proof fn law_snapshot_is_the_whole_baseline(&self)
        requires
            self.well_formed(),
        ensures
            ({
                let snapshot = self@.snapshot();
                let feed = self@.baseline_feed;
                &&& snapshot.version == 1
                &&& encode_utf8(snapshot.data) == redrawing(
                    feed,
                    formatted_contents(feed, 0),
                    dec_scanned(true, fed_bytes(feed)).0,
                )
                &&& (snapshot.rows, snapshot.cols) == feed_size(feed)
                &&& snapshot.pending == self@.pending
            }),
    {
        law_snapshot_leaves_nothing_out(self@.baseline_feed, 0, feed_wraps(self@.baseline_feed));
    }

    /// Takes the baseline anew: the screen as it is now, with nothing pending.
    fn checkpoint(&mut self)
        requires
            old(self).journal_in_order(),
            old(self).screen_in_order(),
            old(self)@.screen_valid(),
        ensures
            final(self).well_formed(),
            final(self)@ == old(self)@.checkpointed(),
    {
        let reading = read_screen(self.terminal.screen());
        let none: Vec<PendingOp> = Vec::new();
        assert(operations(none@) == Seq::<Operation>::empty());
        let ghost feed = terminal_feed(self.terminal);
        self.baseline_history = reading.history.len();
        self.baseline = compose(&reading, none, self.modes.autowrap());
        self.pending = Vec::new();
        self.pending_chars = 0;
        self.snapshot_dirty = false;
        self.baseline_feed = Ghost(feed);
        proof {
            assert(operations(self.pending@) == Seq::<Operation>::empty());
            assert(feed.take(feed.len() as int) == feed);
            assert(feed.skip(feed.len() as int) == Seq::<TerminalOp>::empty());
            assert(replayed_all(Seq::<Operation>::empty()) == Seq::<TerminalOp>::empty());
            assert(self@ == old(self)@.checkpointed());
        }
    }

    /// Draws the screen anew at another size, and takes that as the baseline.
    #[verifier::rlimit(30)]
    fn draw_anew(&mut self, cols: u16, rows: u16)
        requires
            old(self).well_formed(),
            cols > 0,
            rows > 0,
        ensures
            final(self).well_formed(),
            ({
                let feed = drawn_anew(old(self)@.feed, grid_rows(rows), grid_cols(cols));
                final(self)@ == (SessionModel {
                    cols,
                    rows,
                    feed,
                    baseline_feed: feed,
                    pending: Seq::empty(),
                    redrawn: true,
                    ..old(self)@
                })
            }),
    {
        let ghost feed = terminal_feed(self.terminal);
        let autowrap = self.modes.autowrap();
        let (grid_rows, grid_cols) = grid_size(rows, cols);
        let mut cut = self.terminal.copy();
        cut.set_size(grid_rows, grid_cols);
        let mut fresh = Terminal::new(grid_rows, grid_cols, SCROLLBACK_LINES);
        let mut modes = DecModeTracker::new();
        proof {
            lemma_blank(grid_rows, grid_cols);
            lemma_trial_is_at_rest(feed, grid_rows, grid_cols);
        }
        let shown = read_screen(cut.screen());
        if shown.alternate {
            cut.process(&SHOW_MAIN);
            let below = read_screen(cut.screen());
            let bytes: Vec<u8> = drawing(&below, autowrap);
            draw(&mut fresh, &mut modes, bytes.as_slice());
        }
        let bytes: Vec<u8> = drawing(&shown, autowrap);
        draw(&mut fresh, &mut modes, bytes.as_slice());
        assert(terminal_feed(fresh) == drawn_anew(feed, grid_rows, grid_cols));
        self.terminal = fresh;
        self.modes = modes;
        self.cols = cols;
        self.rows = rows;
        self.widest = grid_cols;
        self.tallest = grid_rows;
        self.redrawn = true;
        self.checkpoint();
    }

    /// Whether the process still runs.
    pub fn is_running(&self) -> (running: bool)
        ensures
            running == (self@.status == SessionStatus::Running),
    {
        self.status == SessionStatus::Running
    }

    /// A session for a process that was just launched, with the baseline of its empty screen.
    pub(crate) fn start(params: &CreateOrAttachParams, pid: u32, incarnation_id: String) -> (session:
        Self)
        requires
            params.cols > 0,
            params.rows > 0,
        ensures
            session.well_formed(),
            session@ == started(*params, pid, incarnation_id@),
    {
        let (grid_rows, grid_cols) = grid_size(params.rows, params.cols);
        let terminal = Terminal::new(grid_rows, grid_cols, SCROLLBACK_LINES);
        let modes = DecModeTracker::new();
        let token: Option<String> = match &params.launch_marker_token {
            Some(token) => Some(token.clone()),
            None => None,
        };
        let marker: Option<MarkerStripper> = match &params.launch_marker_token {
            Some(token) => if token.as_str().is_empty() {
                None
            } else {
                Some(MarkerStripper::new(token.as_str()))
            },
            None => None,
        };
        let ghost feed = terminal_feed(terminal);
        let ghost raw = Seq::<Seq<char>>::empty();
        proof {
            lemma_blank(grid_rows, grid_cols);
            assert(encode_utf8(Seq::<char>::empty()) == Seq::<u8>::empty());
            assert(shown(optional_text(params.launch_marker_token), raw) == Seq::<char>::empty());
            assert(feed.take(feed.len() as int) == feed);
            assert(feed.skip(feed.len() as int) == Seq::<TerminalOp>::empty());
            assert(replayed_all(Seq::<Operation>::empty()) == Seq::<TerminalOp>::empty());
        }
        let reading = read_screen(terminal.screen());
        let none: Vec<PendingOp> = Vec::new();
        assert(operations(none@) == Seq::<Operation>::empty());
        let baseline = compose(&reading, none, modes.autowrap());
        let session = Session {
            session_id: params.session_id.clone(),
            incarnation_id,
            pid,
            launch_marker_token: token,
            retired: false,
            status: SessionStatus::Running,
            exit_code: None,
            cols: params.cols,
            rows: params.rows,
            seq: 0,
            output: TextWindow::new(PTY_OUTPUT_MAX_CHARS),
            chunks: ChunkWindow::new(PTY_OUTPUT_MAX_CHARS),
            terminal,
            baseline,
            pending: Vec::new(),
            pending_chars: 0,
            snapshot_dirty: false,
            last_write_at: None,
            finished: false,
            marker,
            modes,
            widest: grid_cols,
            tallest: grid_rows,
            redrawn: false,
            baseline_history: reading.history.len(),
            raw: Ghost(raw),
            baseline_feed: Ghost(feed),
        };
        assert(operations(session.pending@) == Seq::<Operation>::empty());
        session
    }

    /// Numbers a chunk of output, keeps it for replay as it is, and without the exit marker puts it
    /// into the journal. Returns what the journal got.
    fn record(&mut self, data: &str) -> (visible: String)
        requires
            old(self).journal_in_order(),
            old(self)@.raw.len() < u64::MAX,
        ensures
            final(self).journal_in_order(),
            final(self)@ == (SessionModel { raw: old(self)@.raw.push(data@), ..old(self)@ }),
            visible@ == newly_shown(old(self)@.token, old(self)@.raw, data@),
            shown(old(self)@.token, final(self)@.raw) == shown(old(self)@.token, old(self)@.raw)
                + visible@,
            final(self).seq == old(self).seq + 1,
            final(self).baseline == old(self).baseline,
            final(self).pending == old(self).pending,
            final(self).pending_chars == old(self).pending_chars,
            final(self).snapshot_dirty == old(self).snapshot_dirty,
            final(self).baseline_history == old(self).baseline_history,
            final(self).modes == old(self).modes,
            final(self).widest == old(self).widest,
            final(self).tallest == old(self).tallest,
    {
        let ghost before = self@;
        let ghost raw = self.raw@.push(data@);
        proof {
            assert(raw.drop_last() =~= before.raw);
        }
        self.seq = self.seq + 1;
        self.chunks.push(self.seq, data);
        self.raw = Ghost(raw);
        let visible: String = match self.marker.take() {
            Some(stripper) => {
                let mut stripper = stripper;
                let visible = stripper.consume(data);
                self.marker = Some(stripper);
                visible
            },
            None => data.to_owned(),
        };
        assert(visible@ == newly_shown(before.token, before.raw, data@));
        assert(shown(before.token, raw) == shown(before.token, before.raw) + visible@);
        proof {
            crate::bounds::law_window_keeps_the_newest_of_everything(
                shown(before.token, before.raw),
                visible@,
                PTY_OUTPUT_MAX_CHARS as int,
            );
        }
        self.output.push(visible.as_str());
        visible
    }

    /// Takes in a chunk of output: it is numbered and kept for replay as it is, and without the
    /// exit marker it goes to the journal and the screen. Returns the event to publish.
    #[verifier::rlimit(30)]
    pub fn append(&mut self, data: &str, now_ms: u64) -> (event: Option<Event>)
        requires
            old(self).well_formed(),
            old(self)@.raw.len() < u64::MAX,
        ensures
            final(self).well_formed(),
            final(self)@ == old(self)@.appended(data@, now_ms),
            event is None <==> old(self)@.retired,
            event matches Some(event) ==> event@ == old(self)@.output_notice(data@),
    {
        if self.retired {
            return None;
        }
        let ghost before = self@;
        let visible: String = self.record(data);
        proof {
            lemma_encode_concat(shown(before.token, before.raw), visible@);
        }
        if visible.as_str().is_empty() {
            proof {
                assert(shown(before.token, before.raw) + visible@ == shown(before.token, before.raw));
                assert(self@ == before.appended(data@, now_ms));
            }
        } else {
            let bytes = visible.as_str().as_bytes();
            draw(&mut self.terminal, &mut self.modes, bytes);
            push_data(&mut self.pending, visible.as_str());
            let added: usize = visible.as_str().unicode_len();
            self.last_write_at = Some(now_ms);
            self.snapshot_dirty = true;
            proof {
                let op = TerminalOp::Data { bytes: encode_utf8(visible@) };
                let old_since = before.feed.skip(before.baseline_feed.len() as int);
                let since = self@.feed.skip(before.baseline_feed.len() as int);
                lemma_with_data(before.pending, visible@);
                assert(since == old_since.push(op));
                assert(since.drop_last() == old_since);
                assert(self@.feed.take(before.baseline_feed.len() as int) == before.baseline_feed);
            }
            if self.pending_chars > SNAPSHOT_PENDING_MAX_CHARS || added > SNAPSHOT_PENDING_MAX_CHARS
                - self.pending_chars || self.pending.len() > SNAPSHOT_PENDING_MAX_OPS {
                self.checkpoint();
            } else {
                self.pending_chars = self.pending_chars + added;
            }
            assert(self@ == before.appended(data@, now_ms));
        }
        Some(
            Event::Data {
                session_id: self.session_id.clone(),
                incarnation_id: self.incarnation_id.clone(),
                data: data.to_owned(),
                seq: self.seq,
            },
        )
    }
}

impl Session {
    /// A session for a request whose launch was tried: with the process that came of it, or the
    /// failure.
    pub fn spawn(
        params: &CreateOrAttachParams,
        launched: Result<u32, LaunchFailure>,
        incarnation_id: String,
    ) -> (result: Result<Self, RenderError>)
        requires
            params.cols > 0,
            params.rows > 0,
        ensures
            match launched {
                Ok(pid) => result matches Ok(session) && session.well_formed() && session@
                    == started(*params, pid, incarnation_id@),
                Err(failure) => result matches Err(RenderError::Spawn(text)) && text@
                    == failure.text(params.file@),
            },
    {
        match launched {
            Ok(pid) => Ok(Session::start(params, pid, incarnation_id)),
            Err(failure) => Err(failure.into_error(params.file.as_str())),
        }
    }

    /// The identifier of the session.
    pub fn id(&self) -> (id: &String)
        ensures
            id@ == self@.id,
    {
        &self.session_id
    }

    /// The process of the session, 0 where it is not known.
    pub fn process_id(&self) -> (pid: u32)
        ensures
            pid == self@.pid,
    {
        self.pid
    }

    /// Whether the end of the process has been reported.
    pub fn is_finished(&self) -> (finished: bool)
        ensures
            finished == self@.finished,
    {
        self.finished
    }

    /// The identifier of the launch.
    pub fn incarnation(&self) -> (incarnation: &String)
        ensures
            incarnation@ == self@.incarnation,
    {
        &self.incarnation_id
    }

    /// Whether another chunk can still be numbered.
    pub fn can_append(&self) -> (can: bool)
        requires
            self.well_formed(),
        ensures
            can == (self@.raw.len() < u64::MAX),
    {
        self.seq < u64::MAX
    }

    /// All that a client needs to rebuild the session: the journal, the chunks numbered above
    /// `after_seq`, and the snapshot with what was done since.
    pub fn state(&self, after_seq: u64) -> (state: SessionState)
        requires
            self.well_formed(),
        ensures
            state@ == self@.state(after_seq),
    {
        let entries = self.chunks.iter();
        let ghost all = self.chunks.entries();
        let mut chunks: Vec<Chunk> = Vec::new();
        let mut index: usize = 0;
        assert(all.take(0) == Seq::<(u64, Seq<char>)>::empty());
        assert(numbered(chunks@) == Seq::<(u64, Seq<char>)>::empty());
        while index < entries.len()
            invariant
                index <= entries@.len(),
                entries@.len() == all.len(),
                forall|i: int|
                    0 <= i < all.len() ==> (#[trigger] entries@[i]).0 == all[i].0 && entries@[i].1@
                        == all[i].1,
                numbered(chunks@) == newer_than(all.take(index as int), after_seq),
            decreases entries@.len() - index,
        {
            let ghost before = chunks@;
            let (seq, data) = entries[index];
            proof {
                assert(all.take(index + 1).drop_last() == all.take(index as int));
                assert(all.take(index + 1).last() == all[index as int]);
            }
            if seq > after_seq {
                chunks.push(Chunk { data: data.to_owned(), seq });
                assert(numbered(chunks@) == numbered(before).push((seq, data@)));
            }
            index = index + 1;
        }
        assert(all.take(index as int) == all);
        let snapshot = TerminalSnapshot {
            version: self.baseline.version,
            data: self.baseline.data.clone(),
            cols: self.baseline.cols,
            rows: self.baseline.rows,
            pending: copy_pending(&self.pending),
        };
        let token: Option<String> = match &self.launch_marker_token {
            Some(token) => Some(token.clone()),
            None => None,
        };
        let state = SessionState {
            session_id: self.session_id.clone(),
            incarnation_id: self.incarnation_id.clone(),
            pid: self.pid,
            status: self.status,
            exit_code: self.exit_code,
            cols: self.cols,
            rows: self.rows,
            seq: self.seq,
            output: self.output.to_string_value(),
            chunks,
            terminal_snapshot: Some(snapshot),
            launch_marker_token: token,
        };
        assert(snapshot@ == self@.snapshot());
        assert(state@ == self@.state(after_seq));
        state
    }

    /// The bytes to write to the terminal device for this input.
    pub fn write<'a>(&self, data: &'a str) -> (result: Result<&'a [u8], RenderError>)
        ensures
            if self@.status != SessionStatus::Running {
                result matches Err(RenderError::Conflict(text)) && text@ == "session "@ + self@.id
                    + " is not running"@
            } else if self@.retired {
                result matches Err(RenderError::Conflict(text)) && text@ == "session "@ + self@.id
                    + " has no pty writer"@
            } else {
                result matches Ok(bytes) && bytes@ == encode_utf8(data@)
            },
    {
        if !self.is_running() {
            return Err(RenderError::Conflict(self.described(" is not running")));
        }
        if self.retired {
            return Err(RenderError::Conflict(self.described(" has no pty writer")));
        }
        Ok(data.as_bytes())
    }

    /// The session with something said of it.
    fn described(&self, predicate: &str) -> (text: String)
        ensures
            text@ == "session "@ + self@.id + predicate@,
    {
        let mut text = "session ".to_owned();
        text.append(self.session_id.as_str());
        text.append(predicate);
        text
    }

    /// Gives the screen another size. Returns whether the terminal device must follow.
    #[verifier::rlimit(30)]
    pub fn resize(&mut self, cols: u16, rows: u16) -> (result: Result<bool, RenderError>)
        requires
            old(self).well_formed(),
        ensures
            final(self).well_formed(),
            match size_error(cols, rows) {
                Some(reason) => *final(self) == *old(self) && (result matches Err(
                    RenderError::BadRequest(text),
                ) && text@ == reason),
                None => if old(self)@.status != SessionStatus::Running {
                    *final(self) == *old(self) && (result matches Err(RenderError::Conflict(text))
                        && text@ == "session "@ + old(self)@.id + " is not running"@)
                } else {
                    final(self)@ == old(self)@.resized(cols, rows) && (result matches Ok(device)
                        && device == !old(self)@.retired)
                },
            },
    {
        match check_size(cols, rows) {
            Ok(()) => {},
            Err(error) => return Err(error),
        }
        if !self.is_running() {
            return Err(RenderError::Conflict(self.described(" is not running")));
        }
        let (grid_rows, grid_cols) = grid_size(rows, cols);
        if grid_cols < size(self.terminal.screen()).1 && !stays_whole(
            &self.terminal,
            grid_rows,
            grid_cols,
        ) {
            self.draw_anew(cols, rows);
            return Ok(!self.retired);
        }
        let ghost before = self@;
        self.cols = cols;
        self.rows = rows;
        self.terminal.set_size(grid_rows, grid_cols);
        if grid_cols > self.widest {
            self.widest = grid_cols;
        }
        if grid_rows > self.tallest {
            self.tallest = grid_rows;
        }
        self.pending.push(PendingOp::Resize { cols, rows });
        self.snapshot_dirty = true;
        proof {
            let op = TerminalOp::Resize { rows: grid_rows, cols: grid_cols };
            let old_since = before.feed.skip(before.baseline_feed.len() as int);
            let since = self@.feed.skip(before.baseline_feed.len() as int);
            assert(self@.pending == before.pending.push(Operation::Resize { cols, rows }));
            lemma_with_resize(before.pending, cols, rows);
            lemma_fed_push(before.feed, op);
            assert(fed_bytes(before.feed) + Seq::<u8>::empty() == fed_bytes(before.feed));
            assert(self@.feed.drop_last() == before.feed);
            assert(since == old_since.push(op));
            assert(since.drop_last() == old_since);
            assert(self@.feed.take(before.baseline_feed.len() as int) == before.baseline_feed);
            assert(self@ == before.resized(cols, rows));
        }
        Ok(!self.retired)
    }

    /// The number of the signal that a request asks for: the one it names, else the one that
    /// closes a terminal.
    pub fn kill(&self, signal_name: Option<&str>) -> (result: Result<i32, RenderError>)
        ensures
            match requested_signal(signal_name) {
                Requested::Default => result matches Ok(signo) && signo == signal::DEFAULT,
                Requested::Unknown(name) => result matches Err(RenderError::BadRequest(text)) && text@
                    == "unsupported signal "@ + name,
                Requested::Known(signal) => result matches Ok(signo) && is_number_of(signal, signo),
            },
    {
        match signal_name {
            Some(name) => {
                if trim(name).len() == 0 {
                    return Ok(signal::DEFAULT);
                }
                match signal::number(name) {
                    Some(signo) => Ok(signo),
                    None => {
                        let mut text = "unsupported signal ".to_owned();
                        text.append(name);
                        Err(RenderError::BadRequest(text))
                    },
                }
            },
            None => Ok(signal::DEFAULT),
        }
    }

    /// Forgets the session: from now on it records and reports nothing, and takes no input. The
    /// result is the process to be terminated.
    pub fn retire(&mut self) -> (pid: u32)
        requires
            old(self).well_formed(),
        ensures
            final(self).well_formed(),
            final(self)@ == (SessionModel { retired: true, ..old(self)@ }),
            pid == old(self)@.pid,
    {
        self.retired = true;
        self.pid
    }

    /// Takes the baseline anew if something was done to the screen and output has been quiet for
    /// long enough.
    pub fn refresh_snapshot(&mut self, now_ms: u64)
        requires
            old(self).well_formed(),
        ensures
            final(self).well_formed(),
            final(self)@ == old(self)@.refreshed(now_ms),
    {
        if !self.snapshot_dirty {
            return ;
        }
        let quiet = match self.last_write_at {
            Some(last) => now_ms >= last && now_ms - last >= SNAPSHOT_QUIET_MS,
            None => true,
        };
        if quiet {
            self.checkpoint();
        }
    }

    /// Records how the process ended.
    pub fn record_exit(&mut self, exit: ChildExit)
        requires
            old(self).well_formed(),
        ensures
            final(self).well_formed(),
            final(self)@ == old(self)@.exited(exit),
    {
        self.status = SessionStatus::Exited;
        self.exit_code = exit.exit_code;
    }

    /// Settles the screen once all output of an ended process has been read, and returns the
    /// event to publish. A forgotten session has none.
    #[verifier::rlimit(30)]
    pub fn finish_exit(&mut self, exit: ChildExit) -> (event: Option<Event>)
        requires
            old(self).well_formed(),
        ensures
            final(self).well_formed(),
            final(self)@ == old(self)@.settled(),
            event is None <==> old(self)@.retired,
            event matches Some(event) ==> event@ == old(self)@.exit_notice(exit),
    {
        let ghost before = self@;
        if self.snapshot_dirty {
            self.checkpoint();
        }
        let ghost settled = self@;
        self.finished = true;
        proof {
            assert(self@ == (SessionModel { finished: true, ..settled }));
            assert(self@ == before.settled());
            assert(self@.valid());
            assert(self.journal_in_order());
            assert(self.screen_in_order());
            assert(self.well_formed());
        }
        if self.retired {
            return None;
        }
        Some(
            Event::Exit {
                session_id: self.session_id.clone(),
                incarnation_id: self.incarnation_id.clone(),
                exit_code: exit.exit_code,
                signal: exit.signal,
            },
        )
    }
}

/// The bytes of one cell of a screen.
pub const CELL_BYTES: u64 = 32;

/// An estimate of what a screen takes: its cells and those of the lines above it.
pub open spec fn screen_estimate(cols: u16, rows: u16, history: int) -> int {
    CELL_BYTES * (cols * (rows + history))
}

/// An estimate of what a screen takes.
pub fn screen_bytes(cols: u16, rows: u16, history: usize) -> (bytes: u64)
    requires
        history <= SCROLLBACK_LINES,
    ensures
        bytes == screen_estimate(cols, rows, history as int),
{
    let lines: u64 = rows as u64 + history as u64;
    assert(cols * lines <= 0xffff * 0x20000) by (nonlinear_arith)
        requires
            cols <= 0xffff,
            lines <= 0x20000,
    ;
    CELL_BYTES * (cols as u64 * lines)
}

/// What the allocator gave for the text that a session keeps.
#[derive(Debug, Clone, Copy, PartialEq, Eq, Structural)]
pub struct Allocated {
    pub output: usize,
    pub chunks: usize,
    pub baseline: usize,
    pub pending: usize,
}

/// An estimate of what a session retains: the text it keeps and its screen, as wide and as tall
/// as the screen ever was, with the history that the last baseline showed. Sums that do not fit
/// count as the largest number.
pub fn estimate_live_bytes(
    allocated: Allocated,
    widest: u16,
    tallest: u16,
    history: usize,
) -> (bytes: u64)
    requires
        history <= SCROLLBACK_LINES,
    ensures
        ({
            let sum = allocated.output + allocated.chunks + allocated.baseline + allocated.pending
                + screen_estimate(widest, tallest, history as int);
            bytes == u64_capped(sum)
        }),
{
    (allocated.output as u64).saturating_add(allocated.chunks as u64).saturating_add(
        allocated.baseline as u64,
    ).saturating_add(allocated.pending as u64).saturating_add(
        screen_bytes(widest, tallest, history),
    )
}

/// The bytes of the data in a list of operations.
pub open spec fn pending_bytes(pending: Seq<Operation>) -> int
    decreases pending.len(),
{
    if pending.len() == 0 {
        0
    } else {
        pending_bytes(pending.drop_last()) + (match pending.last() {
            Operation::Data { data } => encode_utf8(data).len() as int,
            Operation::Resize { .. } => 0,
        })
    }
}

/// What a session retains at least: the bytes of the text it keeps, and its screen as wide and as
/// tall as it ever was, with the history that the last baseline showed.
pub open spec fn live_floor(session: SessionModel) -> int {
    capped(encode_utf8(session.state(0).output).len() as int) + capped(
        total_bytes(replay_window(session.raw)),
    ) + capped(encode_utf8(session.snapshot().data).len() as int) + capped(
        pending_bytes(session.pending),
    ) + screen_estimate(
        feed_widest(session.feed),
        feed_tallest(session.feed),
        history_rows(session.baseline_feed) as int,
    )
}

/// The smaller of a number and the largest `u64`.
pub open spec fn u64_capped(number: int) -> int {
    if number > u64::MAX {
        u64::MAX as int
    } else {
        number
    }
}

/// Whether what the allocator gave holds the text that a session keeps.
pub open spec fn holds_text(allocated: Allocated, session: SessionModel) -> bool {
    &&& allocated.output >= capped(encode_utf8(session.state(0).output).len() as int)
    &&& allocated.chunks >= capped(total_bytes(replay_window(session.raw)))
    &&& allocated.baseline >= capped(encode_utf8(session.snapshot().data).len() as int)
    &&& allocated.pending >= capped(pending_bytes(session.pending))
}

/// Whether a number is an estimate of what a session retains: what the allocator gave for the text
/// that it keeps, and its screen.
pub open spec fn is_estimate(bytes: u64, session: SessionModel) -> bool {
    exists|allocated: Allocated| #[trigger]
        holds_text(allocated, session) && bytes == u64_capped(
            allocated.output + allocated.chunks + allocated.baseline + allocated.pending
                + screen_estimate(
                feed_widest(session.feed),
                feed_tallest(session.feed),
                history_rows(session.baseline_feed) as int,
            ),
        )
}

impl Session {
    /// What the allocator gave for the text that the session keeps.
    fn measure(&self) -> (allocated: Allocated)
        requires
            self.well_formed(),
        ensures
            holds_text(allocated, self@),
    {
        let ghost all = operations(self.pending@);
        let mut pending: usize = 0;
        let mut index: usize = 0;
        assert(all.take(0) == Seq::<Operation>::empty());
        while index < self.pending.len()
            invariant
                index <= self.pending@.len(),
                all == operations(self.pending@),
                pending >= capped(pending_bytes(all.take(index as int))),
            decreases self.pending@.len() - index,
        {
            assert(all.take(index + 1).drop_last() == all.take(index as int));
            if let PendingOp::Data { data } = &self.pending[index] {
                pending = pending.saturating_add(data.capacity());
            }
            index = index + 1;
        }
        assert(all.take(index as int) == all);
        Allocated {
            output: self.output.allocated_bytes(),
            chunks: self.chunks.allocated_bytes(),
            baseline: self.baseline.data.capacity(),
            pending,
        }
    }

    /// An estimate of what the session retains. How much the allocator gave for its text is left
    /// open; it is never less than the text.
    pub fn live_bytes(&self) -> (bytes: u64)
        requires
            self.well_formed(),
        ensures
            is_estimate(bytes, self@),
            bytes >= u64_capped(live_floor(self@)),
    {
        let allocated = self.measure();
        assert(holds_text(allocated, self@));
        estimate_live_bytes(allocated, self.widest, self.tallest, self.baseline_history)
    }
}

/// Whether output has been quiet for long enough. A moment before the last output is not.
pub open spec fn is_quiet(last_write: Option<u64>, now_ms: u64) -> bool {
    match last_write {
        Some(last) => now_ms - last >= SNAPSHOT_QUIET_MS,
        None => true,
    }
}

/// What signal a request asks for.
pub enum Requested {
    Default,
    Known(Signal),
    Unknown(Seq<char>),
}

/// What signal a request asks for; a name of white space counts as none.
pub open spec fn requested_signal(name: Option<&str>) -> Requested {
    match name {
        Some(name) => requested_by(name@),
        None => Requested::Default,
    }
}

/// What signal a name asks for.
pub open spec fn requested_by(name: Seq<char>) -> Requested {
    if trimmed(name).len() == 0 {
        Requested::Default
    } else {
        match signal_named(name) {
            Some(signal) => Requested::Known(signal),
            None => Requested::Unknown(name),
        }
    }
}

/// How a process ended: with an exit code, by a signal, or not known how.
#[derive(Debug, Clone, Copy, PartialEq, Eq, Structural)]
pub struct ChildExit {
    pub exit_code: Option<i32>,
    pub signal: Option<i32>,
}

/// Reads the status that `waitpid` gives. The low seven bits are the signal that ended the
/// process. Where they are zero, bits 8 to 15 are the exit code; where all of them are set, the
/// process did not end.
pub fn decode_wait_status(status: i32) -> (exit: ChildExit)
    ensures
        exit == (if status & 0x7f == 0 {
            ChildExit { exit_code: Some((status >> 8) & 0xff), signal: None }
        } else if status & 0x7f == 0x7f {
            ChildExit { exit_code: None, signal: None }
        } else {
            ChildExit { exit_code: None, signal: Some(status & 0x7f) }
        }),
        0 <= status <= 65_280 && status % 256 == 0 ==> exit == (ChildExit {
            exit_code: Some((status / 256) as i32),
            signal: None,
        }),
        1 <= status <= 126 ==> exit == (ChildExit { exit_code: None, signal: Some(status) }),
        129 <= status <= 254 ==> exit == (ChildExit {
            exit_code: None,
            signal: Some((status - 128) as i32),
        }),
{
    proof {
        assert(0 <= status <= 65_280 && status % 256 == 0 ==> status & 0x7f == 0 && (status >> 8)
            & 0xff == status / 256) by (bit_vector);
        assert(1 <= status <= 126 ==> status & 0x7f == status) by (bit_vector);
        assert(129 <= status <= 254 ==> status & 0x7f == status - 128) by (bit_vector);
    }
    let term_signal: i32 = status & 0x7f;
    if term_signal == 0 {
        ChildExit { exit_code: Some((status >> 8) & 0xff), signal: None }
    } else if term_signal == 0x7f {
        ChildExit { exit_code: None, signal: None }
    } else {
        ChildExit { exit_code: None, signal: Some(term_signal) }
    }
}

/// What waiting for a process gave.
#[derive(Debug, Clone, Copy, PartialEq, Eq)]
pub enum Waited {
    /// There is no process to wait for.
    NoProcess,
    /// The process has changed its state: this is the status.
    Status(i32),
    /// Waiting was interrupted, or gave another process.
    Again,
    /// There is no status any more. What is known elsewhere is an exit code, and whether a signal
    /// ended the process; or nothing.
    Gone(Option<(u32, bool)>),
}

/// How a process ended, by what waiting for it gave; `None` means to wait again. An exit code is
/// never made up: where a signal ended the process and its status is gone, nothing is known.
pub fn wait_for_child(waited: Waited) -> (exit: Option<ChildExit>)
    ensures
        match waited {
            Waited::NoProcess => exit == Some(ChildExit { exit_code: None, signal: None }),
            Waited::Status(status) => exit == Some(
                if status & 0x7f == 0 {
                    ChildExit { exit_code: Some((status >> 8) & 0xff), signal: None }
                } else if status & 0x7f == 0x7f {
                    ChildExit { exit_code: None, signal: None }
                } else {
                    ChildExit { exit_code: None, signal: Some(status & 0x7f) }
                },
            ),
            Waited::Again => exit is None,
            Waited::Gone(known) => exit == Some(
                ChildExit {
                    exit_code: match known {
                        Some((code, signalled)) => if signalled {
                            None
                        } else {
                            Some(code as i32)
                        },
                        None => None,
                    },
                    signal: None,
                },
            ),
        },
{
    match waited {
        Waited::NoProcess => Some(ChildExit { exit_code: None, signal: None }),
        Waited::Status(status) => Some(decode_wait_status(status)),
        Waited::Again => None,
        Waited::Gone(Some((code, false))) => Some(
            ChildExit { exit_code: Some(code as i32), signal: None },
        ),
        Waited::Gone(_) => Some(ChildExit { exit_code: None, signal: None }),
    }
}

/// Whom to send a signal that is meant for a process: its whole group where it leads one, else
/// the process alone. A process that is not known gets none.
pub fn kill_target(pid: u32, process_group: i32) -> (target: Option<i32>)
    ensures
        target == (if pid == 0 || pid > i32::MAX {
            None::<i32>
        } else if process_group == pid {
            Some((-(pid as int)) as i32)
        } else {
            Some(pid as i32)
        }),
{
    if pid == 0 || pid > i32::MAX as u32 {
        return None;
    }
    let process: i32 = pid as i32;
    if process_group == process {
        Some(-process)
    } else {
        Some(process)
    }
}

/// The identifier of one launch: process, time and a counter.
pub open spec fn incarnation_text(process_id: u32, nanos: u128, counter: u64) -> Seq<char> {
    "u-"@ + decimal(process_id as nat) + "-"@ + decimal(nanos as nat) + "-"@ + decimal(
        counter as nat,
    )
}

/// Hands out a new number for every launch.
pub struct IncarnationCounter {
    next: u64,
}

impl IncarnationCounter {
    /// The number for the next launch.
    pub closed spec fn upcoming(&self) -> u64 {
        self.next
    }

    pub fn new() -> (counter: Self)
        ensures
            counter.upcoming() == 1,
    {
        IncarnationCounter { next: 1 }
    }

    /// An identifier for the next launch by this process at this time.
    pub fn new_incarnation_id(&mut self, process_id: u32, nanos: u128) -> (id: String)
        ensures
            id@ == incarnation_text(process_id, nanos, old(self).upcoming()),
            final(self).upcoming() == (if old(self).upcoming() == u64::MAX {
                0
            } else {
                old(self).upcoming() + 1
            }),
    {
        let counter: u64 = self.next;
        self.next = counter.wrapping_add(1);
        let mut id = "u-".to_owned();
        id.append(write_decimal(process_id as u128).as_str());
        id.append("-");
        id.append(write_decimal(nanos).as_str());
        id.append("-");
        id.append(write_decimal(counter as u128).as_str());
        id
    }
}

/// The model of a session that was just launched.
pub open spec fn started(
    params: CreateOrAttachParams,
    pid: u32,
    incarnation: Seq<char>,
) -> SessionModel {
    let feed = seq![
        TerminalOp::Start {
            rows: grid_rows(params.rows),
            cols: grid_cols(params.cols),
            scrollback: SCROLLBACK_LINES,
        },
    ];
    SessionModel {
        id: params.session_id@,
        incarnation,
        pid,
        token: optional_text(params.launch_marker_token),
        retired: false,
        status: SessionStatus::Running,
        exit_code: None,
        cols: params.cols,
        rows: params.rows,
        raw: Seq::empty(),
        feed,
        baseline_feed: feed,
        pending: Seq::empty(),
        last_write: None,
        finished: false,
        redrawn: false,
    }
}

/// The baseline and the pending operations together are the current screen: a client that
/// rebuilds the baseline and replays the pending operations has shown all the data that the
/// session's screen was given, in order, and ends with the size of that screen. Unless the screen
/// was drawn anew, that data is all that the session has shown.
pub proof fn law_baseline_and_pending_make_the_screen(session: SessionModel)
    requires
        session.valid(),
    ensures
        ({
            let replay = replayed_all(session.pending);
            &&& session.feed == session.baseline_feed + session.feed.skip(
                session.baseline_feed.len() as int,
            )
            &&& replay == joined_feed(session.feed.skip(session.baseline_feed.len() as int))
            &&& fed_bytes(session.baseline_feed + replay) == fed_bytes(session.feed)
            &&& !session.redrawn ==> fed_bytes(session.baseline_feed + replay) == encode_utf8(
                shown(session.token, session.raw),
            )
            &&& feed_size(session.baseline_feed + replay) == (
                grid_rows(session.rows),
                grid_cols(session.cols),
            )
        }),
{
    let base = session.baseline_feed;
    let since = session.feed.skip(base.len() as int);
    assert(session.feed == base + since);
    law_joining_keeps_the_data(since);
    lemma_fed_concat(base, since);
    lemma_fed_concat(base, joined_feed(since));
    lemma_joined_size(base, since);
}

proof fn lemma_fed_concat(first: Seq<TerminalOp>, second: Seq<TerminalOp>)
    ensures
        fed_bytes(first + second) == fed_bytes(first) + fed_bytes(second),
    decreases second.len(),
{
    if second.len() == 0 {
        assert(first + second == first);
        assert(fed_bytes(first) + Seq::<u8>::empty() == fed_bytes(first));
    } else {
        assert((first + second).drop_last() == first + second.drop_last());
        lemma_fed_concat(first, second.drop_last());
        match second.last() {
            TerminalOp::Data { bytes } => {
                assert(fed_bytes(first) + fed_bytes(second.drop_last()) + bytes == fed_bytes(first)
                    + (fed_bytes(second.drop_last()) + bytes));
            },
            _ => {},
        }
    }
}

proof fn lemma_joined_size(base: Seq<TerminalOp>, since: Seq<TerminalOp>)
    ensures
        feed_size(base + joined_feed(since)) == feed_size(base + since),
    decreases since.len(),
{
    if since.len() > 0 {
        let shorter = since.drop_last();
        let joined = joined_feed(shorter);
        lemma_joined_size(base, shorter);
        assert((base + since).drop_last() == base + shorter);
        match (since.last(), joined.last()) {
            (
                TerminalOp::Data { bytes },
                TerminalOp::Data { bytes: before },
            ) if joined.len() > 0 => {
                let longer = base + joined_feed(since);
                assert(longer.drop_last() == base + joined.drop_last());
                assert((base + joined).drop_last() == base + joined.drop_last());
            },
            _ => {
                assert((base + joined_feed(since)).drop_last() == base + joined);
            },
        }
    }
}

/// The chunks kept for replay are the newest ones: numbered without a gap up to the last number
/// given, each with the data that it came with, cut to its newest characters where it is too long.
pub proof fn law_replay_window_has_no_gap(raw: Seq<Seq<char>>)
    requires
        raw.len() <= u64::MAX,
    ensures
        ({
            let window = replay_window(raw);
            &&& window.len() <= raw.len()
            &&& raw.len() > 0 ==> window.len() > 0
            &&& total_chars(window) <= PTY_OUTPUT_MAX_CHARS
            &&& forall|i: int|
                0 <= i < window.len() ==> (#[trigger] window[i]).0 == raw.len() - window.len() + i + 1
                    && window[i].1 == newest_chars(
                    raw[raw.len() - window.len() + i],
                    PTY_OUTPUT_MAX_CHARS as int,
                )
        }),
    decreases raw.len(),
{
    if raw.len() > 0 {
        law_replay_window_has_no_gap(raw.drop_last());
        let before = replay_window(raw.drop_last());
        let entry = (raw.len() as u64, newest_chars(raw.last(), PTY_OUTPUT_MAX_CHARS as int));
        let entries = before.push(entry);
        law_window_keeps_the_newest_chunks(entries, PTY_OUTPUT_MAX_CHARS as int);
        let window = replay_window(raw);
        let dropped = entries.len() - window.len();
        assert forall|i: int| 0 <= i < window.len() implies (#[trigger] window[i]).0 == raw.len()
            - window.len() + i + 1 && window[i].1 == newest_chars(
            raw[raw.len() - window.len() + i],
            PTY_OUTPUT_MAX_CHARS as int,
        ) by {
            assert(window[i] == entries[dropped + i]);
            if dropped + i < before.len() {
                assert(entries[dropped + i] == before[dropped + i]);
                assert(raw.drop_last()[raw.len() - window.len() + i] == raw[raw.len() - window.len()
                    + i]);
            }
        }
    }
}

/// A client that has seen the chunks up to `after_seq` gets exactly those that follow, up to the
/// last one, unless the next one is no longer kept.
pub proof fn law_attach_fills_the_gap(session: SessionModel, after_seq: u64)
    requires
        session.valid(),
        session.raw.len() - replay_window(session.raw).len() <= after_seq <= session.raw.len(),
    ensures
        ({
            let chunks = session.state(after_seq).chunks;
            &&& chunks.len() == session.raw.len() - after_seq
            &&& forall|i: int|
                0 <= i < chunks.len() ==> (#[trigger] chunks[i]).0 == after_seq + i + 1
                    && chunks[i].1 == newest_chars(
                    session.raw[after_seq + i],
                    PTY_OUTPUT_MAX_CHARS as int,
                )
        }),
{
    let window = replay_window(session.raw);
    law_replay_window_has_no_gap(session.raw);
    let start = after_seq - (session.raw.len() - window.len());
    lemma_newer_than_is_a_tail(window, after_seq, start);
    assert(newer_than(window, after_seq) == window.skip(start));
}

proof fn lemma_newer_than_is_a_tail(
    entries: Seq<(u64, Seq<char>)>,
    after_seq: u64,
    start: int,
)
    requires
        0 <= start <= entries.len(),
        forall|i: int| 0 <= i < start ==> (#[trigger] entries[i]).0 <= after_seq,
        forall|i: int| start <= i < entries.len() ==> (#[trigger] entries[i]).0 > after_seq,
    ensures
        newer_than(entries, after_seq) == entries.skip(start),
    decreases entries.len(),
{
    if entries.len() > start {
        lemma_newer_than_is_a_tail(entries.drop_last(), after_seq, start);
        assert(entries.drop_last().skip(start).push(entries.last()) == entries.skip(start));
    } else if entries.len() > 0 {
        lemma_newer_than_is_a_tail(entries.drop_last(), after_seq, start - 1);
        assert(entries.drop_last().skip(start - 1) == entries.skip(start));
    }
}

/// A screen is given all output as it comes, as long as no change of size cuts a character in two.
pub proof fn law_screen_gets_all_output(
    session: SessionModel,
    data: Seq<char>,
    now_ms: u64,
    cols: u16,
    rows: u16,
)
    requires
        !session.redrawn,
    ensures
        !session.appended(data, now_ms).redrawn,
        grid_cols(cols) >= feed_size(session.feed).1 || is_uncut(
            session.feed,
            grid_rows(rows),
            grid_cols(cols),
        ) ==> !session.resized(cols, rows).redrawn,
{
}

/// Every chunk gets the next number, starting with 1, and nothing else changes the numbers.
pub proof fn law_sequence_numbers_count_chunks(
    session: SessionModel,
    data: Seq<char>,
    now_ms: u64,
    cols: u16,
    rows: u16,
)
    requires
        !session.retired,
        session.raw.len() < u64::MAX,
    ensures
        session.appended(data, now_ms).state(0).seq == session.state(0).seq + 1,
        session.appended(data, now_ms).raw.last() == data,
        session.resized(cols, rows).state(0).seq == session.state(0).seq,
        session.checkpointed().state(0).seq == session.state(0).seq,
{
}

/// Taking the baseline anew changes nothing that a client sees but the split between the baseline
/// and the pending operations: after it, nothing is pending and the baseline is the whole screen.
pub proof fn law_checkpoint_changes_only_the_split(session: SessionModel, after_seq: u64)
    requires
        session.valid(),
    ensures
        session.checkpointed().valid(),
        session.checkpointed().state(after_seq) == (StateImage {
            terminal_snapshot: Some(
                image_of(session.feed, 0, feed_wraps(session.feed), Seq::empty()),
            ),
            ..session.state(after_seq)
        }),
{
    let feed = session.feed;
    assert(feed.take(feed.len() as int) == feed);
    assert(feed.skip(feed.len() as int) == Seq::<TerminalOp>::empty());
    assert(replayed_all(Seq::<Operation>::empty()) == Seq::<TerminalOp>::empty());
}

/// Two launches never get the same identifier, unless process, time and counter are all the same.
pub proof fn law_incarnations_differ(
    process_id: u32,
    nanos: u128,
    counter: u64,
    other_process_id: u32,
    other_nanos: u128,
    other_counter: u64,
)
    requires
        incarnation_text(process_id, nanos, counter) == incarnation_text(
            other_process_id,
            other_nanos,
            other_counter,
        ),
    ensures
        process_id == other_process_id,
        nanos == other_nanos,
        counter == other_counter,
{
    reveal_strlit("-");
    reveal_strlit("u-");
    lemma_decimal_has_digits(process_id as nat);
    lemma_decimal_has_digits(nanos as nat);
    lemma_decimal_has_digits(counter as nat);
    lemma_decimal_has_digits(other_process_id as nat);
    lemma_decimal_has_digits(other_nanos as nat);
    lemma_decimal_has_digits(other_counter as nat);
    let head = "u-"@ + decimal(process_id as nat);
    let other_head = "u-"@ + decimal(other_process_id as nat);
    let body = head + "-"@ + decimal(nanos as nat);
    let other_body = other_head + "-"@ + decimal(other_nanos as nat);
    lemma_last_field(body, decimal(counter as nat), other_body, decimal(other_counter as nat));
    lemma_last_field(head, decimal(nanos as nat), other_head, decimal(other_nanos as nat));
    assert(head.skip(2) == decimal(process_id as nat));
    assert(other_head.skip(2) == decimal(other_process_id as nat));
    lemma_decimal_is_injective(counter as nat, other_counter as nat);
    lemma_decimal_is_injective(nanos as nat, other_nanos as nat);
    lemma_decimal_is_injective(process_id as nat, other_process_id as nat);
}

proof fn lemma_last_field(
    head: Seq<char>,
    digits: Seq<char>,
    other_head: Seq<char>,
    other_digits: Seq<char>,
)
    requires
        is_digits(digits),
        is_digits(other_digits),
        head + "-"@ + digits == other_head + "-"@ + other_digits,
    ensures
        head == other_head,
        digits == other_digits,
{
    reveal_strlit("-");
    let whole = head + "-"@ + digits;
    let other = other_head + "-"@ + other_digits;
    assert(whole.len() == head.len() + 1 + digits.len());
    assert(other.len() == other_head.len() + 1 + other_digits.len());
    assert(whole[head.len() as int] == '-');
    assert(other[other_head.len() as int] == '-');
    if head.len() < other_head.len() {
        let at = other_head.len() as int;
        assert(whole[at] == digits[at - head.len() - 1]);
        assert(is_digit(digits[at - head.len() - 1]));
    } else if other_head.len() < head.len() {
        let at = head.len() as int;
        assert(other[at] == other_digits[at - other_head.len() - 1]);
        assert(is_digit(other_digits[at - other_head.len() - 1]));
    }
    assert(whole.take(head.len() as int) == head);
    assert(other.take(other_head.len() as int) == other_head);
    assert(whole.skip(head.len() as int + 1) == digits);
    assert(other.skip(other_head.len() as int + 1) == other_digits);
}

} // verus!
