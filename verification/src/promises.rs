//! What clients are promised, said without the functions that the library computes it with.

use vstd::prelude::*;
use vstd::utf8::encode_utf8;

use crate::bounds::{
    law_window_keeps_the_newest_chunks, newest_chars, total_bytes, total_chars,
};
use crate::error::RenderError;
use crate::launch::is_plan_for;
use crate::modes::dec_scanned;
use crate::preview::{
    bounded, escape_state, json_length, law_bounded_snapshot_fits_and_is_clean, shell, EscapeState,
};
use crate::protocol::{
    CreateOrAttachParams, Event, Notice, Operation, PendingOp, ScreenImage, SessionState,
    SessionStatus, ShutdownMode, StateImage, TerminalSnapshot, SCROLLBACK_LINES,
};
use crate::registry::{
    after_creation, after_finish, carries_out, create_verdict, ids, index_of, is_capped_sum,
    is_total_estimate, launch_index, launched_session, listed, maintained, pids, running_count,
    shut_down, unfinished_only, unreported_exits, with_launched, Admission, CreateVerdict,
    RegistryModel,
};
use crate::replay::{fed_bytes, pending_chars, with_data};
use crate::session::{
    feed_wraps, is_estimate, law_replay_window_has_no_gap, newer_than, newly_shown, pending_bytes,
    replay_window, screen_estimate, shown, started, ChildExit, SessionModel,
};
use crate::snapshot::{history_rows, law_snapshot_leaves_nothing_out};
use crate::terminal::{
    feed_size, feed_tallest, feed_widest, formatted_contents, grid_cols, grid_rows, is_uncut,
    other_trial, redrawing, rows_kept, shows_alternate, trial, TerminalOp, SHOW_MAIN,
};

verus! {

/// The last 200000 characters of a text.
pub open spec fn last_200000(text: Seq<char>) -> Seq<char> {
    if text.len() <= 200_000 {
        text
    } else {
        text.subrange(text.len() - 200_000, text.len() as int)
    }
}

/// The characters in chunks of output from one of them on, counting no more than 200000 of each.
pub open spec fn chars_since(raw: Seq<Seq<char>>, from: int) -> int
    decreases raw.len() - from,
{
    if 0 <= from < raw.len() {
        last_200000(raw[from]).len() + chars_since(raw, from + 1)
    } else {
        0
    }
}

proof fn lemma_chars_since_push(raw: Seq<Seq<char>>, chunk: Seq<char>, from: int)
    requires
        0 <= from <= raw.len(),
    ensures
        chars_since(raw.push(chunk), from) == chars_since(raw, from) + last_200000(chunk).len(),
    decreases raw.len() - from,
{
    if from < raw.len() {
        lemma_chars_since_push(raw, chunk, from + 1);
    } else {
        assert(chars_since(raw.push(chunk), from + 1) == 0);
    }
}

proof fn lemma_chars_since_falls(raw: Seq<Seq<char>>, from: int, to: int)
    requires
        0 <= from <= to,
    ensures
        chars_since(raw, from) >= chars_since(raw, to) >= 0,
    decreases to - from, raw.len() - to,
{
    if from < to {
        lemma_chars_since_falls(raw, from, to - 1);
        if to - 1 < raw.len() {
            lemma_chars_since_falls(raw, to, to);
        }
    } else if to < raw.len() {
        lemma_chars_since_falls(raw, to + 1, to + 1);
    }
}

proof fn lemma_total_chars_push(entries: Seq<(u64, Seq<char>)>, entry: (u64, Seq<char>))
    ensures
        total_chars(entries.push(entry)) == total_chars(entries) + entry.1.len(),
    decreases entries.len(),
{
    let longer = entries.push(entry);
    if entries.len() > 0 {
        lemma_total_chars_push(entries.drop_first(), entry);
        assert(longer.drop_first() == entries.drop_first().push(entry));
    } else {
        assert(longer.drop_first() == Seq::<(u64, Seq<char>)>::empty());
        assert(total_chars(longer.drop_first()) == 0);
    }
}

proof fn lemma_window_chars(raw: Seq<Seq<char>>, from: int)
    requires
        raw.len() <= u64::MAX,
        raw.len() - replay_window(raw).len() <= from <= raw.len(),
    ensures
        ({
            let window = replay_window(raw);
            let gone = raw.len() - window.len();
            &&& total_chars(window.skip(from - gone)) == chars_since(raw, from)
            &&& chars_since(raw, gone) <= 200_000
            &&& gone > 0 ==> chars_since(raw, gone - 1) > 200_000
        }),
    decreases raw.len(), raw.len() - from,
{
    let window = replay_window(raw);
    let gone = raw.len() - window.len();
    law_replay_window_has_no_gap(raw);
    lemma_window_sum(raw, from);
    lemma_window_sum(raw, gone);
    assert(window.skip(0) == window);
    if gone > 0 {
        let before = replay_window(raw.drop_last());
        let entry = (
            raw.len() as u64,
            newest_chars(raw.last(), 200_000),
        );
        let entries = before.push(entry);
        law_replay_window_has_no_gap(raw.drop_last());
        law_window_keeps_the_newest_chunks(entries, 200_000);
        let dropped = entries.len() - window.len();
        let kept_before = raw.len() - 1 - before.len();
        assert(raw == raw.drop_last().push(raw.last()));
        if dropped == 0 {
            lemma_window_chars(raw.drop_last(), kept_before);
            lemma_chars_since_push(raw.drop_last(), raw.last(), gone - 1);
        } else {
            lemma_window_sum(raw.drop_last(), gone - 1);
            lemma_chars_since_push(raw.drop_last(), raw.last(), gone - 1);
            let more = entries.skip(dropped - 1);
            assert(more == before.skip(dropped - 1).push(entry));
            lemma_total_chars_push(before.skip(dropped - 1), entry);
        }
    }
}

proof fn lemma_window_sum(raw: Seq<Seq<char>>, from: int)
    requires
        raw.len() <= u64::MAX,
        raw.len() - replay_window(raw).len() <= from <= raw.len(),
    ensures
        total_chars(replay_window(raw).skip(from - (raw.len() - replay_window(raw).len())))
            == chars_since(raw, from),
    decreases raw.len() - from,
{
    let window = replay_window(raw);
    let gone = raw.len() - window.len();
    law_replay_window_has_no_gap(raw);
    let rest = window.skip(from - gone);
    if from < raw.len() {
        lemma_window_sum(raw, from + 1);
        assert(rest.drop_first() == window.skip(from + 1 - gone));
        assert(rest[0] == window[from - gone]);
    } else {
        assert(rest == Seq::<(u64, Seq<char>)>::empty());
    }
}

proof fn lemma_newer_than(entries: Seq<(u64, Seq<char>)>, after_seq: u64, start: int)
    requires
        0 <= start <= entries.len(),
        forall|i: int| 0 <= i < start ==> (#[trigger] entries[i]).0 <= after_seq,
        forall|i: int| start <= i < entries.len() ==> (#[trigger] entries[i]).0 > after_seq,
    ensures
        newer_than(entries, after_seq) == entries.skip(start),
    decreases entries.len(),
{
    if entries.len() > start {
        lemma_newer_than(entries.drop_last(), after_seq, start);
        assert(entries.drop_last().skip(start).push(entries.last()) == entries.skip(start));
    } else if entries.len() > 0 {
        lemma_newer_than(entries.drop_last(), after_seq, start - 1);
        assert(entries.drop_last().skip(start - 1) == entries.skip(start));
    }
}

/// To attach is to get every chunk that is numbered above `after_seq` and still kept, and nothing
/// else, in order, whether or not older ones are gone. The chunks that are kept are the newest ones
/// that have no more than 200000 characters together, and each is what was written, cut to its last
/// 200000 characters.
pub proof fn law_attach_gives_every_kept_chunk(session: SessionModel, after_seq: u64, number: u64)
    requires
        session.raw.len() <= u64::MAX,
        1 <= number <= session.raw.len(),
    ensures
        ({
            let chunks = session.state(after_seq).chunks;
            &&& chunks.contains((number, last_200000(session.raw[number - 1]))) <==> (number
                > after_seq && chars_since(session.raw, number - 1) <= 200_000)
            &&& forall|i: int|
                0 <= i < chunks.len() ==> after_seq < (#[trigger] chunks[i]).0 <= session.raw.len()
                    && chunks[i].1 == last_200000(session.raw[chunks[i].0 - 1])
            &&& forall|i: int, j: int|
                0 <= i < j < chunks.len() ==> (#[trigger] chunks[i]).0 < (#[trigger] chunks[j]).0
        }),
{
    let raw = session.raw;
    let window = replay_window(raw);
    let gone = raw.len() - window.len();
    let chunks = session.state(after_seq).chunks;
    law_replay_window_has_no_gap(raw);
    lemma_window_chars(raw, gone);
    let start = if after_seq < gone {
        0int
    } else if after_seq >= raw.len() {
        window.len() as int
    } else {
        after_seq - gone
    };
    lemma_newer_than(window, after_seq, start);
    assert(chunks == window.skip(start));
    assert forall|i: int| 0 <= i < chunks.len() implies after_seq < (#[trigger] chunks[i]).0
        <= raw.len() && chunks[i].1 == last_200000(raw[chunks[i].0 - 1]) by {
        assert(chunks[i] == window[start + i]);
    }
    let entry = (number, last_200000(raw[number - 1]));
    if number > gone {
        lemma_chars_since_falls(raw, gone, number - 1);
        assert(window[number - gone - 1] == entry);
        if number > after_seq {
            assert(chunks[number - gone - 1 - start] == entry);
        }
    } else {
        lemma_chars_since_falls(raw, number - 1, gone - 1);
        assert(forall|i: int| 0 <= i < chunks.len() ==> (#[trigger] chunks[i]) == window[start + i]);
    }
    if chunks.contains(entry) {
        let i = choose|i: int| 0 <= i < chunks.len() && chunks[i] == entry;
        assert(chunks[i] == window[start + i]);
        assert(chunks[i].0 > gone);
    }
}

/// A state tells of its session: who it is, how it fares, its size, how many chunks it wrote, and
/// the last 200000 characters of what it has shown.
pub proof fn law_state_tells_of_its_session(session: SessionModel, after_seq: u64)
    requires
        session.raw.len() <= u64::MAX,
    ensures
        ({
            let state = session.state(after_seq);
            &&& state.session_id == session.id
            &&& state.incarnation_id == session.incarnation
            &&& state.pid == session.pid
            &&& state.status == session.status
            &&& state.exit_code == session.exit_code
            &&& state.cols == session.cols
            &&& state.rows == session.rows
            &&& state.seq == session.raw.len()
            &&& state.output == last_200000(shown(session.token, session.raw))
            &&& state.launch_marker_token == session.token
            &&& state.terminal_snapshot == Some(session.snapshot())
            &&& session.snapshot().pending == session.pending
        }),
{
    assert(session.state(after_seq).output == last_200000(shown(session.token, session.raw)));
}

/// A session whose snapshot takes no more than 65536 bytes is listed just as a client that attaches
/// and has seen nothing gets it, pending operations included.
pub proof fn law_small_sessions_are_listed_whole(session: SessionModel)
    requires
        json_length(session.snapshot()) <= 65_536,
    ensures
        listed(session) == session.state(0),
{
}

/// A listing shows every session with all that a client that attaches gets but the snapshot. Of a
/// snapshot that takes more than 65536 bytes only the pending operations are missing where that is
/// enough; else the data is cut, outside of any control sequence; and there is none only where even
/// a snapshot without data takes too much.
pub proof fn law_listing_cuts_only_large_snapshots(session: SessionModel)
    ensures
        ({
            let whole = session.snapshot();
            let settled = ScreenImage { pending: Seq::empty(), ..whole };
            let bare = ScreenImage { data: Seq::empty(), ..settled };
            let entry = listed(session);
            &&& entry == (StateImage {
                terminal_snapshot: entry.terminal_snapshot,
                ..session.state(0)
            })
            &&& json_length(whole) > 65_536 && json_length(settled) <= 65_536
                ==> entry.terminal_snapshot == Some(settled)
            &&& json_length(settled) > 65_536 >= json_length(bare) && json_length(whole) > 65_536
                ==> (entry.terminal_snapshot matches Some(cut) && {
                &&& cut == (ScreenImage { data: cut.data, ..settled })
                &&& json_length(cut) <= 65_536
                &&& cut.data.len() < whole.data.len()
                &&& cut.data == whole.data.take(cut.data.len() as int)
                &&& escape_state(cut.data) == EscapeState::Ground
            })
            &&& entry.terminal_snapshot is None <==> json_length(bare) > 65_536
        }),
{
    let whole = session.snapshot();
    let settled = ScreenImage { pending: Seq::empty(), ..whole };
    law_bounded_snapshot_fits_and_is_clean(whole, 65_536);
    let bare = ScreenImage { data: Seq::empty(), ..settled };
    assert(shell(whole) == bare);
    if json_length(settled) > 65_536 && json_length(whole) > 65_536 {
        if let Some(cut) = bounded(whole, 65_536) {
            assert(cut.pending == settled.pending);
            assert(cut == (ScreenImage { data: cut.data, ..settled }));
            assert(cut.data != whole.data);
            if cut.data.len() == whole.data.len() {
                assert(cut.data == whole.data);
            }
        }
    }
}

/// To shut down at once is to kill the process of every session and no other process, and to leave
/// no session; to drain is to kill none.
pub proof fn law_shutdown_at_once_kills_every_process(registry: RegistryModel, pid: u32)
    ensures
        pids(registry.sessions).contains(pid) <==> exists|i: int|
            0 <= i < registry.sessions.len() && (#[trigger] registry.sessions[i]).pid == pid,
        pids(registry.sessions).len() == registry.sessions.len(),
        shut_down(registry, ShutdownMode::Now).sessions.len() == 0,
        shut_down(registry, ShutdownMode::Now).shutting_down,
        shut_down(registry, ShutdownMode::Drain).shutting_down,
{
    let kill = pids(registry.sessions);
    if kill.contains(pid) {
        let i = choose|i: int| 0 <= i < kill.len() && kill[i] == pid;
        assert(registry.sessions[i].pid == pid);
    }
    if exists|i: int| 0 <= i < registry.sessions.len() && registry.sessions[i].pid == pid {
        let i = choose|i: int|
            0 <= i < registry.sessions.len() && registry.sessions[i].pid == pid;
        assert(kill[i] == pid);
    }
}

/// The data of pending operations, one after another.
pub open spec fn pending_text(pending: Seq<Operation>) -> Seq<char>
    decreases pending.len(),
{
    if pending.len() == 0 {
        Seq::empty()
    } else {
        pending_text(pending.drop_last()) + (match pending.last() {
            Operation::Data { data } => data,
            Operation::Resize { .. } => Seq::empty(),
        })
    }
}

proof fn lemma_pending_text(pending: Seq<Operation>, data: Seq<char>)
    ensures
        pending_text(with_data(pending, data)) == pending_text(pending) + data,
        pending_chars(pending) == pending_text(pending).len(),
    decreases pending.len(),
{
    let longer = with_data(pending, data);
    if pending.len() > 0 {
        lemma_pending_text(pending.drop_last(), data);
        assert(longer.drop_last() == pending || longer.drop_last() == pending.drop_last());
        match pending.last() {
            Operation::Data { data: before } => {
                assert(longer.drop_last() == pending.drop_last());
                assert(pending_text(longer) == pending_text(pending) + data);
            },
            Operation::Resize { .. } => {
                assert(longer.drop_last() == pending);
            },
        }
    } else {
        assert(longer.drop_last() == pending);
    }
}

/// What one more chunk of output adds to what a session shows.
pub open spec fn added(session: SessionModel, data: Seq<char>) -> Seq<char> {
    let before = shown(session.token, session.raw);
    let after = shown(session.token, session.raw.push(data));
    after.subrange(before.len() as int, after.len() as int)
}

proof fn lemma_added(session: SessionModel, data: Seq<char>)
    ensures
        shown(session.token, session.raw.push(data)) == shown(session.token, session.raw) + added(
            session,
            data,
        ),
        added(session, data) == newly_shown(session.token, session.raw, data),
{
    let raw = session.raw.push(data);
    assert(raw.drop_last() == session.raw);
    assert(shown(session.token, raw) == shown(session.token, session.raw) + newly_shown(
        session.token,
        session.raw,
        data,
    ));
}

/// Output is kept as it came, behind all that came before; what it adds to what the session shows
/// goes to the screen as UTF-8, and to the pending operations. These are all replaced by a new
/// baseline once they hold more than 262144 characters or are more than 1024. Nothing else of the
/// session changes, and nothing at all of a session that was forgotten.
pub proof fn law_output_goes_to_journal_screen_and_pending(
    session: SessionModel,
    data: Seq<char>,
    now_ms: u64,
)
    ensures
        ({
            let after = session.appended(data, now_ms);
            let text = added(session, data);
            let total = pending_text(session.pending).len() + text.len();
            let count = if session.pending.len() > 0 && session.pending.last() is Data {
                session.pending.len()
            } else {
                session.pending.len() + 1
            };
            if session.retired {
                after == session
            } else {
                &&& after == (SessionModel {
                    raw: session.raw.push(data),
                    feed: after.feed,
                    baseline_feed: after.baseline_feed,
                    pending: after.pending,
                    last_write: after.last_write,
                    ..session
                })
                &&& shown(after.token, after.raw) == shown(session.token, session.raw) + text
                &&& if text.len() == 0 {
                    &&& after.feed == session.feed
                    &&& after.baseline_feed == session.baseline_feed
                    &&& after.pending == session.pending
                    &&& after.last_write == session.last_write
                } else {
                    &&& after.feed == session.feed.push(
                        TerminalOp::Data { bytes: encode_utf8(text) },
                    )
                    &&& after.last_write == Some(now_ms)
                    &&& if total > 262_144 || count > 1_024 {
                        after.pending.len() == 0 && after.baseline_feed == after.feed
                    } else {
                        &&& after.baseline_feed == session.baseline_feed
                        &&& after.pending.len() == count
                        &&& after.pending.last() is Data
                        &&& after.pending.drop_last() == session.pending.take(count - 1)
                        &&& pending_text(after.pending) == pending_text(session.pending) + text
                    }
                }
            }
        }),
{
    lemma_added(session, data);
    lemma_pending_text(session.pending, added(session, data));
    lemma_pending_text(with_data(session.pending, added(session, data)), Seq::empty());
    let written = with_data(session.pending, added(session, data));
    if session.pending.len() > 0 && session.pending.last() is Data {
        assert(written.drop_last() == session.pending.take(session.pending.len() - 1));
    } else {
        assert(written.drop_last() == session.pending.take(session.pending.len() as int));
    }
}

/// Without an exit marker to look for, a session shows all that was written, as it was written.
pub proof fn law_output_is_shown_as_written(session: SessionModel, data: Seq<char>)
    requires
        session.token is None || session.token.unwrap().len() == 0,
    ensures
        added(session, data) == data,
        shown(session.token, Seq::empty()).len() == 0,
{
    lemma_added(session, data);
}

/// The baseline is taken anew when 100 milliseconds have passed since output was last shown, if
/// something is pending, and not before. Then nothing is pending, and the baseline is the screen.
/// Nothing else of the session changes.
pub proof fn law_baseline_waits_for_100_quiet_milliseconds(session: SessionModel, now_ms: u64)
    ensures
        ({
            let after = session.refreshed(now_ms);
            let quiet = match session.last_write {
                Some(last) => last + 100 <= now_ms,
                None => true,
            };
            if quiet && session.pending.len() > 0 {
                &&& after == (SessionModel {
                    baseline_feed: session.feed,
                    pending: after.pending,
                    ..session
                })
                &&& after.pending.len() == 0
            } else {
                after == session
            }
        }),
{
}

/// Another size is the size that clients see. The screen is given that size, or the nearest one that
/// there is room in. Where no character is cut, every client that replays what is pending does the
/// same; where one is, the screen is drawn again, and what was drawn is the new baseline. What the
/// session wrote stays.
pub proof fn law_resize_changes_only_the_size(session: SessionModel, cols: u16, rows: u16)
    ensures
        ({
            let after = session.resized(cols, rows);
            let high: u16 = if rows < 2 {
                2
            } else {
                rows
            };
            let wide: u16 = if cols < 3 {
                3
            } else if cols > 65_527 {
                65_527
            } else {
                cols
            };
            &&& after == (SessionModel {
                cols,
                rows,
                feed: after.feed,
                baseline_feed: after.baseline_feed,
                pending: after.pending,
                redrawn: after.redrawn,
                ..session
            })
            &&& wide >= feed_size(session.feed).1 || is_uncut(session.feed, high, wide) ==> {
                &&& after.feed == session.feed.push(TerminalOp::Resize { rows: high, cols: wide })
                &&& after.pending == session.pending.push(Operation::Resize { cols, rows })
                &&& after.baseline_feed == session.baseline_feed
                &&& after.redrawn == session.redrawn
            }
            &&& wide < feed_size(session.feed).1 && !is_uncut(session.feed, high, wide) ==> {
                &&& after.redrawn
                &&& after.baseline_feed == after.feed
                &&& after.pending.len() == 0
                &&& feed_size(after.feed) == (high, wide)
            }
        }),
{
    let after = session.resized(cols, rows);
    let (high, wide) = (grid_rows(rows), grid_cols(cols));
    if wide < feed_size(session.feed).1 && !is_uncut(session.feed, high, wide) {
        reveal_with_fuel(feed_size, 4);
        let feed = after.feed;
        assert(feed[0] == TerminalOp::Start {
            rows: high,
            cols: wide,
            scrollback: SCROLLBACK_LINES,
        });
        if feed.len() == 3 {
            assert(feed.drop_last().drop_last()[0] == feed[0]);
        } else {
            assert(feed.drop_last()[0] == feed[0]);
        }
    }
}

/// How a process ended is recorded as it was reported, and nothing else changes.
pub proof fn law_exit_is_recorded_as_reported(session: SessionModel, exit: ChildExit)
    ensures
        session.exited(exit) == (SessionModel {
            status: SessionStatus::Exited,
            exit_code: exit.exit_code,
            ..session
        }),
        session.exited(exit).state(0).exit_code == exit.exit_code,
        session.settled().finished,
        session.settled().pending.len() == 0,
        session.pending.len() > 0 ==> session.settled().baseline_feed == session.feed,
        session.settled() == (SessionModel {
            finished: true,
            baseline_feed: session.settled().baseline_feed,
            pending: session.settled().pending,
            ..session
        }),
{
}

/// A new session runs the process that was launched, at the size that was asked for, and has written
/// nothing yet.
pub proof fn law_new_session_is_as_requested(
    params: CreateOrAttachParams,
    pid: u32,
    incarnation: Seq<char>,
)
    ensures
        ({
            let session = started(params, pid, incarnation);
            &&& session.id == params.session_id@
            &&& session.incarnation == incarnation
            &&& session.pid == pid
            &&& session.status == SessionStatus::Running
            &&& session.exit_code is None
            &&& session.cols == params.cols
            &&& session.rows == params.rows
            &&& session.raw.len() == 0
            &&& session.pending.len() == 0
            &&& session.last_write is None
            &&& !session.retired && !session.finished && !session.redrawn
            &&& match (session.token, params.launch_marker_token) {
                (Some(token), Some(given)) => token == given@,
                (None, None) => true,
                _ => false,
            }
            &&& 2 <= params.rows && 3 <= params.cols < 65_528 ==> session.feed == seq![
                TerminalOp::Start { rows: params.rows, cols: params.cols, scrollback: 5_000 },
            ]
            &&& session.baseline_feed == session.feed
        }),
{
}

/// A session is found by its identifier, wherever it stands, and none is found that is not there;
/// and so is a launch of a session.
pub proof fn law_sessions_are_found_by_name(
    sessions: Seq<SessionModel>,
    id: Seq<char>,
    incarnation: Seq<char>,
)
    ensures
        match index_of(sessions, id) {
            Some(index) => 0 <= index < sessions.len() && sessions[index].id == id,
            None => forall|i: int| 0 <= i < sessions.len() ==> (#[trigger] sessions[i]).id != id,
        },
        match launch_index(sessions, id, incarnation) {
            Some(index) => 0 <= index < sessions.len() && sessions[index].id == id
                && sessions[index].incarnation == incarnation,
            None => forall|i: int|
                0 <= i < sessions.len() ==> !((#[trigger] sessions[i]).id == id
                    && sessions[i].incarnation == incarnation),
        },
    decreases sessions.len(),
{
    if sessions.len() > 0 {
        law_sessions_are_found_by_name(sessions.drop_last(), id, incarnation);
        assert forall|i: int| 0 <= i < sessions.len() - 1 implies sessions.drop_last()[i]
            == #[trigger] sessions[i] by {}
    }
}

/// Where no two sessions have the same identifier, each is the one that is found by its own.
pub proof fn law_each_session_is_found(sessions: Seq<SessionModel>, index: int)
    requires
        forall|i: int, j: int|
            0 <= i < j < sessions.len() ==> (#[trigger] sessions[i]).id != (
            #[trigger] sessions[j]).id,
        0 <= index < sessions.len(),
    ensures
        index_of(sessions, sessions[index].id) == Some(index),
        launch_index(sessions, sessions[index].id, sessions[index].incarnation) == Some(index),
{
    law_sessions_are_found_by_name(sessions, sessions[index].id, sessions[index].incarnation);
    let found = index_of(sessions, sessions[index].id);
    let launch = launch_index(sessions, sessions[index].id, sessions[index].incarnation);
    if found is Some && found.unwrap() != index {
        let at = found.unwrap();
        assert(sessions[if at < index { at } else { index }].id != sessions[if at < index {
            index
        } else {
            at
        }].id);
    }
    if launch is Some && launch.unwrap() != index {
        let at = launch.unwrap();
        assert(sessions[if at < index { at } else { index }].id != sessions[if at < index {
            index
        } else {
            at
        }].id);
    }
}

/// The sessions that are counted as running are those whose process has not ended.
pub proof fn law_running_sessions_are_counted(sessions: Seq<SessionModel>)
    ensures
        running_count(sessions) == sessions.filter(
            |session: SessionModel| session.status == SessionStatus::Running,
        ).len(),
    decreases sessions.len(),
{
    reveal(Seq::filter);
    if sessions.len() > 0 {
        law_running_sessions_are_counted(sessions.drop_last());
    }
}

/// A new session is launched if and only if there is none of that name, no shutdown has begun, the
/// request names a session, a file, a size of up to 1024 columns, 512 rows and 500000 cells, and a
/// directory that exists, if any; fewer than 200 processes run; and what the sessions take, with 32
/// bytes for each cell of the new screen and 1 MiB, is within the budget.
pub proof fn law_launch_takes_order_and_room(
    registry: RegistryModel,
    params: CreateOrAttachParams,
    cwd_is_dir: bool,
    budget_bytes: int,
    live_bytes: int,
)
    ensures
        create_verdict(registry, params, cwd_is_dir, budget_bytes, live_bytes) is Launch <==> {
            &&& forall|i: int|
                0 <= i < registry.sessions.len() ==> (#[trigger] registry.sessions[i]).id
                    != params.session_id@
            &&& !registry.shutting_down
            &&& params.session_id@.len() > 0
            &&& params.file@.len() > 0
            &&& 1 <= params.cols <= 1_024
            &&& 1 <= params.rows <= 512
            &&& params.cols * params.rows <= 500_000
            &&& params.cwd@.len() == 0 || cwd_is_dir
            &&& registry.sessions.filter(
                |session: SessionModel| session.status == SessionStatus::Running,
            ).len() < 200
            &&& live_bytes + 32 * (params.cols * params.rows) + 1_048_576 <= budget_bytes
        },
{
    law_sessions_are_found_by_name(registry.sessions, params.session_id@, Seq::empty());
    law_running_sessions_are_counted(registry.sessions);
    assert(screen_estimate(params.cols, params.rows, 0) == 32 * (params.cols * params.rows));
    if index_of(registry.sessions, params.session_id@) is Some {
        let index = index_of(registry.sessions, params.session_id@).unwrap();
        assert(registry.sessions[index].id == params.session_id@);
    }
}

/// A screen takes 32 bytes for each cell, those of the lines above it included.
pub proof fn law_screen_takes_32_bytes_a_cell(cols: u16, rows: u16, history: nat)
    ensures
        screen_estimate(cols, rows, history as int) == 32 * (cols * (rows + history)),
{
}

/// What is reported of a launch reaches the session of that launch, whether clients see it or not,
/// and no other session.
pub proof fn law_reports_reach_one_launch(
    registry: RegistryModel,
    id: Seq<char>,
    incarnation: Seq<char>,
    session: SessionModel,
)
    ensures
        ({
            let after = with_launched(registry, id, incarnation, session);
            &&& after == (RegistryModel {
                sessions: after.sessions,
                departed: after.departed,
                ..registry
            })
            &&& after.sessions.len() == registry.sessions.len()
            &&& after.departed.len() == registry.departed.len()
            &&& forall|i: int|
                0 <= i < registry.sessions.len() && ((#[trigger] registry.sessions[i]).id != id
                    || registry.sessions[i].incarnation != incarnation) ==> after.sessions[i]
                    == registry.sessions[i]
            &&& forall|i: int|
                0 <= i < registry.departed.len() && ((#[trigger] registry.departed[i]).id != id
                    || registry.departed[i].incarnation != incarnation) ==> after.departed[i]
                    == registry.departed[i]
            &&& match launched_session(registry, id, incarnation) {
                Some(found) => found.id == id && found.incarnation == incarnation && (
                after.sessions.contains(session) || after.departed.contains(session)),
                None => after == registry,
            }
            &&& (exists|i: int|
                0 <= i < registry.sessions.len() && (#[trigger] registry.sessions[i]).id == id
                    && registry.sessions[i].incarnation == incarnation) ==> launched_session(
                registry,
                id,
                incarnation,
            ) is Some && registry.sessions.contains(
                launched_session(registry, id, incarnation).unwrap(),
            ) && after.sessions.contains(session)
        }),
{
    law_sessions_are_found_by_name(registry.sessions, id, incarnation);
    law_sessions_are_found_by_name(registry.departed, id, incarnation);
    let after = with_launched(registry, id, incarnation, session);
    match launch_index(registry.sessions, id, incarnation) {
        Some(index) => {
            assert(after.sessions[index] == session);
            assert(registry.sessions[index] == launched_session(registry, id, incarnation).unwrap());
        },
        None => match launch_index(registry.departed, id, incarnation) {
            Some(index) => assert(after.departed[index] == session),
            None => {},
        },
    }
}

/// Clients are told the identifier of every session, in order, and no other.
pub proof fn law_reconcile_names_every_session(sessions: Seq<SessionModel>)
    ensures
        ids(sessions).len() == sessions.len(),
        forall|i: int| 0 <= i < sessions.len() ==> ids(sessions)[i] == (#[trigger] sessions[i]).id,
{
}

/// Sessions that a shutdown drops are still told how their process ended: those whose end was not
/// reported yet are kept apart, with those that were before, and no other.
pub proof fn law_dropped_sessions_are_kept_until_reported(
    registry: RegistryModel,
    session: SessionModel,
)
    ensures
        shut_down(registry, ShutdownMode::Now).departed.contains(session) <==> (
        registry.departed.contains(session) || registry.sessions.contains(session)
            && !session.finished),
        shut_down(registry, ShutdownMode::Drain).departed.contains(session) <==> (
        registry.departed.contains(session) || registry.sessions.contains(session)
            && session.status == SessionStatus::Exited && !session.finished),
        shut_down(registry, ShutdownMode::Now).version == registry.version,
        shut_down(registry, ShutdownMode::Drain).version == registry.version,
        shut_down(registry, ShutdownMode::Now).started_ms == registry.started_ms,
        shut_down(registry, ShutdownMode::Drain).started_ms == registry.started_ms,
{
    lemma_unreported(registry.sessions, session);
    lemma_contains_concat(registry.departed, unfinished_only(registry.sessions), session);
    lemma_contains_concat(registry.departed, unreported_exits(registry.sessions), session);
}

proof fn lemma_contains_concat(
    first: Seq<SessionModel>,
    second: Seq<SessionModel>,
    session: SessionModel,
)
    ensures
        (first + second).contains(session) <==> first.contains(session) || second.contains(session),
{
    let both = first + second;
    if first.contains(session) {
        let i = choose|i: int| 0 <= i < first.len() && first[i] == session;
        assert(both[i] == session);
    }
    if second.contains(session) {
        let i = choose|i: int| 0 <= i < second.len() && second[i] == session;
        assert(both[first.len() + i] == session);
    }
    if both.contains(session) {
        let i = choose|i: int| 0 <= i < both.len() && both[i] == session;
        if i < first.len() {
            assert(first[i] == session);
        } else {
            assert(second[i - first.len()] == session);
        }
    }
}

proof fn lemma_contains_push(
    sessions: Seq<SessionModel>,
    last: SessionModel,
    session: SessionModel,
)
    ensures
        sessions.push(last).contains(session) <==> sessions.contains(session) || last == session,
{
    lemma_contains_concat(sessions, seq![last], session);
    assert(sessions.push(last) == sessions + seq![last]);
    assert(seq![last][0] == last);
}

proof fn lemma_unreported(sessions: Seq<SessionModel>, session: SessionModel)
    ensures
        unfinished_only(sessions).contains(session) <==> sessions.contains(session)
            && !session.finished,
        unreported_exits(sessions).contains(session) <==> sessions.contains(session)
            && session.status == SessionStatus::Exited && !session.finished,
    decreases sessions.len(),
{
    if sessions.len() > 0 {
        let shorter = sessions.drop_last();
        lemma_unreported(shorter, session);
        lemma_contains_push(shorter, sessions.last(), session);
        assert(sessions == shorter.push(sessions.last()));
        lemma_contains_push(unfinished_only(shorter), sessions.last(), session);
        lemma_contains_push(unreported_exits(shorter), sessions.last(), session);
    }
}

/// Clients are told of every chunk of output with the data that was written and with the number that
/// it is kept under, and of the end of a process with what was reported.
pub proof fn law_clients_are_told_what_happened(
    session: SessionModel,
    data: Seq<char>,
    now_ms: u64,
    exit: ChildExit,
)
    requires
        session.raw.len() < u64::MAX,
        !session.retired,
    ensures
        session.output_notice(data) matches Notice::Data {
            session_id,
            incarnation_id,
            data: told,
            seq,
        } && {
            &&& session_id == session.id
            &&& incarnation_id == session.incarnation
            &&& told == data
            &&& seq == session.raw.len() + 1
            &&& seq == session.appended(data, now_ms).state(0).seq
        },
        session.exit_notice(exit) matches Notice::Exit {
            session_id,
            incarnation_id,
            exit_code,
            signal,
        } && session_id == session.id && incarnation_id == session.incarnation && exit_code
            == exit.exit_code && signal == exit.signal,
{
}

/// Looking after the sessions looks after every one of them, and changes nothing else.
pub proof fn law_every_session_is_looked_after(registry: RegistryModel, now_ms: u64)
    ensures
        ({
            let after = maintained(registry, now_ms);
            &&& after == (RegistryModel { sessions: after.sessions, ..registry })
            &&& after.sessions.len() == registry.sessions.len()
            &&& forall|i: int|
                0 <= i < registry.sessions.len() ==> #[trigger] after.sessions[i]
                    == registry.sessions[i].refreshed(now_ms)
        }),
{
}

/// Once the end of a launch has been reported, its session is settled, and gone if clients do not see
/// it any more; no other session changes.
pub proof fn law_reported_end_settles_one_session(
    registry: RegistryModel,
    id: Seq<char>,
    incarnation: Seq<char>,
)
    ensures
        ({
            let after = after_finish(registry, id, incarnation);
            &&& after == (RegistryModel {
                sessions: after.sessions,
                departed: after.departed,
                ..registry
            })
            &&& after.sessions.len() == registry.sessions.len()
            &&& forall|i: int|
                0 <= i < registry.sessions.len() && ((#[trigger] registry.sessions[i]).id != id
                    || registry.sessions[i].incarnation != incarnation) ==> after.sessions[i]
                    == registry.sessions[i]
            &&& launch_index(registry.sessions, id, incarnation) matches Some(index)
                ==> after.sessions[index] == registry.sessions[index].settled() && after.departed
                == registry.departed
            &&& launch_index(registry.sessions, id, incarnation) is None ==> after.sessions
                == registry.sessions && after.departed.len() + (if launched_session(
                registry,
                id,
                incarnation,
            ) is Some {
                1int
            } else {
                0int
            }) == registry.departed.len()
            &&& launch_index(registry.sessions, id, incarnation) is None ==> (launch_index(
                registry.departed,
                id,
                incarnation,
            ) matches Some(index) ==> after.departed == registry.departed.remove(index))
        }),
{
    law_sessions_are_found_by_name(registry.sessions, id, incarnation);
    law_sessions_are_found_by_name(registry.departed, id, incarnation);
}

/// A launched process becomes a session behind the others, unless there has come to be one of that
/// name; then nothing changes.
pub proof fn law_launch_adds_one_session(
    registry: RegistryModel,
    params: CreateOrAttachParams,
    pid: u32,
    incarnation: Seq<char>,
)
    ensures
        ({
            let after = after_creation(registry, params, pid, incarnation);
            let present = exists|i: int|
                0 <= i < registry.sessions.len() && (#[trigger] registry.sessions[i]).id
                    == params.session_id@;
            &&& present ==> after == registry
            &&& !present ==> {
                &&& after == (RegistryModel { sessions: after.sessions, ..registry })
                &&& after.sessions.len() == registry.sessions.len() + 1
                &&& after.sessions.drop_last() == registry.sessions
                &&& after.sessions.last().id == params.session_id@
                &&& after.sessions.last().pid == pid
                &&& after.sessions.last().incarnation == incarnation
            }
        }),
{
    law_sessions_are_found_by_name(registry.sessions, params.session_id@, incarnation);
    if let Some(index) = index_of(registry.sessions, params.session_id@) {
        assert(registry.sessions[index].id == params.session_id@);
    }
    let after = after_creation(registry, params, pid, incarnation);
    assert(index_of(registry.sessions, params.session_id@) is None ==> after.sessions.drop_last()
        == registry.sessions);
}

/// A state that is handed out means what it holds: its texts, its chunks one by one, and its
/// snapshot with its pending operations one by one.
pub proof fn law_state_means_what_it_holds(state: SessionState)
    ensures
        state@.session_id == state.session_id@,
        state@.incarnation_id == state.incarnation_id@,
        state@.pid == state.pid,
        state@.status == state.status,
        state@.exit_code == state.exit_code,
        state@.cols == state.cols && state@.rows == state.rows,
        state@.seq == state.seq,
        state@.output == state.output@,
        state@.chunks.len() == state.chunks@.len(),
        forall|i: int|
            0 <= i < state.chunks@.len() ==> state@.chunks[i] == (
                (#[trigger] state.chunks@[i]).seq,
                state.chunks@[i].data@,
            ),
        match (state@.terminal_snapshot, state.terminal_snapshot) {
            (Some(image), Some(snapshot)) => image == snapshot@,
            (None, None) => true,
            _ => false,
        },
        match (state@.launch_marker_token, state.launch_marker_token) {
            (Some(text), Some(token)) => text == token@,
            (None, None) => true,
            _ => false,
        },
{
}

/// A snapshot that is handed out means what it holds.
pub proof fn law_snapshot_means_what_it_holds(snapshot: TerminalSnapshot)
    ensures
        snapshot@.version == snapshot.version,
        snapshot@.data == snapshot.data@,
        snapshot@.cols == snapshot.cols && snapshot@.rows == snapshot.rows,
        snapshot@.pending.len() == snapshot.pending@.len(),
        forall|i: int|
            0 <= i < snapshot.pending@.len() ==> match (
                snapshot@.pending[i],
                #[trigger] snapshot.pending@[i],
            ) {
                (Operation::Data { data }, PendingOp::Data { data: text }) => data == text@,
                (
                    Operation::Resize { cols, rows },
                    PendingOp::Resize { cols: wide, rows: high },
                ) => cols == wide && rows == high,
                _ => false,
            },
{
}

/// An event that is published means what it holds.
pub proof fn law_event_means_what_it_holds(event: Event)
    ensures
        match (event@, event) {
            (
                Notice::Data { session_id, incarnation_id, data, seq },
                Event::Data { session_id: id, incarnation_id: launch, data: text, seq: number },
            ) => session_id == id@ && incarnation_id == launch@ && data == text@ && seq == number,
            (
                Notice::Exit { session_id, incarnation_id, exit_code, signal },
                Event::Exit {
                    session_id: id,
                    incarnation_id: launch,
                    exit_code: code,
                    signal: signo,
                },
            ) => session_id == id@ && incarnation_id == launch@ && exit_code == code && signal
                == signo,
            (Notice::Reconcile { session_ids }, Event::Reconcile { session_ids: names }) => {
                &&& session_ids.len() == names@.len()
                &&& forall|i: int|
                    0 <= i < names@.len() ==> session_ids[i] == (#[trigger] names@[i])@
            },
            _ => false,
        },
{
}

/// Where another size cuts a character in two, the screen is a new one of that size on which the old
/// one was drawn as a copy of it shows at that size: the screen that is shown, with its attributes,
/// its modes and its wrap mode, and before it the main screen where the alternate one is shown.
pub proof fn law_cut_screen_is_drawn_again(session: SessionModel, cols: u16, rows: u16)
    requires
        2 <= rows,
        3 <= cols < feed_size(session.feed).1,
        cols < 65_528,
        !is_uncut(session.feed, rows, cols),
    ensures
        ({
            let after = session.resized(cols, rows);
            let wraps = dec_scanned(true, fed_bytes(session.feed)).0;
            let cut = session.feed.push(TerminalOp::Rest).push(TerminalOp::Resize { rows, cols });
            let main = cut.push(
                TerminalOp::Data { bytes: seq![0x1bu8, 0x5bu8, 0x3fu8, 0x34u8, 0x37u8, 0x6cu8] },
            );
            let start = TerminalOp::Start { rows, cols, scrollback: 5_000 };
            let top = TerminalOp::Data {
                bytes: redrawing(cut, formatted_contents(cut, 0), wraps),
            };
            let below = TerminalOp::Data {
                bytes: redrawing(main, formatted_contents(main, 0), wraps),
            };
            &&& after.feed == (if shows_alternate(cut) {
                seq![start, below, top]
            } else {
                seq![start, top]
            })
            &&& after.baseline_feed == after.feed
            &&& after.pending.len() == 0
            &&& after.cols == cols && after.rows == rows
            &&& after.raw == session.raw
        }),
{
    let wraps = feed_wraps(session.feed);
    let cut = trial(session.feed, rows, cols);
    let main = other_trial(session.feed, rows, cols);
    law_snapshot_leaves_nothing_out(cut, 0, wraps);
    law_snapshot_leaves_nothing_out(main, 0, wraps);
    assert(SHOW_MAIN@ == seq![0x1bu8, 0x5bu8, 0x3fu8, 0x34u8, 0x37u8, 0x6cu8]);
}

/// The largest size of a screen, by which it is estimated, is the most columns and the most rows that
/// it was ever given.
pub proof fn law_largest_size_is_remembered(feed: Seq<TerminalOp>, at: int)
    requires
        0 <= at < feed.len(),
    ensures
        match feed[at] {
            TerminalOp::Start { rows, cols, .. } => cols <= feed_widest(feed) && rows
                <= feed_tallest(feed),
            TerminalOp::Resize { rows, cols } => cols <= feed_widest(feed) && rows <= feed_tallest(
                feed,
            ),
            _ => true,
        },
        feed_widest(feed) > 0 ==> exists|i: int|
            0 <= i < feed.len() && match #[trigger] feed[i] {
                TerminalOp::Start { cols, .. } => cols == feed_widest(feed),
                TerminalOp::Resize { cols, .. } => cols == feed_widest(feed),
                _ => false,
            },
        feed_tallest(feed) > 0 ==> exists|i: int|
            0 <= i < feed.len() && match #[trigger] feed[i] {
                TerminalOp::Start { rows, .. } => rows == feed_tallest(feed),
                TerminalOp::Resize { rows, .. } => rows == feed_tallest(feed),
                _ => false,
            },
    decreases feed.len(),
{
    let shorter = feed.drop_last();
    let last = feed.len() - 1;
    assert(feed[last] == feed.last());
    if shorter.len() > 0 {
        law_largest_size_is_remembered(
            shorter,
            if at < last {
                at
            } else {
                0
            },
        );
        assert forall|i: int| 0 <= i < shorter.len() implies shorter[i] == #[trigger] feed[i] by {}
        if feed_widest(shorter) > 0 {
            let i = choose|i: int|
                0 <= i < shorter.len() && match #[trigger] shorter[i] {
                    TerminalOp::Start { cols, .. } => cols == feed_widest(shorter),
                    TerminalOp::Resize { cols, .. } => cols == feed_widest(shorter),
                    _ => false,
                };
            assert(feed[i] == shorter[i]);
        }
        if feed_tallest(shorter) > 0 {
            let i = choose|i: int|
                0 <= i < shorter.len() && match #[trigger] shorter[i] {
                    TerminalOp::Start { rows, .. } => rows == feed_tallest(shorter),
                    TerminalOp::Resize { rows, .. } => rows == feed_tallest(shorter),
                    _ => false,
                };
            assert(feed[i] == shorter[i]);
        }
    } else {
        assert(feed_widest(shorter) == 0);
        assert(feed_tallest(shorter) == 0);
    }
}

/// The screen has the size that was asked for wherever there is room in it, and else the nearest one
/// that there is: at least 2 rows, and 3 to 65527 columns.
pub proof fn law_screen_has_the_size_asked_for(rows: u16, cols: u16)
    ensures
        rows >= 2 ==> grid_rows(rows) == rows,
        rows < 2 ==> grid_rows(rows) == 2,
        3 <= cols <= 65_527 ==> grid_cols(cols) == cols,
        cols < 3 ==> grid_cols(cols) == 3,
        cols > 65_527 ==> grid_cols(cols) == 65_527,
{
}

/// An estimate of what a session retains is never less than its texts, which are the output, the
/// chunks, the baseline and what is pending, and 32 bytes for each cell of its screen at its largest,
/// with the lines above it that the baseline showed.
pub proof fn law_estimate_covers_text_and_screen(session: SessionModel, bytes: u64)
    requires
        is_estimate(bytes, session),
    ensures
        ({
            let screen = 32 * (feed_widest(session.feed) * (feed_tallest(session.feed)
                + history_rows(session.baseline_feed)));
            let output = encode_utf8(last_200000(shown(session.token, session.raw))).len() as int;
            let chunks = total_bytes(replay_window(session.raw));
            let baseline = encode_utf8(session.snapshot().data).len() as int;
            let pending = pending_bytes(session.pending);
            output <= usize::MAX && chunks <= usize::MAX && baseline <= usize::MAX && pending
                <= usize::MAX ==> bytes == u64::MAX || bytes >= screen + output + chunks + baseline
                + pending
        }),
{
    assert(newest_chars(shown(session.token, session.raw), 200_000) == last_200000(
        shown(session.token, session.raw),
    ));
}

/// What all sessions retain is the sum over every one of them, or as much as can be counted.
pub proof fn law_every_session_is_estimated(sessions: Seq<SessionModel>, bytes: u64)
    requires
        is_total_estimate(bytes, sessions),
    ensures
        exists|parts: Seq<u64>|
            {
                &&& parts.len() == sessions.len()
                &&& forall|i: int|
                    0 <= i < parts.len() ==> is_estimate(#[trigger] parts[i], sessions[i])
                &&& bytes == (if #[trigger] sum_of(parts) <= u64::MAX {
                    sum_of(parts)
                } else {
                    u64::MAX as int
                })
            },
    decreases sessions.len(),
{
    if sessions.len() == 0 {
        let parts = Seq::<u64>::empty();
        assert(sum_of(parts) == 0);
    } else {
        let (before, last) = choose|before: u64, last: u64| #[trigger]
            is_capped_sum(bytes, before, last) && is_total_estimate(before, sessions.drop_last())
                && is_estimate(last, sessions.last());
        law_every_session_is_estimated(sessions.drop_last(), before);
        let shorter = choose|parts: Seq<u64>|
            {
                &&& parts.len() == sessions.drop_last().len()
                &&& forall|i: int|
                    0 <= i < parts.len() ==> is_estimate(
                        #[trigger] parts[i],
                        sessions.drop_last()[i],
                    )
                &&& before == (if #[trigger] sum_of(parts) <= u64::MAX {
                    sum_of(parts)
                } else {
                    u64::MAX as int
                })
            };
        let parts = shorter.push(last);
        assert(parts.drop_last() == shorter);
        assert(sum_of(parts) == sum_of(shorter) + last);
        assert forall|i: int| 0 <= i < parts.len() implies is_estimate(
            #[trigger] parts[i],
            sessions[i],
        ) by {
            if i < shorter.len() {
                assert(is_estimate(shorter[i], sessions.drop_last()[i]));
            }
        }
    }
}

/// The sum of numbers.
pub open spec fn sum_of(parts: Seq<u64>) -> int
    decreases parts.len(),
{
    if parts.len() == 0 {
        0
    } else {
        sum_of(parts.drop_last()) + parts.last()
    }
}

/// A decision on a request for a session is carried out: a session that is there is attached to and
/// told of from the number asked for on, a new one is launched as asked for, and a refusal says
/// whether the request was wrong or came at the wrong time.
pub proof fn law_decision_is_carried_out(
    result: Result<Admission, RenderError>,
    verdict: CreateVerdict,
    registry: RegistryModel,
    params: CreateOrAttachParams,
)
    requires
        carries_out(result, verdict, registry, params),
    ensures
        match verdict {
            CreateVerdict::Attach(index) => match result {
                Ok(Admission::Attached(attached)) => !attached.is_new && attached.state@
                    == registry.sessions[index].state(params.after_seq),
                _ => false,
            },
            CreateVerdict::Launch => match result {
                Ok(Admission::Launch(plan)) => is_plan_for(plan, params),
                _ => false,
            },
            CreateVerdict::Invalid(reason) => match result {
                Err(RenderError::BadRequest(text)) => text@ == reason,
                _ => false,
            },
            CreateVerdict::ShuttingDown | CreateVerdict::TooMany
            | CreateVerdict::NoRoom => match result {
                Err(RenderError::Conflict(_)) => true,
                _ => false,
            },
        },
{
}

/// The lines above a screen that count are those that it keeps, and none while the alternate screen
/// is shown.
pub proof fn law_lines_above_count_where_they_show(feed: Seq<TerminalOp>)
    ensures
        shows_alternate(feed) ==> history_rows(feed) == 0,
        !shows_alternate(feed) ==> history_rows(feed) == rows_kept(feed),
{
}

} // verus!
