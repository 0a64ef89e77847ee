//! The wire types and limits of the structured process protocol, version 2. Requests and answers
//! have the same form as in version 1.

use vstd::prelude::*;

pub use crate::protocol::{ErrorBody, ErrorCode, Request, Response, ShutdownMode};
use crate::protocol::texts;

verus! {

/// The version of the protocol that requests must name.
pub const STRUCTURED_PROTOCOL_VERSION: u32 = 2;

/// The most bytes that are kept of one stream of one run.
pub const RUN_LOG_MAX_BYTES: usize = 8_388_608;

/// The most bytes that one page of a replay holds, for both streams together.
pub const REPLAY_PAGE_MAX_BYTES: usize = 524_288;

/// What is told of a run. Nothing that was given to launch it is in here.
#[derive(Debug, Clone, PartialEq, Eq)]
pub struct RunState {
    pub run_id: String,
    pub incarnation_id: String,
    pub pid: u32,
    pub status: RunStatus,
    pub exit_code: Option<i32>,
    pub signal: Option<i32>,
    pub stdout_seq: u64,
    pub stderr_seq: u64,
    pub stdout_truncated: bool,
    pub stderr_truncated: bool,
}

#[derive(Debug, Clone, Copy, PartialEq, Eq, Structural)]
pub enum RunStatus {
    Running,
    Exited,
}

#[derive(Debug, Clone, PartialEq, Eq)]
pub struct SpawnParams {
    pub run_id: String,
    pub file: String,
    pub args: Vec<String>,
    pub cwd: String,
    /// Variables and their values; of two entries for one variable the later one counts.
    pub env: Vec<(String, String)>,
    /// What is written to the process once, before its input is closed.
    pub stdin_data: Option<String>,
}

#[derive(Debug, Clone, PartialEq, Eq)]
pub struct SpawnResult {
    pub state: RunState,
    pub is_new: bool,
}

#[derive(Debug, Clone, PartialEq, Eq)]
pub struct ListResult {
    pub runs: Vec<RunState>,
}

#[derive(Debug, Clone, PartialEq, Eq)]
pub struct AttachParams {
    pub run_id: String,
    pub after_stdout_seq: u64,
    pub after_stderr_seq: u64,
    /// How many bytes the page may hold, for both streams together.
    pub max_bytes: Option<usize>,
}

/// A piece of output with its sequence number.
#[derive(Debug, PartialEq, Eq)]
pub struct StreamChunk {
    pub seq: u64,
    pub data: String,
}

impl View for StreamChunk {
    type V = (u64, Seq<char>);

    open spec fn view(&self) -> (u64, Seq<char>) {
        (self.seq, self.data@)
    }
}

impl Clone for StreamChunk {
    fn clone(&self) -> (copy: Self)
        ensures
            copy@ == self@,
    {
        StreamChunk { seq: self.seq, data: self.data.clone() }
    }
}

/// A page of one stream.
#[derive(Debug, Clone, PartialEq, Eq)]
pub struct ReplayStream {
    pub chunks: Vec<StreamChunk>,
    /// The number of the last chunk on the page, or the one that was asked for if there is none.
    pub next_seq: u64,
    /// Whether the page reaches the end of the stream.
    pub complete: bool,
    /// Whether the client asked for something that is not kept: it must start over.
    pub reset_required: bool,
}

#[derive(Debug, Clone, PartialEq, Eq)]
pub struct AttachResult {
    pub state: RunState,
    pub stdout: ReplayStream,
    pub stderr: ReplayStream,
}

#[derive(Debug, Clone, PartialEq, Eq)]
pub struct RunIdParams {
    pub run_id: String,
}

#[derive(Debug, Clone, PartialEq, Eq)]
pub struct InterruptParams {
    pub run_id: String,
    pub signal: Option<String>,
}

#[derive(Debug, Clone, PartialEq, Eq)]
pub struct HelloResult {
    pub version: String,
    pub protocol_version: u32,
    pub pid: u32,
    pub started_at: String,
    pub runs: usize,
}

#[derive(Debug, Clone, Copy, PartialEq, Eq, Structural)]
pub struct StatsResult {
    pub runs: usize,
    pub running_runs: usize,
    pub retained_log_bytes: usize,
    pub rss_bytes: u64,
}

/// What is broadcast to every authenticated client.
#[derive(Debug, Clone, PartialEq, Eq)]
pub enum Event {
    Stream {
        run_id: String,
        incarnation_id: String,
        stream: StreamName,
        seq: u64,
        data: String,
    },
    Exit {
        run_id: String,
        incarnation_id: String,
        exit_code: Option<i32>,
        signal: Option<i32>,
    },
    Reconcile { run_ids: Vec<String> },
}

#[derive(Debug, Clone, Copy, PartialEq, Eq, Structural)]
pub enum StreamName {
    Stdout,
    Stderr,
}

/// The meaning of a `RunState`.
#[verifier::ext_equal]
pub struct RunImage {
    pub run_id: Seq<char>,
    pub incarnation_id: Seq<char>,
    pub pid: u32,
    pub status: RunStatus,
    pub exit_code: Option<i32>,
    pub signal: Option<i32>,
    pub stdout_seq: u64,
    pub stderr_seq: u64,
    pub stdout_truncated: bool,
    pub stderr_truncated: bool,
}

impl View for RunState {
    type V = RunImage;

    open spec fn view(&self) -> RunImage {
        RunImage {
            run_id: self.run_id@,
            incarnation_id: self.incarnation_id@,
            pid: self.pid,
            status: self.status,
            exit_code: self.exit_code,
            signal: self.signal,
            stdout_seq: self.stdout_seq,
            stderr_seq: self.stderr_seq,
            stdout_truncated: self.stdout_truncated,
            stderr_truncated: self.stderr_truncated,
        }
    }
}

/// The meaning of an `Event`.
#[verifier::ext_equal]
pub enum RunNotice {
    Stream {
        run_id: Seq<char>,
        incarnation_id: Seq<char>,
        stream: StreamName,
        seq: u64,
        data: Seq<char>,
    },
    Exit {
        run_id: Seq<char>,
        incarnation_id: Seq<char>,
        exit_code: Option<i32>,
        signal: Option<i32>,
    },
    Reconcile { run_ids: Seq<Seq<char>> },
}

impl View for Event {
    type V = RunNotice;

    open spec fn view(&self) -> RunNotice {
        match *self {
            Event::Stream { run_id, incarnation_id, stream, seq, data } => RunNotice::Stream {
                run_id: run_id@,
                incarnation_id: incarnation_id@,
                stream,
                seq,
                data: data@,
            },
            Event::Exit { run_id, incarnation_id, exit_code, signal } => RunNotice::Exit {
                run_id: run_id@,
                incarnation_id: incarnation_id@,
                exit_code,
                signal,
            },
            Event::Reconcile { run_ids } => RunNotice::Reconcile { run_ids: texts(run_ids@) },
        }
    }
}

/// The meaning of chunks: sequence numbers and texts.
pub open spec fn chunk_views(chunks: Seq<StreamChunk>) -> Seq<(u64, Seq<char>)> {
    Seq::new(chunks.len(), |i: int| chunks[i]@)
}

/// The meaning of a `ReplayStream`.
#[verifier::ext_equal]
pub struct Page {
    pub chunks: Seq<(u64, Seq<char>)>,
    pub next_seq: u64,
    pub complete: bool,
    pub reset_required: bool,
}

impl View for ReplayStream {
    type V = Page;

    open spec fn view(&self) -> Page {
        Page {
            chunks: chunk_views(self.chunks@),
            next_seq: self.next_seq,
            complete: self.complete,
            reset_required: self.reset_required,
        }
    }
}

} // verus!
