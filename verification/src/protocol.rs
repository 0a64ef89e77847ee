//! The wire types and limits of the terminal protocol, version 1.

use vstd::prelude::*;

verus! {

/// The version of the protocol that requests must name.
pub const RENDER_PROTOCOL_VERSION: u32 = 1;

/// The longest body of one frame, in bytes.
pub const MAX_FRAME_BYTES: u32 = 67_108_864;

/// The most characters that a session keeps of its output and of its replay window.
pub const PTY_OUTPUT_MAX_CHARS: usize = 200_000;

/// The most lines of history above the visible screen.
pub const SCROLLBACK_LINES: usize = 5_000;

/// How long output must be quiet before the baseline is taken anew, in milliseconds.
pub const SNAPSHOT_QUIET_MS: u64 = 100;

/// More pending characters than this make the baseline be taken anew at once.
pub const SNAPSHOT_PENDING_MAX_CHARS: usize = 262_144;

/// More pending operations than this make the baseline be taken anew at once.
pub const SNAPSHOT_PENDING_MAX_OPS: usize = 1_024;

#[derive(Debug, Clone, PartialEq)]
pub struct Request {
    pub id: u32,
    pub token: String,
    pub protocol_version: u32,
    pub method: String,
    pub params: Option<serde_json::Value>,
}

#[derive(Debug, Clone, PartialEq)]
pub struct Response {
    pub id: u32,
    pub ok: bool,
    pub result: Option<serde_json::Value>,
    pub error: Option<ErrorBody>,
}

#[derive(Debug, Clone, PartialEq)]
pub struct ErrorBody {
    pub code: ErrorCode,
    pub message: String,
}

#[derive(Debug, Clone, Copy, PartialEq, Eq, Structural)]
pub enum ErrorCode {
    Unauthorized,
    BadRequest,
    NotFound,
    Conflict,
    UnsupportedMethod,
    ProtocolMismatch,
    Internal,
}

/// What is broadcast to every authenticated client.
#[derive(Debug, Clone, PartialEq)]
pub enum Event {
    Data { session_id: String, incarnation_id: String, data: String, seq: u64 },
    Exit {
        session_id: String,
        incarnation_id: String,
        exit_code: Option<i32>,
        signal: Option<i32>,
    },
    Reconcile { session_ids: Vec<String> },
}

#[derive(Debug, Clone, PartialEq)]
pub struct HelloResult {
    pub version: String,
    pub protocol_version: u32,
    pub pid: u32,
    pub started_at: String,
    pub sessions: usize,
}

#[derive(Debug, Clone, PartialEq)]
pub struct ListResult {
    pub sessions: Vec<SessionState>,
}

#[derive(Debug, Clone, PartialEq)]
pub struct AttachParams {
    pub session_id: String,
    pub after_seq: u64,
}

#[derive(Debug, Clone, PartialEq)]
pub struct AttachResult {
    pub state: SessionState,
}

#[derive(Debug, Clone, PartialEq)]
pub struct CreateOrAttachParams {
    pub session_id: String,
    pub file: String,
    pub args: Vec<String>,
    pub cwd: String,
    /// Variables and their values; of two entries for one variable the later one counts.
    pub env: Vec<(String, String)>,
    pub name: String,
    pub cols: u16,
    pub rows: u16,
    pub launch_marker_token: Option<String>,
    pub after_seq: u64,
}

/// The terminal name of a request that gives none.
pub fn default_term_name() -> (name: String)
    ensures
        name@ == "xterm-256color"@,
{
    "xterm-256color".to_owned()
}

#[derive(Debug, Clone, PartialEq)]
pub struct CreateOrAttachResult {
    pub state: SessionState,
    pub is_new: bool,
}

#[derive(Debug, Clone, PartialEq)]
pub struct WriteParams {
    pub session_id: String,
    pub data: String,
}

#[derive(Debug, Clone, PartialEq)]
pub struct ResizeParams {
    pub session_id: String,
    pub cols: u16,
    pub rows: u16,
}

#[derive(Debug, Clone, PartialEq)]
pub struct KillParams {
    pub session_id: String,
    pub signal: Option<String>,
}

#[derive(Debug, Clone, PartialEq)]
pub struct ForgetParams {
    pub session_id: String,
}

#[derive(Debug, Clone, Copy, PartialEq, Eq, Structural)]
pub struct StatsResult {
    pub uptime_ms: u64,
    pub sessions: usize,
    pub live_bytes: u64,
    pub rss_bytes: u64,
}

#[derive(Debug, Clone, Copy, PartialEq, Eq, Structural)]
pub struct ShutdownParams {
    pub mode: ShutdownMode,
}

#[derive(Debug, Clone, Copy, PartialEq, Eq, Structural)]
pub enum ShutdownMode {
    /// No new sessions; running ones stay.
    Drain,
    /// Every session is killed.
    Now,
}

/// All that a client needs to rebuild one session.
#[derive(Debug, Clone, PartialEq)]
pub struct SessionState {
    pub session_id: String,
    pub incarnation_id: String,
    pub pid: u32,
    pub status: SessionStatus,
    pub exit_code: Option<i32>,
    pub cols: u16,
    pub rows: u16,
    pub seq: u64,
    pub output: String,
    pub chunks: Vec<Chunk>,
    pub terminal_snapshot: Option<TerminalSnapshot>,
    pub launch_marker_token: Option<String>,
}

#[derive(Debug, Clone, Copy, PartialEq, Eq, Structural)]
pub enum SessionStatus {
    Running,
    Exited,
}

/// A piece of output with its sequence number.
#[derive(Debug, Clone, PartialEq)]
pub struct Chunk {
    pub data: String,
    pub seq: u64,
}

/// A screen to be rebuilt: write `data`, then replay `pending` in order.
#[derive(Debug, PartialEq)]
pub struct TerminalSnapshot {
    pub version: u32,
    pub data: String,
    pub cols: u16,
    pub rows: u16,
    pub pending: Vec<PendingOp>,
}

/// What happened to a screen after its baseline was taken.
#[derive(Debug, PartialEq)]
pub enum PendingOp {
    Data { data: String },
    Resize { cols: u16, rows: u16 },
}

/// The meaning of a `PendingOp`.
pub enum Operation {
    Data { data: Seq<char> },
    Resize { cols: u16, rows: u16 },
}

impl View for PendingOp {
    type V = Operation;

    open spec fn view(&self) -> Operation {
        match *self {
            PendingOp::Data { data } => Operation::Data { data: data@ },
            PendingOp::Resize { cols, rows } => Operation::Resize { cols, rows },
        }
    }
}

impl Clone for PendingOp {
    fn clone(&self) -> (copy: Self)
        ensures
            copy@ == self@,
    {
        match self {
            PendingOp::Data { data } => PendingOp::Data { data: data.clone() },
            PendingOp::Resize { cols, rows } => PendingOp::Resize { cols: *cols, rows: *rows },
        }
    }
}

/// The meaning of a list of pending operations.
pub open spec fn operations(pending: Seq<PendingOp>) -> Seq<Operation> {
    Seq::new(pending.len(), |i: int| pending[i]@)
}

/// A copy of a list of pending operations.
pub fn copy_pending(pending: &Vec<PendingOp>) -> (copy: Vec<PendingOp>)
    ensures
        operations(copy@) == operations(pending@),
{
    let mut copy: Vec<PendingOp> = Vec::new();
    let mut index: usize = 0;
    while index < pending.len()
        invariant
            index <= pending@.len(),
            copy@.len() == index,
            forall|i: int| 0 <= i < index ==> (#[trigger] copy@[i])@ == pending@[i]@,
        decreases pending@.len() - index,
    {
        copy.push(pending[index].clone());
        index = index + 1;
    }
    assert(operations(copy@) == operations(pending@));
    copy
}

/// The meaning of a `TerminalSnapshot`.
#[verifier::ext_equal]
pub struct ScreenImage {
    pub version: u32,
    pub data: Seq<char>,
    pub cols: u16,
    pub rows: u16,
    pub pending: Seq<Operation>,
}

impl View for TerminalSnapshot {
    type V = ScreenImage;

    open spec fn view(&self) -> ScreenImage {
        ScreenImage {
            version: self.version,
            data: self.data@,
            cols: self.cols,
            rows: self.rows,
            pending: operations(self.pending@),
        }
    }
}

impl Clone for TerminalSnapshot {
    fn clone(&self) -> (copy: Self)
        ensures
            copy@ == self@,
    {
        TerminalSnapshot {
            version: self.version,
            data: self.data.clone(),
            cols: self.cols,
            rows: self.rows,
            pending: copy_pending(&self.pending),
        }
    }
}

/// The meaning of chunks: sequence numbers and texts.
pub open spec fn numbered(chunks: Seq<Chunk>) -> Seq<(u64, Seq<char>)> {
    Seq::new(chunks.len(), |i: int| (chunks[i].seq, chunks[i].data@))
}

/// The text of an optional string.
pub open spec fn optional_text(text: Option<String>) -> Option<Seq<char>> {
    match text {
        Some(text) => Some(text@),
        None => None,
    }
}

/// The meaning of a `SessionState`.
#[verifier::ext_equal]
pub struct StateImage {
    pub session_id: Seq<char>,
    pub incarnation_id: Seq<char>,
    pub pid: u32,
    pub status: SessionStatus,
    pub exit_code: Option<i32>,
    pub cols: u16,
    pub rows: u16,
    pub seq: u64,
    pub output: Seq<char>,
    pub chunks: Seq<(u64, Seq<char>)>,
    pub terminal_snapshot: Option<ScreenImage>,
    pub launch_marker_token: Option<Seq<char>>,
}

impl View for SessionState {
    type V = StateImage;

    open spec fn view(&self) -> StateImage {
        StateImage {
            session_id: self.session_id@,
            incarnation_id: self.incarnation_id@,
            pid: self.pid,
            status: self.status,
            exit_code: self.exit_code,
            cols: self.cols,
            rows: self.rows,
            seq: self.seq,
            output: self.output@,
            chunks: numbered(self.chunks@),
            terminal_snapshot: match self.terminal_snapshot {
                Some(snapshot) => Some(snapshot@),
                None => None,
            },
            launch_marker_token: optional_text(self.launch_marker_token),
        }
    }
}

/// The meaning of an `Event`.
pub enum Notice {
    Data { session_id: Seq<char>, incarnation_id: Seq<char>, data: Seq<char>, seq: u64 },
    Exit {
        session_id: Seq<char>,
        incarnation_id: Seq<char>,
        exit_code: Option<i32>,
        signal: Option<i32>,
    },
    Reconcile { session_ids: Seq<Seq<char>> },
}

/// The texts of a list of strings.
pub open spec fn texts(strings: Seq<String>) -> Seq<Seq<char>> {
    Seq::new(strings.len(), |i: int| strings[i]@)
}

impl View for Event {
    type V = Notice;

    open spec fn view(&self) -> Notice {
        match *self {
            Event::Data { session_id, incarnation_id, data, seq } => Notice::Data {
                session_id: session_id@,
                incarnation_id: incarnation_id@,
                data: data@,
                seq,
            },
            Event::Exit { session_id, incarnation_id, exit_code, signal } => Notice::Exit {
                session_id: session_id@,
                incarnation_id: incarnation_id@,
                exit_code,
                signal,
            },
            Event::Reconcile { session_ids } => Notice::Reconcile {
                session_ids: texts(session_ids@),
            },
        }
    }
}

} // verus!
