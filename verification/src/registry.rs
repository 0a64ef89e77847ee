//! All sessions.
//!
//! Nothing leaves the registry by itself: a session whose process has ended stays until a client
//! asks to forget it, so that clients that come later can still learn how it ended.

use vstd::prelude::*;
use vstd::utf8::encode_utf8;

use crate::error::RenderError;
use crate::launch::{is_plan_for, launch_error, plan, size_error, LaunchFailure, LaunchPlan};
use crate::preview::{bound_for_list, bounded, LIST_SNAPSHOT_MAX_BYTES};
use crate::protocol::{
    texts, CreateOrAttachParams, CreateOrAttachResult, Event, HelloResult, Notice, SessionState,
    SessionStatus, ShutdownMode, StateImage, StatsResult, RENDER_PROTOCOL_VERSION,
};
use crate::session::{
    is_estimate, live_floor, requested_signal, screen_bytes, screen_estimate, started, u64_capped, ChildExit,
    Requested, Session, SessionModel,
};
use crate::signal::is_number_of;
use crate::utf8::{decoded, undecoded, IncrementalUtf8Decoder};

verus! {

/// The most sessions with a running process.
pub const MAX_RUNNING_SESSIONS: usize = 200;

/// What is set aside for the launch of a session, in bytes.
pub const LAUNCH_RESERVE_BYTES: u64 = 1_048_576;

/// What the registry is.
#[verifier::ext_equal]
pub struct RegistryModel {
    /// The sessions that clients see, in the order of their creation.
    pub sessions: Seq<SessionModel>,
    /// Sessions that clients no longer see, but whose process still reports.
    pub departed: Seq<SessionModel>,
    pub version: Seq<char>,
    pub started_at: Seq<char>,
    pub started_ms: u64,
    pub shutting_down: bool,
}

/// What a list of sessions is.
pub open spec fn models(sessions: Seq<Session>) -> Seq<SessionModel> {
    Seq::new(sessions.len(), |i: int| sessions[i]@)
}

/// Where the session with this identifier stands.
pub open spec fn index_of(sessions: Seq<SessionModel>, id: Seq<char>) -> Option<int>
    decreases sessions.len(),
{
    if sessions.len() == 0 {
        None
    } else if sessions.last().id == id {
        Some(sessions.len() - 1)
    } else {
        index_of(sessions.drop_last(), id)
    }
}

/// Where this launch of a session stands.
pub open spec fn launch_index(
    sessions: Seq<SessionModel>,
    id: Seq<char>,
    incarnation: Seq<char>,
) -> Option<int>
    decreases sessions.len(),
{
    if sessions.len() == 0 {
        None
    } else if sessions.last().id == id && sessions.last().incarnation == incarnation {
        Some(sessions.len() - 1)
    } else {
        launch_index(sessions.drop_last(), id, incarnation)
    }
}

/// No two sessions have the same identifier.
pub open spec fn distinct_ids(sessions: Seq<SessionModel>) -> bool {
    forall|i: int, j: int|
        0 <= i < j < sessions.len() ==> (#[trigger] sessions[i]).id != (#[trigger] sessions[j]).id
}

/// The number of sessions whose process runs.
pub open spec fn running_count(sessions: Seq<SessionModel>) -> nat
    decreases sessions.len(),
{
    if sessions.len() == 0 {
        0
    } else {
        running_count(sessions.drop_last()) + (if sessions.last().status == SessionStatus::Running {
            1nat
        } else {
            0nat
        })
    }
}

/// The sessions whose process runs, in order.
pub open spec fn running_only(sessions: Seq<SessionModel>) -> Seq<SessionModel>
    decreases sessions.len(),
{
    if sessions.len() == 0 {
        Seq::empty()
    } else {
        let before = running_only(sessions.drop_last());
        if sessions.last().status == SessionStatus::Running {
            before.push(sessions.last())
        } else {
            before
        }
    }
}

/// The sessions whose process has ended without having been reported, in order.
pub open spec fn unreported_exits(sessions: Seq<SessionModel>) -> Seq<SessionModel>
    decreases sessions.len(),
{
    if sessions.len() == 0 {
        Seq::empty()
    } else {
        let before = unreported_exits(sessions.drop_last());
        if sessions.last().status != SessionStatus::Running && !sessions.last().finished {
            before.push(sessions.last())
        } else {
            before
        }
    }
}

/// The sessions whose end has not been reported, in order.
pub open spec fn unfinished_only(sessions: Seq<SessionModel>) -> Seq<SessionModel>
    decreases sessions.len(),
{
    if sessions.len() == 0 {
        Seq::empty()
    } else {
        let before = unfinished_only(sessions.drop_last());
        if !sessions.last().finished {
            before.push(sessions.last())
        } else {
            before
        }
    }
}

/// The identifiers of sessions.
pub open spec fn ids(sessions: Seq<SessionModel>) -> Seq<Seq<char>> {
    Seq::new(sessions.len(), |i: int| sessions[i].id)
}

/// The processes of sessions.
pub open spec fn pids(sessions: Seq<SessionModel>) -> Seq<u32> {
    Seq::new(sessions.len(), |i: int| sessions[i].pid)
}

/// What a listing shows of a session: everything, with its snapshot cut to size.
pub open spec fn listed(session: SessionModel) -> StateImage {
    StateImage {
        terminal_snapshot: bounded(session.snapshot(), LIST_SNAPSHOT_MAX_BYTES as int),
        ..session.state(0)
    }
}

/// What sessions retain together at least.
pub open spec fn total_floor(sessions: Seq<SessionModel>) -> int
    decreases sessions.len(),
{
    if sessions.len() == 0 {
        0
    } else {
        total_floor(sessions.drop_last()) + live_floor(sessions.last())
    }
}

/// Whether a number is a sum, or the largest number where the sum does not fit.
pub open spec fn is_capped_sum(sum: u64, first: u64, second: u64) -> bool {
    sum == u64_capped(first + second)
}

/// Whether a number is an estimate of what sessions retain together: the sum of one for each.
pub open spec fn is_total_estimate(bytes: u64, sessions: Seq<SessionModel>) -> bool
    decreases sessions.len(),
{
    if sessions.len() == 0 {
        bytes == 0
    } else {
        exists|before: u64, last: u64| #[trigger]
            is_capped_sum(bytes, before, last) && is_total_estimate(before, sessions.drop_last())
                && is_estimate(last, sessions.last())
    }
}

/// What must be done about a request to create or attach to a session.
pub enum Admission {
    /// The session exists: this is its state.
    Attached(CreateOrAttachResult),
    /// The session is new: its process must be launched like this.
    Launch(LaunchPlan),
}

/// What came of a launch.
pub struct Creation {
    pub result: CreateOrAttachResult,
    /// The process that was launched for nothing, and must be terminated.
    pub discard: Option<u32>,
}

/// What a shutdown request leads to.
pub struct ShutdownOrders {
    /// The processes to kill.
    pub kill: Vec<u32>,
    pub event: Event,
}

/// A process and a signal to send to it.
#[derive(Debug, Clone, Copy, PartialEq, Eq, Structural)]
pub struct SignalOrder {
    pub pid: u32,
    pub signo: i32,
}

pub struct RenderRegistry {
    sessions: Vec<Session>,
    departed: Vec<Session>,
    version: String,
    started_at: String,
    started_ms: u64,
    shutting_down: bool,
}

impl View for RenderRegistry {
    type V = RegistryModel;

    closed spec fn view(&self) -> RegistryModel {
        RegistryModel {
            sessions: models(self.sessions@),
            departed: models(self.departed@),
            version: self.version@,
            started_at: self.started_at@,
            started_ms: self.started_ms,
            shutting_down: self.shutting_down,
        }
    }
}

proof fn lemma_index_of(sessions: Seq<SessionModel>, id: Seq<char>)
    ensures
        match index_of(sessions, id) {
            Some(index) => 0 <= index < sessions.len() && sessions[index].id == id,
            None => forall|i: int| 0 <= i < sessions.len() ==> (#[trigger] sessions[i]).id != id,
        },
    decreases sessions.len(),
{
    if sessions.len() > 0 && sessions.last().id != id {
        lemma_index_of(sessions.drop_last(), id);
        if index_of(sessions.drop_last(), id) is None {
            assert forall|i: int| 0 <= i < sessions.len() implies (#[trigger] sessions[i]).id
                != id by {
                if i < sessions.len() - 1 {
                    assert(sessions.drop_last()[i].id != id);
                }
            }
        }
    }
}

/// Where the session with this identifier stands.
fn find_session(sessions: &Vec<Session>, id: &String) -> (index: Option<usize>)
    ensures
        match (index, index_of(models(sessions@), id@)) {
            (Some(index), Some(at)) => index == at && index < sessions@.len(),
            (None, None) => true,
            _ => false,
        },
{
    let ghost all = models(sessions@);
    let mut index: usize = sessions.len();
    assert(all.take(index as int) == all);
    while index > 0
        invariant
            index <= sessions@.len(),
            all == models(sessions@),
            index_of(all, id@) == index_of(all.take(index as int), id@),
        decreases index,
    {
        index = index - 1;
        assert(all.take(index + 1).drop_last() == all.take(index as int));
        if *sessions[index].id() == *id {
            return Some(index);
        }
    }
    None
}

/// Where this launch of a session stands.
fn find_launch(sessions: &Vec<Session>, id: &String, incarnation: &String) -> (index: Option<usize>)
    ensures
        match (index, launch_index(models(sessions@), id@, incarnation@)) {
            (Some(index), Some(at)) => index == at && index < sessions@.len(),
            (None, None) => true,
            _ => false,
        },
{
    let ghost all = models(sessions@);
    let mut index: usize = sessions.len();
    assert(all.take(index as int) == all);
    while index > 0
        invariant
            index <= sessions@.len(),
            all == models(sessions@),
            launch_index(all, id@, incarnation@) == launch_index(
                all.take(index as int),
                id@,
                incarnation@,
            ),
        decreases index,
    {
        index = index - 1;
        assert(all.take(index + 1).drop_last() == all.take(index as int));
        if *sessions[index].id() == *id && *sessions[index].incarnation() == *incarnation {
            return Some(index);
        }
    }
    None
}

impl RenderRegistry {
    pub closed spec fn well_formed(&self) -> bool {
        &&& forall|i: int| 0 <= i < self.sessions@.len() ==> (#[trigger] self.sessions@[i]).well_formed()
        &&& forall|i: int| 0 <= i < self.departed@.len() ==> (#[trigger] self.departed@[i]).well_formed()
        &&& distinct_ids(self@.sessions)
    }

    /// In every registry each session is valid, and no two have the same identifier.
    pub proof fn law_sessions_are_valid(&self)
        requires
            self.well_formed(),
        ensures
            distinct_ids(self@.sessions),
            forall|i: int| 0 <= i < self@.sessions.len() ==> (#[trigger] self@.sessions[i]).valid(),
            forall|i: int| 0 <= i < self@.departed.len() ==> (#[trigger] self@.departed[i]).valid(),
    {
        assert forall|i: int| 0 <= i < self@.sessions.len() implies (
        #[trigger] self@.sessions[i]).valid() by {
            self.sessions@[i].law_session_is_valid();
        }
        assert forall|i: int| 0 <= i < self@.departed.len() implies (
        #[trigger] self@.departed[i]).valid() by {
            self.departed@[i].law_session_is_valid();
        }
    }

    /// A registry without sessions.
    pub fn new(version: String, started_at: String, started_ms: u64) -> (registry: Self)
        ensures
            registry.well_formed(),
            registry@ == (RegistryModel {
                sessions: Seq::empty(),
                departed: Seq::empty(),
                version: version@,
                started_at: started_at@,
                started_ms,
                shutting_down: false,
            }),
    {
        let registry = RenderRegistry {
            sessions: Vec::new(),
            departed: Vec::new(),
            version,
            started_at,
            started_ms,
            shutting_down: false,
        };
        assert(models(registry.sessions@) == Seq::<SessionModel>::empty());
        assert(models(registry.departed@) == Seq::<SessionModel>::empty());
        registry
    }

    /// The state of a session, with the chunks numbered above `after_seq`.
    pub fn attach(&self, session_id: &str, after_seq: u64) -> (state: Option<SessionState>)
        requires
            self.well_formed(),
        ensures
            match index_of(self@.sessions, session_id@) {
                Some(index) => state matches Some(state) && state@ == self@.sessions[index].state(
                    after_seq,
                ),
                None => state is None,
            },
    {
        match find_session(&self.sessions, &session_id.to_owned()) {
            Some(index) => Some(self.sessions[index].state(after_seq)),
            None => None,
        }
    }

    /// The number of sessions whose process runs.
    pub fn running_session_count(&self) -> (count: usize)
        ensures
            count == running_count(self@.sessions),
    {
        let ghost all = models(self.sessions@);
        let mut count: usize = 0;
        let mut index: usize = 0;
        assert(all.take(0) == Seq::<SessionModel>::empty());
        while index < self.sessions.len()
            invariant
                index <= self.sessions@.len(),
                all == models(self.sessions@),
                count == running_count(all.take(index as int)),
                count <= index,
            decreases self.sessions@.len() - index,
        {
            assert(all.take(index + 1).drop_last() == all.take(index as int));
            if self.sessions[index].is_running() {
                count = count + 1;
            }
            index = index + 1;
        }
        assert(all.take(index as int) == all);
        count
    }

    /// The number of sessions.
    pub fn session_count(&self) -> (count: usize)
        ensures
            count == self@.sessions.len(),
    {
        self.sessions.len()
    }

    pub fn is_shutting_down(&self) -> (shutting_down: bool)
        ensures
            shutting_down == self@.shutting_down,
    {
        self.shutting_down
    }

    /// What the registry tells a client that connects.
    pub fn hello(&self, pid: u32) -> (hello: HelloResult)
        ensures
            hello.version@ == self@.version,
            hello.protocol_version == RENDER_PROTOCOL_VERSION,
            hello.pid == pid,
            hello.started_at@ == self@.started_at,
            hello.sessions == self@.sessions.len(),
    {
        HelloResult {
            version: self.version.clone(),
            protocol_version: RENDER_PROTOCOL_VERSION,
            pid,
            started_at: self.started_at.clone(),
            sessions: self.sessions.len(),
        }
    }

    /// An estimate of what all sessions retain. See `Session::live_bytes`.
    pub fn live_bytes(&self) -> (bytes: u64)
        requires
            self.well_formed(),
        ensures
            is_total_estimate(bytes, self@.sessions),
            bytes >= u64_capped(total_floor(self@.sessions)),
    {
        let ghost all = models(self.sessions@);
        let mut bytes: u64 = 0;
        let mut index: usize = 0;
        assert(all.take(0) == Seq::<SessionModel>::empty());
        while index < self.sessions.len()
            invariant
                index <= self.sessions@.len(),
                self.well_formed(),
                all == models(self.sessions@),
                is_total_estimate(bytes, all.take(index as int)),
                bytes >= u64_capped(total_floor(all.take(index as int))),
            decreases self.sessions@.len() - index,
        {
            assert(all.take(index + 1).drop_last() == all.take(index as int));
            let ghost before = bytes;
            let last: u64 = self.sessions[index].live_bytes();
            bytes = bytes.saturating_add(last);
            proof {
                let longer = all.take(index + 1);
                assert(longer.last() == self.sessions@[index as int]@);
                assert(is_capped_sum(bytes, before, last));
            }
            index = index + 1;
        }
        assert(all.take(index as int) == all);
        bytes
    }

    /// Figures about the registry; the estimate and the memory of the process are given.
    pub fn stats(&self, now_ms: u64, live_bytes: u64, rss_bytes: u64) -> (stats: StatsResult)
        ensures
            stats.uptime_ms == (if now_ms >= self@.started_ms {
                now_ms - self@.started_ms
            } else {
                0
            }),
            stats.sessions == self@.sessions.len(),
            stats.live_bytes == live_bytes,
            stats.rss_bytes == rss_bytes,
    {
        StatsResult {
            uptime_ms: now_ms.saturating_sub(self.started_ms),
            sessions: self.sessions.len(),
            live_bytes,
            rss_bytes,
        }
    }
}

/// What is decided about a request to create a session or attach to it.
pub enum CreateVerdict {
    /// The session exists, and stands here.
    Attach(int),
    /// It is new, and no new sessions are taken.
    ShuttingDown,
    /// It is new, and the request is not in order.
    Invalid(Seq<char>),
    /// It is new, and too many sessions run.
    TooMany,
    /// It is new, and there is not enough memory.
    NoRoom,
    /// It is new, and is to be launched.
    Launch,
}

/// What is decided about a request to create a session or attach to it.
pub open spec fn create_verdict(
    registry: RegistryModel,
    params: CreateOrAttachParams,
    cwd_is_dir: bool,
    budget_bytes: int,
    live_bytes: int,
) -> CreateVerdict {
    match index_of(registry.sessions, params.session_id@) {
        Some(index) => CreateVerdict::Attach(index),
        None => if registry.shutting_down {
            CreateVerdict::ShuttingDown
        } else {
            match launch_error(params, cwd_is_dir) {
                Some(reason) => CreateVerdict::Invalid(reason),
                None => if running_count(registry.sessions) >= MAX_RUNNING_SESSIONS {
                    CreateVerdict::TooMany
                } else if live_bytes + screen_estimate(params.cols, params.rows, 0)
                    + LAUNCH_RESERVE_BYTES > budget_bytes {
                    CreateVerdict::NoRoom
                } else {
                    CreateVerdict::Launch
                },
            }
        },
    }
}

/// Whether a result is the one for a verdict.
pub open spec fn carries_out(
    result: Result<Admission, RenderError>,
    verdict: CreateVerdict,
    registry: RegistryModel,
    params: CreateOrAttachParams,
) -> bool {
    match verdict {
        CreateVerdict::Attach(index) => result matches Ok(Admission::Attached(attached))
            && !attached.is_new && attached.state@ == registry.sessions[index].state(
            params.after_seq,
        ),
        CreateVerdict::ShuttingDown => result matches Err(RenderError::Conflict(text)) && text@
            == "render is shutting down; refusing to create new sessions"@,
        CreateVerdict::Invalid(reason) => result matches Err(RenderError::BadRequest(text)) && text@
            == reason,
        CreateVerdict::TooMany => result matches Err(RenderError::Conflict(text)) && text@
            == "too many running sessions; refusing to create new sessions"@,
        CreateVerdict::NoRoom => result matches Err(RenderError::Conflict(text)) && text@
            == "memory budget is exhausted; refusing to create new sessions"@,
        CreateVerdict::Launch => result matches Ok(Admission::Launch(plan)) && is_plan_for(
            plan,
            params,
        ),
    }
}

impl RenderRegistry {
    /// Decides on a request to create a session or attach to it, given whether its directory
    /// exists, how much sessions may take together, and an estimate of how much they take.
    ///
    /// A session that exists is never launched again, whether its process runs or not. A new one
    /// is refused during a shutdown, if the request is not in order, or if there is no room.
    pub fn decide_create(
        &self,
        params: &CreateOrAttachParams,
        cwd_is_dir: bool,
        budget_bytes: u64,
        live_bytes: u64,
    ) -> (result: Result<Admission, RenderError>)
        requires
            self.well_formed(),
        ensures
            carries_out(
                result,
                create_verdict(
                    self@,
                    *params,
                    cwd_is_dir,
                    budget_bytes as int,
                    live_bytes as int,
                ),
                self@,
                *params,
            ),
    {
        if let Some(index) = find_session(&self.sessions, &params.session_id) {
            return Ok(
                Admission::Attached(
                    CreateOrAttachResult {
                        state: self.sessions[index].state(params.after_seq),
                        is_new: false,
                    },
                ),
            );
        }
        if self.shutting_down {
            return Err(
                RenderError::Conflict(
                    "render is shutting down; refusing to create new sessions".to_owned(),
                ),
            );
        }
        let plan = match plan(params, cwd_is_dir) {
            Ok(plan) => plan,
            Err(error) => return Err(error),
        };
        if self.running_session_count() >= MAX_RUNNING_SESSIONS {
            return Err(
                RenderError::Conflict(
                    "too many running sessions; refusing to create new sessions".to_owned(),
                ),
            );
        }
        let needed: u64 = screen_bytes(params.cols, params.rows, 0) + LAUNCH_RESERVE_BYTES;
        let fits = match live_bytes.checked_add(needed) {
            Some(total) => total <= budget_bytes,
            None => false,
        };
        if !fits {
            return Err(
                RenderError::Conflict(
                    "memory budget is exhausted; refusing to create new sessions".to_owned(),
                ),
            );
        }
        Ok(Admission::Launch(plan))
    }

    /// Decides on a request to create a session or attach to it. How much the sessions take is
    /// estimated here; what is left open is how much the allocator gave for their text.
    pub fn create_or_attach(
        &self,
        params: &CreateOrAttachParams,
        cwd_is_dir: bool,
        budget_bytes: u64,
    ) -> (result: Result<Admission, RenderError>)
        requires
            self.well_formed(),
        ensures
            exists|live_bytes: u64|
                is_total_estimate(live_bytes, self@.sessions) && live_bytes >= u64_capped(
                    total_floor(self@.sessions),
                ) && carries_out(
                    result,
                    #[trigger] create_verdict(
                        self@,
                        *params,
                        cwd_is_dir,
                        budget_bytes as int,
                        live_bytes as int,
                    ),
                    self@,
                    *params,
                ),
    {
        let live_bytes: u64 = self.live_bytes();
        self.decide_create(params, cwd_is_dir, budget_bytes, live_bytes)
    }

    /// Takes in what came of a launch. Where the session has come to exist in the meantime, that
    /// one stays, and the process just launched is to be discarded.
    pub fn complete_create(
        &mut self,
        params: &CreateOrAttachParams,
        launched: Result<u32, LaunchFailure>,
        incarnation_id: String,
    ) -> (result: Result<Creation, RenderError>)
        requires
            old(self).well_formed(),
            params.cols > 0,
            params.rows > 0,
        ensures
            final(self).well_formed(),
            launched matches Ok(pid) ==> final(self)@ == after_creation(
                old(self)@,
                *params,
                pid,
                incarnation_id@,
            ),
            match launched {
                Err(failure) => *final(self) == *old(self) && (result matches Err(
                    RenderError::Spawn(text),
                ) && text@ == failure.text(params.file@)),
                Ok(pid) => match index_of(old(self)@.sessions, params.session_id@) {
                    Some(index) => *final(self) == *old(self) && (result matches Ok(creation) && {
                        &&& creation.discard == Some(pid)
                        &&& !creation.result.is_new
                        &&& creation.result.state@ == old(self)@.sessions[index].state(
                            params.after_seq,
                        )
                    }),
                    None => {
                        let session = started(*params, pid, incarnation_id@);
                        &&& final(self)@ == (RegistryModel {
                            sessions: old(self)@.sessions.push(session),
                            ..old(self)@
                        })
                        &&& result matches Ok(creation) && {
                            &&& creation.discard is None
                            &&& creation.result.is_new
                            &&& creation.result.state@ == session.state(params.after_seq)
                        }
                    },
                },
            },
    {
        let pid: u32 = match &launched {
            Ok(pid) => *pid,
            Err(_) => 0,
        };
        let session = match Session::spawn(params, launched, incarnation_id) {
            Ok(session) => session,
            Err(error) => return Err(error),
        };
        if let Some(index) = find_session(&self.sessions, &params.session_id) {
            return Ok(
                Creation {
                    result: CreateOrAttachResult {
                        state: self.sessions[index].state(params.after_seq),
                        is_new: false,
                    },
                    discard: Some(pid),
                },
            );
        }
        let state = session.state(params.after_seq);
        let ghost before = models(self.sessions@);
        proof {
            lemma_index_of(before, params.session_id@);
        }
        self.sessions.push(session);
        assert(models(self.sessions@) == before.push(session@));
        Ok(Creation { result: CreateOrAttachResult { state, is_new: true }, discard: None })
    }

    /// The states of all sessions, with their snapshots cut to size.
    pub fn list_sessions(&self) -> (states: Vec<SessionState>)
        requires
            self.well_formed(),
        ensures
            states@.len() == self@.sessions.len(),
            forall|i: int|
                0 <= i < states@.len() ==> (#[trigger] states@[i])@ == listed(self@.sessions[i]),
    {
        let mut states: Vec<SessionState> = Vec::new();
        let mut index: usize = 0;
        while index < self.sessions.len()
            invariant
                index <= self.sessions@.len(),
                self.well_formed(),
                states@.len() == index,
                forall|i: int|
                    0 <= i < index ==> (#[trigger] states@[i])@ == listed(self@.sessions[i]),
            decreases self.sessions@.len() - index,
        {
            let mut state = self.sessions[index].state(0);
            state.terminal_snapshot = match state.terminal_snapshot.take() {
                Some(snapshot) => bound_for_list(snapshot, LIST_SNAPSHOT_MAX_BYTES),
                None => None,
            };
            assert(state@ == listed(self@.sessions[index as int]));
            states.push(state);
            index = index + 1;
        }
        states
    }

    /// The bytes to write to the terminal device of a session for this input.
    pub fn write<'a>(&self, session_id: &str, data: &'a str) -> (result: Result<
        &'a [u8],
        RenderError,
    >)
        ensures
            match index_of(self@.sessions, session_id@) {
                None => result matches Err(RenderError::NotFound(id)) && id@ == session_id@,
                Some(index) => {
                    let session = self@.sessions[index];
                    if session.status != SessionStatus::Running {
                        result matches Err(RenderError::Conflict(text)) && text@ == "session "@
                            + session.id + " is not running"@
                    } else if session.retired {
                        result matches Err(RenderError::Conflict(text)) && text@ == "session "@
                            + session.id + " has no pty writer"@
                    } else {
                        result matches Ok(bytes) && bytes@ == encode_utf8(data@)
                    }
                },
            },
    {
        match find_session(&self.sessions, &session_id.to_owned()) {
            Some(index) => self.sessions[index].write(data),
            None => Err(RenderError::NotFound(session_id.to_owned())),
        }
    }

    /// The process and the signal that a request asks for. Nothing is sent to a process that has
    /// ended.
    pub fn kill(&self, session_id: &str, signal: Option<&str>) -> (result: Result<
        Option<SignalOrder>,
        RenderError,
    >)
        ensures
            match index_of(self@.sessions, session_id@) {
                None => result matches Err(RenderError::NotFound(id)) && id@ == session_id@,
                Some(index) => if self@.sessions[index].status != SessionStatus::Running {
                    result matches Ok(None)
                } else {
                    match requested_signal(signal) {
                        Requested::Default => result matches Ok(Some(order)) && order.pid
                            == self@.sessions[index].pid && order.signo == 1,
                        Requested::Unknown(name) => result matches Err(
                            RenderError::BadRequest(text),
                        ) && text@ == "unsupported signal "@ + name,
                        Requested::Known(signal) => result matches Ok(Some(order)) && order.pid
                            == self@.sessions[index].pid && is_number_of(signal, order.signo),
                    }
                },
            },
    {
        match find_session(&self.sessions, &session_id.to_owned()) {
            Some(index) => {
                if !self.sessions[index].is_running() {
                    return Ok(None);
                }
                match self.sessions[index].kill(signal) {
                    Ok(signo) => Ok(
                        Some(SignalOrder { pid: self.sessions[index].process_id(), signo }),
                    ),
                    Err(error) => Err(error),
                }
            },
            None => Err(RenderError::NotFound(session_id.to_owned())),
        }
    }

    /// The event that tells clients which sessions there are.
    pub fn publish_reconcile(&self) -> (event: Event)
        ensures
            event@ == (Notice::Reconcile { session_ids: ids(self@.sessions) }),
    {
        let mut session_ids: Vec<String> = Vec::new();
        let mut index: usize = 0;
        while index < self.sessions.len()
            invariant
                index <= self.sessions@.len(),
                session_ids@.len() == index,
                forall|i: int|
                    0 <= i < index ==> (#[trigger] session_ids@[i])@ == self@.sessions[i].id,
            decreases self.sessions@.len() - index,
        {
            session_ids.push(self.sessions[index].id().clone());
            index = index + 1;
        }
        assert(texts(session_ids@) == ids(self@.sessions));
        Event::Reconcile { session_ids }
    }
}

impl RenderRegistry {
    /// Gives the screen of a session another size. Returns whether its terminal device must
    /// follow.
    pub fn resize(&mut self, session_id: &str, cols: u16, rows: u16) -> (result: Result<
        bool,
        RenderError,
    >)
        requires
            old(self).well_formed(),
        ensures
            final(self).well_formed(),
            match index_of(old(self)@.sessions, session_id@) {
                None => final(self)@ == old(self)@ && (result matches Err(RenderError::NotFound(id))
                    && id@ == session_id@),
                Some(index) => {
                    let session = old(self)@.sessions[index];
                    match size_error(cols, rows) {
                        Some(reason) => final(self)@ == old(self)@ && (result matches Err(
                            RenderError::BadRequest(text),
                        ) && text@ == reason),
                        None => if session.status != SessionStatus::Running {
                            final(self)@ == old(self)@ && (result matches Err(
                                RenderError::Conflict(text),
                            ) && text@ == "session "@ + session.id + " is not running"@)
                        } else {
                            final(self)@ == with_session(
                                old(self)@,
                                index,
                                session.resized(cols, rows),
                            ) && (result matches Ok(device) && device == !session.retired)
                        },
                    }
                },
            },
    {
        match find_session(&self.sessions, &session_id.to_owned()) {
            Some(index) => {
                let ghost before = models(self.sessions@);
                let result = self.sessions[index].resize(cols, rows);
                proof {
                    let after = self.sessions@[index as int]@;
                    assert(models(self.sessions@) == before.update(index as int, after));
                    assert(before.update(index as int, before[index as int]) == before);
                    lemma_update_keeps_ids(before, index as int, after);
                }
                result
            },
            None => Err(RenderError::NotFound(session_id.to_owned())),
        }
    }
}

/// The registry with one session changed.
pub open spec fn with_session(
    registry: RegistryModel,
    index: int,
    session: SessionModel,
) -> RegistryModel {
    RegistryModel { sessions: registry.sessions.update(index, session), ..registry }
}

proof fn lemma_update_keeps_ids(sessions: Seq<SessionModel>, index: int, session: SessionModel)
    requires
        distinct_ids(sessions),
        0 <= index < sessions.len(),
        session.id == sessions[index].id,
    ensures
        distinct_ids(sessions.update(index, session)),
{
    let updated = sessions.update(index, session);
    assert forall|i: int, j: int| 0 <= i < j < updated.len() implies (#[trigger] updated[i]).id != (
    #[trigger] updated[j]).id by {
        assert(sessions[i].id != sessions[j].id);
    }
}

/// The registry with one departed session changed.
pub open spec fn with_departed(
    registry: RegistryModel,
    index: int,
    session: SessionModel,
) -> RegistryModel {
    RegistryModel { departed: registry.departed.update(index, session), ..registry }
}

/// What the session of a launch is, whether clients see it or not.
pub open spec fn launched_session(
    registry: RegistryModel,
    id: Seq<char>,
    incarnation: Seq<char>,
) -> Option<SessionModel> {
    match launch_index(registry.sessions, id, incarnation) {
        Some(index) => Some(registry.sessions[index]),
        None => match launch_index(registry.departed, id, incarnation) {
            Some(index) => Some(registry.departed[index]),
            None => None,
        },
    }
}

/// The registry with the session of a launch changed.
pub open spec fn with_launched(
    registry: RegistryModel,
    id: Seq<char>,
    incarnation: Seq<char>,
    session: SessionModel,
) -> RegistryModel {
    match launch_index(registry.sessions, id, incarnation) {
        Some(index) => with_session(registry, index, session),
        None => match launch_index(registry.departed, id, incarnation) {
            Some(index) => with_departed(registry, index, session),
            None => registry,
        },
    }
}

/// The registry once the end of a launch has been reported: a session that clients no longer see is
/// gone after this.
pub open spec fn after_finish(
    registry: RegistryModel,
    id: Seq<char>,
    incarnation: Seq<char>,
) -> RegistryModel {
    match launch_index(registry.sessions, id, incarnation) {
        Some(index) => with_session(registry, index, registry.sessions[index].settled()),
        None => match launch_index(registry.departed, id, incarnation) {
            Some(index) => RegistryModel { departed: registry.departed.remove(index), ..registry },
            None => registry,
        },
    }
}

/// The registry after a moment that may be quiet for some sessions.
pub open spec fn maintained(registry: RegistryModel, now_ms: u64) -> RegistryModel {
    RegistryModel {
        sessions: Seq::new(
            registry.sessions.len(),
            |i: int| registry.sessions[i].refreshed(now_ms),
        ),
        ..registry
    }
}

/// The registry once a launch has succeeded: a session that has come to exist in the meantime stays
/// as it is.
pub open spec fn after_creation(
    registry: RegistryModel,
    params: CreateOrAttachParams,
    pid: u32,
    incarnation: Seq<char>,
) -> RegistryModel {
    match index_of(registry.sessions, params.session_id@) {
        Some(_) => registry,
        None => RegistryModel {
            sessions: registry.sessions.push(started(params, pid, incarnation)),
            ..registry
        },
    }
}

impl RenderRegistry {
    /// Takes in a chunk of output of a launch. Returns the event to publish. Output of a session
    /// that was forgotten is dropped, and so is output for which no number is left.
    pub fn append(&mut self, session_id: &str, incarnation_id: &str, data: &str, now_ms: u64) -> (event:
        Option<Event>)
        requires
            old(self).well_formed(),
        ensures
            final(self).well_formed(),
            match launched_session(old(self)@, session_id@, incarnation_id@) {
                Some(session) => if session.raw.len() < u64::MAX {
                    &&& final(self)@ == with_launched(
                        old(self)@,
                        session_id@,
                        incarnation_id@,
                        session.appended(data@, now_ms),
                    )
                    &&& event is None <==> session.retired
                    &&& event matches Some(event) ==> event@ == session.output_notice(data@)
                } else {
                    final(self)@ == old(self)@ && event is None
                },
                None => final(self)@ == old(self)@ && event is None,
            },
    {
        let id = session_id.to_owned();
        let incarnation = incarnation_id.to_owned();
        if let Some(index) = find_launch(&self.sessions, &id, &incarnation) {
            if !self.sessions[index].can_append() {
                return None;
            }
            let ghost before = models(self.sessions@);
            let event = self.sessions[index].append(data, now_ms);
            proof {
                let after = self.sessions@[index as int]@;
                assert(models(self.sessions@) == before.update(index as int, after));
                lemma_update_keeps_ids(before, index as int, after);
            }
            return event;
        }
        if let Some(index) = find_launch(&self.departed, &id, &incarnation) {
            if !self.departed[index].can_append() {
                return None;
            }
            let ghost before = models(self.departed@);
            let event = self.departed[index].append(data, now_ms);
            assert(models(self.departed@) == before.update(
                index as int,
                self.departed@[index as int]@,
            ));
            return event;
        }
        None
    }

    /// Takes in bytes that a launch wrote to its terminal, through the decoder of that launch.
    /// Returns the event to publish. Bytes that make no whole character yet wait in the decoder.
    pub fn read(
        &mut self,
        session_id: &str,
        incarnation_id: &str,
        decoder: &mut IncrementalUtf8Decoder,
        bytes: &[u8],
        now_ms: u64,
    ) -> (event: Option<Event>)
        requires
            old(self).well_formed(),
        ensures
            final(self).well_formed(),
            final(decoder)@ == undecoded(old(decoder)@ + bytes@),
            ({
                let data = decoded(old(decoder)@ + bytes@);
                let session = launched_session(old(self)@, session_id@, incarnation_id@);
                if data.len() > 0 && session is Some && session.unwrap().raw.len() < u64::MAX {
                    &&& final(self)@ == with_launched(
                        old(self)@,
                        session_id@,
                        incarnation_id@,
                        session.unwrap().appended(data, now_ms),
                    )
                    &&& event is None <==> session.unwrap().retired
                    &&& event matches Some(event) ==> event@ == session.unwrap().output_notice(data)
                } else {
                    final(self)@ == old(self)@ && event is None
                }
            }),
    {
        let data: String = decoder.push(bytes);
        if data.as_str().is_empty() {
            return None;
        }
        self.append(session_id, incarnation_id, data.as_str(), now_ms)
    }

    /// Records how the process of a launch ended.
    pub fn record_exit(&mut self, session_id: &str, incarnation_id: &str, exit: ChildExit)
        requires
            old(self).well_formed(),
        ensures
            final(self).well_formed(),
            final(self)@ == (match launched_session(old(self)@, session_id@, incarnation_id@) {
                Some(session) => with_launched(
                    old(self)@,
                    session_id@,
                    incarnation_id@,
                    session.exited(exit),
                ),
                None => old(self)@,
            }),
    {
        let id = session_id.to_owned();
        let incarnation = incarnation_id.to_owned();
        if let Some(index) = find_launch(&self.sessions, &id, &incarnation) {
            let ghost before = models(self.sessions@);
            self.sessions[index].record_exit(exit);
            proof {
                let after = self.sessions@[index as int]@;
                assert(models(self.sessions@) == before.update(index as int, after));
                lemma_update_keeps_ids(before, index as int, after);
            }
        } else if let Some(index) = find_launch(&self.departed, &id, &incarnation) {
            let ghost before = models(self.departed@);
            self.departed[index].record_exit(exit);
            assert(models(self.departed@) == before.update(
                index as int,
                self.departed@[index as int]@,
            ));
        }
    }

    /// Settles the session of a launch once all output of its ended process has been read, and
    /// returns the event to publish. A session that clients no longer see is gone after this.
    pub fn finish_exit(&mut self, session_id: &str, incarnation_id: &str, exit: ChildExit) -> (event:
        Option<Event>)
        requires
            old(self).well_formed(),
        ensures
            final(self).well_formed(),
            match launched_session(old(self)@, session_id@, incarnation_id@) {
                Some(session) => {
                    &&& event is None <==> session.retired
                    &&& event matches Some(event) ==> event@ == session.exit_notice(exit)
                    &&& final(self)@ == after_finish(old(self)@, session_id@, incarnation_id@)
                },
                None => final(self)@ == old(self)@ && event is None,
            },
    {
        let id = session_id.to_owned();
        let incarnation = incarnation_id.to_owned();
        if let Some(index) = find_launch(&self.sessions, &id, &incarnation) {
            let ghost before = models(self.sessions@);
            let event = self.sessions[index].finish_exit(exit);
            proof {
                let after = self.sessions@[index as int]@;
                assert(models(self.sessions@) == before.update(index as int, after));
                lemma_update_keeps_ids(before, index as int, after);
            }
            return event;
        }
        if let Some(index) = find_launch(&self.departed, &id, &incarnation) {
            let ghost before = models(self.departed@);
            let mut session = self.departed.remove(index);
            assert(models(self.departed@) == before.remove(index as int));
            return session.finish_exit(exit);
        }
        None
    }

    /// Takes the baselines anew of all sessions that have something pending and are quiet.
    pub fn maintain(&mut self, now_ms: u64)
        requires
            old(self).well_formed(),
        ensures
            final(self).well_formed(),
            final(self)@ == maintained(old(self)@, now_ms),
    {
        let ghost before = models(self.sessions@);
        let mut index: usize = 0;
        while index < self.sessions.len()
            invariant
                index <= self.sessions@.len(),
                self.well_formed(),
                before == old(self)@.sessions,
                self.sessions@.len() == before.len(),
                self@ == (RegistryModel { sessions: self@.sessions, ..old(self)@ }),
                forall|i: int|
                    0 <= i < before.len() ==> (#[trigger] self.sessions@[i])@ == (if i < index {
                        before[i].refreshed(now_ms)
                    } else {
                        before[i]
                    }),
            decreases self.sessions@.len() - index,
        {
            let ghost current = models(self.sessions@);
            self.sessions[index].refresh_snapshot(now_ms);
            proof {
                let after = self.sessions@[index as int]@;
                assert(models(self.sessions@) == current.update(index as int, after));
                lemma_update_keeps_ids(current, index as int, after);
            }
            index = index + 1;
        }
        assert(models(self.sessions@) == Seq::new(
            before.len(),
            |i: int| before[i].refreshed(now_ms),
        ));
    }

    /// Forgets a session. Returns its process, which is to be terminated, and the event to
    /// publish, or `None` where there is no such session.
    pub fn forget(&mut self, session_id: &str) -> (forgotten: Option<(u32, Event)>)
        requires
            old(self).well_formed(),
        ensures
            final(self).well_formed(),
            match index_of(old(self)@.sessions, session_id@) {
                Some(index) => {
                    &&& final(self)@ == (RegistryModel {
                        sessions: old(self)@.sessions.remove(index),
                        ..old(self)@
                    })
                    &&& forgotten matches Some((pid, event)) && pid == old(self)@.sessions[index].pid
                        && event@ == (Notice::Reconcile { session_ids: ids(final(self)@.sessions) })
                },
                None => final(self)@ == old(self)@ && forgotten is None,
            },
    {
        match find_session(&self.sessions, &session_id.to_owned()) {
            Some(index) => {
                let ghost before = models(self.sessions@);
                let mut session = self.sessions.remove(index);
                proof {
                    let after = before.remove(index as int);
                    assert(models(self.sessions@) == after);
                    assert forall|i: int, j: int| 0 <= i < j < after.len() implies (
                    #[trigger] after[i]).id != (#[trigger] after[j]).id by {
                        let from = if i < index {
                            i
                        } else {
                            i + 1
                        };
                        let to = if j < index {
                            j
                        } else {
                            j + 1
                        };
                        assert(before[from].id != before[to].id);
                    }
                }
                Some((session.retire(), self.publish_reconcile()))
            },
            None => None,
        }
    }
}

/// The registry after a shutdown has begun.
pub open spec fn shut_down(registry: RegistryModel, mode: ShutdownMode) -> RegistryModel {
    match mode {
        ShutdownMode::Drain => RegistryModel {
            sessions: running_only(registry.sessions),
            departed: registry.departed + unreported_exits(registry.sessions),
            shutting_down: true,
            ..registry
        },
        ShutdownMode::Now => RegistryModel {
            sessions: Seq::empty(),
            departed: registry.departed + unfinished_only(registry.sessions),
            shutting_down: true,
            ..registry
        },
    }
}

/// A session that exists is never launched again: not while its process runs, not after it has
/// ended, and not for want of room or during a shutdown either.
pub proof fn law_existing_session_is_attached(
    registry: RegistryModel,
    params: CreateOrAttachParams,
    cwd_is_dir: bool,
    budget_bytes: int,
    live_bytes: int,
    index: int,
)
    requires
        distinct_ids(registry.sessions),
        0 <= index < registry.sessions.len(),
        registry.sessions[index].id == params.session_id@,
    ensures
        create_verdict(registry, params, cwd_is_dir, budget_bytes, live_bytes)
            == CreateVerdict::Attach(index),
{
    lemma_index_of(registry.sessions, params.session_id@);
    let found = index_of(registry.sessions, params.session_id@);
    if found is Some && found.unwrap() != index {
        if found.unwrap() < index {
            assert(registry.sessions[found.unwrap()].id != registry.sessions[index].id);
        } else {
            assert(registry.sessions[index].id != registry.sessions[found.unwrap()].id);
        }
    }
}

/// Once a shutdown has begun, a session that does not exist is not created.
pub proof fn law_shutdown_refuses_new_sessions(
    registry: RegistryModel,
    mode: ShutdownMode,
    params: CreateOrAttachParams,
    cwd_is_dir: bool,
    budget_bytes: int,
    live_bytes: int,
)
    ensures
        ({
            let after = shut_down(registry, mode);
            let verdict = create_verdict(after, params, cwd_is_dir, budget_bytes, live_bytes);
            verdict is ShuttingDown <==> index_of(after.sessions, params.session_id@) is None
        }),
{
}

/// To drain spares every session whose process runs, just as it is and where it stood, and keeps no
/// other.
pub proof fn law_drain_spares_running_sessions(registry: RegistryModel, session: SessionModel)
    ensures
        shut_down(registry, ShutdownMode::Drain).sessions.contains(session) <==> (
        registry.sessions.contains(session) && session.status == SessionStatus::Running),
        running_count(shut_down(registry, ShutdownMode::Drain).sessions) == running_count(
            registry.sessions,
        ),
        shut_down(registry, ShutdownMode::Drain).sessions == registry.sessions.filter(
            |session: SessionModel| session.status == SessionStatus::Running,
        ),
{
    lemma_running_only(registry.sessions, session);
    lemma_running_only_filters(registry.sessions);
}

proof fn lemma_running_only_filters(sessions: Seq<SessionModel>)
    ensures
        running_only(sessions) == sessions.filter(
            |session: SessionModel| session.status == SessionStatus::Running,
        ),
    decreases sessions.len(),
{
    reveal(Seq::filter);
    if sessions.len() > 0 {
        lemma_running_only_filters(sessions.drop_last());
    }
}

proof fn lemma_running_only(sessions: Seq<SessionModel>, session: SessionModel)
    ensures
        running_only(sessions).contains(session) <==> (sessions.contains(session) && session.status
            == SessionStatus::Running),
        running_count(running_only(sessions)) == running_count(sessions),
    decreases sessions.len(),
{
    if sessions.len() > 0 {
        let shorter = sessions.drop_last();
        let before = running_only(shorter);
        let last = sessions.last();
        lemma_running_only(shorter, session);
        assert(sessions == shorter.push(last));
        assert(shorter.push(last).contains(session) <==> shorter.contains(session) || last
            == session) by {
            if shorter.contains(session) {
                let i = choose|i: int| 0 <= i < shorter.len() && shorter[i] == session;
                assert(shorter.push(last)[i] == session);
            }
            assert(shorter.push(last)[shorter.len() as int] == last);
        }
        if last.status == SessionStatus::Running {
            assert(before.push(last).drop_last() == before);
            assert(before.push(last).contains(session) <==> before.contains(session) || last
                == session) by {
                if before.contains(session) {
                    let i = choose|i: int| 0 <= i < before.len() && before[i] == session;
                    assert(before.push(last)[i] == session);
                }
                assert(before.push(last)[before.len() as int] == last);
            }
        }
    }
}

proof fn lemma_running_only_keeps_ids(sessions: Seq<SessionModel>)
    requires
        distinct_ids(sessions),
    ensures
        distinct_ids(running_only(sessions)),
        forall|j: int|
            0 <= j < running_only(sessions).len() ==> exists|i: int|
                0 <= i < sessions.len() && #[trigger] sessions[i] == #[trigger] running_only(
                    sessions,
                )[j],
    decreases sessions.len(),
{
    if sessions.len() > 0 {
        let shorter = sessions.drop_last();
        assert forall|i: int, j: int| 0 <= i < j < shorter.len() implies (#[trigger] shorter[i]).id
            != (#[trigger] shorter[j]).id by {
            assert(sessions[i].id != sessions[j].id);
        }
        lemma_running_only_keeps_ids(shorter);
        let before = running_only(shorter);
        let all = running_only(sessions);
        assert forall|j: int| 0 <= j < all.len() implies exists|i: int|
            0 <= i < sessions.len() && #[trigger] sessions[i] == #[trigger] all[j] by {
            if j < before.len() {
                assert(all[j] == before[j]);
                let i = choose|i: int| 0 <= i < shorter.len() && #[trigger] shorter[i] == before[j];
                assert(sessions[i] == all[j]);
            } else {
                assert(sessions[sessions.len() - 1] == all[j]);
            }
        }
        assert forall|i: int, j: int| 0 <= i < j < all.len() implies (#[trigger] all[i]).id != (
        #[trigger] all[j]).id by {
            if j < before.len() {
                assert(before[i].id != before[j].id);
            } else {
                assert(all[i] == before[i]);
                let k = choose|k: int| 0 <= k < shorter.len() && #[trigger] shorter[k] == before[i];
                assert(sessions[k].id != sessions[sessions.len() - 1].id);
            }
        }
    }
}

impl RenderRegistry {
    /// Begins a shutdown: no session is created any more. To drain is to drop the sessions whose
    /// process has ended and to leave the others alone. Otherwise every session goes, and its
    /// process is to be killed.
    pub fn begin_shutdown(&mut self, mode: ShutdownMode) -> (orders: ShutdownOrders)
        requires
            old(self).well_formed(),
        ensures
            final(self).well_formed(),
            final(self)@ == shut_down(old(self)@, mode),
            orders.kill@ == (match mode {
                ShutdownMode::Drain => Seq::empty(),
                ShutdownMode::Now => pids(old(self)@.sessions),
            }),
            orders.event@ == (Notice::Reconcile { session_ids: ids(final(self)@.sessions) }),
            mode == ShutdownMode::Now ==> orders.kill@.len() == old(self)@.sessions.len()
                && forall|i: int|
                0 <= i < old(self)@.sessions.len() ==> orders.kill@[i] == (
                #[trigger] old(self)@.sessions[i]).pid,
            mode == ShutdownMode::Drain ==> orders.kill@.len() == 0,
    {
        self.shutting_down = true;
        let kill: Vec<u32> = match mode {
            ShutdownMode::Drain => {
                self.drop_exited();
                Vec::new()
            },
            ShutdownMode::Now => self.drop_all(),
        };
        ShutdownOrders { kill, event: self.publish_reconcile() }
    }

    /// Drops the sessions whose process has ended.
    fn drop_exited(&mut self)
        requires
            old(self).well_formed(),
        ensures
            final(self).well_formed(),
            final(self)@ == (RegistryModel {
                sessions: running_only(old(self)@.sessions),
                departed: old(self)@.departed + unreported_exits(old(self)@.sessions),
                ..old(self)@
            }),
    {
        let ghost all = models(self.sessions@);
        let ghost away = models(self.departed@);
        let ghost mut seen: int = 0;
        let mut index: usize = 0;
        proof {
            assert(all.take(0) == Seq::<SessionModel>::empty());
            assert(all.skip(0) == all);
            assert(running_only(all.take(0)) + all.skip(0) == all);
            assert(away + unreported_exits(all.take(0)) == away);
        }
        while index < self.sessions.len()
            invariant
                0 <= seen <= all.len(),
                index == running_only(all.take(seen)).len(),
                self.sessions@.len() - index == all.len() - seen,
                models(self.sessions@) == running_only(all.take(seen)) + all.skip(seen),
                models(self.departed@) == away + unreported_exits(all.take(seen)),
                all == old(self)@.sessions,
                away == old(self)@.departed,
                self@ == (RegistryModel {
                    sessions: self@.sessions,
                    departed: self@.departed,
                    ..old(self)@
                }),
                forall|i: int|
                    0 <= i < self.sessions@.len() ==> (#[trigger] self.sessions@[i]).well_formed(),
                forall|i: int|
                    0 <= i < self.departed@.len() ==> (#[trigger] self.departed@[i]).well_formed(),
            decreases all.len() - seen,
        {
            let ghost current = models(self.sessions@);
            let ghost kept = running_only(all.take(seen));
            let ghost gone = unreported_exits(all.take(seen));
            proof {
                assert(current[index as int] == all[seen]);
                assert(all.take(seen + 1).drop_last() == all.take(seen));
                assert(all.take(seen + 1).last() == all[seen]);
            }
            if self.sessions[index].is_running() {
                proof {
                    assert(kept.push(all[seen]) + all.skip(seen + 1) == kept + all.skip(seen));
                }
                index = index + 1;
            } else {
                let session = self.sessions.remove(index);
                proof {
                    assert(session@ == all[seen]);
                    assert(models(self.sessions@) == current.remove(index as int));
                    assert(current.remove(index as int) == kept + all.skip(seen + 1));
                }
                if !session.is_finished() {
                    let ghost before = self.departed@;
                    self.departed.push(session);
                    assert(models(self.departed@) == models(before).push(all[seen]));
                    assert(away + gone.push(all[seen]) == (away + gone).push(all[seen]));
                }
            }
            proof {
                seen = seen + 1;
            }
        }
        proof {
            assert(all.take(seen) == all);
            assert(all.skip(seen) == Seq::<SessionModel>::empty());
            assert(running_only(all) + all.skip(seen) == running_only(all));
            lemma_running_only_keeps_ids(all);
        }
    }

    /// Drops every session and returns their processes.
    fn drop_all(&mut self) -> (kill: Vec<u32>)
        requires
            old(self).well_formed(),
        ensures
            final(self).well_formed(),
            final(self)@ == (RegistryModel {
                sessions: Seq::empty(),
                departed: old(self)@.departed + unfinished_only(old(self)@.sessions),
                ..old(self)@
            }),
            kill@ == pids(old(self)@.sessions),
    {
        let ghost all = models(self.sessions@);
        let ghost away = models(self.departed@);
        let mut kill: Vec<u32> = Vec::new();
        let ghost mut seen: int = 0;
        proof {
            assert(all.take(0) == Seq::<SessionModel>::empty());
            assert(all.skip(0) == all);
            assert(away + unfinished_only(all.take(0)) == away);
        }
        while self.sessions.len() > 0
            invariant
                0 <= seen <= all.len(),
                kill@ == pids(all.take(seen)),
                models(self.sessions@) == all.skip(seen),
                models(self.departed@) == away + unfinished_only(all.take(seen)),
                all == old(self)@.sessions,
                away == old(self)@.departed,
                self@ == (RegistryModel {
                    sessions: self@.sessions,
                    departed: self@.departed,
                    ..old(self)@
                }),
                forall|i: int|
                    0 <= i < self.sessions@.len() ==> (#[trigger] self.sessions@[i]).well_formed(),
                forall|i: int|
                    0 <= i < self.departed@.len() ==> (#[trigger] self.departed@[i]).well_formed(),
            decreases all.len() - seen,
        {
            let ghost current = models(self.sessions@);
            let ghost gone = unfinished_only(all.take(seen));
            proof {
                assert(current.len() == all.len() - seen);
                assert(all.take(seen + 1).drop_last() == all.take(seen));
                assert(all.take(seen + 1).last() == all[seen]);
            }
            assert(current[0] == all.skip(seen)[0]);
            let session = self.sessions.remove(0);
            proof {
                assert(session@ == current[0]);
                assert(models(self.sessions@) == current.remove(0));
                assert(current.remove(0) == all.skip(seen + 1));
            }
            let ghost before_kill = kill@;
            kill.push(session.process_id());
            assert(pids(all.take(seen + 1)) == before_kill.push(all[seen].pid));
            if !session.is_finished() {
                let ghost before = self.departed@;
                self.departed.push(session);
                assert(models(self.departed@) == models(before).push(all[seen]));
                assert(away + gone.push(all[seen]) == (away + gone).push(all[seen]));
            }
            proof {
                seen = seen + 1;
            }
        }
        proof {
            assert(models(self.sessions@).len() == 0);
            assert(all.take(seen) == all);
            assert(models(self.sessions@) == Seq::<SessionModel>::empty());
        }
        kill
    }
}

} // verus!
