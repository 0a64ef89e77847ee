//! What each method of the terminal protocol does.

use vstd::prelude::*;
use vstd::utf8::encode_utf8;

use crate::error::RenderError;
use crate::launch::{is_plan_for, size_error, LaunchPlan};
use crate::protocol::{
    AttachParams, AttachResult, CreateOrAttachParams, CreateOrAttachResult, ErrorCode, Event,
    ForgetParams, HelloResult, KillParams, Notice, ResizeParams, SessionState, SessionStatus,
    ShutdownMode, ShutdownParams, StatsResult, WriteParams, RENDER_PROTOCOL_VERSION,
};
use crate::registry::{
    create_verdict, ids, index_of, listed, with_session, Admission, CreateVerdict, RegistryModel,
    RenderRegistry, SignalOrder,
};
use crate::server::map_render_error;
use crate::session::{requested_by, Requested};
use crate::signal::is_number_of;

verus! {

/// The methods of the protocol.
#[derive(Debug, Clone, Copy, PartialEq, Eq, Structural)]
pub enum Method {
    Hello,
    Ping,
    List,
    Attach,
    CreateOrAttach,
    Write,
    Resize,
    Kill,
    Forget,
    Stats,
    Shutdown,
}

/// The method with this name.
pub open spec fn method_named(name: Seq<char>) -> Option<Method> {
    if name == "hello"@ {
        Some(Method::Hello)
    } else if name == "ping"@ {
        Some(Method::Ping)
    } else if name == "list"@ {
        Some(Method::List)
    } else if name == "attach"@ {
        Some(Method::Attach)
    } else if name == "createOrAttach"@ {
        Some(Method::CreateOrAttach)
    } else if name == "write"@ {
        Some(Method::Write)
    } else if name == "resize"@ {
        Some(Method::Resize)
    } else if name == "kill"@ {
        Some(Method::Kill)
    } else if name == "forget"@ {
        Some(Method::Forget)
    } else if name == "stats"@ {
        Some(Method::Stats)
    } else if name == "shutdown"@ {
        Some(Method::Shutdown)
    } else {
        None
    }
}

/// The method with this name, or the answer to a name that is not known.
pub fn method_of(name: &String) -> (result: Result<Method, (ErrorCode, String)>)
    ensures
        match method_named(name@) {
            Some(method) => result matches Ok(found) && found == method,
            None => result matches Err((code, text)) && code == ErrorCode::UnsupportedMethod && text@
                == "unsupported method "@ + name@,
        },
{
    if *name == "hello".to_owned() {
        Ok(Method::Hello)
    } else if *name == "ping".to_owned() {
        Ok(Method::Ping)
    } else if *name == "list".to_owned() {
        Ok(Method::List)
    } else if *name == "attach".to_owned() {
        Ok(Method::Attach)
    } else if *name == "createOrAttach".to_owned() {
        Ok(Method::CreateOrAttach)
    } else if *name == "write".to_owned() {
        Ok(Method::Write)
    } else if *name == "resize".to_owned() {
        Ok(Method::Resize)
    } else if *name == "kill".to_owned() {
        Ok(Method::Kill)
    } else if *name == "forget".to_owned() {
        Ok(Method::Forget)
    } else if *name == "stats".to_owned() {
        Ok(Method::Stats)
    } else if *name == "shutdown".to_owned() {
        Ok(Method::Shutdown)
    } else {
        let mut text = "unsupported method ".to_owned();
        text.append(name.as_str());
        Err((ErrorCode::UnsupportedMethod, text))
    }
}

/// A request whose parameters have been read.
pub enum Call {
    Hello,
    Ping,
    List,
    Attach(AttachParams),
    CreateOrAttach(CreateOrAttachParams),
    Write(WriteParams),
    Resize(ResizeParams),
    Kill(KillParams),
    Forget(ForgetParams),
    Stats,
    Shutdown(ShutdownParams),
    /// Its parameters cannot be read, for this reason.
    Unreadable(String),
}

/// What a request leads to: an answer, or something to be done before the answer is an empty
/// object.
pub enum Outcome {
    Hello(HelloResult),
    Pong,
    List(Vec<SessionState>),
    Attached(AttachResult),
    Created(CreateOrAttachResult),
    /// A process must be launched, and what comes of it taken in, before there is an answer.
    Launch(LaunchPlan),
    /// These bytes must be written to the terminal device.
    Write(Vec<u8>),
    /// The terminal device must get the new size, where one is given.
    Resize(Option<(u16, u16)>),
    /// This signal must be sent, if any.
    Signal(Option<SignalOrder>),
    /// This process must be terminated and this event published, if there was such a session.
    Forgotten(Option<(u32, Event)>),
    Stats(StatsResult),
    /// This must be handed to whoever waits for the daemon's end.
    Shutdown(ShutdownMode),
    Failed(ErrorCode, String),
}

/// What a method needs to know beyond the sessions.
#[derive(Debug, Clone, Copy, PartialEq, Eq, Structural)]
pub struct Surroundings {
    pub pid: u32,
    pub now_ms: u64,
    /// Whether the directory that a request names exists.
    pub cwd_is_dir: bool,
    pub budget_bytes: u64,
    pub live_bytes: u64,
    pub rss_bytes: u64,
}

/// Whether an outcome is the failure to find a session.
pub open spec fn is_not_found(outcome: Outcome, id: Seq<char>) -> bool {
    outcome matches Outcome::Failed(code, text) && code == ErrorCode::NotFound && text@ == "session "@
        + id + " not found"@
}

/// Whether an outcome is a failure with this code and text.
pub open spec fn is_failure(outcome: Outcome, code: ErrorCode, reason: Seq<char>) -> bool {
    outcome matches Outcome::Failed(found, text) && found == code && text@ == reason
}

/// Whether an outcome is the one for a verdict about a session to create or attach to.
pub open spec fn is_create_outcome(
    outcome: Outcome,
    verdict: CreateVerdict,
    registry: RegistryModel,
    params: CreateOrAttachParams,
) -> bool {
    match verdict {
        CreateVerdict::Attach(index) => outcome matches Outcome::Created(result) && !result.is_new
            && result.state@ == registry.sessions[index].state(params.after_seq),
        CreateVerdict::ShuttingDown => is_failure(
            outcome,
            ErrorCode::Conflict,
            "render is shutting down; refusing to create new sessions"@,
        ),
        CreateVerdict::Invalid(reason) => is_failure(outcome, ErrorCode::BadRequest, reason),
        CreateVerdict::TooMany => is_failure(
            outcome,
            ErrorCode::Conflict,
            "too many running sessions; refusing to create new sessions"@,
        ),
        CreateVerdict::NoRoom => is_failure(
            outcome,
            ErrorCode::Conflict,
            "memory budget is exhausted; refusing to create new sessions"@,
        ),
        CreateVerdict::Launch => outcome matches Outcome::Launch(plan) && is_plan_for(plan, params),
    }
}

/// Whether an outcome is the one for a request, given the sessions before it.
pub open spec fn is_outcome(
    outcome: Outcome,
    call: Call,
    registry: RegistryModel,
    after: RegistryModel,
    around: Surroundings,
) -> bool {
    match call {
        Call::Hello => outcome matches Outcome::Hello(hello) && {
            &&& hello.version@ == registry.version
            &&& hello.protocol_version == RENDER_PROTOCOL_VERSION
            &&& hello.pid == around.pid
            &&& hello.started_at@ == registry.started_at
            &&& hello.sessions == registry.sessions.len()
        },
        Call::Ping => outcome is Pong,
        Call::List => outcome matches Outcome::List(states) && {
            &&& states@.len() == registry.sessions.len()
            &&& forall|i: int|
                0 <= i < states@.len() ==> (#[trigger] states@[i])@ == listed(registry.sessions[i])
        },
        Call::Attach(params) => match index_of(registry.sessions, params.session_id@) {
            Some(index) => outcome matches Outcome::Attached(result) && result.state@
                == registry.sessions[index].state(params.after_seq),
            None => is_not_found(outcome, params.session_id@),
        },
        Call::CreateOrAttach(params) => is_create_outcome(
            outcome,
            create_verdict(
                registry,
                params,
                around.cwd_is_dir,
                around.budget_bytes as int,
                around.live_bytes as int,
            ),
            registry,
            params,
        ),
        Call::Write(params) => match index_of(registry.sessions, params.session_id@) {
            None => is_not_found(outcome, params.session_id@),
            Some(index) => {
                let session = registry.sessions[index];
                if session.status != SessionStatus::Running {
                    is_failure(
                        outcome,
                        ErrorCode::Conflict,
                        "session "@ + session.id + " is not running"@,
                    )
                } else if session.retired {
                    is_failure(
                        outcome,
                        ErrorCode::Conflict,
                        "session "@ + session.id + " has no pty writer"@,
                    )
                } else {
                    outcome matches Outcome::Write(bytes) && bytes@ == encode_utf8(params.data@)
                }
            },
        },
        Call::Resize(params) => match index_of(registry.sessions, params.session_id@) {
            None => is_not_found(outcome, params.session_id@),
            Some(index) => {
                let session = registry.sessions[index];
                match size_error(params.cols, params.rows) {
                    Some(reason) => is_failure(outcome, ErrorCode::BadRequest, reason),
                    None => if session.status != SessionStatus::Running {
                        is_failure(
                            outcome,
                            ErrorCode::Conflict,
                            "session "@ + session.id + " is not running"@,
                        )
                    } else {
                        outcome matches Outcome::Resize(device) && device == (if session.retired {
                            None::<(u16, u16)>
                        } else {
                            Some((params.cols, params.rows))
                        })
                    },
                }
            },
        },
        Call::Kill(params) => match index_of(registry.sessions, params.session_id@) {
            None => is_not_found(outcome, params.session_id@),
            Some(index) => if registry.sessions[index].status != SessionStatus::Running {
                outcome matches Outcome::Signal(None)
            } else {
                match requested_signal_of(params.signal) {
                    Requested::Default => outcome matches Outcome::Signal(Some(order)) && order.pid
                        == registry.sessions[index].pid && order.signo == 1,
                    Requested::Unknown(name) => is_failure(
                        outcome,
                        ErrorCode::BadRequest,
                        "unsupported signal "@ + name,
                    ),
                    Requested::Known(signal) => outcome matches Outcome::Signal(Some(order))
                        && order.pid == registry.sessions[index].pid && is_number_of(
                        signal,
                        order.signo,
                    ),
                }
            },
        },
        Call::Forget(params) => match index_of(registry.sessions, params.session_id@) {
            Some(index) => outcome matches Outcome::Forgotten(Some((pid, event))) && pid
                == registry.sessions[index].pid && event@ == (Notice::Reconcile {
                session_ids: ids(after.sessions),
            }),
            None => outcome matches Outcome::Forgotten(None),
        },
        Call::Stats => outcome matches Outcome::Stats(stats) && {
            &&& stats.uptime_ms == (if around.now_ms >= registry.started_ms {
                around.now_ms - registry.started_ms
            } else {
                0
            })
            &&& stats.sessions == registry.sessions.len()
            &&& stats.live_bytes == around.live_bytes
            &&& stats.rss_bytes == around.rss_bytes
        },
        Call::Shutdown(params) => outcome matches Outcome::Shutdown(mode) && mode == params.mode,
        Call::Unreadable(reason) => is_failure(outcome, ErrorCode::BadRequest, reason@),
    }
}

/// The sessions after a request. Only a change of size and forgetting change any; a shutdown is
/// decided by whoever waits for the daemon's end, and a launch is taken in when it has been tried.
pub open spec fn after_call(call: Call, registry: RegistryModel) -> RegistryModel {
    match call {
        Call::Resize(params) => match index_of(registry.sessions, params.session_id@) {
            Some(index) => if size_error(params.cols, params.rows) is None
                && registry.sessions[index].status == SessionStatus::Running {
                with_session(
                    registry,
                    index,
                    registry.sessions[index].resized(params.cols, params.rows),
                )
            } else {
                registry
            },
            None => registry,
        },
        Call::Forget(params) => match index_of(registry.sessions, params.session_id@) {
            Some(index) => RegistryModel { sessions: registry.sessions.remove(index), ..registry },
            None => registry,
        },
        _ => registry,
    }
}

/// The signal that an optional name asks for.
pub open spec fn requested_signal_of(name: Option<String>) -> Requested {
    match name {
        Some(name) => requested_by(name@),
        None => Requested::Default,
    }
}

fn failed(error: RenderError) -> (outcome: Outcome)
    ensures
        outcome matches Outcome::Failed(code, text) && text@ == error.text() && code == (
        match error {
            RenderError::NotFound(_) => ErrorCode::NotFound,
            RenderError::BadRequest(_) => ErrorCode::BadRequest,
            RenderError::Conflict(_) => ErrorCode::Conflict,
            _ => ErrorCode::Internal,
        }),
{
    let (code, text) = map_render_error(error);
    Outcome::Failed(code, text)
}

/// Carries out a request.
pub fn dispatch(registry: &mut RenderRegistry, call: Call, around: &Surroundings) -> (outcome: Outcome)
    requires
        old(registry).well_formed(),
    ensures
        final(registry).well_formed(),
        final(registry)@ == after_call(call, old(registry)@),
        is_outcome(outcome, call, old(registry)@, final(registry)@, *around),
{
    match call {
        Call::Hello => Outcome::Hello(registry.hello(around.pid)),
        Call::Ping => Outcome::Pong,
        Call::List => Outcome::List(registry.list_sessions()),
        Call::Attach(params) => match registry.attach(params.session_id.as_str(), params.after_seq) {
            Some(state) => Outcome::Attached(AttachResult { state }),
            None => failed(RenderError::NotFound(params.session_id)),
        },
        Call::CreateOrAttach(params) => match registry.decide_create(
            &params,
            around.cwd_is_dir,
            around.budget_bytes,
            around.live_bytes,
        ) {
            Ok(Admission::Attached(result)) => Outcome::Created(result),
            Ok(Admission::Launch(plan)) => Outcome::Launch(plan),
            Err(error) => failed(error),
        },
        Call::Write(params) => match registry.write(
            params.session_id.as_str(),
            params.data.as_str(),
        ) {
            Ok(bytes) => Outcome::Write(vstd::slice::slice_to_vec(bytes)),
            Err(error) => failed(error),
        },
        Call::Resize(params) => match registry.resize(
            params.session_id.as_str(),
            params.cols,
            params.rows,
        ) {
            Ok(device) => Outcome::Resize(
                if device {
                    Some((params.cols, params.rows))
                } else {
                    None
                },
            ),
            Err(error) => failed(error),
        },
        Call::Kill(params) => {
            let result = match &params.signal {
                Some(signal) => registry.kill(params.session_id.as_str(), Some(signal.as_str())),
                None => registry.kill(params.session_id.as_str(), None),
            };
            match result {
                Ok(order) => Outcome::Signal(order),
                Err(error) => failed(error),
            }
        },
        Call::Forget(params) => Outcome::Forgotten(registry.forget(params.session_id.as_str())),
        Call::Stats => Outcome::Stats(
            registry.stats(around.now_ms, around.live_bytes, around.rss_bytes),
        ),
        Call::Shutdown(params) => Outcome::Shutdown(params.mode),
        Call::Unreadable(reason) => Outcome::Failed(ErrorCode::BadRequest, reason),
    }
}

} // verus!
