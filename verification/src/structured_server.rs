//! How the daemon of the structured protocol answers its clients, starts and ends.

use vstd::prelude::*;

use crate::frame::leading_number;
use crate::hub::{
    authenticated, client_index, closed, lemma_client_index, lemma_closing_keeps_listeners,
    lemma_new_listener, listeners, ClientConn, ClientHub,
};
use crate::json::{json_document, json_text_at, parse_json, text_at};
use crate::lifecycle::SocketDecision;
use crate::protocol::{ErrorCode, Request, ShutdownMode, MAX_FRAME_BYTES};
use crate::registry::SignalOrder;
use crate::security::{tokens_match, ExistingSocket};
use crate::server::Verdict;
use crate::structured::{
    after_forgetting, is_attachment, retained_by, run_index, run_signal, running_pids, running_runs,
    signal_result, spawn_verdict, Registry, RunsModel, SpawnVerdict, Spawning,
};
use crate::structured_v2::{
    AttachParams, AttachResult, HelloResult, InterruptParams, ListResult, RunIdParams, RunStatus,
    SpawnParams, SpawnResult, StatsResult, STRUCTURED_PROTOCOL_VERSION,
};

verus! {

/// The longest request that is read, in bytes.
pub const MAX_SPAWN_FRAME_BYTES: usize = 16_777_216;

/// Whether a token is the expected one.
pub fn token_match(expected: &str, actual: &str) -> (same: bool)
    ensures
        same == (expected@ == actual@),
{
    tokens_match(expected, actual)
}

/// The length of the body that a header announces, or `None` where it is too long to be read.
pub fn request_length(header: [u8; 4]) -> (length: Option<u32>)
    ensures
        length == (if leading_number(header@) <= MAX_FRAME_BYTES && leading_number(header@)
            <= MAX_SPAWN_FRAME_BYTES {
            Some(leading_number(header@) as u32)
        } else {
            None
        }),
{
    let length: u32 = header[0] as u32 * 0x1000000 + header[1] as u32 * 0x10000 + header[2] as u32
        * 0x100 + header[3] as u32;
    if length > MAX_FRAME_BYTES || length as usize > MAX_SPAWN_FRAME_BYTES {
        None
    } else {
        Some(length)
    }
}

/// The document that the body of a request holds, or `None` where it holds none.
pub fn parse_request(body: &[u8]) -> (value: Option<serde_json::Value>)
    ensures
        value == (match json_document(body@) {
            Ok(document) => Some(document),
            Err(_) => None::<serde_json::Value>,
        }),
{
    match parse_json(body) {
        Ok(value) => Some(value),
        Err(_) => None,
    }
}

/// Tells what is to be done with a request.
pub fn authenticate(token: &str, request: &Request) -> (verdict: Verdict)
    ensures
        if token@ != request.token@ {
            verdict is Close
        } else if request.protocol_version != STRUCTURED_PROTOCOL_VERSION {
            verdict matches Verdict::Refuse(code, text) && code == ErrorCode::ProtocolMismatch && text@
                == "structured protocol version mismatch"@
        } else {
            verdict is Accept
        },
{
    if !token_match(token, request.token.as_str()) {
        Verdict::Close
    } else if request.protocol_version != STRUCTURED_PROTOCOL_VERSION {
        Verdict::Refuse(
            ErrorCode::ProtocolMismatch,
            "structured protocol version mismatch".to_owned(),
        )
    } else {
        Verdict::Accept
    }
}

/// What comes of a request.
pub enum RequestStep {
    /// The connection has been closed without an answer.
    Closed,
    /// The connection has been closed for everything but this answer, by number.
    Refused(u32, (ErrorCode, String)),
    /// Carry out this request. The client hears of events from now on.
    Dispatch(Request),
}

/// The clients once one of them has sent a request, or something that is none.
pub open spec fn clients_after(
    clients: Seq<ClientConn>,
    client: u64,
    token: Seq<char>,
    request: Option<Request>,
) -> Seq<ClientConn> {
    match request {
        Some(request) => if token == request.token@ && request.protocol_version
            == STRUCTURED_PROTOCOL_VERSION {
            authenticated(clients, client)
        } else {
            closed(clients, client)
        },
        None => closed(clients, client),
    }
}

/// Decides what comes of what a client sent. `parsed` is the request that it was read as, if it is
/// one. Whatever is not a request with the right token and version ends the connection.
pub fn handle_connection(
    hub: &mut ClientHub,
    client: u64,
    token: &str,
    parsed: Option<Request>,
) -> (step: RequestStep)
    requires
        old(hub).well_formed(),
    ensures
        final(hub).well_formed(),
        final(hub)@ == clients_after(old(hub)@, client, token@, parsed),
        match parsed {
            None => step is Closed,
            Some(request) => if token@ != request.token@ {
                step is Closed
            } else if request.protocol_version != STRUCTURED_PROTOCOL_VERSION {
                step matches RequestStep::Refused(id, (code, text)) && id == request.id && code
                    == ErrorCode::ProtocolMismatch && text@
                    == "structured protocol version mismatch"@
            } else {
                step == RequestStep::Dispatch(request)
            },
        },
{
    match parsed {
        None => {
            hub.close(client);
            RequestStep::Closed
        },
        Some(request) => match authenticate(token, &request) {
            Verdict::Close => {
                hub.close(client);
                RequestStep::Closed
            },
            Verdict::Refuse(code, text) => {
                hub.close(client);
                RequestStep::Refused(request.id, (code, text))
            },
            Verdict::Accept => {
                hub.authenticate(client);
                RequestStep::Dispatch(request)
            },
        },
    }
}

/// A client that did not hear of events before hears of them only if it has just sent a request
/// with the right token and the right version. Anything else closes its connection.
pub proof fn law_listening_takes_the_token(
    clients: Seq<ClientConn>,
    client: u64,
    token: Seq<char>,
    request: Option<Request>,
    id: u64,
)
    ensures
        ({
            let after = clients_after(clients, client, token, request);
            let accepted = request matches Some(request) && request.token@ == token
                && request.protocol_version == STRUCTURED_PROTOCOL_VERSION;
            &&& listeners(after).contains(id) && !listeners(clients).contains(id) ==> accepted && id
                == client
            &&& !accepted ==> (client_index(clients, client) matches Some(index)
                ==> after[index].closed)
        }),
{
    let after = clients_after(clients, client, token, request);
    lemma_closing_keeps_listeners(clients, client);
    lemma_client_index(clients, client);
    if after == authenticated(clients, client) && listeners(after).contains(id) && !listeners(
        clients,
    ).contains(id) {
        lemma_new_listener(clients, client, id);
    }
}

/// How far the daemon is on its way to its end.
#[derive(Debug, Clone, Copy, PartialEq, Eq, Structural)]
pub enum Stage {
    Serving,
    /// It ends when nothing runs any more.
    Draining,
    /// It ends at once.
    Stopping,
}

/// A request whose parameters have been read; `None` stands for parameters that cannot be read.
pub enum Call {
    Hello,
    Ping,
    List,
    Spawn(Option<SpawnParams>),
    Attach(Option<AttachParams>),
    Interrupt(Option<InterruptParams>),
    Forget(Option<RunIdParams>),
    Stats,
    Shutdown(Option<ShutdownMode>),
    Unknown,
}

/// What a request leads to.
pub enum Outcome {
    Hello(HelloResult),
    Pong,
    List(ListResult),
    Spawned(SpawnResult),
    /// A process must be launched, and what comes of it taken in, before there is an answer.
    Launch(SpawnParams),
    Attached(AttachResult),
    /// This signal must be sent, if any, before the answer is an empty object.
    Signal(Option<SignalOrder>),
    /// The same, and then the run with this identifier must be forgotten.
    Forget(String, Option<SignalOrder>),
    Stats(StatsResult),
    /// These processes must be killed; the answer is an empty object.
    Shutdown(Vec<u32>),
    Failed(ErrorCode, String),
}

/// What a method needs to know beyond the runs.
pub struct Surroundings {
    pub version: String,
    pub pid: u32,
    pub started_at: String,
    pub rss_bytes: u64,
    /// The length of the request, in bytes.
    pub size: usize,
}

/// Whether an outcome is a failure with this code and text.
pub open spec fn is_failure(outcome: Outcome, code: ErrorCode, reason: Seq<char>) -> bool {
    outcome matches Outcome::Failed(found, text) && found == code && text@ == reason
}

/// Whether an outcome is the answer to parameters that cannot be read.
pub open spec fn is_unreadable(outcome: Outcome) -> bool {
    is_failure(outcome, ErrorCode::BadRequest, "invalid structured request parameters"@)
}

/// Whether an outcome is the one for a request to spawn.
pub open spec fn is_spawn_outcome(outcome: Outcome, registry: RunsModel, params: SpawnParams) -> bool {
    match spawn_verdict(registry, params) {
        SpawnVerdict::Missing => is_failure(
            outcome,
            ErrorCode::Conflict,
            "missing required structured process field"@,
        ),
        SpawnVerdict::Attach(index) => outcome matches Outcome::Spawned(result) && !result.is_new
            && result.state@ == registry.runs[index].image(),
        SpawnVerdict::Draining => is_failure(
            outcome,
            ErrorCode::Conflict,
            "structured daemon is draining"@,
        ),
        SpawnVerdict::Full => is_failure(
            outcome,
            ErrorCode::Conflict,
            "structured process capacity exhausted; existing runs were not killed"@,
        ),
        SpawnVerdict::Launch => outcome matches Outcome::Launch(launch) && launch == params,
    }
}

/// The order to send a signal to a run, if its process runs.
pub open spec fn order_for(registry: RunsModel, index: int, number: i32) -> Option<SignalOrder> {
    if registry.runs[index].status == RunStatus::Running {
        Some(SignalOrder { pid: registry.runs[index].pid, signo: number })
    } else {
        None
    }
}

/// The signal that a client asks for: to terminate, unless it names one.
pub open spec fn signal_asked(params: InterruptParams) -> Seq<char> {
    match params.signal {
        Some(signal) => signal@,
        None => "SIGTERM"@,
    }
}

/// Whether an outcome is the one for a request, given the runs before it.
pub open spec fn is_outcome(
    outcome: Outcome,
    call: Call,
    registry: RunsModel,
    around: Surroundings,
) -> bool {
    match call {
        Call::Hello => outcome matches Outcome::Hello(hello) && {
            &&& hello.version@ == around.version@
            &&& hello.protocol_version == STRUCTURED_PROTOCOL_VERSION
            &&& hello.pid == around.pid
            &&& hello.started_at@ == around.started_at@
            &&& hello.runs == registry.runs.len()
        },
        Call::Ping => outcome is Pong,
        Call::List => outcome matches Outcome::List(list) && {
            &&& list.runs@.len() == registry.runs.len()
            &&& forall|i: int|
                0 <= i < list.runs@.len() ==> (#[trigger] list.runs@[i])@
                    == registry.runs[i].image()
        },
        Call::Spawn(params) => if around.size > MAX_SPAWN_FRAME_BYTES {
            is_failure(
                outcome,
                ErrorCode::BadRequest,
                "structured spawn frame exceeds limit"@,
            )
        } else {
            match params {
                Some(params) => is_spawn_outcome(outcome, registry, params),
                None => is_unreadable(outcome),
            }
        },
        Call::Attach(None) => is_unreadable(outcome),
        Call::Attach(Some(params)) => match run_index(registry.runs, params.run_id@) {
            Some(index) => outcome matches Outcome::Attached(result) && is_attachment(
                result,
                registry.runs[index],
                params,
            ),
            None => is_failure(outcome, ErrorCode::NotFound, "unknown structured run"@),
        },
        Call::Interrupt(None) => is_unreadable(outcome),
        Call::Interrupt(Some(params)) => match (
            run_signal(signal_asked(params)),
            run_index(registry.runs, params.run_id@),
        ) {
            (None, _) => is_failure(outcome, ErrorCode::BadRequest, "unsupported signal"@),
            (Some(_), None) => is_failure(
                outcome,
                ErrorCode::BadRequest,
                "unknown structured run"@,
            ),
            (Some(number), Some(index)) => outcome matches Outcome::Signal(order) && order
                == order_for(registry, index, number),
        },
        Call::Forget(None) => is_unreadable(outcome),
        Call::Forget(Some(params)) => match run_index(registry.runs, params.run_id@) {
            Some(index) => outcome matches Outcome::Forget(id, order) && id@ == params.run_id@
                && order == order_for(registry, index, 15),
            None => is_failure(outcome, ErrorCode::NotFound, "unknown structured run"@),
        },
        Call::Stats => outcome matches Outcome::Stats(stats) && {
            &&& stats.runs == registry.runs.len()
            &&& stats.running_runs == running_runs(registry.runs)
            &&& stats.retained_log_bytes == retained_by(registry.runs)
            &&& stats.rss_bytes == around.rss_bytes
        },
        Call::Shutdown(None) => is_failure(
            outcome,
            ErrorCode::BadRequest,
            "expected shutdown mode drain or now"@,
        ),
        Call::Shutdown(Some(ShutdownMode::Drain)) => outcome matches Outcome::Shutdown(kill) && kill@
            == Seq::<u32>::empty(),
        Call::Shutdown(Some(ShutdownMode::Now)) => outcome matches Outcome::Shutdown(kill) && kill@
            == running_pids(registry.runs),
        Call::Unknown => is_failure(
            outcome,
            ErrorCode::UnsupportedMethod,
            "unsupported structured method"@,
        ),
    }
}

/// The runs after a request: only a shutdown changes anything at once.
pub open spec fn after_call(call: Call, registry: RunsModel) -> RunsModel {
    match call {
        Call::Shutdown(Some(_)) => RunsModel { draining: true, ..registry },
        _ => registry,
    }
}

/// The stage after a request.
pub open spec fn stage_after_call(call: Call, stage: Stage) -> Stage {
    match call {
        Call::Shutdown(Some(ShutdownMode::Drain)) => Stage::Draining,
        Call::Shutdown(Some(ShutdownMode::Now)) => Stage::Stopping,
        _ => stage,
    }
}

fn unreadable() -> (outcome: Outcome)
    ensures
        is_unreadable(outcome),
{
    Outcome::Failed(ErrorCode::BadRequest, "invalid structured request parameters".to_owned())
}

/// Carries out a request.
pub fn dispatch(registry: &mut Registry, stage: &mut Stage, call: Call, around: &Surroundings) -> (
    outcome: Outcome)
    requires
        old(registry).well_formed(),
    ensures
        final(registry).well_formed(),
        final(registry)@ == after_call(call, old(registry)@),
        *final(stage) == stage_after_call(call, *old(stage)),
        is_outcome(outcome, call, old(registry)@, *around),
{
    match call {
        Call::Hello => Outcome::Hello(
            HelloResult {
                version: around.version.clone(),
                protocol_version: STRUCTURED_PROTOCOL_VERSION,
                pid: around.pid,
                started_at: around.started_at.clone(),
                runs: registry.run_count(),
            },
        ),
        Call::Ping => Outcome::Pong,
        Call::List => Outcome::List(registry.list()),
        Call::Spawn(params) => {
            if around.size > MAX_SPAWN_FRAME_BYTES {
                return Outcome::Failed(
                    ErrorCode::BadRequest,
                    "structured spawn frame exceeds limit".to_owned(),
                );
            }
            match params {
                None => unreadable(),
                Some(params) => match registry.spawn(&params) {
                    Ok(Spawning::Attached(result)) => Outcome::Spawned(result),
                    Ok(Spawning::Launch) => Outcome::Launch(params),
                    Err(text) => Outcome::Failed(ErrorCode::Conflict, text),
                },
            }
        },
        Call::Attach(params) => match params {
            None => unreadable(),
            Some(params) => match registry.attach(&params) {
                Some(result) => Outcome::Attached(result),
                None => Outcome::Failed(ErrorCode::NotFound, "unknown structured run".to_owned()),
            },
        },
        Call::Interrupt(params) => match params {
            None => unreadable(),
            Some(params) => {
                let signal: String = match params.signal {
                    Some(signal) => signal,
                    None => "SIGTERM".to_owned(),
                };
                match registry.interrupt(params.run_id.as_str(), signal.as_str()) {
                    Ok(order) => Outcome::Signal(order),
                    Err(text) => Outcome::Failed(ErrorCode::BadRequest, text),
                }
            },
        },
        Call::Forget(params) => match params {
            None => unreadable(),
            Some(params) => match registry.interrupt(params.run_id.as_str(), "SIGTERM") {
                Ok(order) => Outcome::Forget(params.run_id, order),
                Err(text) => Outcome::Failed(ErrorCode::NotFound, text),
            },
        },
        Call::Stats => Outcome::Stats(
            StatsResult {
                runs: registry.run_count(),
                running_runs: registry.running_count(),
                retained_log_bytes: registry.retained_bytes(),
                rss_bytes: around.rss_bytes,
            },
        ),
        Call::Shutdown(mode) => match mode {
            None => Outcome::Failed(
                ErrorCode::BadRequest,
                "expected shutdown mode drain or now".to_owned(),
            ),
            Some(ShutdownMode::Drain) => {
                registry.begin_drain();
                *stage = Stage::Draining;
                Outcome::Shutdown(Vec::new())
            },
            Some(ShutdownMode::Now) => {
                let kill = registry.stop_now();
                *stage = Stage::Stopping;
                Outcome::Shutdown(kill)
            },
        },
        Call::Unknown => Outcome::Failed(
            ErrorCode::UnsupportedMethod,
            "unsupported structured method".to_owned(),
        ),
    }
}

/// The answer once a signal was sent, or could not be.
pub fn signalled(delivered: bool) -> (answer: Result<(), (ErrorCode, String)>)
    ensures
        answer is Ok <==> delivered,
        answer matches Err((code, text)) ==> code == ErrorCode::BadRequest && text@
            == "failed to signal structured run"@,
{
    match signal_result(delivered) {
        Ok(()) => Ok(()),
        Err(text) => Err((ErrorCode::BadRequest, text)),
    }
}

/// Forgets a run once its process, if it runs, was asked to terminate, and gives the answer.
pub fn forgotten(registry: &mut Registry, run_id: &str, delivered: bool) -> (answer: Result<
    (),
    (ErrorCode, String),
>)
    requires
        old(registry).well_formed(),
    ensures
        final(registry).well_formed(),
        match run_index(old(registry)@.runs, run_id@) {
            None => final(registry)@ == old(registry)@ && (answer matches Err((code, text)) && code
                == ErrorCode::NotFound && text@ == "unknown structured run"@),
            Some(index) => if old(registry)@.runs[index].status == RunStatus::Running && !delivered {
                final(registry)@ == old(registry)@ && (answer matches Err((code, text)) && code
                    == ErrorCode::NotFound && text@ == "failed to signal structured run"@)
            } else {
                final(registry)@ == after_forgetting(old(registry)@, index) && answer is Ok
            },
        },
{
    match registry.forget(run_id, delivered) {
        Ok(()) => Ok(()),
        Err(text) => Err((ErrorCode::NotFound, text)),
    }
}

/// The methods of the protocol.
#[derive(Debug, Clone, Copy, PartialEq, Eq, Structural)]
pub enum Method {
    Hello,
    Ping,
    List,
    Spawn,
    Attach,
    Interrupt,
    Forget,
    Stats,
    Shutdown,
}

/// The method with this name.
pub open spec fn method_named(name: Seq<char>) -> Option<Method> {
    if name == "hello"@ {
        Some(Method::Hello)
    } else if name == "ping"@ {
        Some(Method::Ping)
    } else if name == "list"@ {
        Some(Method::List)
    } else if name == "spawn"@ {
        Some(Method::Spawn)
    } else if name == "attach"@ {
        Some(Method::Attach)
    } else if name == "interrupt"@ {
        Some(Method::Interrupt)
    } else if name == "forget"@ {
        Some(Method::Forget)
    } else if name == "stats"@ {
        Some(Method::Stats)
    } else if name == "shutdown"@ {
        Some(Method::Shutdown)
    } else {
        None
    }
}

/// The method with this name.
pub fn method_of(name: &String) -> (method: Option<Method>)
    ensures
        method == method_named(name@),
{
    if *name == "hello".to_owned() {
        Some(Method::Hello)
    } else if *name == "ping".to_owned() {
        Some(Method::Ping)
    } else if *name == "list".to_owned() {
        Some(Method::List)
    } else if *name == "spawn".to_owned() {
        Some(Method::Spawn)
    } else if *name == "attach".to_owned() {
        Some(Method::Attach)
    } else if *name == "interrupt".to_owned() {
        Some(Method::Interrupt)
    } else if *name == "forget".to_owned() {
        Some(Method::Forget)
    } else if *name == "stats".to_owned() {
        Some(Method::Stats)
    } else if *name == "shutdown".to_owned() {
        Some(Method::Shutdown)
    } else {
        None
    }
}

/// The way to end that some text names.
pub open spec fn mode_named(name: Seq<char>) -> Option<ShutdownMode> {
    if name == "drain"@ {
        Some(ShutdownMode::Drain)
    } else if name == "now"@ {
        Some(ShutdownMode::Now)
    } else {
        None
    }
}

/// The way to end that the parameters of a request name under `mode`.
pub fn shutdown_mode(params: Option<&serde_json::Value>) -> (mode: Option<ShutdownMode>)
    ensures
        mode == (match params {
            Some(params) => match json_text_at(*params, "mode"@) {
                Some(name) => mode_named(name),
                None => None,
            },
            None => None,
        }),
{
    match params {
        Some(params) => match text_at(params, "mode") {
            Some(name) => {
                let name = name.to_owned();
                if name == "drain".to_owned() {
                    Some(ShutdownMode::Drain)
                } else if name == "now".to_owned() {
                    Some(ShutdownMode::Now)
                } else {
                    None
                }
            },
            None => None,
        },
        None => None,
    }
}

/// What comes of a round of the daemon's wait for its end.
pub struct Round {
    /// The processes to kill.
    pub kill: Vec<u32>,
    /// Whether the daemon ends.
    pub finished: bool,
}

/// The stage after a round in which this many signals to end came: a first one begins to drain, a
/// second one, or one that finds the daemon draining, stops it.
pub open spec fn stage_after_signals(stage: Stage, signals: u8) -> Stage {
    if signals == 0 {
        stage
    } else if signals >= 2 || stage != Stage::Serving {
        Stage::Stopping
    } else {
        Stage::Draining
    }
}

/// Whether the daemon ends at a stage.
pub open spec fn ends(stage: Stage, running: nat) -> bool {
    stage == Stage::Stopping || (stage == Stage::Draining && running == 0)
}

/// One round of the daemon's wait for its end.
pub fn round(registry: &mut Registry, stage: &mut Stage, signals: u8) -> (done: Round)
    requires
        old(registry).well_formed(),
    ensures
        final(registry).well_formed(),
        *final(stage) == stage_after_signals(*old(stage), signals),
        final(registry)@ == (RunsModel {
            draining: old(registry)@.draining || signals > 0,
            ..old(registry)@
        }),
        done.kill@ == (if signals > 0 && *final(stage) == Stage::Stopping {
            running_pids(old(registry)@.runs)
        } else {
            Seq::empty()
        }),
        done.finished == ends(*final(stage), running_runs(old(registry)@.runs)),
{
    let mut kill: Vec<u32> = Vec::new();
    if signals > 0 {
        if signals >= 2 || *stage != Stage::Serving {
            kill = registry.stop_now();
            *stage = Stage::Stopping;
        } else {
            registry.begin_drain();
            *stage = Stage::Draining;
        }
    }
    let finished = *stage == Stage::Stopping || (*stage == Stage::Draining
        && registry.running_count() == 0);
    Round { kill, finished }
}

/// A daemon that nobody asked to end goes on; one that drains waits for what runs; and a second
/// signal ends it.
pub proof fn law_drain_waits_for_runs(running: nat)
    requires
        running > 0,
    ensures
        !ends(stage_after_signals(Stage::Serving, 0), 0),
        !ends(stage_after_signals(Stage::Serving, 1), running),
        ends(stage_after_signals(Stage::Serving, 1), 0),
        ends(stage_after_signals(stage_after_signals(Stage::Serving, 1), 1), running),
        ends(stage_after_signals(Stage::Serving, 2), running),
{
}

/// Why the daemon must not bind its socket, if it must not.
pub open spec fn structured_refusal(
    existing: ExistingSocket,
    owner: Option<u32>,
    listening: bool,
) -> Option<Seq<char>> {
    match existing {
        ExistingSocket::Absent => if owner is Some {
            Some("structured Render owner is alive; waiting for socket recovery"@)
        } else {
            None
        },
        ExistingSocket::Owned => if listening {
            Some("another structured Render daemon is listening"@)
        } else {
            None
        },
        ExistingSocket::Foreign(_) => Some("refusing foreign structured socket"@),
    }
}

/// Decides what to do about the path of the socket: given whose it is, which process is recorded
/// as its owner and still alive, and whether something answers on it.
pub fn prepare_structured_socket(
    existing: &ExistingSocket,
    owner: Option<u32>,
    listening: bool,
) -> (decision: SocketDecision)
    ensures
        match structured_refusal(*existing, owner, listening) {
            Some(reason) => decision matches SocketDecision::Refuse(text) && text@ == reason,
            None => if existing is Absent {
                decision is Bind
            } else {
                decision is Reclaim
            },
        },
{
    match existing {
        ExistingSocket::Absent => match owner {
            Some(_) => SocketDecision::Refuse(
                "structured Render owner is alive; waiting for socket recovery".to_owned(),
            ),
            None => SocketDecision::Bind,
        },
        ExistingSocket::Owned => if listening {
            SocketDecision::Refuse("another structured Render daemon is listening".to_owned())
        } else {
            SocketDecision::Reclaim
        },
        ExistingSocket::Foreign(_) => SocketDecision::Refuse(
            "refusing foreign structured socket".to_owned(),
        ),
    }
}

} // verus!
