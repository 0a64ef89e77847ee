//! What clients are promised of each request, said without the functions that the library answers
//! it with.

use vstd::prelude::*;
use vstd::utf8::encode_utf8;

use crate::dispatch::{self, after_call, is_outcome, Call, Method, Outcome, Surroundings};
use crate::error::{RenderError, RenderErrorKind};
use crate::frame::{big_endian, frame_split, framed, leading_number, FrameError, FrameSplit};
use crate::hub::{authenticated, client_index, closed, without, ClientConn};
use crate::json::{json_member, json_number_at, json_str, json_text_at, json_u64};
use crate::launch::{
    is_plan_for, size_error, term_name, variable, variables, LaunchFailure, LaunchPlan,
};
use crate::lifecycle::{
    after_request, refusal, shutdown_begun, shutdown_finished, ShutdownRequest,
};
use crate::preview::json_length;
use crate::promises::{
    law_each_session_is_found, law_running_sessions_are_counted, law_screen_takes_32_bytes_a_cell,
    law_sessions_are_found_by_name,
};
use crate::protocol::{
    texts, CreateOrAttachParams, ErrorCode, ForgetParams, KillParams, Notice, Request, ResizeParams,
    Response, SessionStatus, ShutdownMode,
};
use crate::registry::{
    create_verdict, ids, law_drain_spares_running_sessions, running_count, RegistryModel,
};
use crate::security::{foreign_reason, ExistingSocket, FileKind, PathFacts};
use crate::server::{self, is_oversize_answer};
use crate::session::{requested_by, requested_signal, Requested, SessionModel};
use crate::signal::{is_number_of, signal_named, signal_stem, upper, Signal, DEFAULT};
use crate::structured_server::{self, mode_named, structured_refusal};
use crate::text::{decimal, trimmed};

verus! {

/// No two sessions have the same identifier.
pub open spec fn all_differ(sessions: Seq<SessionModel>) -> bool {
    forall|i: int, j: int|
        0 <= i < j < sessions.len() ==> (#[trigger] sessions[i]).id != (#[trigger] sessions[j]).id
}

/// A request that names a session gets what is that session's: its state, its input, its signal,
/// its size.
pub proof fn law_requests_reach_their_session(
    outcome: Outcome,
    call: Call,
    registry: RegistryModel,
    around: Surroundings,
    index: int,
)
    requires
        is_outcome(outcome, call, registry, after_call(call, registry), around),
        all_differ(registry.sessions),
        0 <= index < registry.sessions.len(),
    ensures
        ({
            let session = registry.sessions[index];
            let after = after_call(call, registry);
            let running = session.status == SessionStatus::Running;
            match call {
                Call::Attach(params) => params.session_id@ == session.id ==> (
                outcome matches Outcome::Attached(result) && result.state@ == session.state(
                    params.after_seq,
                )),
                Call::CreateOrAttach(params) => params.session_id@ == session.id ==> (
                outcome matches Outcome::Created(result) && !result.is_new && result.state@
                    == session.state(params.after_seq)),
                Call::Write(params) => params.session_id@ == session.id ==> if running
                    && !session.retired {
                    outcome matches Outcome::Write(bytes) && bytes@ == encode_utf8(params.data@)
                } else {
                    outcome matches Outcome::Failed(code, _) && code == ErrorCode::Conflict
                },
                Call::Resize(params) => params.session_id@ == session.id ==> if !(1 <= params.cols
                    <= 1_024 && 1 <= params.rows <= 512 && params.cols * params.rows <= 500_000) {
                    after == registry && (outcome matches Outcome::Failed(code, _) && code
                        == ErrorCode::BadRequest)
                } else if !running {
                    after == registry && (outcome matches Outcome::Failed(code, _) && code
                        == ErrorCode::Conflict)
                } else {
                    &&& outcome matches Outcome::Resize(device) && device == (if session.retired {
                        None::<(u16, u16)>
                    } else {
                        Some((params.cols, params.rows))
                    })
                    &&& after.sessions.len() == registry.sessions.len()
                    &&& after.sessions[index] == session.resized(params.cols, params.rows)
                    &&& forall|i: int|
                        0 <= i < registry.sessions.len() && i != index ==> #[trigger] after.sessions[i]
                            == registry.sessions[i]
                },
                Call::Kill(params) => params.session_id@ == session.id ==> if !running {
                    outcome matches Outcome::Signal(None)
                } else {
                    match params.signal {
                        None => outcome matches Outcome::Signal(Some(order)) && order.pid
                            == session.pid && order.signo == 1,
                        Some(name) => match signal_named(name@) {
                            Some(signal) => trimmed(name@).len() > 0 ==> (
                            outcome matches Outcome::Signal(Some(order)) && order.pid
                                == session.pid && is_number_of(signal, order.signo)),
                            None => trimmed(name@).len() > 0 ==> (
                            outcome matches Outcome::Failed(code, _) && code
                                == ErrorCode::BadRequest),
                        },
                    }
                },
                Call::Forget(params) => params.session_id@ == session.id ==> {
                    &&& outcome matches Outcome::Forgotten(Some((pid, event))) && pid == session.pid
                        && event@ == (Notice::Reconcile { session_ids: ids(after.sessions) })
                    &&& after.sessions.len() == registry.sessions.len() - 1
                    &&& forall|i: int|
                        0 <= i < index ==> #[trigger] after.sessions[i] == registry.sessions[i]
                    &&& forall|i: int|
                        index <= i < after.sessions.len() ==> #[trigger] after.sessions[i]
                            == registry.sessions[i + 1]
                },
                Call::List => outcome matches Outcome::List(states) && {
                    &&& states@.len() == registry.sessions.len()
                    &&& json_length(session.snapshot()) <= 65_536 ==> states@[index]@
                        == session.state(0)
                    &&& states@[index]@.session_id == session.id
                },
                _ => true,
            }
        }),
{
    law_each_session_is_found(registry.sessions, index);
    let session = registry.sessions[index];
    if let Call::Resize(params) = call {
        assert((size_error(params.cols, params.rows) is None) == (1 <= params.cols <= 1_024 && 1
            <= params.rows <= 512 && params.cols * params.rows <= 500_000));
    }
}

/// A request that names no session that is there changes nothing, and is told that there is none.
pub proof fn law_unknown_sessions_are_not_found(
    outcome: Outcome,
    call: Call,
    registry: RegistryModel,
    around: Surroundings,
    id: Seq<char>,
)
    requires
        is_outcome(outcome, call, registry, after_call(call, registry), around),
        forall|i: int|
            0 <= i < registry.sessions.len() ==> (#[trigger] registry.sessions[i]).id != id,
    ensures
        match call {
            Call::Attach(params) => params.session_id@ == id ==> (
            outcome matches Outcome::Failed(code, _) && code == ErrorCode::NotFound),
            Call::Write(params) => params.session_id@ == id ==> (
            outcome matches Outcome::Failed(code, _) && code == ErrorCode::NotFound),
            Call::Resize(params) => params.session_id@ == id ==> after_call(call, registry)
                == registry && (outcome matches Outcome::Failed(code, _) && code
                == ErrorCode::NotFound),
            Call::Kill(params) => params.session_id@ == id ==> (
            outcome matches Outcome::Failed(code, _) && code == ErrorCode::NotFound),
            Call::Forget(params) => params.session_id@ == id ==> after_call(call, registry)
                == registry && (outcome matches Outcome::Forgotten(None)),
            Call::CreateOrAttach(params) => params.session_id@ == id ==> !(outcome is Created),
            _ => true,
        },
{
    law_sessions_are_found_by_name(registry.sessions, id, Seq::empty());
}

/// Only a change of size and forgetting change the sessions; every other request leaves them as
/// they are. What concerns no session is answered of the daemon as it is.
pub proof fn law_other_requests_change_nothing(
    outcome: Outcome,
    call: Call,
    registry: RegistryModel,
    around: Surroundings,
)
    requires
        is_outcome(outcome, call, registry, after_call(call, registry), around),
    ensures
        !(call is Resize) && !(call is Forget) ==> after_call(call, registry) == registry,
        match call {
            Call::Hello => outcome matches Outcome::Hello(hello) && hello.version@
                == registry.version && hello.protocol_version == 1 && hello.pid == around.pid
                && hello.started_at@ == registry.started_at && hello.sessions
                == registry.sessions.len(),
            Call::Ping => outcome is Pong,
            Call::Stats => outcome matches Outcome::Stats(stats) && stats.sessions
                == registry.sessions.len() && stats.live_bytes == around.live_bytes
                && stats.rss_bytes == around.rss_bytes && (around.now_ms >= registry.started_ms
                ==> stats.uptime_ms + registry.started_ms == around.now_ms),
            Call::Shutdown(params) => outcome == Outcome::Shutdown(params.mode),
            Call::Unreadable(reason) => outcome matches Outcome::Failed(code, text) && code
                == ErrorCode::BadRequest && text@ == reason@,
            _ => true,
        },
{
}

/// A frame is its body behind the length of the body: four bytes, most significant first.
pub proof fn law_frame_is_length_and_body(body: Seq<u8>)
    requires
        body.len() <= 67_108_864,
    ensures
        framed(body).len() == 4 + body.len(),
        framed(body).subrange(4, 4 + body.len() as int) == body,
        framed(body)[0] * 16_777_216 + framed(body)[1] * 65_536 + framed(body)[2] * 256 + framed(
            body,
        )[3] == body.len(),
{
    let whole = framed(body);
    let number = body.len() as u32;
    lemma_big_endian(number);
    assert(whole == big_endian(number) + body);
    assert(whole.subrange(4, 4 + body.len() as int) == body);
    assert(whole[0] == big_endian(number)[0]);
    assert(whole[1] == big_endian(number)[1]);
    assert(whole[2] == big_endian(number)[2]);
    assert(whole[3] == big_endian(number)[3]);
}

/// What the first four bytes of a buffer say decides: a body of more than 64 MiB is refused, one
/// that is not all there waits, and any other is taken, with its four bytes.
pub proof fn law_frame_is_taken_by_its_length(buffer: Seq<u8>)
    ensures
        ({
            let length = buffer[0] * 16_777_216 + buffer[1] * 65_536 + buffer[2] * 256 + buffer[3];
            &&& buffer.len() < 4 ==> frame_split(buffer) is Partial
            &&& buffer.len() >= 4 && length > 67_108_864 ==> frame_split(buffer) is TooLarge
            &&& buffer.len() >= 4 && length <= 67_108_864 && buffer.len() < 4 + length
                ==> frame_split(buffer) is Partial
            &&& buffer.len() >= 4 && length <= 67_108_864 && buffer.len() >= 4 + length
                ==> frame_split(buffer) == FrameSplit::Whole((4 + length) as usize)
        }),
{
    assert(leading_number(buffer) == buffer[0] * 16_777_216 + buffer[1] * 65_536 + buffer[2] * 256
        + buffer[3]);
}

#[verifier::spinoff_prover]
proof fn lemma_big_endian(number: u32)
    ensures
        big_endian(number).len() == 4,
        big_endian(number)[0] * 16_777_216 + big_endian(number)[1] * 65_536 + big_endian(number)[2]
            * 256 + big_endian(number)[3] == number,
{
    let bytes = big_endian(number);
    let two = number / 0x100 / 0x100;
    assert(number / 0x10000 == two);
    assert(number / 0x1000000 == two / 0x100);
    assert(number == number / 0x100 * 0x100 + number % 0x100);
    assert(number / 0x100 == two * 0x100 + number / 0x100 % 0x100);
    assert(two == two / 0x100 * 0x100 + two % 0x100);
    assert(bytes[0] == two / 0x100);
    assert(bytes[1] == two % 0x100);
    assert(bytes[2] == number / 0x100 % 0x100);
    assert(bytes[3] == number % 0x100);
}

/// A process is given the terminal name of its request; where that is empty, the one that the
/// environment of the request gives last; and `xterm-color` where that is empty or missing.
pub proof fn law_terminal_name_is_the_requests(
    name: Seq<char>,
    env: Seq<(Seq<char>, Seq<char>)>,
    at: int,
)
    ensures
        name.len() > 0 ==> term_name(name, env) == name,
        name.len() == 0 && 0 <= at < env.len() && env[at].0 == "TERM"@ && env[at].1.len() > 0 && (
        forall|later: int| at < later < env.len() ==> (#[trigger] env[later]).0 != "TERM"@)
            ==> term_name(name, env) == env[at].1,
        name.len() == 0 && 0 <= at < env.len() && env[at].0 == "TERM"@ && env[at].1.len() == 0 && (
        forall|later: int| at < later < env.len() ==> (#[trigger] env[later]).0 != "TERM"@)
            ==> term_name(name, env) == "xterm-color"@,
        name.len() == 0 && (forall|i: int|
            0 <= i < env.len() ==> (#[trigger] env[i]).0 != "TERM"@) ==> term_name(name, env)
            == "xterm-color"@,
{
    lemma_variable(env, "TERM"@, at);
    if forall|i: int| 0 <= i < env.len() ==> (#[trigger] env[i]).0 != "TERM"@ {
        lemma_no_variable(env, "TERM"@);
    }
}

proof fn lemma_variable(env: Seq<(Seq<char>, Seq<char>)>, name: Seq<char>, at: int)
    ensures
        0 <= at < env.len() && env[at].0 == name && (forall|later: int|
            at < later < env.len() ==> (#[trigger] env[later]).0 != name) ==> variable(env, name)
            == Some(env[at].1),
    decreases env.len(),
{
    if 0 <= at < env.len() - 1 && env[at].0 == name && (forall|later: int|
        at < later < env.len() ==> (#[trigger] env[later]).0 != name) {
        assert(env[env.len() - 1].0 != name);
        assert forall|later: int| at < later < env.drop_last().len() implies (
        #[trigger] env.drop_last()[later]).0 != name by {
            assert(env[later].0 != name);
        }
        lemma_variable(env.drop_last(), name, at);
    }
}

proof fn lemma_no_variable(env: Seq<(Seq<char>, Seq<char>)>, name: Seq<char>)
    requires
        forall|i: int| 0 <= i < env.len() ==> (#[trigger] env[i]).0 != name,
    ensures
        variable(env, name) is None,
    decreases env.len(),
{
    if env.len() > 0 {
        assert(env[env.len() - 1].0 != name);
        assert forall|i: int| 0 <= i < env.drop_last().len() implies (
        #[trigger] env.drop_last()[i]).0 != name by {
            assert(env[i].0 != name);
        }
        lemma_no_variable(env.drop_last(), name);
    }
}

/// The daemon ends at once when that is asked for, when draining is asked for a second time, or when
/// nobody can ask any more; it drains when that is asked for first; and while it drains it ends as
/// soon as no process runs, and not before.
pub proof fn law_daemon_ends_as_asked(registry: RegistryModel, request: ShutdownRequest)
    ensures
        ({
            let now = request == ShutdownRequest::Asked(ShutdownMode::Now) || request
                == ShutdownRequest::Disconnected || request == ShutdownRequest::Asked(
                ShutdownMode::Drain,
            ) && registry.shutting_down;
            let drain = request == ShutdownRequest::Asked(ShutdownMode::Drain)
                && !registry.shutting_down;
            let idle = running_count(registry.sessions) == 0;
            &&& shutdown_begun(registry, request) == (if now {
                Some(ShutdownMode::Now)
            } else if drain {
                Some(ShutdownMode::Drain)
            } else {
                None
            })
            &&& now ==> shutdown_finished(registry, request) == Some(ShutdownMode::Now)
                && after_request(registry, request).sessions.len() == 0
            &&& !now && (drain || registry.shutting_down) && idle ==> shutdown_finished(
                registry,
                request,
            ) == Some(ShutdownMode::Drain)
            &&& !now && !idle ==> shutdown_finished(registry, request) is None
            &&& !now && !drain ==> after_request(registry, request) == registry
            &&& !now && !drain && !registry.shutting_down ==> shutdown_finished(registry, request)
                is None
            &&& now || drain ==> after_request(registry, request).shutting_down
        }),
{
    if registry.sessions.len() > 0 {
        law_drain_spares_running_sessions(registry, registry.sessions[0]);
    } else {
        law_drain_spares_running_sessions(registry, arbitrary());
    }
}

/// A signal is known by its letters, in upper or lower case, with or without `SIG` before them, and
/// with white space around them.
pub proof fn law_signals_are_known_by_their_letters(name: Seq<char>, letters: Seq<char>)
    requires
        ({
            let shout = trimmed(name).map_values(|c: char| upper(c));
            shout == letters || shout == seq!['S', 'I', 'G'] + letters
        }),
        letters.len() >= 3 ==> letters.take(3) != seq!['S', 'I', 'G'],
    ensures
        signal_named(name) == Some(Signal::Hup) <==> letters == seq!['H', 'U', 'P'],
        signal_named(name) == Some(Signal::Int) <==> letters == seq!['I', 'N', 'T'],
        signal_named(name) == Some(Signal::Quit) <==> letters == seq!['Q', 'U', 'I', 'T'],
        signal_named(name) == Some(Signal::Kill) <==> letters == seq!['K', 'I', 'L', 'L'],
        signal_named(name) == Some(Signal::Term) <==> letters == seq!['T', 'E', 'R', 'M'],
        signal_named(name) == Some(Signal::Stop) <==> letters == seq!['S', 'T', 'O', 'P'],
        signal_named(name) == Some(Signal::Cont) <==> letters == seq!['C', 'O', 'N', 'T'],
        signal_named(name) == Some(Signal::Usr1) <==> letters == seq!['U', 'S', 'R', '1'],
        signal_named(name) == Some(Signal::Usr2) <==> letters == seq!['U', 'S', 'R', '2'],
        signal_named(name) == Some(Signal::Pipe) <==> letters == seq!['P', 'I', 'P', 'E'],
        signal_named(name) == Some(Signal::Alrm) <==> letters == seq!['A', 'L', 'R', 'M'],
        signal_named(name) == Some(Signal::Abrt) <==> letters == seq!['A', 'B', 'R', 'T'],
        signal_named(name) == Some(Signal::Chld) <==> letters == seq!['C', 'H', 'L', 'D'],
        is_number_of(Signal::Hup, 1) && is_number_of(Signal::Int, 2) && is_number_of(
            Signal::Quit,
            3,
        ) && is_number_of(Signal::Kill, 9) && is_number_of(Signal::Alrm, 14) && is_number_of(
            Signal::Term,
            15,
        ),
        forall|number: i32| #[trigger] is_number_of(Signal::Kill, number) ==> number == 9,
        forall|number: i32| #[trigger] is_number_of(Signal::Term, number) ==> number == 15,
        forall|number: i32| #[trigger] is_number_of(Signal::Int, number) ==> number == 2,
        forall|number: i32| #[trigger] is_number_of(Signal::Hup, number) ==> number == 1,
        forall|number: i32| #[trigger] is_number_of(Signal::Quit, number) ==> number == 3,
{
    let shout = trimmed(name).map_values(|c: char| upper(c));
    let sig = seq!['S', 'I', 'G'];
    if shout == sig + letters {
        assert(shout.take(3) == sig);
        assert(shout.skip(3) == letters);
    }
    assert(signal_stem(name) == letters);
    lemma_letters_differ(letters);
}

proof fn lemma_letters_differ(letters: Seq<char>)
    ensures
        letters == seq!['H', 'U', 'P'] ==> letters.len() == 3 && letters[0] == 'H',
        letters == seq!['I', 'N', 'T'] ==> letters.len() == 3 && letters[0] == 'I',
        letters == seq!['Q', 'U', 'I', 'T'] ==> letters.len() == 4 && letters[0] == 'Q',
        letters == seq!['K', 'I', 'L', 'L'] ==> letters.len() == 4 && letters[0] == 'K',
        letters == seq!['T', 'E', 'R', 'M'] ==> letters.len() == 4 && letters[0] == 'T',
        letters == seq!['S', 'T', 'O', 'P'] ==> letters.len() == 4 && letters[0] == 'S',
        letters == seq!['C', 'O', 'N', 'T'] ==> letters.len() == 4 && letters[0] == 'C'
            && letters[1] == 'O',
        letters == seq!['U', 'S', 'R', '1'] ==> letters.len() == 4 && letters[3] == '1',
        letters == seq!['U', 'S', 'R', '2'] ==> letters.len() == 4 && letters[3] == '2'
            && letters[0] == 'U',
        letters == seq!['P', 'I', 'P', 'E'] ==> letters.len() == 4 && letters[0] == 'P',
        letters == seq!['A', 'L', 'R', 'M'] ==> letters.len() == 4 && letters[0] == 'A'
            && letters[1] == 'L',
        letters == seq!['A', 'B', 'R', 'T'] ==> letters.len() == 4 && letters[0] == 'A'
            && letters[1] == 'B',
        letters == seq!['C', 'H', 'L', 'D'] ==> letters.len() == 4 && letters[0] == 'C'
            && letters[1] == 'H',
{
}

/// A request to kill that names no signal, or only white space, asks for the one that closes a
/// terminal; any other name asks for the signal that it names.
pub proof fn law_kill_asks_for_the_named_signal(name: Seq<char>)
    ensures
        trimmed(name).len() == 0 ==> requested_by(name) is Default,
        trimmed(name).len() > 0 ==> match signal_named(name) {
            Some(signal) => requested_by(name) == Requested::Known(signal),
            None => requested_by(name) == Requested::Unknown(name),
        },
        DEFAULT == 1,
{
}

/// A client that shows its token, or is closed, is changed alone; and a client that leaves is gone,
/// with every other one left as it was.
pub proof fn law_clients_are_told_apart(
    clients: Seq<ClientConn>,
    id: u64,
    gone: Seq<u64>,
    client: ClientConn,
)
    requires
        forall|i: int, j: int|
            0 <= i < j < clients.len() ==> (#[trigger] clients[i]).id < (#[trigger] clients[j]).id,
    ensures
        authenticated(clients, id).len() == clients.len(),
        closed(clients, id).len() == clients.len(),
        forall|i: int|
            0 <= i < clients.len() ==> #[trigger] authenticated(clients, id)[i] == (if clients[i].id
                == id {
                ClientConn { id, authed: true, closed: clients[i].closed }
            } else {
                clients[i]
            }),
        forall|i: int|
            0 <= i < clients.len() ==> #[trigger] closed(clients, id)[i] == (if clients[i].id
                == id {
                ClientConn { id, authed: clients[i].authed, closed: true }
            } else {
                clients[i]
            }),
        without(clients, gone).contains(client) <==> clients.contains(client) && !gone.contains(
            client.id,
        ),
{
    lemma_client_found(clients, id);
    lemma_without(clients, gone, client);
    if let Some(index) = client_index(clients, id) {
        assert forall|i: int| 0 <= i < clients.len() && i != index implies (
        #[trigger] clients[i]).id != id by {
            if i < index {
                assert(clients[i].id < clients[index].id);
            } else {
                assert(clients[index].id < clients[i].id);
            }
        }
    }
}

proof fn lemma_client_found(clients: Seq<ClientConn>, id: u64)
    ensures
        match client_index(clients, id) {
            Some(index) => 0 <= index < clients.len() && clients[index].id == id,
            None => forall|i: int| 0 <= i < clients.len() ==> (#[trigger] clients[i]).id != id,
        },
    decreases clients.len(),
{
    if clients.len() > 0 {
        lemma_client_found(clients.drop_last(), id);
        assert forall|i: int| 0 <= i < clients.len() - 1 implies clients.drop_last()[i]
            == #[trigger] clients[i] by {}
    }
}

proof fn lemma_without(clients: Seq<ClientConn>, gone: Seq<u64>, client: ClientConn)
    ensures
        without(clients, gone).contains(client) <==> clients.contains(client) && !gone.contains(
            client.id,
        ),
    decreases clients.len(),
{
    if clients.len() > 0 {
        let shorter = clients.drop_last();
        let before = without(shorter, gone);
        let last = clients.last();
        lemma_without(shorter, gone, client);
        assert(clients == shorter.push(last));
        lemma_client_pushed(shorter, last, client);
        lemma_client_pushed(before, last, client);
    }
}

proof fn lemma_client_pushed(clients: Seq<ClientConn>, last: ClientConn, client: ClientConn)
    ensures
        clients.push(last).contains(client) <==> clients.contains(client) || last == client,
{
    let longer = clients.push(last);
    if clients.contains(client) {
        let i = choose|i: int| 0 <= i < clients.len() && clients[i] == client;
        assert(longer[i] == client);
    }
    assert(longer[clients.len() as int] == last);
    if longer.contains(client) {
        let i = choose|i: int| 0 <= i < longer.len() && longer[i] == client;
        if i < clients.len() {
            assert(clients[i] == client);
        }
    }
}

/// A process is launched as its request says: that file, those arguments in that order, that size,
/// that directory if one is named, and the variables of the request, followed by `PWD` where a
/// directory is named and by `TERM`.
pub proof fn law_launch_is_the_requests(plan: LaunchPlan, params: CreateOrAttachParams)
    requires
        is_plan_for(plan, params),
    ensures
        plan.file@ == params.file@,
        plan.args@.len() == params.args@.len(),
        forall|i: int|
            0 <= i < params.args@.len() ==> (#[trigger] plan.args@[i])@ == params.args@[i]@,
        plan.cols == params.cols,
        plan.rows == params.rows,
        plan.cwd is Some <==> params.cwd@.len() > 0,
        plan.cwd matches Some(cwd) ==> cwd@ == params.cwd@,
        ({
            let given = params.env@.len() as int;
            let located = if params.cwd@.len() > 0 {
                1int
            } else {
                0int
            };
            &&& plan.env@.len() == given + located + 1
            &&& forall|i: int|
                0 <= i < given ==> (#[trigger] plan.env@[i]).0@ == params.env@[i].0@
                    && plan.env@[i].1@ == params.env@[i].1@
            &&& located == 1 ==> plan.env@[given].0@ == "PWD"@ && plan.env@[given].1@
                == params.cwd@
            &&& plan.env@[given + located].0@ == "TERM"@
            &&& params.name@.len() > 0 ==> plan.env@[given + located].1@ == params.name@
        }),
{
    let planned = variables(plan.env@);
    let given = variables(params.env@);
    assert(texts(plan.args@).len() == plan.args@.len());
    assert forall|i: int| 0 <= i < params.args@.len() implies (#[trigger] plan.args@[i])@
        == params.args@[i]@ by {
        assert(texts(plan.args@)[i] == texts(params.args@)[i]);
    }
    assert(planned.len() == plan.env@.len());
    assert forall|i: int| 0 <= i < given.len() implies (#[trigger] plan.env@[i]).0@
        == params.env@[i].0@ && plan.env@[i].1@ == params.env@[i].1@ by {
        assert(planned[i] == given[i]);
    }
    let located = if params.cwd@.len() > 0 {
        1int
    } else {
        0int
    };
    assert(planned[given.len() + located].0 == "TERM"@);
    assert(located == 1 ==> planned[given.len() as int] == ("PWD"@, params.cwd@));
}

/// A path is a private socket of this user exactly if it is a socket, and no link, that belongs to
/// the user and has the permissions `0600`.
pub proof fn law_private_sockets_are_known(facts: PathFacts, own_uid: u32)
    ensures
        foreign_reason(facts, own_uid) is None <==> match facts {
            PathFacts::Missing => true,
            PathFacts::Unknown(_) => false,
            PathFacts::Found { kind, uid, mode } => kind == FileKind::Socket && uid == own_uid
                && mode % 512 == 6 * 64,
        },
{
}

/// The terminal daemon binds its socket if nothing is there and no owner is alive, or if what is
/// there is its user's own and neither an owner is alive nor anything answers; the structured daemon
/// if nothing is there and no owner is alive, or if what is there is its user's own and nothing
/// answers. Otherwise neither starts.
pub proof fn law_daemon_starts_where_nobody_is(
    existing: ExistingSocket,
    owner: Option<u32>,
    listening: bool,
    path: Seq<char>,
)
    ensures
        refusal(existing, owner, listening, path) is None <==> match existing {
            ExistingSocket::Absent => owner is None,
            ExistingSocket::Owned => owner is None && !listening,
            ExistingSocket::Foreign(_) => false,
        },
        structured_refusal(existing, owner, listening) is None <==> match existing {
            ExistingSocket::Absent => owner is None,
            ExistingSocket::Owned => !listening,
            ExistingSocket::Foreign(_) => false,
        },
{
}

/// A request for a new session that is not launched is told why: a shutdown, what is wrong with it,
/// 200 processes, or the budget, in this order.
pub proof fn law_refused_sessions_are_told_why(
    registry: RegistryModel,
    params: CreateOrAttachParams,
    cwd_is_dir: bool,
    budget_bytes: int,
    live_bytes: int,
)
    requires
        forall|i: int|
            0 <= i < registry.sessions.len() ==> (#[trigger] registry.sessions[i]).id
                != params.session_id@,
    ensures
        ({
            let verdict = create_verdict(registry, params, cwd_is_dir, budget_bytes, live_bytes);
            let in_order = params.session_id@.len() > 0 && params.file@.len() > 0 && 1
                <= params.cols <= 1_024 && 1 <= params.rows <= 512 && params.cols * params.rows
                <= 500_000 && (params.cwd@.len() == 0 || cwd_is_dir);
            let running = registry.sessions.filter(
                |session: SessionModel| session.status == SessionStatus::Running,
            ).len();
            &&& verdict is ShuttingDown <==> registry.shutting_down
            &&& verdict is Invalid <==> !registry.shutting_down && !in_order
            &&& verdict is TooMany <==> !registry.shutting_down && in_order && running >= 200
            &&& verdict is NoRoom <==> !registry.shutting_down && in_order && running < 200
                && live_bytes + 32 * (params.cols * params.rows) + 1_048_576 > budget_bytes
        }),
{
    law_sessions_are_found_by_name(registry.sessions, params.session_id@, Seq::empty());
    law_running_sessions_are_counted(registry.sessions);
    law_screen_takes_32_bytes_a_cell(params.cols, params.rows, 0);
}

/// A connected client that sends a request with the right token and the right version hears of events
/// from then on, and its connection stays as it was: of the terminal daemon and of the structured
/// one.
pub proof fn law_right_token_is_let_in(
    clients: Seq<ClientConn>,
    token: Seq<char>,
    request: Request,
    index: int,
)
    requires
        forall|i: int, j: int|
            0 <= i < j < clients.len() ==> (#[trigger] clients[i]).id < (#[trigger] clients[j]).id,
        0 <= index < clients.len(),
        request.token@ == token,
    ensures
        ({
            let id = clients[index].id;
            let after = server::clients_after(clients, id, token, Some(request));
            let structured = structured_server::clients_after(clients, id, token, Some(request));
            &&& request.protocol_version == 1 ==> after[index].authed && after[index].closed
                == clients[index].closed && after.len() == clients.len()
            &&& request.protocol_version == 2 ==> structured[index].authed
                && structured[index].closed == clients[index].closed && structured.len()
                == clients.len()
            &&& request.protocol_version != 1 ==> after == clients
            &&& request.protocol_version != 2 ==> structured[index].closed
        }),
{
    law_clients_are_told_apart(clients, clients[index].id, Seq::empty(), clients[index]);
}

/// Each method is known by its own name and by no other.
pub proof fn law_methods_are_known_by_name(name: Seq<char>)
    ensures
        dispatch::method_named(name) == Some(Method::Hello) <==> name == "hello"@,
        dispatch::method_named(name) == Some(Method::Ping) <==> name == "ping"@,
        dispatch::method_named(name) == Some(Method::List) <==> name == "list"@,
        dispatch::method_named(name) == Some(Method::Attach) <==> name == "attach"@,
        dispatch::method_named(name) == Some(Method::CreateOrAttach) <==> name
            == "createOrAttach"@,
        dispatch::method_named(name) == Some(Method::Write) <==> name == "write"@,
        dispatch::method_named(name) == Some(Method::Resize) <==> name == "resize"@,
        dispatch::method_named(name) == Some(Method::Kill) <==> name == "kill"@,
        dispatch::method_named(name) == Some(Method::Forget) <==> name == "forget"@,
        dispatch::method_named(name) == Some(Method::Stats) <==> name == "stats"@,
        dispatch::method_named(name) == Some(Method::Shutdown) <==> name == "shutdown"@,
{
    lemma_names_differ(name);
}

/// Each method of the structured protocol is known by its own name and by no other, and so is each
/// way to end.
pub proof fn law_structured_methods_are_known_by_name(name: Seq<char>)
    ensures
        structured_server::method_named(name) == Some(structured_server::Method::Hello) <==> name
            == "hello"@,
        structured_server::method_named(name) == Some(structured_server::Method::Ping) <==> name
            == "ping"@,
        structured_server::method_named(name) == Some(structured_server::Method::List) <==> name
            == "list"@,
        structured_server::method_named(name) == Some(structured_server::Method::Spawn) <==> name
            == "spawn"@,
        structured_server::method_named(name) == Some(structured_server::Method::Attach) <==> name
            == "attach"@,
        structured_server::method_named(name) == Some(structured_server::Method::Interrupt) <==> name
            == "interrupt"@,
        structured_server::method_named(name) == Some(structured_server::Method::Forget) <==> name
            == "forget"@,
        structured_server::method_named(name) == Some(structured_server::Method::Stats) <==> name
            == "stats"@,
        structured_server::method_named(name) == Some(structured_server::Method::Shutdown) <==> name
            == "shutdown"@,
        mode_named(name) == Some(crate::structured_v2::ShutdownMode::Drain) <==> name == "drain"@,
        mode_named(name) == Some(crate::structured_v2::ShutdownMode::Now) <==> name == "now"@,
{
    lemma_names_differ(name);
}

proof fn lemma_names_differ(name: Seq<char>)
    ensures
        name == "hello"@ ==> name.len() == 5 && name[0] == 'h',
        name == "ping"@ ==> name.len() == 4 && name[0] == 'p',
        name == "list"@ ==> name.len() == 4 && name[0] == 'l',
        name == "attach"@ ==> name.len() == 6 && name[0] == 'a',
        name == "createOrAttach"@ ==> name.len() == 14,
        name == "write"@ ==> name.len() == 5 && name[0] == 'w',
        name == "resize"@ ==> name.len() == 6 && name[0] == 'r',
        name == "kill"@ ==> name.len() == 4 && name[0] == 'k',
        name == "forget"@ ==> name.len() == 6 && name[0] == 'f',
        name == "stats"@ ==> name.len() == 5 && name[0] == 's' && name[1] == 't',
        name == "shutdown"@ ==> name.len() == 8,
        name == "spawn"@ ==> name.len() == 5 && name[0] == 's' && name[1] == 'p',
        name == "interrupt"@ ==> name.len() == 9,
        name == "drain"@ ==> name.len() == 5,
        name == "now"@ ==> name.len() == 3,
{
    reveal_strlit("hello");
    reveal_strlit("ping");
    reveal_strlit("list");
    reveal_strlit("attach");
    reveal_strlit("createOrAttach");
    reveal_strlit("write");
    reveal_strlit("resize");
    reveal_strlit("kill");
    reveal_strlit("forget");
    reveal_strlit("stats");
    reveal_strlit("shutdown");
    reveal_strlit("spawn");
    reveal_strlit("interrupt");
    reveal_strlit("drain");
    reveal_strlit("now");
}

/// An error means to a client what it is, and says what it is about.
pub proof fn law_errors_mean_what_they_are(error: RenderError)
    ensures
        match error {
            RenderError::NotFound(id) => error.meaning() == RenderErrorKind::NotFound
                && error.text() == "session "@ + id@ + " not found"@,
            RenderError::BadRequest(reason) => error.meaning() == RenderErrorKind::BadRequest
                && error.text() == reason@,
            RenderError::Conflict(reason) => error.meaning() == RenderErrorKind::Conflict
                && error.text() == reason@,
            RenderError::Io(reason) => error.meaning() == RenderErrorKind::Internal && error.text()
                == "pty io error: "@ + reason@,
            RenderError::Spawn(reason) => error.meaning() == RenderErrorKind::Internal
                && error.text() == "spawn failed: "@ + reason@,
            RenderError::Internal(reason) => error.meaning() == RenderErrorKind::Internal
                && error.text() == reason@,
        },
{
}

/// A request for a session that is not there is answered by the launch that it asks for, if that may
/// be, and else by an error: a conflict during a shutdown or for want of room, and a bad request
/// where it is not in order.
pub proof fn law_new_session_is_launched_or_refused(
    outcome: Outcome,
    params: CreateOrAttachParams,
    registry: RegistryModel,
    around: Surroundings,
)
    requires
        is_outcome(
            outcome,
            Call::CreateOrAttach(params),
            registry,
            after_call(Call::CreateOrAttach(params), registry),
            around,
        ),
        forall|i: int|
            0 <= i < registry.sessions.len() ==> (#[trigger] registry.sessions[i]).id
                != params.session_id@,
    ensures
        ({
            let in_order = params.session_id@.len() > 0 && params.file@.len() > 0 && 1
                <= params.cols <= 1_024 && 1 <= params.rows <= 512 && params.cols * params.rows
                <= 500_000 && (params.cwd@.len() == 0 || around.cwd_is_dir);
            let running = registry.sessions.filter(
                |session: SessionModel| session.status == SessionStatus::Running,
            ).len();
            let fits = running < 200 && around.live_bytes + 32 * (params.cols * params.rows)
                + 1_048_576 <= around.budget_bytes;
            if registry.shutting_down {
                outcome matches Outcome::Failed(code, _) && code == ErrorCode::Conflict
            } else if !in_order {
                outcome matches Outcome::Failed(code, _) && code == ErrorCode::BadRequest
            } else if !fits {
                outcome matches Outcome::Failed(code, _) && code == ErrorCode::Conflict
            } else {
                outcome matches Outcome::Launch(plan) && is_plan_for(plan, params)
            }
        }),
{
    law_sessions_are_found_by_name(registry.sessions, params.session_id@, Seq::empty());
    law_refused_sessions_are_told_why(
        registry,
        params,
        around.cwd_is_dir,
        around.budget_bytes as int,
        around.live_bytes as int,
    );
}

/// A request to kill that names only white space asks for the signal that closes a terminal, as one
/// that names nothing does.
pub proof fn law_blank_signal_closes_the_terminal(
    outcome: Outcome,
    params: KillParams,
    registry: RegistryModel,
    around: Surroundings,
    index: int,
)
    requires
        is_outcome(
            outcome,
            Call::Kill(params),
            registry,
            after_call(Call::Kill(params), registry),
            around,
        ),
        all_differ(registry.sessions),
        0 <= index < registry.sessions.len(),
        registry.sessions[index].id == params.session_id@,
        registry.sessions[index].status == SessionStatus::Running,
        params.signal matches Some(name) ==> trimmed(name@).len() == 0,
    ensures
        outcome matches Outcome::Signal(Some(order)) && order.pid == registry.sessions[index].pid
            && order.signo == 1,
{
    law_each_session_is_found(registry.sessions, index);
}

/// A document that is no request changes nothing for a client that has shown its token before.
pub proof fn law_bad_request_keeps_a_known_client(
    clients: Seq<ClientConn>,
    token: Seq<char>,
    index: int,
)
    requires
        forall|i: int, j: int|
            0 <= i < j < clients.len() ==> (#[trigger] clients[i]).id < (#[trigger] clients[j]).id,
        0 <= index < clients.len(),
        clients[index].authed,
    ensures
        server::clients_after(clients, clients[index].id, token, None) == clients,
{
    lemma_client_found(clients, clients[index].id);
    if let Some(at) = client_index(clients, clients[index].id) {
        if at < index {
            assert(clients[at].id < clients[index].id);
        } else if index < at {
            assert(clients[index].id < clients[at].id);
        }
    }
}

/// An answer that does not fit is replaced by an error that says which method it answered and why.
pub proof fn law_oversize_answers_say_why(
    response: Response,
    id: u32,
    method: Seq<char>,
    length: u32,
)
    requires
        is_oversize_answer(response, id, method, FrameError::TooLarge(length)),
    ensures
        response.id == id,
        !response.ok,
        response.result is None,
        response.error matches Some(body) && body.code == ErrorCode::Internal && body.message@
            == method + " response could not be encoded as a frame: "@ + ("frame length "@
            + decimal(length as nat) + " exceeds MAX_FRAME_BYTES"@),
{
}

/// Where a launch failed after its process had been started, that process must be killed, and where
/// it failed before, there is none.
pub proof fn law_failed_launch_leaves_no_process(failure: LaunchFailure, file: Seq<char>)
    ensures
        failure.leaves_process() <==> failure is Reader || failure is Writer
            || failure is ReaderThread || failure is ExitThread,
        failure matches LaunchFailure::Command(error) ==> failure.text(file) == "spawn "@ + file
            + " failed: "@ + error@,
        failure matches LaunchFailure::OpenPty(error) ==> failure.text(file) == "openpty failed: "@
            + error@,
{
}

/// Texts that refuse a version or a list name the numbers in question, and a size that is refused is
/// named by columns and rows.
pub proof fn law_refusals_name_the_numbers(
    version: u32,
    length: nat,
    limit: nat,
    cols: u16,
    rows: u16,
)
    ensures
        server::version_text(version) == "protocol version "@ + decimal(version as nat)
            + " is not supported (expected "@ + decimal(1) + ")"@,
        server::list_oversize_text(length, limit) == "list response is "@ + decimal(length)
            + " bytes, over the "@ + decimal(limit)
            + "-byte frame limit (MAX_FRAME_BYTES); fetch large session states individually with attach"@,
        cols == 0 || rows == 0 ==> size_error(cols, rows) == Some(
            "invalid terminal size "@ + (decimal(cols as nat) + "x"@ + decimal(rows as nat)),
        ),
        cols > 1_024 && rows > 0 ==> size_error(cols, rows) == Some(
            "terminal size "@ + (decimal(cols as nat) + "x"@ + decimal(rows as nat))
                + " is over the limit of 1024 columns, 512 rows and 500000 cells"@,
        ),
{
}

/// A number or a text of an object is that of the member with its name, and there is none where there
/// is no such member.
pub proof fn law_members_are_read_by_name(value: serde_json::Value, key: Seq<char>)
    ensures
        json_member(value, key) is None ==> json_number_at(value, key) is None && json_text_at(
            value,
            key,
        ) is None,
        json_member(value, key) matches Some(member) ==> json_number_at(value, key) == json_u64(
            member,
        ) && json_text_at(value, key) == json_str(member),
{
}

/// Who asks to kill without a name asks for the default signal, and who gives a name, for the one
/// that it names.
pub proof fn law_signal_is_asked_for_by_name(name: &str)
    ensures
        requested_signal(None) == Requested::Default,
        requested_signal(Some(name)) == requested_by(name@),
{
}

/// To forget a session takes it out and leaves the others as and where they were; to resize one
/// changes no other.
pub proof fn law_requests_change_only_their_session(
    registry: RegistryModel,
    forget: ForgetParams,
    resize: ResizeParams,
    index: int,
)
    requires
        all_differ(registry.sessions),
        0 <= index < registry.sessions.len(),
        registry.sessions[index].id == forget.session_id@,
        registry.sessions[index].id == resize.session_id@,
    ensures
        ({
            let after = after_call(Call::Forget(forget), registry);
            &&& after == (RegistryModel { sessions: after.sessions, ..registry })
            &&& after.sessions.len() == registry.sessions.len() - 1
            &&& forall|i: int| 0 <= i < index ==> after.sessions[i] == #[trigger] registry.sessions[i]
            &&& forall|i: int|
                index < i < registry.sessions.len() ==> after.sessions[i - 1]
                    == #[trigger] registry.sessions[i]
        }),
        ({
            let after = after_call(Call::Resize(resize), registry);
            let fits = 1 <= resize.cols <= 1_024 && 1 <= resize.rows <= 512 && resize.cols
                * resize.rows <= 500_000;
            &&& after == (RegistryModel { sessions: after.sessions, ..registry })
            &&& after.sessions.len() == registry.sessions.len()
            &&& forall|i: int|
                0 <= i < registry.sessions.len() && i != index ==> after.sessions[i]
                    == #[trigger] registry.sessions[i]
            &&& fits && registry.sessions[index].status == SessionStatus::Running
                ==> after.sessions[index] == registry.sessions[index].resized(
                resize.cols,
                resize.rows,
            )
            &&& !fits || registry.sessions[index].status != SessionStatus::Running ==> after
                == registry
        }),
{
    law_each_session_is_found(registry.sessions, index);
}

/// A request that names no session that is there changes nothing.
pub proof fn law_unknown_sessions_change_nothing(registry: RegistryModel, call: Call, id: Seq<char>)
    requires
        forall|i: int|
            0 <= i < registry.sessions.len() ==> (#[trigger] registry.sessions[i]).id != id,
        call matches Call::Forget(params) ==> params.session_id@ == id,
        call matches Call::Resize(params) ==> params.session_id@ == id,
    ensures
        after_call(call, registry) == registry,
{
    law_sessions_are_found_by_name(registry.sessions, id, Seq::empty());
}

} // verus!
