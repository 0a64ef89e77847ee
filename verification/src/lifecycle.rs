//! How the daemon starts and stops: who owns its socket and its files, and when it ends.

use vstd::prelude::*;

use crate::json::{json_document, json_number_at, number_at, parse_json};
use crate::protocol::ShutdownMode;
use crate::registry::{
    ids, pids, running_count, shut_down, RegistryModel, RenderRegistry, ShutdownOrders,
};
use crate::security::{foreign_reason, ExistingSocket, FileKind, PathFacts};
use crate::text::{
    chars_of, decimal, is_digit, lemma_decimal_has_digits, lemma_decimal_is_injective,
    lemma_decimal_value, parse_unsigned, parsed_unsigned, same, trim, trimmed, trimmed_end,
    trimmed_start, unsigned_digits, write_decimal,
};

verus! {

/// What the daemon waits for.
#[derive(Debug, Clone, Copy, PartialEq, Eq, Structural)]
pub enum ShutdownRequest {
    /// A client or a signal asked for this.
    Asked(ShutdownMode),
    /// Nothing was asked for a while.
    Nothing,
    /// Nothing can be asked any more.
    Disconnected,
}

/// What comes of waiting.
pub struct ShutdownStep {
    /// What a shutdown that began just now leads to.
    pub orders: Option<ShutdownOrders>,
    /// How the daemon ends, if it does.
    pub finished: Option<ShutdownMode>,
}

/// The shutdown that begins, if one does. Asking to drain a second time is asking to stop at
/// once, and so is it when nothing can be asked any more.
pub open spec fn shutdown_begun(registry: RegistryModel, request: ShutdownRequest) -> Option<
    ShutdownMode,
> {
    match request {
        ShutdownRequest::Asked(ShutdownMode::Drain) => if registry.shutting_down {
            Some(ShutdownMode::Now)
        } else {
            Some(ShutdownMode::Drain)
        },
        ShutdownRequest::Asked(ShutdownMode::Now) => Some(ShutdownMode::Now),
        ShutdownRequest::Nothing => None,
        ShutdownRequest::Disconnected => Some(ShutdownMode::Now),
    }
}

/// The registry after a request.
pub open spec fn after_request(registry: RegistryModel, request: ShutdownRequest) -> RegistryModel {
    match shutdown_begun(registry, request) {
        Some(mode) => shut_down(registry, mode),
        None => registry,
    }
}

/// How the daemon ends after a request, if it does: at once, or drained when nothing runs any
/// more.
pub open spec fn shutdown_finished(registry: RegistryModel, request: ShutdownRequest) -> Option<
    ShutdownMode,
> {
    let after = after_request(registry, request);
    if shutdown_begun(registry, request) == Some(ShutdownMode::Now) {
        Some(ShutdownMode::Now)
    } else if after.shutting_down && running_count(after.sessions) == 0 {
        Some(ShutdownMode::Drain)
    } else {
        None
    }
}

/// One round of the daemon's wait for its end.
pub fn shutdown_step(registry: &mut RenderRegistry, request: ShutdownRequest) -> (step: ShutdownStep)
    requires
        old(registry).well_formed(),
    ensures
        final(registry).well_formed(),
        final(registry)@ == after_request(old(registry)@, request),
        step.finished == shutdown_finished(old(registry)@, request),
        step.orders is Some <==> shutdown_begun(old(registry)@, request) is Some,
        step.orders matches Some(orders) ==> {
            &&& orders.kill@ == (match shutdown_begun(old(registry)@, request).unwrap() {
                ShutdownMode::Drain => Seq::empty(),
                ShutdownMode::Now => pids(old(registry)@.sessions),
            })
            &&& orders.event@ == (crate::protocol::Notice::Reconcile {
                session_ids: ids(final(registry)@.sessions),
            })
        },
{
    let begun: Option<ShutdownMode> = match request {
        ShutdownRequest::Asked(ShutdownMode::Drain) => if registry.is_shutting_down() {
            Some(ShutdownMode::Now)
        } else {
            Some(ShutdownMode::Drain)
        },
        ShutdownRequest::Asked(ShutdownMode::Now) => Some(ShutdownMode::Now),
        ShutdownRequest::Nothing => None,
        ShutdownRequest::Disconnected => Some(ShutdownMode::Now),
    };
    match begun {
        Some(ShutdownMode::Now) => {
            let orders = registry.begin_shutdown(ShutdownMode::Now);
            ShutdownStep { orders: Some(orders), finished: Some(ShutdownMode::Now) }
        },
        Some(ShutdownMode::Drain) => {
            let orders = registry.begin_shutdown(ShutdownMode::Drain);
            let finished = if registry.running_session_count() == 0 {
                Some(ShutdownMode::Drain)
            } else {
                None
            };
            ShutdownStep { orders: Some(orders), finished }
        },
        None => {
            let finished = if registry.is_shutting_down() && registry.running_session_count() == 0 {
                Some(ShutdownMode::Drain)
            } else {
                None
            };
            ShutdownStep { orders: None, finished }
        },
    }
}

/// While a process runs, asking to drain does not end the daemon; asking again does, and then
/// every process that is left is killed.
pub proof fn law_drain_waits_and_a_second_request_ends(registry: RegistryModel)
    requires
        !registry.shutting_down,
        running_count(registry.sessions) > 0,
    ensures
        ({
            let drain = ShutdownRequest::Asked(ShutdownMode::Drain);
            let drained = after_request(registry, drain);
            &&& shutdown_finished(registry, drain) is None
            &&& shutdown_finished(drained, ShutdownRequest::Nothing) is None
            &&& shutdown_begun(drained, drain) == Some(ShutdownMode::Now)
            &&& shutdown_finished(drained, drain) == Some(ShutdownMode::Now)
            &&& after_request(drained, drain).sessions.len() == 0
        }),
{
    crate::registry::law_drain_spares_running_sessions(registry, registry.sessions[0]);
}

/// The daemon ends by itself only when it was asked to, and then only with nothing running.
pub proof fn law_daemon_ends_only_when_asked(registry: RegistryModel)
    ensures
        shutdown_finished(registry, ShutdownRequest::Nothing) is Some <==> registry.shutting_down
            && running_count(registry.sessions) == 0,
{
}

/// What to do about the path of the socket before binding it.
pub enum SocketDecision {
    /// Bind it.
    Bind,
    /// Remove the socket that was left behind, then bind.
    Reclaim,
    /// Do not start, for this reason.
    Refuse(String),
}

/// Why the daemon must not bind its socket, if it must not. The record of the process is trusted
/// more than an attempt to connect: connecting races with a daemon that is just closing down.
pub open spec fn refusal(
    existing: ExistingSocket,
    owner: Option<u32>,
    listening: bool,
    path: Seq<char>,
) -> Option<Seq<char>> {
    match existing {
        ExistingSocket::Absent => match owner {
            Some(pid) => Some(
                "Render owner is alive (pid "@ + decimal(pid as nat)
                    + "); waiting for socket recovery"@,
            ),
            None => None,
        },
        ExistingSocket::Owned => match owner {
            Some(pid) => Some(
                "another Render is already running (pid "@ + decimal(pid as nat) + ") on "@ + path,
            ),
            None => if listening {
                Some("another Render is already listening on "@ + path)
            } else {
                None
            },
        },
        ExistingSocket::Foreign(reason) => Some(
            "refusing to start: "@ + path + " already exists but "@ + reason@
                + "; wand-render never unlinks a path it does not own (verify it is not another user's socket, then move it aside)"@,
        ),
    }
}

/// Decides what to do about the path of the socket: given whose it is, which process is recorded
/// as its owner and still alive, and whether something answers on it. Only a socket of this user
/// on which nothing answers is removed.
pub fn prepare_socket_path(
    existing: &ExistingSocket,
    owner: Option<u32>,
    listening: bool,
    path: &str,
) -> (decision: SocketDecision)
    ensures
        match refusal(*existing, owner, listening, path@) {
            Some(reason) => decision matches SocketDecision::Refuse(text) && text@ == reason,
            None => if existing is Absent {
                decision is Bind
            } else {
                decision is Reclaim
            },
        },
{
    match existing {
        ExistingSocket::Absent => match owner {
            Some(pid) => {
                let mut reason = "Render owner is alive (pid ".to_owned();
                reason.append(write_decimal(pid as u128).as_str());
                reason.append("); waiting for socket recovery");
                SocketDecision::Refuse(reason)
            },
            None => SocketDecision::Bind,
        },
        ExistingSocket::Owned => match owner {
            Some(pid) => {
                let mut reason = "another Render is already running (pid ".to_owned();
                reason.append(write_decimal(pid as u128).as_str());
                reason.append(") on ");
                reason.append(path);
                SocketDecision::Refuse(reason)
            },
            None => if listening {
                let mut reason = "another Render is already listening on ".to_owned();
                reason.append(path);
                SocketDecision::Refuse(reason)
            } else {
                SocketDecision::Reclaim
            },
        },
        ExistingSocket::Foreign(why) => {
            let mut reason = "refusing to start: ".to_owned();
            reason.append(path);
            reason.append(" already exists but ");
            reason.append(why.as_str());
            reason.append(
                "; wand-render never unlinks a path it does not own (verify it is not another user's socket, then move it aside)",
            );
            SocketDecision::Refuse(reason)
        },
    }
}

/// A path is removed only if it is a private socket of this user, no process that owns it is
/// alive, and nothing answers on it.
pub proof fn law_only_an_own_dead_socket_is_removed(
    facts: PathFacts,
    own_uid: u32,
    existing: ExistingSocket,
    owner: Option<u32>,
    listening: bool,
    path: Seq<char>,
)
    requires
        existing is Owned <==> foreign_reason(facts, own_uid) is None && !(facts is Missing),
        existing is Absent <==> facts is Missing,
        refusal(existing, owner, listening, path) is None,
        !(existing is Absent),
    ensures
        facts matches PathFacts::Found { kind, uid, mode } && kind == FileKind::Socket && uid
            == own_uid && mode % 512 == 384,
        owner is None,
        !listening,
{
}

/// What one attempt to reach a socket found.
#[derive(Debug, Clone, Copy, PartialEq, Eq, Structural)]
pub struct Probe {
    pub exists: bool,
    /// Whether a connection was accepted.
    pub answered: bool,
}

/// Whether a daemon listens on a socket, by two attempts a moment apart. A single success is not
/// enough: it can come from a daemon that is just closing down.
pub fn socket_is_live(first: Probe, second: Probe) -> (live: bool)
    ensures
        live == (first.exists && first.answered && second.exists && second.answered),
{
    first.exists && first.answered && second.exists && second.answered
}

/// The process that a record names: a positive number, with white space around it or not.
pub open spec fn recorded(raw: Seq<char>) -> Option<u32> {
    match parsed_unsigned(trimmed(raw), i32::MAX as int) {
        Some(pid) if pid > 0 => Some(pid as u32),
        _ => None,
    }
}

/// The process that a record names.
pub fn recorded_pid(raw: &str) -> (pid: Option<u32>)
    ensures
        pid == recorded(raw@),
{
    let chars: Vec<char> = trim(raw);
    match parse_unsigned(chars.as_slice(), i32::MAX as u64) {
        Some(pid) => if pid > 0 {
            Some(pid as u32)
        } else {
            None
        },
        None => None,
    }
}

/// The recorded owner, if it is alive: the system accepts a signal for it, or refuses only for
/// want of permission.
pub fn live_owner_pid(raw: Option<&str>, signal_accepted: bool, not_permitted: bool) -> (owner: Option<
    u32,
>)
    ensures
        owner == (match raw {
            Some(raw) => if signal_accepted || not_permitted {
                recorded(raw@)
            } else {
                None
            },
            None => None,
        }),
{
    match raw {
        Some(raw) => if signal_accepted || not_permitted {
            recorded_pid(raw)
        } else {
            None
        },
        None => None,
    }
}

/// Whether a file still holds the text that this process wrote.
fn holds(raw: &str, text: &str) -> (same: bool)
    ensures
        same == (trimmed(raw@) == text@),
{
    let found: Vec<char> = trim(raw);
    let wanted: Vec<char> = chars_of(text);
    same(found.as_slice(), wanted.as_slice())
}

/// Whether a token file is this process's, and may be removed when it ends.
pub fn owns_token_file(raw: &str, token: &str) -> (owned: bool)
    ensures
        owned == (trimmed(raw@) == token@),
{
    holds(raw, token)
}

/// Whether a process file is this process's, and may be removed when it ends.
pub fn owns_pid_file(raw: &str, pid: u32) -> (owned: bool)
    ensures
        owned == (trimmed(raw@) == decimal(pid as nat)),
{
    holds(raw, write_decimal(pid as u128).as_str())
}

/// Whether a description of the daemon is this process's: a JSON document that names it.
pub fn owns_meta_file(raw: &[u8], pid: u32) -> (owned: bool)
    ensures
        owned == (match json_document(raw@) {
            Ok(value) => json_number_at(value, "pid"@) == Some(pid as u64),
            Err(_) => false,
        }),
{
    match parse_json(raw) {
        Ok(value) => match number_at(&value, "pid") {
            Some(number) => number == pid as u64,
            None => false,
        },
        Err(_) => false,
    }
}

/// A process finds its own record again, and none but its own.
pub proof fn law_pid_file_names_one_process(pid: u32, other: u32)
    requires
        0 < pid <= i32::MAX,
    ensures
        recorded(decimal(pid as nat).push('\n')) == Some(pid),
        trimmed(decimal(pid as nat).push('\n')) == decimal(other as nat) <==> pid == other,
{
    let text = decimal(pid as nat);
    let line = text.push('\n');
    lemma_decimal_has_digits(pid as nat);
    lemma_decimal_value(pid as nat);
    assert(is_digit(text[0]));
    assert(line[0] == text[0]);
    assert(trimmed_start(line) == line);
    assert(line.drop_last() == text);
    assert(is_digit(text.last()));
    assert(trimmed_end(line) == trimmed_end(text));
    assert(trimmed_end(text) == text);
    assert(unsigned_digits(text) == text);
    if decimal(pid as nat) == decimal(other as nat) {
        lemma_decimal_is_injective(pid as nat, other as nat);
    }
}

} // verus!
