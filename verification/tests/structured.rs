//! Runs of the structured protocol, with everything that their processes would report.

use serde_json::Value;
use wand_render::protocol::{ErrorCode, ShutdownMode};
use wand_render::registry::SignalOrder;
use wand_render::run_log::Log;
use wand_render::structured::{signal_result, Registry, RunExit, Spawning, MAX_ADMITTED_RUNS};
use wand_render::structured_server::{
    dispatch, forgotten, method_of, parse_request, round, shutdown_mode, signalled, Call, Method, Outcome, Stage,
    Surroundings,
};
use wand_render::structured_v2::{
    AttachParams, AttachResult, Event, InterruptParams, RunIdParams, RunState, RunStatus,
    SpawnParams, StreamName, REPLAY_PAGE_MAX_BYTES, RUN_LOG_MAX_BYTES,
};
use wand_render::utf8::IncrementalUtf8Decoder;

fn request(run_id: &str, script: &str, stdin_data: Option<&str>) -> SpawnParams {
    SpawnParams {
        run_id: run_id.into(),
        file: "/bin/sh".into(),
        args: vec!["-c".into(), script.into()],
        cwd: "/tmp".into(),
        env: vec![("PATH".into(), "/usr/bin:/bin".into())],
        stdin_data: stdin_data.map(str::to_owned),
    }
}

/// Spawns as the daemon does, with a process that is said to have this number.
fn spawn(registry: &mut Registry, params: &SpawnParams, pid: u32) -> RunState {
    match registry.spawn(params) {
        Ok(Spawning::Launch) => {}
        _ => panic!("expected a launch"),
    }
    let (result, event) = registry.complete_spawn(params, format!("incarnation-{pid}"), Ok(pid));
    assert!(result.is_new);
    assert!(event.is_none());
    result.state
}

fn write(registry: &mut Registry, run: &RunState, stream: StreamName, data: &[u8]) -> Vec<Event> {
    let mut decoder = IncrementalUtf8Decoder::new();
    let mut events = Vec::new();
    for chunk in data.chunks(8192) {
        if let Some(event) =
            registry.read(&run.run_id, &run.incarnation_id, stream, &mut decoder, chunk)
        {
            events.push(event);
        }
    }
    events
}

fn finish(registry: &mut Registry, run: &RunState, code: i32, stdin_failed: bool) -> Option<Event> {
    let exit = RunExit { waited: Some((Some(code), None)), stdin_failed };
    registry.finish(&run.run_id, &run.incarnation_id, exit)
}

fn attach(registry: &Registry, run_id: &str, stdout: u64, stderr: u64) -> AttachResult {
    registry
        .attach(&AttachParams {
            run_id: run_id.into(),
            after_stdout_seq: stdout,
            after_stderr_seq: stderr,
            max_bytes: None,
        })
        .expect("known run")
}

#[test]
fn stdin_once_two_streams_and_repeated_spawn_are_owned_by_one_child() {
    let mut registry = Registry::new();
    let params = request("structured:test", "cat; printf 'ERR' >&2", Some("中文💡\n"));
    let first = spawn(&mut registry, &params, 11);
    match registry.spawn(&params) {
        Ok(Spawning::Attached(second)) => {
            assert!(!second.is_new);
            assert_eq!(first.pid, second.state.pid);
        }
        _ => panic!("expected to attach"),
    }
    let mut observed = write(&mut registry, &first, StreamName::Stdout, "中文💡\n".as_bytes());
    observed.extend(write(&mut registry, &first, StreamName::Stderr, b"ERR"));
    observed.extend(finish(&mut registry, &first, 0, false));
    match registry.spawn(&params) {
        Ok(Spawning::Attached(third)) => {
            assert!(!third.is_new);
            assert_eq!(first.incarnation_id, third.state.incarnation_id);
        }
        _ => panic!("expected to attach"),
    }
    let replay = attach(&registry, "structured:test", 0, 0);
    assert_eq!(
        replay.stdout.chunks.iter().map(|chunk| chunk.data.as_str()).collect::<String>(),
        "中文💡\n"
    );
    assert_eq!(
        replay.stderr.chunks.iter().map(|chunk| chunk.data.as_str()).collect::<String>(),
        "ERR"
    );
    assert_eq!(replay.state.exit_code, Some(0));
    assert!(replay.stdout.complete && replay.stderr.complete);
    assert!(!replay.stdout.reset_required && !replay.stderr.reset_required);
    assert_eq!(observed.iter().filter(|event| matches!(event, Event::Exit { .. })).count(), 1);
    assert!(matches!(observed.last(), Some(Event::Exit { .. })));
}

#[test]
fn early_stdin_close_is_not_reported_as_a_successful_turn() {
    let mut registry = Registry::new();
    let input = "x".repeat(2 * 1024 * 1024);
    let run = spawn(&mut registry, &request("structured:closed-stdin", "exit 0", Some(&input)), 12);
    finish(&mut registry, &run, 0, true);
    assert_eq!(attach(&registry, "structured:closed-stdin", 0, 0).state.exit_code, Some(-1));
}

#[test]
fn pagination_and_drain_keep_live_process_and_detect_expired_cursors() {
    let mut registry = Registry::new();
    let run = spawn(&mut registry, &request("structured:pages", "yes x | head -c 8500000", None), 13);
    let text = "x\n".repeat(4_250_000);
    write(&mut registry, &run, StreamName::Stdout, text.as_bytes());
    finish(&mut registry, &run, 0, false);
    let mut cursor = 0;
    let mut pages = 0;
    let mut joined: Vec<u64> = Vec::new();
    loop {
        let page = registry
            .attach(&AttachParams {
                run_id: run.run_id.clone(),
                after_stdout_seq: cursor,
                after_stderr_seq: 0,
                max_bytes: Some(8192),
            })
            .unwrap();
        assert!(page.state.stdout_truncated);
        if pages == 0 {
            assert!(page.stdout.reset_required);
        } else {
            assert!(!page.stdout.reset_required);
        }
        assert!(page.stdout.next_seq > cursor);
        joined.extend(page.stdout.chunks.iter().map(|chunk| chunk.seq));
        cursor = page.stdout.next_seq;
        pages += 1;
        if page.stdout.complete {
            break;
        }
        assert!(pages < 2000);
    }
    assert!(pages > 1);
    assert!(joined.windows(2).all(|pair| pair[0] + 1 == pair[1]));
    assert_eq!(joined.last(), Some(&cursor));
    assert!(registry.retained_bytes() <= 8 * 1024 * 1024);
    registry.begin_drain();
    assert!(registry.spawn(&request("structured:new", "echo no", None)).is_err());
    assert_eq!(registry.list().runs.len(), 1);
    registry.forget("structured:pages", true).unwrap();
    assert!(registry.list().runs.is_empty());
}

#[test]
fn explicit_interrupt_reports_signal_without_killing_other_runs() {
    let mut registry = Registry::new();
    let slow = spawn(&mut registry, &request("structured:slow", "exec sleep 30", None), 14);
    let fast = spawn(&mut registry, &request("structured:fast", "printf ok", None), 15);
    assert_eq!(
        registry.interrupt("structured:slow", "SIGTERM"),
        Ok(Some(SignalOrder { pid: 14, signo: libc::SIGTERM }))
    );
    let exit = RunExit { waited: Some((None, Some(libc::SIGTERM))), stdin_failed: false };
    registry.finish(&slow.run_id, &slow.incarnation_id, exit);
    finish(&mut registry, &fast, 0, false);
    assert_eq!(attach(&registry, "structured:slow", 0, 0).state.signal, Some(libc::SIGTERM));
    assert_eq!(attach(&registry, "structured:fast", 0, 0).state.exit_code, Some(0));
    assert!(registry.interrupt("structured:fast", "UNKNOWN").is_err());
    assert_eq!(registry.interrupt("structured:fast", "SIGKILL"), Ok(None));
}

#[test]
fn signals_have_exact_names() {
    let mut registry = Registry::new();
    spawn(&mut registry, &request("r", "x", None), 3);
    for (name, number) in [
        ("SIGTERM", libc::SIGTERM),
        ("SIGINT", libc::SIGINT),
        ("SIGKILL", libc::SIGKILL),
        ("SIGHUP", libc::SIGHUP),
    ] {
        assert_eq!(
            registry.interrupt("r", name),
            Ok(Some(SignalOrder { pid: 3, signo: number }))
        );
    }
    for name in ["", "TERM", "sigterm", "SIGQUIT"] {
        assert_eq!(registry.interrupt("r", name), Err("unsupported signal".to_string()));
    }
    assert_eq!(
        registry.interrupt("other", "SIGTERM"),
        Err("unknown structured run".to_string())
    );
    assert_eq!(signal_result(false), Err("failed to signal structured run".to_string()));
    assert_eq!(signal_result(true), Ok(()));
}

#[test]
fn a_failed_launch_is_an_ended_run() {
    let mut registry = Registry::new();
    let params = request("missing", "x", None);
    let (result, event) =
        registry.complete_spawn(&params, "i".to_string(), Err(Some(libc::ENOENT)));
    assert!(result.is_new);
    assert_eq!(result.state.status, RunStatus::Exited);
    assert_eq!(result.state.pid, 0);
    assert_eq!(result.state.exit_code, Some(-libc::ENOENT));
    match event {
        Some(Event::Exit { run_id, incarnation_id, exit_code, signal }) => {
            assert_eq!((run_id.as_str(), incarnation_id.as_str()), ("missing", "i"));
            assert_eq!((exit_code, signal), (Some(-libc::ENOENT), None));
        }
        other => panic!("expected an end, got {other:?}"),
    }
    assert!(matches!(registry.spawn(&params), Ok(Spawning::Attached(_))));
    let (other, _) = registry.complete_spawn(&request("b", "x", None), "j".to_string(), Err(None));
    assert_eq!(other.state.exit_code, Some(-1));
    assert_eq!(registry.running_count(), 0);
}

fn refused(registry: &Registry, params: &SpawnParams) -> String {
    match registry.spawn(params) {
        Err(text) => text,
        Ok(_) => panic!("expected a refusal"),
    }
}

#[test]
fn spawning_is_refused_with_a_reason() {
    let mut registry = Registry::new();
    let missing = "missing required structured process field";
    assert_eq!(refused(&registry, &request("", "x", None)), missing);
    let mut params = request("r", "x", None);
    params.file = String::new();
    assert_eq!(refused(&registry, &params), missing);
    let mut params = request("r", "x", None);
    params.cwd = String::new();
    assert_eq!(refused(&registry, &params), missing);
    for index in 0..MAX_ADMITTED_RUNS {
        let run = spawn(&mut registry, &request(&format!("r{index}"), "x", None), 1);
        finish(&mut registry, &run, 0, false);
    }
    assert_eq!(
        refused(&registry, &request("one-more", "x", None)),
        "structured process capacity exhausted; existing runs were not killed"
    );
    registry.begin_drain();
    assert_eq!(refused(&registry, &request("one-more", "x", None)), "structured daemon is draining");
    assert!(matches!(registry.spawn(&request("r3", "x", None)), Ok(Spawning::Attached(_))));
}

#[test]
fn forgetting_touches_one_run_and_waits_for_its_signal() {
    let mut registry = Registry::new();
    let gone = spawn(&mut registry, &request("gone", "x", None), 1);
    spawn(&mut registry, &request("stays", "x", None), 2);
    assert_eq!(
        registry.forget("gone", false),
        Err("failed to signal structured run".to_string())
    );
    assert_eq!(registry.list().runs.len(), 2);
    assert_eq!(registry.forget("gone", true), Ok(()));
    assert_eq!(registry.forget("gone", true), Err("unknown structured run".to_string()));
    let runs = registry.list().runs;
    assert_eq!(runs.len(), 1);
    assert_eq!(runs[0].run_id, "stays");
    let late = write(&mut registry, &gone, StreamName::Stdout, b"late");
    assert_eq!(late.len(), 1);
    assert!(finish(&mut registry, &gone, 0, false).is_some());
    assert!(finish(&mut registry, &gone, 0, false).is_none());
    assert!(write(&mut registry, &gone, StreamName::Stdout, b"later").is_empty());
}

#[test]
fn streams_are_numbered_apart_and_once_per_text() {
    let mut registry = Registry::new();
    let run = spawn(&mut registry, &request("r", "x", None), 1);
    let mut decoder = IncrementalUtf8Decoder::new();
    let mut read = |registry: &mut Registry, bytes: &[u8]| {
        registry.read("r", &run.incarnation_id, StreamName::Stdout, &mut decoder, bytes)
    };
    assert!(read(&mut registry, &[0xe4]).is_none());
    match read(&mut registry, &[0xb8, 0xad]) {
        Some(Event::Stream { seq, data, stream, .. }) => {
            assert_eq!((seq, data.as_str(), stream), (1, "中", StreamName::Stdout));
        }
        other => panic!("expected output, got {other:?}"),
    }
    write(&mut registry, &run, StreamName::Stderr, b"e");
    let state = registry.list().runs.remove(0);
    assert_eq!((state.stdout_seq, state.stderr_seq), (1, 1));
    assert!(!state.stdout_truncated && !state.stderr_truncated);
}

#[test]
fn waiting_that_fails_leaves_the_end_unknown() {
    let mut registry = Registry::new();
    let run = spawn(&mut registry, &request("r", "x", None), 1);
    registry.finish("r", &run.incarnation_id, RunExit { waited: None, stdin_failed: true });
    let state = attach(&registry, "r", 0, 0).state;
    assert_eq!((state.status, state.exit_code, state.signal), (RunStatus::Exited, None, None));
}

#[test]
fn a_log_drops_its_oldest_chunks() {
    let mut log = Log::new();
    let mebibyte = "m".repeat(1024 * 1024);
    for index in 1..=8u64 {
        assert_eq!(log.append(mebibyte.clone()), index);
    }
    assert_eq!(log.bytes(), RUN_LOG_MAX_BYTES);
    assert!(!log.is_truncated());
    assert_eq!(log.append("x".to_string()), 9);
    assert!(log.is_truncated());
    assert_eq!(log.bytes(), RUN_LOG_MAX_BYTES - 1024 * 1024 + 1);
    let mut remaining = usize::MAX;
    let page = log.page(0, &mut remaining);
    assert!(page.reset_required);
    assert_eq!(page.chunks.first().map(|chunk| chunk.seq), Some(2));
    assert_eq!((page.next_seq, page.complete), (9, true));
    assert_eq!(remaining, usize::MAX - log.bytes());
    log.append("y".repeat(RUN_LOG_MAX_BYTES + 1));
    assert_eq!((log.bytes(), log.last_seq()), (0, 10));
    let page = log.page(10, &mut remaining);
    assert!(page.chunks.is_empty() && page.complete && !page.reset_required);
    let page = log.page(9, &mut remaining);
    assert!(page.chunks.is_empty() && page.complete && page.reset_required);
    assert_eq!(page.next_seq, 9);
}

#[test]
fn pages_start_behind_what_the_client_has_seen() {
    let mut log = Log::default();
    for data in ["a", "bb", "中"] {
        log.append(data.to_string());
    }
    let mut remaining = 3;
    let page = log.page(0, &mut remaining);
    assert_eq!(page.chunks.iter().map(|chunk| chunk.seq).collect::<Vec<u64>>(), vec![1, 2]);
    assert_eq!((page.next_seq, page.complete, page.reset_required, remaining), (2, false, false, 0));
    let mut remaining = 3;
    let page = log.page(2, &mut remaining);
    assert_eq!(page.chunks[0].data, "中");
    assert!(page.complete);
    let mut remaining = 2;
    let page = log.page(2, &mut remaining);
    assert_eq!((page.chunks.len(), page.next_seq, page.complete, remaining), (0, 2, false, 2));
    let page = log.page(4, &mut remaining);
    assert!(page.reset_required);
}

#[test]
fn an_empty_page_names_what_was_asked_for() {
    let log = Log::default();
    let mut remaining = 1_024;
    let page = log.page(5, &mut remaining);
    assert!(page.chunks.is_empty() && page.reset_required);
    assert_eq!((page.next_seq, remaining), (5, 1_024));
    let page = log.page(0, &mut remaining);
    assert!(page.complete && !page.reset_required);
    assert_eq!(page.next_seq, 0);
}

#[test]
fn bodies_are_read_as_documents() {
    assert_eq!(parse_request(b"{\"id\":1}").map(|value| value["id"] == 1), Some(true));
    assert!(parse_request(b"{").is_none());
    assert!(parse_request(b"").is_none());
}

#[test]
fn both_streams_share_the_budget_of_a_page() {
    let mut registry = Registry::new();
    let run = spawn(&mut registry, &request("r", "x", None), 1);
    let text = "o".repeat(8192 * 100);
    write(&mut registry, &run, StreamName::Stdout, text.as_bytes());
    write(&mut registry, &run, StreamName::Stderr, text.as_bytes());
    let page = attach(&registry, "r", 0, 0);
    let size = |chunks: &Vec<wand_render::structured_v2::StreamChunk>| {
        chunks.iter().map(|chunk| chunk.data.len()).sum::<usize>()
    };
    assert_eq!(size(&page.stdout.chunks), REPLAY_PAGE_MAX_BYTES);
    assert_eq!(size(&page.stderr.chunks), 0);
    let greedy = registry
        .attach(&AttachParams {
            run_id: "r".into(),
            after_stdout_seq: 90,
            after_stderr_seq: 0,
            max_bytes: Some(usize::MAX),
        })
        .expect("known run");
    assert_eq!(size(&greedy.stdout.chunks), 8192 * 10);
    assert!(greedy.stdout.complete);
    assert_eq!(size(&greedy.stderr.chunks), REPLAY_PAGE_MAX_BYTES - 8192 * 10);
    assert!(registry
        .attach(&AttachParams {
            run_id: "no".into(),
            after_stdout_seq: 0,
            after_stderr_seq: 0,
            max_bytes: None,
        })
        .is_none());
}

#[test]
fn a_client_that_has_all_of_stdout_gets_on_with_stderr() {
    let mut registry = Registry::new();
    let run = spawn(&mut registry, &request("r", "x", None), 1);
    write(&mut registry, &run, StreamName::Stdout, "o".repeat(8192 * 2).as_bytes());
    write(&mut registry, &run, StreamName::Stderr, "e".repeat(8192 * 3).as_bytes());
    let page = |stdout: u64, stderr: u64| {
        registry
            .attach(&AttachParams {
                run_id: "r".into(),
                after_stdout_seq: stdout,
                after_stderr_seq: stderr,
                max_bytes: Some(8192 * 2),
            })
            .expect("known run")
    };
    let first = page(0, 0);
    assert!(first.stdout.complete && first.stdout.chunks.len() == 2);
    assert!(!first.stderr.complete && first.stderr.chunks.is_empty());
    let second = page(first.stdout.next_seq, first.stderr.next_seq);
    assert!(second.stdout.complete && second.stdout.chunks.is_empty());
    assert_eq!(second.stderr.chunks.len(), 2);
    let third = page(second.stdout.next_seq, second.stderr.next_seq);
    assert!(third.stderr.complete && third.stderr.chunks.len() == 1);
}

#[test]
fn launch_parameters_stay_private() {
    let mut first = Registry::new();
    let mut second = Registry::new();
    let mut secret = request("r", "secret script", Some("secret input"));
    secret.env.push(("KEY".to_string(), "SECRET-REDACTED".to_string()));
    let told = spawn(&mut first, &secret, 4);
    let plain = spawn(&mut second, &request("r", "", None), 4);
    assert_eq!(told, plain);
}

fn around(size: usize) -> Surroundings {
    Surroundings {
        version: "9.9".to_string(),
        pid: 5,
        started_at: "then".to_string(),
        rss_bytes: 77,
        size,
    }
}

#[test]
fn structured_requests_are_carried_out() {
    let mut registry = Registry::new();
    let mut stage = Stage::Serving;
    let around = around(100);
    match dispatch(&mut registry, &mut stage, Call::Hello, &around) {
        Outcome::Hello(hello) => {
            assert_eq!((hello.version.as_str(), hello.protocol_version), ("9.9", 2));
            assert_eq!((hello.pid, hello.started_at.as_str(), hello.runs), (5, "then", 0));
        }
        _ => panic!("expected a greeting"),
    }
    assert!(matches!(dispatch(&mut registry, &mut stage, Call::Ping, &around), Outcome::Pong));
    let params = request("r", "x", None);
    assert!(matches!(
        dispatch(&mut registry, &mut stage, Call::Spawn(Some(params.clone())), &around),
        Outcome::Launch(_)
    ));
    let run = spawn(&mut registry, &params, 6);
    assert!(matches!(
        dispatch(&mut registry, &mut stage, Call::Spawn(Some(params)), &around),
        Outcome::Spawned(_)
    ));
    write(&mut registry, &run, StreamName::Stdout, b"abc");
    match dispatch(&mut registry, &mut stage, Call::Stats, &around) {
        Outcome::Stats(stats) => {
            assert_eq!((stats.runs, stats.running_runs), (1, 1));
            assert_eq!((stats.retained_log_bytes, stats.rss_bytes), (3, 77));
        }
        _ => panic!("expected statistics"),
    }
    let interrupt = InterruptParams { run_id: "r".to_string(), signal: None };
    match dispatch(&mut registry, &mut stage, Call::Interrupt(Some(interrupt)), &around) {
        Outcome::Signal(order) => assert_eq!(order, Some(SignalOrder { pid: 6, signo: 15 })),
        _ => panic!("expected a signal"),
    }
    let forget = RunIdParams { run_id: "r".to_string() };
    match dispatch(&mut registry, &mut stage, Call::Forget(Some(forget)), &around) {
        Outcome::Forget(id, order) => {
            assert_eq!(id, "r");
            assert_eq!(order, Some(SignalOrder { pid: 6, signo: 15 }));
        }
        _ => panic!("expected a run to go"),
    }
    assert_eq!(
        forgotten(&mut registry, "r", false),
        Err((ErrorCode::NotFound, "failed to signal structured run".to_string()))
    );
    assert_eq!(forgotten(&mut registry, "r", true), Ok(()));
    match dispatch(&mut registry, &mut stage, Call::List, &around) {
        Outcome::List(list) => assert!(list.runs.is_empty()),
        _ => panic!("expected a list"),
    }
    assert_eq!(
        signalled(false),
        Err((ErrorCode::BadRequest, "failed to signal structured run".to_string()))
    );
    assert_eq!(signalled(true), Ok(()));
}

fn failure(registry: &mut Registry, call: Call, size: usize) -> (ErrorCode, String) {
    let mut stage = Stage::Serving;
    match dispatch(registry, &mut stage, call, &around(size)) {
        Outcome::Failed(code, text) => (code, text),
        _ => panic!("expected a failure"),
    }
}

#[test]
fn structured_requests_that_fail_are_answered_by_code() {
    let mut registry = Registry::new();
    let unreadable = (ErrorCode::BadRequest, "invalid structured request parameters".to_string());
    assert_eq!(failure(&mut registry, Call::Spawn(None), 1), unreadable);
    assert_eq!(failure(&mut registry, Call::Attach(None), 1), unreadable);
    assert_eq!(failure(&mut registry, Call::Interrupt(None), 1), unreadable);
    assert_eq!(failure(&mut registry, Call::Forget(None), 1), unreadable);
    assert_eq!(
        failure(&mut registry, Call::Spawn(None), 16 * 1024 * 1024 + 1),
        (ErrorCode::BadRequest, "structured spawn frame exceeds limit".to_string())
    );
    assert_eq!(
        failure(&mut registry, Call::Spawn(Some(request("", "x", None))), 1).0,
        ErrorCode::Conflict
    );
    let unknown = "unknown structured run".to_string();
    let attach = AttachParams {
        run_id: "no".into(),
        after_stdout_seq: 0,
        after_stderr_seq: 0,
        max_bytes: None,
    };
    assert_eq!(
        failure(&mut registry, Call::Attach(Some(attach)), 1),
        (ErrorCode::NotFound, unknown.clone())
    );
    let interrupt = InterruptParams { run_id: "no".to_string(), signal: None };
    assert_eq!(
        failure(&mut registry, Call::Interrupt(Some(interrupt)), 1),
        (ErrorCode::BadRequest, unknown.clone())
    );
    let interrupt = InterruptParams { run_id: "no".to_string(), signal: Some("X".to_string()) };
    assert_eq!(
        failure(&mut registry, Call::Interrupt(Some(interrupt)), 1),
        (ErrorCode::BadRequest, "unsupported signal".to_string())
    );
    let forget = RunIdParams { run_id: "no".to_string() };
    assert_eq!(
        failure(&mut registry, Call::Forget(Some(forget)), 1),
        (ErrorCode::NotFound, unknown)
    );
    assert_eq!(
        failure(&mut registry, Call::Shutdown(None), 1),
        (ErrorCode::BadRequest, "expected shutdown mode drain or now".to_string())
    );
    assert_eq!(
        failure(&mut registry, Call::Unknown, 1),
        (ErrorCode::UnsupportedMethod, "unsupported structured method".to_string())
    );
}

#[test]
fn structured_shutdown_drains_or_kills() {
    let mut registry = Registry::new();
    let run = spawn(&mut registry, &request("r", "x", None), 6);
    let mut stage = Stage::Serving;
    let drain = Call::Shutdown(Some(ShutdownMode::Drain));
    match dispatch(&mut registry, &mut stage, drain, &around(1)) {
        Outcome::Shutdown(kill) => assert!(kill.is_empty()),
        _ => panic!("expected a shutdown"),
    }
    assert_eq!(stage, Stage::Draining);
    assert!(!round(&mut registry, &mut stage, 0).finished);
    assert!(registry.spawn(&request("new", "x", None)).is_err());
    let now = Call::Shutdown(Some(ShutdownMode::Now));
    match dispatch(&mut registry, &mut stage, now, &around(1)) {
        Outcome::Shutdown(kill) => assert_eq!(kill, vec![6]),
        _ => panic!("expected a shutdown"),
    }
    assert_eq!(stage, Stage::Stopping);
    finish(&mut registry, &run, 0, false);
    assert!(round(&mut registry, &mut stage, 0).finished);
}

#[test]
fn a_second_signal_stops_the_structured_daemon() {
    let mut registry = Registry::new();
    let run = spawn(&mut registry, &request("r", "x", None), 6);
    let mut stage = Stage::Serving;
    let first = round(&mut registry, &mut stage, 1);
    assert_eq!((first.finished, first.kill.len(), stage), (false, 0, Stage::Draining));
    let second = round(&mut registry, &mut stage, 1);
    assert_eq!((second.finished, second.kill, stage), (true, vec![6], Stage::Stopping));
    let mut stage = Stage::Serving;
    assert!(round(&mut registry, &mut stage, 2).finished);
    finish(&mut registry, &run, 0, false);
    let mut stage = Stage::Serving;
    assert!(!round(&mut registry, &mut stage, 0).finished);
    assert!(round(&mut registry, &mut stage, 1).finished);
}

fn object(key: &str, value: Value) -> Value {
    let mut map = serde_json::Map::new();
    map.insert(key.to_string(), value);
    Value::Object(map)
}

#[test]
fn shutdown_modes_and_methods_have_exact_names() {
    let mode = |text: &str| shutdown_mode(Some(&object("mode", Value::from(text))));
    assert_eq!(mode("drain"), Some(ShutdownMode::Drain));
    assert_eq!(mode("now"), Some(ShutdownMode::Now));
    assert_eq!(mode("Now"), None);
    assert_eq!(shutdown_mode(Some(&object("mode", Value::from(1)))), None);
    assert_eq!(shutdown_mode(Some(&object("other", Value::from("now")))), None);
    assert_eq!(shutdown_mode(None), None);
    assert_eq!(method_of(&"spawn".to_string()), Some(Method::Spawn));
    assert_eq!(method_of(&"shutdown".to_string()), Some(Method::Shutdown));
    assert_eq!(method_of(&"createOrAttach".to_string()), None);
}
