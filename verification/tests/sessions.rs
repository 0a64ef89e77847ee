//! Sessions from launch to end, with everything that a terminal and a process would report.

use serde_json::Value;
use wand_render::dispatch::{dispatch, method_of, Call, Method, Outcome, Surroundings};
use wand_render::error::RenderError;
use wand_render::launch::{check_size, plan, LaunchFailure};
use wand_render::lifecycle::{shutdown_step, ShutdownRequest};
use wand_render::protocol::{
    default_term_name, AttachParams, CreateOrAttachParams, ErrorCode, Event, ForgetParams,
    KillParams, PendingOp, ResizeParams, SessionState, SessionStatus, ShutdownMode, ShutdownParams,
    TerminalSnapshot, WriteParams, PTY_OUTPUT_MAX_CHARS, RENDER_PROTOCOL_VERSION,
};
use wand_render::registry::{Admission, RenderRegistry, SignalOrder};
use wand_render::session::{estimate_live_bytes, screen_bytes, Allocated, ChildExit, Session};
use wand_render::sink::{EventSink, NullSink};
use wand_render::snapshot::LIST_SNAPSHOT_MAX_BYTES;
use wand_render::time::iso8601_now;
use wand_render::utf8::IncrementalUtf8Decoder;

const BUDGET: u64 = 2 << 30;

fn registry() -> RenderRegistry {
    RenderRegistry::new("test".to_string(), iso8601_now(), 1_000)
}

fn params(session_id: &str, args: &[&str], cols: u16, rows: u16) -> CreateOrAttachParams {
    CreateOrAttachParams {
        session_id: session_id.to_string(),
        file: "/bin/sh".to_string(),
        args: args.iter().map(|arg| arg.to_string()).collect(),
        cwd: "/tmp".to_string(),
        env: vec![("PATH".to_string(), "/usr/bin:/bin:/usr/sbin:/sbin".to_string())],
        name: "xterm-256color".to_string(),
        cols,
        rows,
        launch_marker_token: None,
        after_seq: 0,
    }
}

/// Creates a session as the daemon does, with a process that is said to have this number.
fn create(registry: &mut RenderRegistry, request: &CreateOrAttachParams, pid: u32) -> SessionState {
    match registry.create_or_attach(request, true, BUDGET) {
        Ok(Admission::Launch(_)) => {}
        _ => panic!("expected a launch"),
    }
    let incarnation = format!("u-1-1-{pid}");
    match registry.complete_create(request, Ok(pid), incarnation) {
        Ok(creation) => {
            assert!(creation.result.is_new);
            assert_eq!(creation.discard, None);
            creation.result.state
        }
        Err(_) => panic!("expected a session"),
    }
}

fn exit(registry: &mut RenderRegistry, state: &SessionState, exit: ChildExit) -> Option<Event> {
    registry.record_exit(&state.session_id, &state.incarnation_id, exit);
    registry.finish_exit(&state.session_id, &state.incarnation_id, exit)
}

fn code(exit_code: i32) -> ChildExit {
    ChildExit { exit_code: Some(exit_code), signal: None }
}

fn output(
    registry: &mut RenderRegistry,
    state: &SessionState,
    data: &str,
    now_ms: u64,
) -> Option<Event> {
    registry.append(&state.session_id, &state.incarnation_id, data, now_ms)
}

/// The screen that a client rebuilds.
fn replayed(data: &str, snapshot: &TerminalSnapshot, with_pending: bool) -> String {
    let mut parser = vt100::Parser::new(snapshot.rows, snapshot.cols, 0);
    parser.process(data.as_bytes());
    if with_pending {
        for op in &snapshot.pending {
            match op {
                PendingOp::Data { data } => parser.process(data.as_bytes()),
                PendingOp::Resize { cols, rows } => parser.screen_mut().set_size(*rows, *cols),
            }
        }
    }
    parser.screen().contents()
}

#[test]
fn hello_reports_protocol_version_and_started_at() {
    let registry = RenderRegistry::new("0.1.0-test".to_string(), iso8601_now(), 0);
    let hello = registry.hello(4242);
    assert_eq!(hello.protocol_version, RENDER_PROTOCOL_VERSION);
    assert_eq!(hello.version, "0.1.0-test");
    assert_eq!(hello.pid, 4242);
    assert!(hello.started_at.ends_with('Z'));
    assert_eq!(hello.sessions, 0);
}

#[test]
fn attach_and_forget_missing_sessions() {
    let mut registry = registry();
    assert!(registry.attach("nope", 0).is_none());
    assert!(matches!(registry.write("nope", "x"), Err(RenderError::NotFound(_))));
    assert!(registry.forget("nope").is_none());
    assert_eq!(registry.stats(0, 0, 0).sessions, 0);
}

#[test]
fn empty_registry_lists_nothing_and_reports_no_running_sessions() {
    let mut registry = registry();
    assert!(registry.list_sessions().is_empty());
    assert_eq!(registry.running_session_count(), 0);
    assert!(!registry.is_shutting_down());
    registry.begin_shutdown(ShutdownMode::Drain);
    assert!(registry.is_shutting_down());
    assert_eq!(registry.running_session_count(), 0);
}

#[test]
fn drain_flags_shutdown_without_touching_anything_else() {
    let mut registry = registry();
    registry.begin_shutdown(ShutdownMode::Drain);
    assert!(registry.is_shutting_down());
    assert!(matches!(
        registry.create_or_attach(&params("late", &[], 80, 24), true, BUDGET),
        Err(RenderError::Conflict(_))
    ));
}

#[test]
fn spawn_emits_data_then_exit_code_zero() {
    let mut registry = registry();
    let created = create(&mut registry, &params("plain", &["-c", "printf hello"], 80, 24), 77);
    assert_eq!(created.status, SessionStatus::Running);
    assert!(created.pid > 0);
    assert!(!created.incarnation_id.is_empty());
    assert_eq!(created.cols, 80);
    assert_eq!(created.rows, 24);
    assert_eq!(created.launch_marker_token, None);
    assert!(created.terminal_snapshot.is_some());

    let data = output(&mut registry, &created, "hello", 5).expect("data");
    match data {
        Event::Data { session_id, incarnation_id, data, seq } => {
            assert_eq!(session_id, "plain");
            assert_eq!(incarnation_id, created.incarnation_id);
            assert_eq!(data, "hello");
            assert_eq!(seq, 1);
        }
        other => panic!("expected data, got {other:?}"),
    }
    match exit(&mut registry, &created, code(0)).expect("exit") {
        Event::Exit { exit_code, signal, .. } => {
            assert_eq!(exit_code, Some(0));
            assert_eq!(signal, None);
        }
        other => panic!("expected exit, got {other:?}"),
    }
    let state = registry.attach("plain", 0).expect("state");
    assert_eq!(state.status, SessionStatus::Exited);
    assert_eq!(state.exit_code, Some(0));
    assert_eq!(state.output, "hello");
}

#[test]
fn write_round_trips_through_an_interactive_shell() {
    let mut registry = registry();
    let created = create(&mut registry, &params("echo", &[], 80, 24), 5);
    let bytes = registry.write("echo", "echo hi\r").expect("write").to_vec();
    assert_eq!(bytes, b"echo hi\r");
    output(&mut registry, &created, "echo hi\r\nhi\r\n", 1);
    assert!(registry.attach("echo", 0).expect("state").output.contains("hi"));
}

#[test]
fn spawn_applies_the_requested_window_size() {
    let registry = registry();
    let request = params("size", &["-c", "stty size; sleep 0.3"], 80, 24);
    match registry.create_or_attach(&request, true, BUDGET) {
        Ok(Admission::Launch(plan)) => {
            assert_eq!((plan.cols, plan.rows), (80, 24));
            assert_eq!(plan.file, "/bin/sh");
            assert_eq!(plan.args, vec!["-c".to_string(), "stty size; sleep 0.3".to_string()]);
            assert_eq!(plan.cwd.as_deref(), Some("/tmp"));
        }
        _ => panic!("expected a launch"),
    }
}

#[test]
fn resize_is_applied_to_the_child() {
    let mut registry = registry();
    create(&mut registry, &params("resize", &["-c", "sleep 0.5; stty size"], 80, 24), 5);
    assert!(registry.resize("resize", 100, 40).expect("resize"));
    let state = registry.attach("resize", 0).expect("state");
    assert_eq!((state.cols, state.rows), (100, 40));
}

#[test]
fn seq_is_monotonic_and_attach_filters_by_after_seq() {
    let mut registry = registry();
    let created = create(&mut registry, &params("seq", &[], 80, 24), 5);
    let mut seqs: Vec<u64> = Vec::new();
    for data in ["a", "b", "c"] {
        match output(&mut registry, &created, data, 1) {
            Some(Event::Data { seq, .. }) => seqs.push(seq),
            other => panic!("expected data, got {other:?}"),
        }
    }
    exit(&mut registry, &created, code(0));
    assert!(seqs.len() >= 3, "expected several chunks, got {seqs:?}");
    assert!(
        seqs.windows(2).all(|pair| pair[0] < pair[1]),
        "seq must be strictly increasing: {seqs:?}"
    );
    assert_eq!(seqs[0], 1, "seq starts at 1 per incarnation");

    let all = registry.attach("seq", 0).expect("attach");
    assert_eq!(all.seq, *seqs.last().unwrap());
    assert_eq!(all.chunks.len(), seqs.len());

    let last_seq = *seqs.last().unwrap();
    let tail = registry.attach("seq", last_seq - 1).expect("attach tail");
    assert_eq!(tail.chunks.len(), 1);
    assert_eq!(tail.chunks[0].seq, last_seq);
    assert_eq!(tail.seq, last_seq);

    let none = registry.attach("seq", last_seq).expect("attach none");
    assert!(none.chunks.is_empty());
    assert!(none.output.contains('c'));
}

#[test]
fn journal_window_keeps_only_the_newest_output() {
    let mut registry = registry();
    let created = create(&mut registry, &params("volume", &[], 80, 24), 5);
    let mut chunk = String::new();
    for index in 0..50_000 {
        chunk.push_str(&format!("{index:06}"));
        if index % 500 == 499 {
            output(&mut registry, &created, &chunk, 1);
            chunk.clear();
        }
    }
    exit(&mut registry, &created, code(0));

    let state = registry.attach("volume", 0).expect("attach");
    let joined: String = state.chunks.iter().map(|chunk| chunk.data.as_str()).collect();
    assert!(
        joined.chars().count() <= PTY_OUTPUT_MAX_CHARS,
        "chunks window grew to {} chars",
        joined.chars().count()
    );
    assert!(joined.ends_with("049999"), "window tail is stale");
    assert!(
        state.output.chars().count() <= PTY_OUTPUT_MAX_CHARS,
        "output grew to {} chars",
        state.output.chars().count()
    );
    assert!(state.output.ends_with("049999"), "output tail is stale");
    assert!(!state.output.contains("0000000"), "output kept the oldest content");
}

#[test]
fn multibyte_output_is_never_corrupted() {
    let mut registry = registry();
    let created = create(&mut registry, &params("multibyte", &[], 80, 24), 5);
    let expected = "中文🙂".repeat(2000);
    let mut decoder = IncrementalUtf8Decoder::new();
    for bytes in expected.as_bytes().chunks(4096) {
        let id = &created.incarnation_id;
        assert!(registry.read("multibyte", id, &mut decoder, bytes, 1).is_some());
    }
    exit(&mut registry, &created, code(0));
    let state = registry.attach("multibyte", 0).expect("attach");
    assert!(!state.output.contains('\u{fffd}'), "replacement character leaked");
    assert_eq!(state.output, expected);
    let joined: String = state.chunks.iter().map(|chunk| chunk.data.as_str()).collect();
    assert_eq!(joined, expected);
}

#[test]
fn bytes_that_make_no_character_yet_are_not_published() {
    let mut registry = registry();
    let created = create(&mut registry, &params("wait", &[], 80, 24), 5);
    let mut decoder = IncrementalUtf8Decoder::new();
    let id = &created.incarnation_id;
    assert!(registry.read("wait", id, &mut decoder, &[0xe4, 0xb8], 1).is_none());
    assert_eq!(registry.attach("wait", 0).expect("state").seq, 0);
    assert!(registry.read("wait", id, &mut decoder, &[0xad], 1).is_some());
    assert_eq!(registry.attach("wait", 0).expect("state").output, "中");
}

#[test]
fn launch_marker_is_stripped_from_the_journal_only() {
    let mut registry = registry();
    let mut request = params("marker", &[], 80, 24);
    request.launch_marker_token = Some("tok-1".to_string());
    let created = create(&mut registry, &request, 5);
    let raw = "visible\u{1e}WAND_CLI_EXIT:tok-1:0\u{1f}after";
    match output(&mut registry, &created, raw, 1) {
        Some(Event::Data { data, .. }) => assert!(data.contains("WAND_CLI_EXIT:tok-1:0")),
        other => panic!("expected data, got {other:?}"),
    }
    exit(&mut registry, &created, code(0));

    let state = registry.attach("marker", 0).expect("attach");
    assert_eq!(state.launch_marker_token.as_deref(), Some("tok-1"));
    assert_eq!(state.output, "visibleafter");
    assert_eq!(state.chunks[0].data, raw);
    let snapshot = state.terminal_snapshot.expect("snapshot");
    assert!(!snapshot.data.contains("WAND_CLI_EXIT"));
}

#[test]
fn create_or_attach_never_restarts_a_live_session() {
    let mut registry = registry();
    let first = create(&mut registry, &params("live", &[], 80, 24), 5);
    let again = params("live", &["-c", "printf never"], 40, 10);
    match registry.create_or_attach(&again, true, BUDGET) {
        Ok(Admission::Attached(again)) => {
            assert!(!again.is_new);
            assert_eq!(again.state.incarnation_id, first.incarnation_id);
            assert_eq!(again.state.pid, first.pid);
            assert_eq!((again.state.cols, again.state.rows), (80, 24));
        }
        _ => panic!("expected to attach"),
    }
}

#[test]
fn a_launch_that_lost_the_race_is_discarded() {
    let mut registry = registry();
    let request = params("race", &[], 80, 24);
    let first = create(&mut registry, &request, 5);
    match registry.complete_create(&request, Ok(6), "u-1-1-6".to_string()) {
        Ok(creation) => {
            assert_eq!(creation.discard, Some(6));
            assert!(!creation.result.is_new);
            assert_eq!(creation.result.state.incarnation_id, first.incarnation_id);
        }
        Err(_) => panic!("expected to attach"),
    }
    assert_eq!(registry.session_count(), 1);
}

#[test]
fn create_or_attach_reports_an_exited_session_without_restarting_it() {
    let mut registry = registry();
    let created = create(&mut registry, &params("gone", &["-c", "exit 7"], 80, 24), 5);
    exit(&mut registry, &created, code(7));
    let again = params("gone", &["-c", "printf restarted"], 80, 24);
    match registry.create_or_attach(&again, true, BUDGET) {
        Ok(Admission::Attached(again)) => {
            assert!(!again.is_new);
            assert_eq!(again.state.status, SessionStatus::Exited);
            assert_eq!(again.state.exit_code, Some(7));
        }
        _ => panic!("expected to attach"),
    }
}

#[test]
fn kill_by_signal_name_terminates_the_child() {
    let mut registry = registry();
    let created = create(&mut registry, &params("kill", &["-c", "sleep 30; echo never"], 80, 24), 9);
    let order = registry.kill("kill", Some("SIGKILL")).expect("kill");
    assert_eq!(order, Some(SignalOrder { pid: 9, signo: libc::SIGKILL }));
    let killed = ChildExit { exit_code: None, signal: Some(libc::SIGKILL) };
    match exit(&mut registry, &created, killed) {
        Some(Event::Exit { exit_code, signal, .. }) => {
            assert_eq!(signal, Some(libc::SIGKILL));
            assert_eq!(exit_code, None);
        }
        other => panic!("expected exit, got {other:?}"),
    }
    assert_eq!(registry.kill("kill", Some("SIGKILL")).expect("nothing to kill"), None);
}

#[test]
fn unknown_signal_names_are_rejected() {
    let mut registry = registry();
    create(&mut registry, &params("badsignal", &[], 80, 24), 5);
    let error = registry.kill("badsignal", Some("SIGBREAKFAST")).expect_err("rejected");
    assert!(matches!(error, RenderError::BadRequest(_)));
    assert!(matches!(registry.kill("nope", None), Err(RenderError::NotFound(_))));
}

#[test]
fn forget_drops_the_record_and_stops_journaling() {
    let mut registry = registry();
    let created = create(&mut registry, &params("forget", &[], 80, 24), 5);
    output(&mut registry, &created, "before-forget", 1);
    match registry.forget("forget") {
        Some((pid, Event::Reconcile { session_ids })) => {
            assert_eq!(pid, 5);
            assert!(session_ids.is_empty());
        }
        other => panic!("expected a reconciliation, got {other:?}"),
    }
    assert!(registry.attach("forget", 0).is_none());
    assert_eq!(registry.session_count(), 0);
    assert!(output(&mut registry, &created, "after", 2).is_none());
    assert!(exit(&mut registry, &created, code(0)).is_none());
    create(&mut registry, &params("forget", &[], 80, 24), 6);
}

#[test]
fn spawn_rejects_bad_requests() {
    let mut registry = registry();
    let mut missing_cwd = params("bad", &["-c", "true"], 80, 24);
    missing_cwd.cwd = "/definitely/not/here".into();
    assert!(matches!(
        registry.create_or_attach(&missing_cwd, false, BUDGET),
        Err(RenderError::BadRequest(_))
    ));

    let mut zero_size = params("bad-size", &["-c", "true"], 0, 24);
    zero_size.cols = 0;
    assert!(matches!(
        registry.create_or_attach(&zero_size, true, BUDGET),
        Err(RenderError::BadRequest(_))
    ));

    let mut missing_file = params("bad-file", &[], 80, 24);
    missing_file.file = "/definitely/not/here/sh".into();
    let failure = LaunchFailure::Command("No such file or directory".to_string());
    assert!(!failure.must_kill());
    match registry.complete_create(&missing_file, Err(failure), "u".to_string()) {
        Err(RenderError::Spawn(text)) => assert_eq!(
            text,
            "spawn /definitely/not/here/sh failed: No such file or directory"
        ),
        _ => panic!("expected a failed launch"),
    }
    assert_eq!(registry.session_count(), 0);
}

#[test]
fn failed_launches_say_at_what() {
    let cases = [
        (LaunchFailure::OpenPty("x".to_string()), "openpty failed: x", false),
        (LaunchFailure::Command("x".to_string()), "spawn sh failed: x", false),
        (LaunchFailure::Reader("x".to_string()), "pty reader failed: x", true),
        (LaunchFailure::Writer("x".to_string()), "pty writer failed: x", true),
        (LaunchFailure::ReaderThread("x".to_string()), "reader thread failed: x", true),
        (LaunchFailure::ExitThread("x".to_string()), "exit thread failed: x", true),
    ];
    for (failure, text, must_kill) in cases {
        assert_eq!(failure.must_kill(), must_kill, "{text}");
        match failure.into_error("sh") {
            RenderError::Spawn(found) => assert_eq!(found, text),
            _ => panic!("expected a failed launch"),
        }
    }
}

#[test]
fn terminal_snapshot_replays_real_pty_output() {
    let mut registry = registry();
    let created = create(&mut registry, &params("snapshot", &[], 40, 10), 5);
    output(&mut registry, &created, "\u{1b}[31mred\u{1b}[0m\r\n", 1_000);
    registry.maintain(1_100);
    let state = registry.attach("snapshot", 0).expect("attach");
    let snapshot = state.terminal_snapshot.expect("snapshot");
    assert_eq!(snapshot.version, 1);
    assert_eq!((snapshot.cols, snapshot.rows), (40, 10));
    assert!(replayed(&snapshot.data, &snapshot, true).contains("red"));
}

#[test]
fn snapshot_baseline_never_double_applies_pending() {
    let mut registry = registry();
    let created = create(&mut registry, &params("consistency", &[], 40, 10), 5);
    output(&mut registry, &created, "baseline-text", 1_000);
    registry.maintain(1_600);
    let state = registry.attach("consistency", 0).expect("attach");
    let snapshot = state.terminal_snapshot.clone().expect("snapshot");
    assert!(snapshot.data.contains("baseline-text"));
    assert!(
        snapshot.pending.is_empty(),
        "a fresh baseline must not carry pending ops: {:?}",
        snapshot.pending
    );
    assert_eq!(
        replayed(&snapshot.data, &snapshot, true),
        replayed(&state.output, &snapshot, false),
        "snapshot data + pending must be screen-equivalent to the journal"
    );
}

#[test]
fn snapshot_never_loses_output_between_checkpoints() {
    let mut registry = registry();
    let created = create(&mut registry, &params("midflight", &[], 40, 10), 5);
    output(&mut registry, &created, "ALPHA", 1_000);
    registry.maintain(1_050);
    output(&mut registry, &created, "BETA", 1_050);

    let state = registry.attach("midflight", 0).expect("attach");
    let snapshot = state.terminal_snapshot.clone().expect("snapshot");
    let pending_data: String = snapshot
        .pending
        .iter()
        .filter_map(|op| match op {
            PendingOp::Data { data } => Some(data.as_str()),
            _ => None,
        })
        .collect();
    assert!(
        snapshot.data.contains("BETA") || pending_data.contains("BETA"),
        "BETA is in neither the baseline nor pending: data={:?} pending={:?}",
        snapshot.data,
        snapshot.pending
    );
    assert!(
        !(snapshot.data.contains("BETA") && pending_data.contains("BETA")),
        "BETA was applied twice (baseline and pending)"
    );
    assert_eq!(
        replayed(&snapshot.data, &snapshot, true),
        replayed(&state.output, &snapshot, false),
        "baseline + pending must be screen-equivalent to the journal"
    );
}

#[test]
fn resize_is_reflected_as_a_pending_operation_until_the_next_checkpoint() {
    let mut registry = registry();
    create(&mut registry, &params("resize-op", &["-c", "sleep 5"], 80, 24), 5);
    registry.resize("resize-op", 100, 40).expect("resize");
    let state = registry.attach("resize-op", 0).expect("attach");
    assert_eq!((state.cols, state.rows), (100, 40));
    let snapshot = state.terminal_snapshot.expect("snapshot");
    assert_eq!((snapshot.cols, snapshot.rows), (80, 24));
    assert!(
        snapshot.pending.iter().any(|op| matches!(
            op,
            PendingOp::Resize { cols: 100, rows: 40 }
        )),
        "resize is missing from pending: {:?}",
        snapshot.pending
    );
    registry.maintain(1_000_000);
    let state = registry.attach("resize-op", 0).expect("attach");
    let snapshot = state.terminal_snapshot.expect("snapshot");
    assert_eq!((snapshot.cols, snapshot.rows), (100, 40));
    assert!(snapshot.pending.is_empty());
}

#[test]
fn a_session_is_quiet_after_a_tenth_of_a_second() {
    let mut registry = registry();
    let created = create(&mut registry, &params("quiet", &[], 40, 10), 5);
    output(&mut registry, &created, "x", 1_000);
    registry.maintain(1_099);
    let pending = |registry: &RenderRegistry| {
        let state = registry.attach("quiet", 0).expect("attach");
        state.terminal_snapshot.expect("snapshot").pending.len()
    };
    assert_eq!(pending(&registry), 1);
    registry.maintain(1_100);
    assert_eq!(pending(&registry), 0);
}

#[test]
fn much_pending_output_is_settled_at_once() {
    let mut registry = registry();
    let created = create(&mut registry, &params("busy", &[], 40, 10), 5);
    output(&mut registry, &created, &"y".repeat(262_144), 1);
    let pending = |registry: &RenderRegistry| {
        let state = registry.attach("busy", 0).expect("attach");
        state.terminal_snapshot.expect("snapshot").pending.len()
    };
    assert_eq!(pending(&registry), 1);
    output(&mut registry, &created, "z", 1);
    assert_eq!(pending(&registry), 0);
}

fn object(members: Vec<(&str, Value)>) -> Value {
    let mut map = serde_json::Map::new();
    for (key, value) in members {
        map.insert(key.to_string(), value);
    }
    Value::Object(map)
}

fn json_length(snapshot: &TerminalSnapshot) -> usize {
    let value = object(vec![
        ("version", Value::from(snapshot.version)),
        ("data", Value::from(snapshot.data.clone())),
        ("cols", Value::from(snapshot.cols)),
        ("rows", Value::from(snapshot.rows)),
        ("pending", Value::Array(Vec::new())),
    ]);
    serde_json::to_vec(&value).expect("json").len()
}

#[test]
fn list_bounds_the_snapshot_while_attach_stays_complete() {
    let mut registry = registry();
    let created = create(&mut registry, &params("wide", &[], 200, 60), 5);
    let line = format!("{}\r\n", "x".repeat(200));
    for _ in 0..60 {
        output(&mut registry, &created, &line.repeat(100), 1);
    }
    exit(&mut registry, &created, code(0));

    let listed = registry.list_sessions();
    assert_eq!(listed.len(), 1);
    let listed = &listed[0];
    let listed_snapshot = listed
        .terminal_snapshot
        .as_ref()
        .expect("list keeps a bounded snapshot hint");
    assert!(listed_snapshot.pending.is_empty());
    let listed_bytes = json_length(listed_snapshot);
    assert!(
        listed_bytes <= LIST_SNAPSHOT_MAX_BYTES,
        "list snapshot grew to {listed_bytes} bytes"
    );

    let full = registry.attach("wide", 0).expect("attach");
    let full_snapshot = full.terminal_snapshot.as_ref().expect("snapshot");
    let full_bytes = json_length(full_snapshot);
    assert!(
        full_bytes > LIST_SNAPSHOT_MAX_BYTES,
        "attach must return the unbounded snapshot, got only {full_bytes} bytes"
    );
    assert!(listed.output.chars().count() <= PTY_OUTPUT_MAX_CHARS);
    assert_eq!(listed.output, full.output);
    assert_eq!(listed.chunks.len(), full.chunks.len());
    assert_eq!(listed.status, full.status);
}

#[test]
fn kill_without_a_signal_uses_sighup() {
    let mut registry = registry();
    create(&mut registry, &params("hup", &["-c", "sleep 30"], 80, 24), 8);
    let order = registry.kill("hup", None).expect("kill");
    assert_eq!(
        order,
        Some(SignalOrder { pid: 8, signo: libc::SIGHUP }),
        "the default kill signal must be SIGHUP"
    );
    let blank = registry.kill("hup", Some("  ")).expect("kill");
    assert_eq!(blank, order);
}

#[test]
fn drain_keeps_running_sessions_and_refuses_new_ones() {
    let mut registry = registry();
    let created = create(&mut registry, &params("keep", &["-c", "sleep 30"], 80, 24), 5);
    registry.begin_shutdown(ShutdownMode::Drain);
    assert!(registry.is_shutting_down());
    assert_eq!(registry.running_session_count(), 1);
    let state = registry.attach("keep", 0).expect("attach");
    assert_eq!(state.status, SessionStatus::Running);
    assert!(matches!(
        registry.create_or_attach(&params("new", &["-c", "true"], 80, 24), true, BUDGET),
        Err(RenderError::Conflict(_))
    ));

    let orders = registry.begin_shutdown(ShutdownMode::Now);
    assert_eq!(orders.kill, vec![5]);
    assert_eq!(registry.session_count(), 0);
    assert_eq!(registry.running_session_count(), 0);
    let killed = ChildExit { exit_code: None, signal: Some(libc::SIGKILL) };
    match exit(&mut registry, &created, killed) {
        Some(Event::Exit { signal, .. }) => assert_eq!(signal, Some(libc::SIGKILL)),
        other => panic!("expected exit, got {other:?}"),
    }
}

#[test]
fn drain_lets_ended_sessions_go() {
    let mut registry = registry();
    let ended = create(&mut registry, &params("ended", &[], 80, 24), 5);
    create(&mut registry, &params("running", &[], 80, 24), 6);
    exit(&mut registry, &ended, code(0));
    let orders = registry.begin_shutdown(ShutdownMode::Drain);
    assert!(orders.kill.is_empty());
    match orders.event {
        Event::Reconcile { session_ids } => assert_eq!(session_ids, vec!["running".to_string()]),
        other => panic!("expected a reconciliation, got {other:?}"),
    }
    assert!(registry.attach("ended", 0).is_none());
}

#[test]
fn shutdown_loop_stops_immediately_when_nothing_is_running() {
    let mut registry = registry();
    let step = shutdown_step(&mut registry, ShutdownRequest::Asked(ShutdownMode::Drain));
    assert_eq!(step.finished, Some(ShutdownMode::Drain));
    assert!(registry.is_shutting_down());
}

#[test]
fn shutdown_loop_keeps_running_until_the_last_session_exits() {
    let mut registry = registry();
    let life = create(&mut registry, &params("life", &["-c", "sleep 30"], 80, 24), 5);
    let step = shutdown_step(&mut registry, ShutdownRequest::Asked(ShutdownMode::Drain));
    assert_eq!(step.finished, None, "drain must not end the daemon while a PTY is still running");
    assert_eq!(shutdown_step(&mut registry, ShutdownRequest::Nothing).finished, None);
    assert!(registry.is_shutting_down());
    assert_eq!(registry.running_session_count(), 1);
    assert!(matches!(
        registry.create_or_attach(&params("late", &[], 80, 24), true, BUDGET),
        Err(RenderError::Conflict(_))
    ));
    let killed = ChildExit { exit_code: None, signal: Some(libc::SIGKILL) };
    exit(&mut registry, &life, killed);
    let step = shutdown_step(&mut registry, ShutdownRequest::Nothing);
    assert_eq!(step.finished, Some(ShutdownMode::Drain));
}

#[test]
fn second_drain_request_escalates_to_now() {
    let mut registry = registry();
    create(&mut registry, &params("life", &["-c", "sleep 30"], 80, 24), 5);
    let first = shutdown_step(&mut registry, ShutdownRequest::Asked(ShutdownMode::Drain));
    assert_eq!(first.finished, None);
    let second = shutdown_step(&mut registry, ShutdownRequest::Asked(ShutdownMode::Drain));
    assert_eq!(second.finished, Some(ShutdownMode::Now));
    assert_eq!(second.orders.expect("orders").kill, vec![5]);
    assert_eq!(registry.running_session_count(), 0);
    assert!(registry.session_count() == 0);
}

#[test]
fn now_request_stops_immediately() {
    let mut registry = registry();
    create(&mut registry, &params("life", &["-c", "sleep 30"], 80, 24), 5);
    let step = shutdown_step(&mut registry, ShutdownRequest::Asked(ShutdownMode::Now));
    assert_eq!(step.finished, Some(ShutdownMode::Now));
    assert_eq!(registry.running_session_count(), 0);
}

#[test]
fn a_daemon_that_nobody_can_ask_any_more_stops() {
    let mut registry = registry();
    assert_eq!(shutdown_step(&mut registry, ShutdownRequest::Nothing).finished, None);
    let step = shutdown_step(&mut registry, ShutdownRequest::Disconnected);
    assert_eq!(step.finished, Some(ShutdownMode::Now));
}

#[test]
fn sizes_are_limited() {
    assert!(check_size(1, 1).is_ok());
    assert!(check_size(1000, 500).is_ok());
    assert!(check_size(1024, 488).is_ok());
    assert!(check_size(976, 512).is_ok());
    for (cols, rows) in [(0, 1), (1, 0), (1025, 1), (1, 513), (1024, 489), (1024, 512)] {
        match check_size(cols, rows) {
            Err(RenderError::BadRequest(_)) => {}
            _ => panic!("{cols}x{rows} must be refused"),
        }
    }
    let mut registry = registry();
    create(&mut registry, &params("big", &[], 80, 24), 5);
    assert!(matches!(registry.resize("big", 1025, 24), Err(RenderError::BadRequest(_))));
    assert_eq!(registry.attach("big", 0).expect("state").cols, 80);
}

#[test]
fn new_sessions_need_room() {
    let registry = registry();
    let request = params("room", &[], 80, 24);
    let needed = screen_bytes(80, 24, 0) + 1_048_576;
    assert!(matches!(
        registry.decide_create(&request, true, needed, 0),
        Ok(Admission::Launch(_))
    ));
    assert!(matches!(
        registry.decide_create(&request, true, needed, 1),
        Err(RenderError::Conflict(_))
    ));
    assert!(matches!(
        registry.decide_create(&request, true, u64::MAX, u64::MAX),
        Err(RenderError::Conflict(_))
    ));
}

#[test]
fn at_most_two_hundred_sessions_run() {
    let mut registry = registry();
    let mut first: Option<SessionState> = None;
    for index in 0..200u32 {
        let request = params(&format!("s{index}"), &[], 2, 1);
        let state = create(&mut registry, &request, index + 1);
        if first.is_none() {
            first = Some(state);
        }
    }
    let extra = params("extra", &[], 2, 1);
    assert!(matches!(
        registry.create_or_attach(&extra, true, BUDGET),
        Err(RenderError::Conflict(_))
    ));
    assert!(matches!(
        registry.create_or_attach(&params("s7", &[], 2, 1), true, BUDGET),
        Ok(Admission::Attached(_))
    ));
    exit(&mut registry, &first.expect("first"), code(0));
    assert!(matches!(
        registry.create_or_attach(&extra, true, BUDGET),
        Ok(Admission::Launch(_))
    ));
}

#[test]
fn live_bytes_grow_with_what_is_kept() {
    let mut registry = registry();
    assert_eq!(registry.live_bytes(), 0);
    let created = create(&mut registry, &params("live-bytes", &[], 80, 24), 5);
    let before = registry.live_bytes();
    assert!(before >= screen_bytes(80, 24, 0));
    output(&mut registry, &created, &"x".repeat(100_000), 1);
    assert!(registry.live_bytes() >= before + 200_000);
    let stats = registry.stats(61_000, 5, 6);
    assert_eq!((stats.uptime_ms, stats.sessions, stats.live_bytes, stats.rss_bytes), (60_000, 1, 5, 6));
    assert_eq!(registry.stats(0, 0, 0).uptime_ms, 0);
}

#[test]
fn estimates_add_up() {
    assert_eq!(screen_bytes(80, 24, 0), 80 * 24 * 32);
    assert_eq!(screen_bytes(80, 24, 100), 80 * 124 * 32);
    let allocated = Allocated { output: 1, chunks: 2, baseline: 3, pending: 4 };
    assert_eq!(estimate_live_bytes(allocated, 10, 5, 0), 10 + 10 * 5 * 32);
}

#[test]
fn the_environment_of_a_launch_is_the_one_asked_for() {
    let mut request = params("env", &[], 80, 24);
    request.name = String::new();
    request.env = vec![
        ("A".to_string(), "1".to_string()),
        ("TERM".to_string(), "vt220".to_string()),
        ("A".to_string(), "2".to_string()),
    ];
    let found = match plan(&request, true) {
        Ok(plan) => plan,
        Err(_) => panic!("expected a plan"),
    };
    let last = |name: &str| {
        found.env.iter().rev().find(|(key, _)| key == name).map(|(_, value)| value.clone())
    };
    assert_eq!(last("A").as_deref(), Some("2"));
    assert_eq!(last("TERM").as_deref(), Some("vt220"));
    assert_eq!(last("PATH"), None);
    request.name = "screen".to_string();
    match plan(&request, true) {
        Ok(plan) => assert!(plan.env.iter().rev().find(|(key, _)| key == "TERM").map(|(_, v)| v.as_str())
            == Some("screen")),
        Err(_) => panic!("expected a plan"),
    }
    assert_eq!(default_term_name(), "xterm-256color");
}

#[test]
fn requests_that_cannot_be_launched_are_explained() {
    let refused = |request: &CreateOrAttachParams, cwd_is_dir: bool| match plan(request, cwd_is_dir) {
        Err(RenderError::BadRequest(text)) => text,
        _ => panic!("expected a refusal"),
    };
    let mut request = params("x", &[], 80, 24);
    request.session_id = String::new();
    assert_eq!(refused(&request, true), "sessionId is required");
    let mut request = params("x", &[], 80, 24);
    request.file = String::new();
    assert_eq!(refused(&request, true), "file is required");
    let request = params("x", &[], 80, 24);
    assert_eq!(refused(&request, false), "cwd /tmp is not a directory");
}

fn around() -> Surroundings {
    Surroundings {
        pid: 42,
        now_ms: 2_000,
        cwd_is_dir: true,
        budget_bytes: BUDGET,
        live_bytes: 0,
        rss_bytes: 9,
    }
}

#[test]
fn methods_are_known_by_their_names() {
    assert_eq!(method_of(&"createOrAttach".to_string()), Ok(Method::CreateOrAttach));
    assert_eq!(method_of(&"hello".to_string()), Ok(Method::Hello));
    assert_eq!(
        method_of(&"Hello".to_string()),
        Err((ErrorCode::UnsupportedMethod, "unsupported method Hello".to_string()))
    );
}

#[test]
fn requests_are_carried_out() {
    let mut registry = registry();
    let around = around();
    match dispatch(&mut registry, Call::Hello, &around) {
        Outcome::Hello(hello) => assert_eq!((hello.pid, hello.sessions), (42, 0)),
        _ => panic!("expected a greeting"),
    }
    assert!(matches!(dispatch(&mut registry, Call::Ping, &around), Outcome::Pong));
    assert!(matches!(dispatch(&mut registry, Call::List, &around), Outcome::List(_)));
    let request = params("s", &[], 80, 24);
    assert!(matches!(
        dispatch(&mut registry, Call::CreateOrAttach(request.clone()), &around),
        Outcome::Launch(_)
    ));
    create(&mut registry, &request, 5);
    match dispatch(&mut registry, Call::CreateOrAttach(request), &around) {
        Outcome::Created(result) => assert!(!result.is_new),
        _ => panic!("expected to attach"),
    }
    let id = || "s".to_string();
    match dispatch(&mut registry, Call::Attach(AttachParams { session_id: id(), after_seq: 0 }), &around) {
        Outcome::Attached(result) => assert_eq!(result.state.pid, 5),
        _ => panic!("expected a state"),
    }
    match dispatch(
        &mut registry,
        Call::Write(WriteParams { session_id: id(), data: "é".to_string() }),
        &around,
    ) {
        Outcome::Write(bytes) => assert_eq!(bytes, "é".as_bytes()),
        _ => panic!("expected bytes"),
    }
    match dispatch(
        &mut registry,
        Call::Resize(ResizeParams { session_id: id(), cols: 90, rows: 30 }),
        &around,
    ) {
        Outcome::Resize(size) => assert_eq!(size, Some((90, 30))),
        _ => panic!("expected a size"),
    }
    match dispatch(&mut registry, Call::Kill(KillParams { session_id: id(), signal: None }), &around) {
        Outcome::Signal(order) => assert_eq!(order, Some(SignalOrder { pid: 5, signo: 1 })),
        _ => panic!("expected a signal"),
    }
    match dispatch(&mut registry, Call::Stats, &around) {
        Outcome::Stats(stats) => assert_eq!((stats.uptime_ms, stats.sessions), (1_000, 1)),
        _ => panic!("expected statistics"),
    }
    match dispatch(&mut registry, Call::Forget(ForgetParams { session_id: id() }), &around) {
        Outcome::Forgotten(Some((pid, _))) => assert_eq!(pid, 5),
        _ => panic!("expected a session to go"),
    }
    assert!(matches!(
        dispatch(&mut registry, Call::Forget(ForgetParams { session_id: id() }), &around),
        Outcome::Forgotten(None)
    ));
    assert!(matches!(
        dispatch(
            &mut registry,
            Call::Shutdown(ShutdownParams { mode: ShutdownMode::Drain }),
            &around
        ),
        Outcome::Shutdown(ShutdownMode::Drain)
    ));
    assert!(!registry.is_shutting_down());
}

#[test]
fn requests_that_fail_are_answered_by_code() {
    let mut registry = registry();
    let around = around();
    let id = || "nope".to_string();
    let calls = vec![
        Call::Attach(AttachParams { session_id: id(), after_seq: 0 }),
        Call::Write(WriteParams { session_id: id(), data: String::new() }),
        Call::Resize(ResizeParams { session_id: id(), cols: 90, rows: 30 }),
        Call::Kill(KillParams { session_id: id(), signal: None }),
    ];
    for call in calls {
        match dispatch(&mut registry, call, &around) {
            Outcome::Failed(code, text) => {
                assert_eq!(code, ErrorCode::NotFound);
                assert_eq!(text, "session nope not found");
            }
            _ => panic!("expected a failure"),
        }
    }
    match dispatch(&mut registry, Call::Unreadable("missing field".to_string()), &around) {
        Outcome::Failed(code, text) => {
            assert_eq!(code, ErrorCode::BadRequest);
            assert_eq!(text, "missing field");
        }
        _ => panic!("expected a failure"),
    }
    let created = create(&mut registry, &params("s", &[], 80, 24), 5);
    exit(&mut registry, &created, code(0));
    let call = Call::Write(WriteParams { session_id: "s".to_string(), data: "x".to_string() });
    match dispatch(&mut registry, call, &around) {
        Outcome::Failed(code, text) => {
            assert_eq!(code, ErrorCode::Conflict);
            assert_eq!(text, "session s is not running");
        }
        _ => panic!("expected a failure"),
    }
    let call = Call::Resize(ResizeParams { session_id: "s".to_string(), cols: 90, rows: 30 });
    assert!(matches!(
        dispatch(&mut registry, call, &around),
        Outcome::Failed(ErrorCode::Conflict, _)
    ));
}

#[test]
fn a_sink_may_drop_everything() {
    let sink = NullSink;
    sink.publish(Event::Reconcile { session_ids: Vec::new() });
}

#[test]
fn a_retired_session_records_and_takes_nothing() {
    let request = params("gone", &[], 80, 24);
    let mut session = match Session::spawn(&request, Ok(4_242), "u-9-9-9".to_string()) {
        Ok(session) => session,
        Err(_) => panic!("expected a session"),
    };
    assert!(session.append("before", 1_000).is_some());
    assert_eq!(session.retire(), 4_242);
    assert!(session.append("after", 1_010).is_none());
    assert_eq!(session.state(0).seq, 1);
    assert_eq!(session.state(0).output, "before");
    assert!(matches!(session.write("x"), Err(RenderError::Conflict(_))));
}

fn session(cols: u16, rows: u16) -> Session {
    match Session::spawn(&params("s", &[], cols, rows), Ok(7), "u-1-1-1".to_string()) {
        Ok(session) => session,
        Err(_) => panic!("expected a session"),
    }
}

fn screen_of(session: &Session) -> String {
    let snapshot = session.state(0).terminal_snapshot.expect("snapshot");
    replayed(&snapshot.data, &snapshot, true)
}

#[test]
fn a_character_that_is_cut_in_two_does_not_stop_the_session() {
    let mut session = session(8, 4);
    session.append("ab\u{4e2d}\u{6587}", 1_000);
    assert!(session.resize(5, 4).is_ok());
    assert!(session.state(0).terminal_snapshot.expect("snapshot").pending.is_empty());
    session.append("\x1b[1;5Hz\x1b[1;4Hy\x1b[1;1H\x1b[K", 1_010);
    session.append("after", 1_020);
    assert!(screen_of(&session).contains("after"));
    let state = session.state(0);
    assert_eq!((state.cols, state.rows, state.seq), (5, 4, 3));
    assert!(state.output.contains("ab\u{4e2d}\u{6587}"));
}

#[test]
fn a_screen_that_is_drawn_anew_keeps_both_screens() {
    let mut session = session(20, 4);
    session.append("main \u{4e2d}\r\nbelow", 1_000);
    session.append("\x1b[?1049h\x1b[Htop \u{4e2d}\u{6587}", 1_010);
    assert!(session.resize(7, 4).is_ok());
    let snapshot = session.state(0).terminal_snapshot.expect("snapshot");
    assert_eq!((snapshot.cols, snapshot.rows), (7, 4));
    assert!(snapshot.pending.is_empty());
    assert!(screen_of(&session).starts_with("top \u{4e2d}"));
    session.append("\x1b[?1049l", 1_020);
    session.refresh_snapshot(2_000);
    assert_eq!(screen_of(&session), "main \u{4e2d}\nbelow");
}

#[test]
fn a_character_of_the_screen_below_may_be_cut_too() {
    let mut session = session(20, 4);
    session.append("main \u{4e2d}\u{6587}", 1_000);
    session.append("\x1b[?47htop", 1_010);
    assert!(session.resize(8, 4).is_ok());
    assert!(session.state(0).terminal_snapshot.expect("snapshot").pending.is_empty());
    session.append("\x1b[?47l\x1b[1;8Hz\x1b[K", 1_020);
    session.refresh_snapshot(2_000);
    assert!(screen_of(&session).starts_with("main \u{4e2d}"));
}

#[test]
fn a_screen_on_which_no_character_is_cut_only_changes_its_size() {
    let mut session = session(20, 4);
    session.append("one two \u{4e2d}\u{6587}\r\n\u{2014}\u{2502}\x1b[?47h\u{4e2d}\x1b[?47l", 1_000);
    assert!(session.resize(12, 3).is_ok());
    let snapshot = session.state(0).terminal_snapshot.expect("snapshot");
    assert_eq!((snapshot.cols, snapshot.rows), (20, 4));
    assert_eq!(snapshot.pending.len(), 2);
    assert_eq!(snapshot.pending.last(), Some(&PendingOp::Resize { cols: 12, rows: 3 }));
    session.refresh_snapshot(2_000);
    let snapshot = session.state(0).terminal_snapshot.expect("snapshot");
    assert_eq!((snapshot.cols, snapshot.rows, snapshot.pending.len()), (12, 3, 0));
    assert!(screen_of(&session).starts_with("one two \u{4e2d}\u{6587}\n\u{2014}\u{2502}"));
}

#[test]
fn a_narrowed_screen_is_still_in_the_midst_of_a_sequence() {
    let mut session = session(20, 4);
    session.append("red: \x1b[3", 1_000);
    assert!(session.resize(12, 4).is_ok());
    session.append("1mx", 1_010);
    assert_eq!(screen_of(&session), "red: x");
}

#[test]
fn the_smallest_screens_are_drawn_on_the_nearest_grid() {
    let mut session = session(4, 1);
    assert!(session.append("a long line that wraps", 1_000).is_some());
    let state = session.state(0);
    assert_eq!((state.cols, state.rows, state.seq), (4, 1, 1));
    assert_eq!(state.output, "a long line that wraps");
    let snapshot = state.terminal_snapshot.expect("snapshot");
    assert_eq!((snapshot.cols, snapshot.rows), (4, 2));
    assert_eq!(
        snapshot.pending,
        vec![PendingOp::Data { data: "a long line that wraps".to_string() }]
    );
    assert_eq!(screen_of(&session), " wraps");
    assert!(session.resize(1, 1).is_ok());
    session.append("\u{4e2d}", 1_010);
    session.refresh_snapshot(2_000);
    let snapshot = session.state(0).terminal_snapshot.expect("snapshot");
    assert_eq!((snapshot.cols, snapshot.rows), (3, 2));
    assert!(session.resize(80, 24).is_ok());
    session.append("\x1b[2J\x1b[Hhello", 2_010);
    assert_eq!(screen_of(&session), "hello");
}

#[test]
fn the_widest_character_has_its_place() {
    let mut session = session(2, 2);
    session.append("\u{17d8}\u{17d8}\u{17d8}x", 1_000);
    session.append("\x1b[8@\x1b[2P", 1_010);
    session.refresh_snapshot(2_000);
    let snapshot = session.state(0).terminal_snapshot.expect("snapshot");
    assert_eq!((snapshot.cols, snapshot.rows), (3, 2));
    let mut widest = self::session(65_535, 2);
    widest.append("\x1b[65535G\tx", 1_000);
    assert_eq!(widest.state(0).terminal_snapshot.expect("snapshot").cols, 65_527);
}
