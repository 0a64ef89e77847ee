//! Whose socket it is, who may connect, and tokens.

use wand_render::lifecycle::{
    live_owner_pid, owns_meta_file, owns_pid_file, owns_token_file, prepare_socket_path,
    recorded_pid, socket_is_live, Probe, SocketDecision,
};
use wand_render::security::{
    check_peer_uid, ensure_peer_uid, generate_token, incarnation_id, inspect_socket_path, to_hex,
    tokens_match, ExistingSocket, FileKind, PathFacts,
};
use wand_render::structured_server::{prepare_structured_socket, token_match};

const UID: u32 = 501;

fn found(kind: FileKind, uid: u32, mode: u32) -> PathFacts {
    PathFacts::Found { kind, uid, mode }
}

fn reason(facts: &PathFacts) -> String {
    match inspect_socket_path(facts, UID) {
        ExistingSocket::Foreign(reason) => reason,
        other => panic!("expected Foreign, got {other:?}"),
    }
}

#[test]
fn absent_path_is_bindable() {
    assert_eq!(inspect_socket_path(&PathFacts::Missing, UID), ExistingSocket::Absent);
}

#[test]
fn regular_file_is_foreign() {
    let reason = reason(&found(FileKind::Other, UID, 0o100644));
    assert!(reason.contains("not a unix socket"), "unexpected reason: {reason}");
}

#[test]
fn symlink_to_a_socket_is_foreign() {
    let reason = reason(&found(FileKind::Link, UID, 0o120777));
    assert!(reason.contains("symbolic link"), "unexpected reason: {reason}");
}

#[test]
fn socket_with_wrong_mode_is_foreign() {
    let reason = reason(&found(FileKind::Socket, UID, 0o140644));
    assert!(reason.contains("600"), "unexpected reason: {reason}");
    assert_eq!(reason, "its mode is 644, expected 600");
}

#[test]
fn own_private_socket_is_owned() {
    assert_eq!(
        inspect_socket_path(&found(FileKind::Socket, UID, 0o140600), UID),
        ExistingSocket::Owned
    );
}

#[test]
fn sockets_of_others_and_unknown_paths_are_foreign() {
    assert_eq!(
        reason(&found(FileKind::Socket, 0, 0o140600)),
        "it is owned by uid 0, not by this user (501)"
    );
    assert_eq!(
        reason(&PathFacts::Unknown("permission denied".to_string())),
        "it cannot be inspected: permission denied"
    );
}

#[test]
fn peer_uid_matches_this_process_and_rejects_others() {
    assert!(ensure_peer_uid(Ok(UID), UID).is_ok());
    let error = ensure_peer_uid(Ok(UID), UID + 1).expect_err("must reject other uids");
    assert!(error.contains("peer uid"), "unexpected message: {error}");
    assert!(ensure_peer_uid(Err("no credentials".to_string()), UID).is_err());
    assert!(check_peer_uid(1000, 1000).is_ok());
    assert!(check_peer_uid(1000, 1001).is_err());
}

#[test]
fn token_comparison_is_exact() {
    assert!(tokens_match("abc123", "abc123"));
    assert!(!tokens_match("abc123", "abc124"));
    assert!(!tokens_match("abc123", "abc12"));
    assert!(!tokens_match("abc123", ""));
    assert!(!tokens_match("", "x"));
    assert!(tokens_match("", ""));
    assert!(!tokens_match("abc123", &format!("abc123{}", "\0".repeat(256))));
}

#[test]
fn token_length_cannot_wrap_modulo_256() {
    let token = "a".repeat(64);
    assert!(token_match(&token, &token));
    assert!(!token_match(&token, &(token.clone() + &"\0".repeat(256))));
}

#[test]
fn generated_tokens_are_32_bytes_of_hex() {
    let mut entropy = [0u8; 32];
    for (index, byte) in entropy.iter_mut().enumerate() {
        *byte = (index * 37 + 5) as u8;
    }
    let token = generate_token(&entropy);
    assert_eq!(token.len(), 64);
    assert!(token.chars().all(|c| c.is_ascii_hexdigit()));
    entropy[31] ^= 1;
    assert_ne!(generate_token(&entropy), token);
}

#[test]
fn hexadecimal_digits_are_lower_case_and_in_order() {
    assert_eq!(to_hex(&[0x00, 0x0f, 0xa5, 0xff]), "000fa5ff");
    assert_eq!(to_hex(&[]), "");
    assert_eq!(incarnation_id(&[0xab; 16]), "ab".repeat(16));
}

fn refused(decision: SocketDecision) -> String {
    match decision {
        SocketDecision::Refuse(reason) => reason,
        _ => panic!("expected a refusal"),
    }
}

#[test]
fn prepare_socket_path_refuses_foreign_paths_without_removing_them() {
    for facts in [found(FileKind::Other, UID, 0o100600), found(FileKind::Link, UID, 0o120777)] {
        let existing = inspect_socket_path(&facts, UID);
        let reason = refused(prepare_socket_path(&existing, None, false, "/tmp/x.sock"));
        assert!(reason.starts_with("refusing to start: /tmp/x.sock already exists but "));
        assert!(reason.contains("not a"), "unhelpful error: {reason}");
    }
}

#[test]
fn prepare_socket_path_refuses_when_a_render_is_listening() {
    let decision = prepare_socket_path(&ExistingSocket::Owned, None, true, "/tmp/x.sock");
    assert_eq!(refused(decision), "another Render is already listening on /tmp/x.sock");
}

#[test]
fn prepare_socket_path_reclaims_a_stale_own_socket() {
    let decision = prepare_socket_path(&ExistingSocket::Owned, None, false, "/tmp/x.sock");
    assert!(matches!(decision, SocketDecision::Reclaim));
}

#[test]
fn prepare_socket_path_reclaims_when_the_recorded_pid_is_dead() {
    let owner = live_owner_pid(Some("999999\n"), false, false);
    assert_eq!(owner, None);
    let decision = prepare_socket_path(&ExistingSocket::Owned, owner, false, "/tmp/x.sock");
    assert!(matches!(decision, SocketDecision::Reclaim));
}

#[test]
fn prepare_socket_path_refuses_when_the_recorded_pid_is_alive() {
    let owner = live_owner_pid(Some("4242\n"), true, false);
    assert_eq!(owner, Some(4242));
    let reason = refused(prepare_socket_path(&ExistingSocket::Owned, owner, false, "/tmp/x.sock"));
    assert!(reason.contains("already running"), "unhelpful error: {reason}");
    let absent = prepare_socket_path(&ExistingSocket::Absent, owner, false, "/tmp/x.sock");
    assert_eq!(refused(absent), "Render owner is alive (pid 4242); waiting for socket recovery");
    assert!(matches!(
        prepare_socket_path(&ExistingSocket::Absent, None, false, "/tmp/x.sock"),
        SocketDecision::Bind
    ));
}

#[test]
fn structured_sockets_are_prepared_alike() {
    let foreign = ExistingSocket::Foreign("it is not a unix socket".to_string());
    assert_eq!(
        refused(prepare_structured_socket(&foreign, None, false)),
        "refusing foreign structured socket"
    );
    assert_eq!(
        refused(prepare_structured_socket(&ExistingSocket::Absent, Some(7), false)),
        "structured Render owner is alive; waiting for socket recovery"
    );
    assert_eq!(
        refused(prepare_structured_socket(&ExistingSocket::Owned, None, true)),
        "another structured Render daemon is listening"
    );
    assert!(matches!(
        prepare_structured_socket(&ExistingSocket::Owned, Some(7), false),
        SocketDecision::Reclaim
    ));
    assert!(matches!(
        prepare_structured_socket(&ExistingSocket::Absent, None, false),
        SocketDecision::Bind
    ));
}

#[test]
fn records_of_processes_are_positive_numbers() {
    assert_eq!(recorded_pid(" 42\r\n"), Some(42));
    assert_eq!(recorded_pid("+42"), Some(42));
    for raw in ["", "0", "-3", "4 2", "x", "2147483648"] {
        assert_eq!(recorded_pid(raw), None, "{raw:?}");
    }
    assert_eq!(recorded_pid("2147483647"), Some(2147483647));
    assert_eq!(live_owner_pid(Some("42"), false, true), Some(42));
    assert_eq!(live_owner_pid(None, true, false), None);
}

#[test]
fn socket_liveness_probe_handles_missing_paths() {
    let missing = Probe { exists: false, answered: false };
    assert!(!socket_is_live(missing, missing));
}

#[test]
fn a_socket_must_answer_twice() {
    let alive = Probe { exists: true, answered: true };
    let silent = Probe { exists: true, answered: false };
    assert!(socket_is_live(alive, alive));
    assert!(!socket_is_live(alive, silent));
    assert!(!socket_is_live(silent, alive));
}

#[test]
fn cleanup_only_removes_files_this_process_owns() {
    assert!(!owns_token_file("someone-elses-token\n", "our-token"));
    assert!(!owns_pid_file("999999\n", 4242));
    assert!(!owns_meta_file(b"{\"pid\":999999}\n", 4242));
    assert!(owns_token_file("our-token\n", "our-token"));
    assert!(owns_pid_file("4242\n", 4242));
    assert!(owns_meta_file(b"{\"pid\":4242}\n", 4242));
    assert!(!owns_meta_file(b"{\"pid\":\"4242\"}", 4242));
    assert!(!owns_meta_file(b"not json", 4242));
    assert!(!owns_meta_file(b"[4242]", 4242));
}
