//! Signals, their names, and how processes end.

use wand_render::session::{
    decode_wait_status, kill_target, wait_for_child, ChildExit, IncarnationCounter, Waited,
};
use wand_render::signal::{self, number, number_on, SignalNumbers, DEFAULT};

#[test]
fn accepts_the_documented_names() {
    assert_eq!(number("SIGTERM"), Some(libc::SIGTERM));
    assert_eq!(number("SIGKILL"), Some(libc::SIGKILL));
    assert_eq!(number("SIGINT"), Some(libc::SIGINT));
    assert_eq!(number("SIGHUP"), Some(libc::SIGHUP));
    assert_eq!(number("SIGQUIT"), Some(libc::SIGQUIT));
}

#[test]
fn is_case_insensitive_and_prefix_optional() {
    assert_eq!(number("sigterm"), Some(libc::SIGTERM));
    assert_eq!(number(" term "), Some(libc::SIGTERM));
}

#[test]
fn rejects_unknown_names() {
    assert_eq!(number("SIGBREAKFAST"), None);
    assert_eq!(number(""), None);
}

#[test]
fn default_signal_is_sighup() {
    assert_eq!(DEFAULT, libc::SIGHUP);
    assert_eq!(number("HUP"), Some(DEFAULT));
    assert_ne!(DEFAULT, libc::SIGTERM);
}

#[test]
fn signal_delivery_rejects_unknown_names() {
    assert!(signal::number("SIGBREAKFAST").is_none());
}

#[test]
fn every_known_name_has_the_number_of_the_platform() {
    assert_eq!(number("STOP"), Some(libc::SIGSTOP));
    assert_eq!(number("CONT"), Some(libc::SIGCONT));
    assert_eq!(number("USR1"), Some(libc::SIGUSR1));
    assert_eq!(number("USR2"), Some(libc::SIGUSR2));
    assert_eq!(number("PIPE"), Some(libc::SIGPIPE));
    assert_eq!(number("ALRM"), Some(libc::SIGALRM));
    assert_eq!(number("ABRT"), Some(libc::SIGABRT));
    assert_eq!(number("CHLD"), Some(libc::SIGCHLD));
    assert_eq!(number("SIGSIGHUP"), None);
}

#[test]
fn wait_status_decoding() {
    assert_eq!(decode_wait_status(0).exit_code, Some(0));
    assert_eq!(decode_wait_status(0).signal, None);
    assert_eq!(decode_wait_status(3 << 8).exit_code, Some(3));
    assert_eq!(decode_wait_status(libc::SIGKILL).signal, Some(libc::SIGKILL));
    assert_eq!(decode_wait_status(libc::SIGKILL).exit_code, None);
    assert_eq!(decode_wait_status(0x7f).exit_code, None);
    assert_eq!(decode_wait_status(0x7f).signal, None);
}

#[test]
fn core_dumps_and_negative_statuses_are_decoded_by_their_low_bits() {
    assert_eq!(decode_wait_status(0x80 | libc::SIGSEGV).signal, Some(libc::SIGSEGV));
    assert_eq!(decode_wait_status(255 << 8).exit_code, Some(255));
    assert_eq!(decode_wait_status(-256).exit_code, Some(255));
}

#[test]
fn waiting_ends_with_what_is_known() {
    let unknown = ChildExit { exit_code: None, signal: None };
    assert_eq!(wait_for_child(Waited::NoProcess), Some(unknown));
    assert_eq!(wait_for_child(Waited::Again), None);
    assert_eq!(wait_for_child(Waited::Gone(None)), Some(unknown));
    assert_eq!(wait_for_child(Waited::Gone(Some((1, true)))), Some(unknown));
    assert_eq!(
        wait_for_child(Waited::Gone(Some((7, false)))),
        Some(ChildExit { exit_code: Some(7), signal: None })
    );
    assert_eq!(
        wait_for_child(Waited::Status(7 << 8)),
        Some(ChildExit { exit_code: Some(7), signal: None })
    );
}

#[test]
fn a_group_is_signalled_only_through_its_leader() {
    assert_eq!(kill_target(0, 0), None);
    assert_eq!(kill_target(42, 42), Some(-42));
    assert_eq!(kill_target(42, 7), Some(42));
    assert_eq!(kill_target(42, -1), Some(42));
}

#[test]
fn incarnation_ids_are_unique() {
    let mut counter = IncarnationCounter::new();
    let first = counter.new_incarnation_id(42, 1_700_000_000_000_000_000);
    let second = counter.new_incarnation_id(42, 1_700_000_000_000_000_000);
    assert_ne!(first, second);
    assert!(first.starts_with("u-"));
    assert_eq!(first, "u-42-1700000000000000000-1");
    assert_eq!(second, "u-42-1700000000000000000-2");
}

#[test]
fn numbers_are_those_of_the_platform() {
    let numbers = SignalNumbers {
        hup: 1,
        int: 2,
        quit: 3,
        kill: 9,
        term: 15,
        stop: 101,
        cont: 102,
        usr1: 103,
        usr2: 104,
        pipe: 105,
        alrm: 14,
        abrt: 106,
        chld: 107,
    };
    assert_eq!(number_on(&numbers, "SIGSTOP"), Some(101));
    assert_eq!(number_on(&numbers, "cont"), Some(102));
    assert_eq!(number_on(&numbers, "sigchld"), Some(107));
    assert_eq!(number_on(&numbers, "SIGBREAKFAST"), None);
    assert_eq!(number("SIGSTOP"), Some(libc::SIGSTOP));
    assert_eq!(number("SIGCONT"), Some(libc::SIGCONT));
    assert_eq!(number("SIGCHLD"), Some(libc::SIGCHLD));
}
