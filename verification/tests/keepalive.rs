//! Keeping the socket reachable.

use wand_render::socket_keepalive::{FileIdentity, Found, RecoveringListener, Upkeep};

const OWN: FileIdentity = FileIdentity { dev: 1, ino: 10 };
const OTHER: FileIdentity = FileIdentity { dev: 1, ino: 11 };

#[test]
fn rebind_preserves_accepted_streams_and_refuses_replacement_paths() {
    let mut listener = RecoveringListener::new(OWN, 5_000);
    for round in 0..2u64 {
        assert_eq!(listener.maintain(Found::Missing, 6_000), Upkeep::Rebind);
        listener.rebound(FileIdentity { dev: 1, ino: 20 + round }, 6_000);
    }
    assert_eq!(listener.maintain(Found::File(OTHER), 500_000), Upkeep::Nothing);
}

#[test]
fn the_path_is_looked_at_once_a_second() {
    let mut listener = RecoveringListener::new(OWN, 5_000);
    assert!(!listener.is_due(5_999));
    assert!(listener.is_due(6_000));
    assert!(!listener.is_due(6_999));
    assert!(!listener.is_due(0));
}

#[test]
fn the_time_of_the_socket_is_renewed_every_minute() {
    let mut listener = RecoveringListener::new(OWN, 0);
    assert_eq!(listener.maintain(Found::File(OWN), 59_999), Upkeep::Nothing);
    assert_eq!(listener.maintain(Found::File(OWN), 60_000), Upkeep::Touch);
    listener.touched(60_000);
    assert_eq!(listener.maintain(Found::File(OWN), 60_001), Upkeep::Nothing);
}

#[test]
fn a_failure_is_told_once_until_the_socket_is_back() {
    let mut listener = RecoveringListener::new(OWN, 0);
    assert_eq!(listener.maintain(Found::Unknown, 1), Upkeep::Fail);
    assert!(listener.failed());
    assert!(!listener.failed());
    listener.rebound(OTHER, 2);
    assert!(listener.failed());
}
