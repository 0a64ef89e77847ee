//! Keeping the socket of a daemon reachable when something cleans up the directory it lies in.
//! Connections that were accepted, and the processes of the daemon, do not depend on it.

use vstd::prelude::*;

verus! {

/// How long the path is left alone between two looks at it, in milliseconds.
pub const CHECK_INTERVAL_MS: u64 = 1_000;

/// How long the socket may go without its time being renewed, in milliseconds.
pub const TOUCH_INTERVAL_MS: u64 = 60_000;

/// What tells files apart: the device and the number on it.
#[derive(Debug, Clone, Copy, PartialEq, Eq, Structural)]
pub struct FileIdentity {
    pub dev: u64,
    pub ino: u64,
}

/// What a look at the path of the socket found.
#[derive(Debug, Clone, Copy, PartialEq, Eq, Structural)]
pub enum Found {
    File(FileIdentity),
    Missing,
    /// It could not be looked at.
    Unknown,
}

/// What is to be done about the socket.
#[derive(Debug, Clone, Copy, PartialEq, Eq, Structural)]
pub enum Upkeep {
    Nothing,
    /// Renew its time.
    Touch,
    /// Bind a new socket at the path.
    Rebind,
    /// Say that it cannot be looked at, unless that has been said.
    Fail,
}

/// What a listener knows of its socket.
#[derive(Debug, Clone, Copy, PartialEq, Eq, Structural)]
pub struct RecoveringListener {
    pub identity: FileIdentity,
    /// When the path was looked at last.
    pub checked_ms: u64,
    /// When the time of the socket was renewed last.
    pub touched_ms: u64,
    /// Whether a failure has been told.
    pub warned: bool,
}

/// Whether a span of time has passed since a moment.
pub open spec fn has_passed(since: u64, now: u64, span: u64) -> bool {
    now >= since + span
}

impl RecoveringListener {
    /// A listener whose socket has just been bound.
    pub fn new(identity: FileIdentity, now_ms: u64) -> (listener: Self)
        ensures
            listener == (RecoveringListener {
                identity,
                checked_ms: now_ms,
                touched_ms: now_ms,
                warned: false,
            }),
    {
        RecoveringListener { identity, checked_ms: now_ms, touched_ms: now_ms, warned: false }
    }

    /// Whether it is time to look at the path. If it is, this counts as having looked.
    pub fn is_due(&mut self, now_ms: u64) -> (due: bool)
        ensures
            due == has_passed(old(self).checked_ms, now_ms, CHECK_INTERVAL_MS),
            due <==> old(self).checked_ms + 1_000 <= now_ms,
            *final(self) == (RecoveringListener {
                checked_ms: if due {
                    now_ms
                } else {
                    old(self).checked_ms
                },
                ..*old(self)
            }),
    {
        let due = now_ms.saturating_sub(self.checked_ms) >= CHECK_INTERVAL_MS;
        if due {
            self.checked_ms = now_ms;
        }
        due
    }

    /// What is to be done about what was found. A file that took the place of the socket is left
    /// alone; a new socket is bound only where nothing is.
    pub fn maintain(&self, found: Found, now_ms: u64) -> (upkeep: Upkeep)
        ensures
            upkeep == (match found {
                Found::File(identity) => if identity == self.identity && has_passed(
                    self.touched_ms,
                    now_ms,
                    TOUCH_INTERVAL_MS,
                ) {
                    Upkeep::Touch
                } else {
                    Upkeep::Nothing
                },
                Found::Missing => Upkeep::Rebind,
                Found::Unknown => Upkeep::Fail,
            }),
            upkeep == Upkeep::Touch <==> found == Found::File(self.identity) && self.touched_ms
                + 60_000 <= now_ms,
            upkeep == Upkeep::Rebind <==> found == Found::Missing,
            upkeep == Upkeep::Fail <==> found == Found::Unknown,
    {
        match found {
            Found::File(identity) => if identity == self.identity && now_ms.saturating_sub(
                self.touched_ms,
            ) >= TOUCH_INTERVAL_MS {
                Upkeep::Touch
            } else {
                Upkeep::Nothing
            },
            Found::Missing => Upkeep::Rebind,
            Found::Unknown => Upkeep::Fail,
        }
    }

    /// Takes in that the time of the socket was renewed.
    pub fn touched(&mut self, now_ms: u64)
        ensures
            *final(self) == (RecoveringListener { touched_ms: now_ms, ..*old(self) }),
    {
        self.touched_ms = now_ms;
    }

    /// Takes in that a new socket was bound. A later failure will be told again.
    pub fn rebound(&mut self, identity: FileIdentity, now_ms: u64)
        ensures
            *final(self) == (RecoveringListener {
                identity,
                touched_ms: now_ms,
                warned: false,
                ..*old(self)
            }),
    {
        self.identity = identity;
        self.touched_ms = now_ms;
        self.warned = false;
    }

    /// Takes in that something failed. Returns whether it must be told: only the first time.
    pub fn failed(&mut self) -> (tell: bool)
        ensures
            tell == !old(self).warned,
            *final(self) == (RecoveringListener { warned: true, ..*old(self) }),
    {
        let tell = !self.warned;
        self.warned = true;
        tell
    }
}

} // verus!
