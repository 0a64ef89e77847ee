//! Signals by name.

use vstd::prelude::*;

use crate::text::{same, trim, trimmed};

verus! {

/// The signal that closes a terminal, for a request that names none: `SIGHUP`.
pub const DEFAULT: i32 = 1;

/// The signals that have a name here.
#[derive(Debug, Clone, Copy, PartialEq, Eq, Structural)]
pub enum Signal {
    Hup,
    Int,
    Quit,
    Kill,
    Term,
    Stop,
    Cont,
    Usr1,
    Usr2,
    Pipe,
    Alrm,
    Abrt,
    Chld,
}

/// The numbers of the signals on this platform.
#[derive(Debug, Clone, Copy, PartialEq, Eq, Structural)]
pub struct SignalNumbers {
    pub hup: i32,
    pub int: i32,
    pub quit: i32,
    pub kill: i32,
    pub term: i32,
    pub stop: i32,
    pub cont: i32,
    pub usr1: i32,
    pub usr2: i32,
    pub pipe: i32,
    pub alrm: i32,
    pub abrt: i32,
    pub chld: i32,
}

/// The constants `libc::SIGHUP` and so on. Six of them are the same on every platform that the
/// crate knows; the others differ and nothing is said of them.
#[verifier::external_body]
pub(crate) fn platform_signals() -> (numbers: SignalNumbers)
    ensures
        numbers.hup == 1,
        numbers.int == 2,
        numbers.quit == 3,
        numbers.kill == 9,
        numbers.alrm == 14,
        numbers.term == 15,
{
    SignalNumbers {
        hup: libc::SIGHUP, int: libc::SIGINT, quit: libc::SIGQUIT, kill: libc::SIGKILL,
        term: libc::SIGTERM, stop: libc::SIGSTOP, cont: libc::SIGCONT, usr1: libc::SIGUSR1,
        usr2: libc::SIGUSR2, pipe: libc::SIGPIPE, alrm: libc::SIGALRM, abrt: libc::SIGABRT,
        chld: libc::SIGCHLD,
    }
}

impl SignalNumbers {
    /// The number of a signal.
    pub open spec fn number(&self, signal: Signal) -> i32 {
        match signal {
            Signal::Hup => self.hup,
            Signal::Int => self.int,
            Signal::Quit => self.quit,
            Signal::Kill => self.kill,
            Signal::Term => self.term,
            Signal::Stop => self.stop,
            Signal::Cont => self.cont,
            Signal::Usr1 => self.usr1,
            Signal::Usr2 => self.usr2,
            Signal::Pipe => self.pipe,
            Signal::Alrm => self.alrm,
            Signal::Abrt => self.abrt,
            Signal::Chld => self.chld,
        }
    }

    /// The number of a signal.
    pub fn number_of(&self, signal: Signal) -> (number: i32)
        ensures
            number == self.number(signal),
    {
        match signal {
            Signal::Hup => self.hup,
            Signal::Int => self.int,
            Signal::Quit => self.quit,
            Signal::Kill => self.kill,
            Signal::Term => self.term,
            Signal::Stop => self.stop,
            Signal::Cont => self.cont,
            Signal::Usr1 => self.usr1,
            Signal::Usr2 => self.usr2,
            Signal::Pipe => self.pipe,
            Signal::Alrm => self.alrm,
            Signal::Abrt => self.abrt,
            Signal::Chld => self.chld,
        }
    }
}

/// Whether a number can be that of a signal: six of them have the same number everywhere.
pub open spec fn is_number_of(signal: Signal, number: i32) -> bool {
    match signal {
        Signal::Hup => number == 1,
        Signal::Int => number == 2,
        Signal::Quit => number == 3,
        Signal::Kill => number == 9,
        Signal::Alrm => number == 14,
        Signal::Term => number == 15,
        _ => true,
    }
}

/// A letter in upper case, where it is one of the twenty-six.
pub open spec fn upper(c: char) -> char {
    if 'a' <= c && c <= 'z' {
        (c as int - 32) as char
    } else {
        c
    }
}

/// The name of a signal without white space, in upper case and without `SIG`.
pub open spec fn signal_stem(name: Seq<char>) -> Seq<char> {
    let shout = trimmed(name).map_values(|c: char| upper(c));
    if shout.len() >= 3 && shout.take(3) == seq!['S', 'I', 'G'] {
        shout.skip(3)
    } else {
        shout
    }
}

/// The signal with this name.
pub open spec fn signal_named(name: Seq<char>) -> Option<Signal> {
    let stem = signal_stem(name);
    if stem == seq!['H', 'U', 'P'] {
        Some(Signal::Hup)
    } else if stem == seq!['I', 'N', 'T'] {
        Some(Signal::Int)
    } else if stem == seq!['Q', 'U', 'I', 'T'] {
        Some(Signal::Quit)
    } else if stem == seq!['K', 'I', 'L', 'L'] {
        Some(Signal::Kill)
    } else if stem == seq!['T', 'E', 'R', 'M'] {
        Some(Signal::Term)
    } else if stem == seq!['S', 'T', 'O', 'P'] {
        Some(Signal::Stop)
    } else if stem == seq!['C', 'O', 'N', 'T'] {
        Some(Signal::Cont)
    } else if stem == seq!['U', 'S', 'R', '1'] {
        Some(Signal::Usr1)
    } else if stem == seq!['U', 'S', 'R', '2'] {
        Some(Signal::Usr2)
    } else if stem == seq!['P', 'I', 'P', 'E'] {
        Some(Signal::Pipe)
    } else if stem == seq!['A', 'L', 'R', 'M'] {
        Some(Signal::Alrm)
    } else if stem == seq!['A', 'B', 'R', 'T'] {
        Some(Signal::Abrt)
    } else if stem == seq!['C', 'H', 'L', 'D'] {
        Some(Signal::Chld)
    } else {
        None
    }
}

fn upper_of(c: char) -> (shout: char)
    ensures
        shout == upper(c),
{
    if 'a' <= c && c <= 'z' {
        ((c as u8) - 32) as char
    } else {
        c
    }
}

/// The signal with this name. Case does not matter, nor does white space around the name, and
/// `SIG` may be left out.
pub fn parse(name: &str) -> (signal: Option<Signal>)
    ensures
        signal == signal_named(name@),
{
    let chars: Vec<char> = trim(name);
    let mut shout: Vec<char> = Vec::new();
    let mut index: usize = 0;
    while index < chars.len()
        invariant
            index <= chars@.len(),
            shout@ == chars@.take(index as int).map_values(|c: char| upper(c)),
        decreases chars@.len() - index,
    {
        shout.push(upper_of(chars[index]));
        assert(chars@.take(index + 1) == chars@.take(index as int).push(chars@[index as int]));
        index = index + 1;
    }
    assert(chars@.take(index as int) == chars@);
    let stem: Vec<char> = if shout.len() >= 3 && shout[0] == 'S' && shout[1] == 'I' && shout[2]
        == 'G' {
        assert(shout@.take(3) == seq!['S', 'I', 'G']);
        shout.split_off(3)
    } else {
        assert(shout@.len() >= 3 ==> shout@.take(3)[0] == shout@[0] && shout@.take(3)[1] == shout@[1]
            && shout@.take(3)[2] == shout@[2]);
        shout
    };
    assert(stem@ == signal_stem(name@));
    if same(stem.as_slice(), &['H', 'U', 'P']) {
        Some(Signal::Hup)
    } else if same(stem.as_slice(), &['I', 'N', 'T']) {
        Some(Signal::Int)
    } else if same(stem.as_slice(), &['Q', 'U', 'I', 'T']) {
        Some(Signal::Quit)
    } else if same(stem.as_slice(), &['K', 'I', 'L', 'L']) {
        Some(Signal::Kill)
    } else if same(stem.as_slice(), &['T', 'E', 'R', 'M']) {
        Some(Signal::Term)
    } else if same(stem.as_slice(), &['S', 'T', 'O', 'P']) {
        Some(Signal::Stop)
    } else if same(stem.as_slice(), &['C', 'O', 'N', 'T']) {
        Some(Signal::Cont)
    } else if same(stem.as_slice(), &['U', 'S', 'R', '1']) {
        Some(Signal::Usr1)
    } else if same(stem.as_slice(), &['U', 'S', 'R', '2']) {
        Some(Signal::Usr2)
    } else if same(stem.as_slice(), &['P', 'I', 'P', 'E']) {
        Some(Signal::Pipe)
    } else if same(stem.as_slice(), &['A', 'L', 'R', 'M']) {
        Some(Signal::Alrm)
    } else if same(stem.as_slice(), &['A', 'B', 'R', 'T']) {
        Some(Signal::Abrt)
    } else if same(stem.as_slice(), &['C', 'H', 'L', 'D']) {
        Some(Signal::Chld)
    } else {
        None
    }
}

/// The number of the signal with this name on a platform, or `None` for a name that is not known.
pub fn number_on(numbers: &SignalNumbers, name: &str) -> (signo: Option<i32>)
    ensures
        signo == (match signal_named(name@) {
            Some(signal) => Some(numbers.number(signal)),
            None => None,
        }),
{
    match parse(name) {
        Some(signal) => Some(numbers.number_of(signal)),
        None => None,
    }
}

/// The number of the signal with this name on this platform, or `None` for a name that is not
/// known.
pub fn number(name: &str) -> (signo: Option<i32>)
    ensures
        signo is Some <==> signal_named(name@) is Some,
        signo matches Some(number) ==> is_number_of(signal_named(name@).unwrap(), number),
{
    number_on(&platform_signals(), name)
}

} // verus!
