//! Who may talk to the daemon, and whose socket a path is.
//!
//! The socket lies in a directory that everybody can write to. So the daemon checks who is at the
//! other end before it reads anything, and never removes a path that is not its own.

use vstd::prelude::*;
use vstd::utf8::encode_utf8_decode_utf8;

use crate::text::{decimal, digit_char, write_decimal, write_number, written};

verus! {

/// Whether the bits of two numbers differ somewhere; a sum of such differences is zero only where
/// all of them are.
proof fn lemma_difference(sum: usize, left: u8, right: u8)
    ensures
        sum | ((left ^ right) as usize) == 0 <==> sum == 0 && left == right,
{
    assert(sum | ((left ^ right) as usize) == 0 <==> sum == 0 && left == right) by (bit_vector);
}

/// Compares two tokens in a time that does not depend on where they differ.
pub fn tokens_match(expected: &str, provided: &str) -> (same: bool)
    ensures
        same == (expected@ == provided@),
{
    let left = expected.as_bytes();
    let right = provided.as_bytes();
    let left_length: usize = left.len();
    let right_length: usize = right.len();
    let longest: usize = if left_length < right_length {
        right_length
    } else {
        left_length
    };
    let mut diff: usize = left_length ^ right_length;
    assert(left_length ^ right_length == 0 <==> left_length == right_length) by (bit_vector);
    let mut index: usize = 0;
    while index < longest
        invariant
            index <= longest,
            left_length == left@.len(),
            right_length == right@.len(),
            longest == (if left_length < right_length {
                right_length
            } else {
                left_length
            }),
            diff == 0 ==> left_length == right_length,
            diff == 0 ==> forall|i: int| 0 <= i < index ==> left@[i] == right@[i],
            left@ == right@ ==> diff == 0,
        decreases longest - index,
    {
        let a: u8 = if index < left_length {
            left[index]
        } else {
            0
        };
        let b: u8 = if index < right_length {
            right[index]
        } else {
            0
        };
        proof {
            lemma_difference(diff, a, b);
        }
        diff = diff | ((a ^ b) as usize);
        index = index + 1;
    }
    proof {
        encode_utf8_decode_utf8(expected@);
        encode_utf8_decode_utf8(provided@);
        if diff == 0 {
            assert(left@ == right@);
        }
    }
    diff == 0
}

/// The lower-case hexadecimal digits of bytes, two for each.
pub open spec fn hex(bytes: Seq<u8>) -> Seq<char>
    decreases bytes.len(),
{
    if bytes.len() == 0 {
        Seq::empty()
    } else {
        hex(bytes.drop_last()) + seq![
            digit_char((bytes.last() / 16) as int),
            digit_char((bytes.last() % 16) as int),
        ]
    }
}

/// The lower-case hexadecimal digits of bytes, two for each.
pub fn to_hex(bytes: &[u8]) -> (text: String)
    ensures
        text@ == hex(bytes@),
{
    let mut text = String::new();
    let mut index: usize = 0;
    assert(bytes@.take(0) == Seq::<u8>::empty());
    while index < bytes.len()
        invariant
            index <= bytes@.len(),
            text@ == hex(bytes@.take(index as int)),
        decreases bytes@.len() - index,
    {
        let byte: u8 = bytes[index];
        let ghost before = text@;
        let high = write_number((byte / 16) as u128, 16);
        let low = write_number((byte % 16) as u128, 16);
        text.append(high.as_str());
        text.append(low.as_str());
        proof {
            assert(bytes@.take(index + 1).drop_last() == bytes@.take(index as int));
            assert(text@ == before + seq![
                digit_char((byte / 16) as int),
                digit_char((byte % 16) as int),
            ]);
        }
        index = index + 1;
    }
    assert(bytes@.take(index as int) == bytes@);
    text
}

/// The token that clients must show: some random bytes, in hexadecimal.
pub fn generate_token(entropy: &[u8; 32]) -> (token: String)
    ensures
        token@ == hex(entropy@),
        token@.len() == 64,
{
    proof {
        lemma_hex_length(entropy@);
    }
    to_hex(entropy.as_slice())
}

/// The identifier of one launch of a structured run: some random bytes, in hexadecimal.
pub fn incarnation_id(entropy: &[u8; 16]) -> (id: String)
    ensures
        id@ == hex(entropy@),
        id@.len() == 32,
{
    proof {
        lemma_hex_length(entropy@);
    }
    to_hex(entropy.as_slice())
}

/// Two digits for each byte, and different bytes look different: no token is written twice for
/// different random bytes.
pub proof fn law_hex_is_faithful(bytes: Seq<u8>, other: Seq<u8>)
    ensures
        hex(bytes).len() == 2 * bytes.len(),
        hex(bytes) == hex(other) ==> bytes == other,
    decreases bytes.len(),
{
    if bytes.len() > 0 && other.len() > 0 {
        law_hex_is_faithful(bytes.drop_last(), other.drop_last());
        let text = hex(bytes);
        if hex(bytes) == hex(other) {
            let short = hex(bytes.drop_last());
            let short_other = hex(other.drop_last());
            lemma_hex_length(other.drop_last());
            assert(text.len() == short.len() + 2);
            assert(hex(other).len() == short_other.len() + 2);
            assert(text.take(text.len() - 2) == short);
            assert(hex(other).take(text.len() - 2) == short_other);
            assert(text[text.len() - 2] == digit_char((bytes.last() / 16) as int));
            assert(hex(other)[text.len() - 2] == digit_char((other.last() / 16) as int));
            assert(text[text.len() - 1] == digit_char((bytes.last() % 16) as int));
            assert(hex(other)[text.len() - 1] == digit_char((other.last() % 16) as int));
            lemma_digit_char_is_injective((bytes.last() / 16) as int, (other.last() / 16) as int);
            lemma_digit_char_is_injective((bytes.last() % 16) as int, (other.last() % 16) as int);
            assert(bytes.last() == other.last());
            assert(bytes == bytes.drop_last().push(bytes.last()));
            assert(other == other.drop_last().push(other.last()));
        }
    } else if bytes.len() > 0 {
        law_hex_is_faithful(bytes.drop_last(), Seq::empty());
        assert(hex(bytes).len() > 0);
        assert(hex(other).len() == 0);
    } else if other.len() > 0 {
        lemma_hex_length(other);
        assert(hex(bytes).len() == 0);
    } else {
        assert(bytes == other);
    }
}

pub proof fn lemma_hex_length(bytes: Seq<u8>)
    ensures
        hex(bytes).len() == 2 * bytes.len(),
    decreases bytes.len(),
{
    if bytes.len() > 0 {
        lemma_hex_length(bytes.drop_last());
    }
}

proof fn lemma_digit_char_is_injective(first: int, second: int)
    requires
        0 <= first < 16,
        0 <= second < 16,
        digit_char(first) == digit_char(second),
    ensures
        first == second,
{
}

/// Whether the other end of a connection is the same user.
pub fn check_peer_uid(peer: u32, expected: u32) -> (result: Result<(), String>)
    ensures
        peer == expected ==> result is Ok,
        peer != expected ==> (result matches Err(reason) && reason@ == "peer uid "@ + decimal(
            peer as nat,
        ) + " is not this process's uid "@ + decimal(expected as nat)),
{
    if peer == expected {
        return Ok(());
    }
    let mut reason = "peer uid ".to_owned();
    reason.append(write_decimal(peer as u128).as_str());
    reason.append(" is not this process's uid ");
    reason.append(write_decimal(expected as u128).as_str());
    Err(reason)
}

/// Whether a connection may be read from: the system must say who is at the other end, and that
/// must be the same user.
pub fn ensure_peer_uid(peer: Result<u32, String>, expected: u32) -> (result: Result<(), String>)
    ensures
        match peer {
            Err(reason) => result matches Err(text) && text@ == reason@,
            Ok(uid) => if uid == expected {
                result is Ok
            } else {
                result matches Err(reason) && reason@ == "peer uid "@ + decimal(uid as nat)
                    + " is not this process's uid "@ + decimal(expected as nat)
            },
        },
{
    match peer {
        Ok(uid) => check_peer_uid(uid, expected),
        Err(reason) => Err(reason),
    }
}

/// What kind of file a path is, without following a link.
#[derive(Debug, Clone, Copy, PartialEq, Eq, Structural)]
pub enum FileKind {
    Link,
    Socket,
    Other,
}

/// What the system says of a path.
pub enum PathFacts {
    Missing,
    /// It could not be inspected, for this reason.
    Unknown(String),
    Found { kind: FileKind, uid: u32, mode: u32 },
}

/// Whose socket a path is.
#[derive(Debug, PartialEq, Eq)]
pub enum ExistingSocket {
    /// There is nothing at the path.
    Absent,
    /// It is a private socket of this user.
    Owned,
    /// It is anything else, for this reason, and must not be touched.
    Foreign(String),
}

/// Why a path is not a private socket of a user, if it is not.
pub open spec fn foreign_reason(facts: PathFacts, own_uid: u32) -> Option<Seq<char>> {
    match facts {
        PathFacts::Missing => None,
        PathFacts::Unknown(error) => Some("it cannot be inspected: "@ + error@),
        PathFacts::Found { kind, uid, mode } => if kind == FileKind::Link {
            Some("it is a symbolic link, not a socket"@)
        } else if kind != FileKind::Socket {
            Some("it is not a unix socket"@)
        } else if uid != own_uid {
            Some(
                "it is owned by uid "@ + decimal(uid as nat) + ", not by this user ("@ + decimal(
                    own_uid as nat,
                ) + ")"@,
            )
        } else if mode % 512 != 384 {
            Some("its mode is "@ + written((mode % 512) as nat, 8) + ", expected 600"@)
        } else {
            None
        },
    }
}

/// Tells whose socket a path is. The permission bits of a private socket are `0600`.
pub fn inspect_socket_path(facts: &PathFacts, own_uid: u32) -> (existing: ExistingSocket)
    ensures
        match foreign_reason(*facts, own_uid) {
            Some(reason) => existing matches ExistingSocket::Foreign(text) && text@ == reason,
            None => if facts is Missing {
                existing is Absent
            } else {
                existing is Owned
            },
        },
{
    match facts {
        PathFacts::Missing => ExistingSocket::Absent,
        PathFacts::Unknown(error) => {
            let mut reason = "it cannot be inspected: ".to_owned();
            reason.append(error.as_str());
            ExistingSocket::Foreign(reason)
        },
        PathFacts::Found { kind, uid, mode } => {
            if *kind == FileKind::Link {
                return ExistingSocket::Foreign("it is a symbolic link, not a socket".to_owned());
            }
            if *kind != FileKind::Socket {
                return ExistingSocket::Foreign("it is not a unix socket".to_owned());
            }
            if *uid != own_uid {
                let mut reason = "it is owned by uid ".to_owned();
                reason.append(write_decimal(*uid as u128).as_str());
                reason.append(", not by this user (");
                reason.append(write_decimal(own_uid as u128).as_str());
                reason.append(")");
                return ExistingSocket::Foreign(reason);
            }
            let bits: u32 = *mode % 512;
            if bits != 384 {
                let mut reason = "its mode is ".to_owned();
                reason.append(write_number(bits as u128, 8).as_str());
                reason.append(", expected 600");
                return ExistingSocket::Foreign(reason);
            }
            ExistingSocket::Owned
        },
    }
}

} // verus!
