//! Tracking of the automatic wrap mode.
//!
//! The screen model does not keep DEC private mode 7 (automatic wrap), yet replaying text in a
//! terminal depends on it. The tracker reads it off the byte stream.

use vstd::prelude::*;

verus! {

/// The longest private mode sequence that is considered.
pub const MAX_SEQUENCE_BYTES: usize = 32;

/// The byte that starts a control sequence.
pub const ESC: u8 = 0x1b;

/// The byte between two parameters of a control sequence.
pub const SEMICOLON: u8 = 0x3b;

/// Whether `byte` may stand between `ESC [ ?` and the final byte.
pub open spec fn is_parameter_byte(byte: u8) -> bool {
    0x30 <= byte <= 0x39 || byte == SEMICOLON
}

/// The first position at or after `from` that holds no parameter byte.
pub open spec fn parameters_end(bytes: Seq<u8>, from: int) -> int
    decreases bytes.len() - from,
{
    if from < bytes.len() && is_parameter_byte(bytes[from]) {
        parameters_end(bytes, from + 1)
    } else {
        from
    }
}

/// Whether every separator among the parameters follows a digit.
pub open spec fn separators_follow_digits(parameters: Seq<u8>) -> bool {
    forall|i: int|
        0 <= i < parameters.len() && #[trigger] parameters[i] == SEMICOLON ==> i > 0
            && parameters[i - 1] != SEMICOLON
}

/// The number written by the digits that end before `end`.
pub open spec fn number_before(parameters: Seq<u8>, end: int) -> int
    decreases end,
{
    if end <= 0 || parameters[end - 1] == SEMICOLON {
        0
    } else {
        10 * number_before(parameters, end - 1) + (parameters[end - 1] - 0x30)
    }
}

/// Whether one of the parameters is the number of the automatic wrap mode.
pub open spec fn lists_autowrap(parameters: Seq<u8>) -> bool {
    exists|end: int|
        0 <= end <= parameters.len() && (end == parameters.len() || parameters[end] == SEMICOLON)
            && #[trigger] number_before(parameters, end) == 7
}

/// What stands at an escape byte.
pub enum DecSequence {
    /// A complete private mode sequence of `length` bytes.
    Mode { autowrap: bool, set: bool, length: nat },
    /// The beginning of one.
    Incomplete,
    /// Anything else.
    NotAMode,
}

/// Reads `ESC [ ? p1 ; p2 ... h|l` at the head of `bytes`, which starts with `ESC`.
pub open spec fn dec_sequence(bytes: Seq<u8>) -> DecSequence {
    let end = parameters_end(bytes, 3);
    let parameters = bytes.subrange(3, end);
    if bytes.len() < 2 {
        DecSequence::Incomplete
    } else if bytes[1] != 0x5b {
        DecSequence::NotAMode
    } else if bytes.len() < 3 {
        DecSequence::Incomplete
    } else if bytes[2] != 0x3f || !separators_follow_digits(parameters) {
        DecSequence::NotAMode
    } else if end == bytes.len() {
        if bytes.len() > MAX_SEQUENCE_BYTES {
            DecSequence::NotAMode
        } else {
            DecSequence::Incomplete
        }
    } else if (bytes[end] == 0x68 || bytes[end] == 0x6c) && parameters.len() > 0
        && parameters.last() != SEMICOLON && end < MAX_SEQUENCE_BYTES {
        DecSequence::Mode {
            autowrap: lists_autowrap(parameters),
            set: bytes[end] == 0x68,
            length: (end + 1) as nat,
        }
    } else {
        DecSequence::NotAMode
    }
}

/// The wrap mode after `data`, and the beginning of a sequence that `data` ends with.
pub open spec fn dec_scanned(autowrap: bool, data: Seq<u8>) -> (bool, Seq<u8>)
    decreases data.len(),
{
    if data.len() == 0 {
        (autowrap, data)
    } else if data[0] != ESC {
        dec_scanned(autowrap, data.skip(1))
    } else {
        match dec_sequence(data) {
            DecSequence::Mode { autowrap: listed, set, length } => if 0 < length <= data.len() {
                dec_scanned(
                    if listed {
                        set
                    } else {
                        autowrap
                    },
                    data.skip(length as int),
                )
            } else {
                (autowrap, data)
            },
            DecSequence::Incomplete => (autowrap, data),
            DecSequence::NotAMode => dec_scanned(autowrap, data.skip(1)),
        }
    }
}

proof fn lemma_parameters_end(bytes: Seq<u8>, from: int)
    requires
        0 <= from <= bytes.len(),
    ensures
        from <= parameters_end(bytes, from) <= bytes.len(),
        forall|i: int|
            from <= i < parameters_end(bytes, from) ==> is_parameter_byte(#[trigger] bytes[i]),
        parameters_end(bytes, from) < bytes.len() ==> !is_parameter_byte(
            bytes[parameters_end(bytes, from)],
        ),
    decreases bytes.len() - from,
{
    if from < bytes.len() && is_parameter_byte(bytes[from]) {
        lemma_parameters_end(bytes, from + 1);
    }
}

proof fn lemma_parameters_end_is(bytes: Seq<u8>, from: int, end: int)
    requires
        0 <= from <= end <= bytes.len(),
        forall|i: int| from <= i < end ==> is_parameter_byte(#[trigger] bytes[i]),
        end < bytes.len() ==> !is_parameter_byte(bytes[end]),
    ensures
        parameters_end(bytes, from) == end,
    decreases end - from,
{
    if from < end {
        lemma_parameters_end_is(bytes, from + 1, end);
    }
}

/// Where the stream is cut does not matter: scanning `first` and then, behind what is kept of
/// it, `second`, ends as scanning both at once does.
pub proof fn law_scanning_in_chunks(autowrap: bool, first: Seq<u8>, second: Seq<u8>)
    ensures
        dec_scanned(autowrap, first + second) == ({
            let (mode, kept) = dec_scanned(autowrap, first);
            dec_scanned(mode, kept + second)
        }),
    decreases first.len(),
{
    let whole = first + second;
    if first.len() == 0 {
        assert(whole == second);
        assert(first + second == second);
    } else if first[0] != ESC {
        assert(whole.skip(1) == first.skip(1) + second);
        law_scanning_in_chunks(autowrap, first.skip(1), second);
    } else {
        if first.len() >= 3 {
            lemma_parameters_end(first, 3);
        }
        match dec_sequence(first) {
            DecSequence::Mode { autowrap: listed, set, length } => {
                let end = parameters_end(first, 3);
                lemma_parameters_end_is(whole, 3, end);
                assert(whole.subrange(3, end) == first.subrange(3, end));
                assert(whole.skip(length as int) == first.skip(length as int) + second);
                let mode = if listed {
                    set
                } else {
                    autowrap
                };
                law_scanning_in_chunks(mode, first.skip(length as int), second);
            },
            DecSequence::Incomplete => {},
            DecSequence::NotAMode => {
                assert(dec_sequence(whole) is NotAMode) by {
                    if first[1] == 0x5b && first[2] == 0x3f {
                        let end = parameters_end(first, 3);
                        lemma_parameters_end(whole, 3);
                        let longer = parameters_end(whole, 3);
                        if end < first.len() {
                            lemma_parameters_end_is(whole, 3, end);
                            assert(whole.subrange(3, end) == first.subrange(3, end));
                        } else {
                            assert(longer >= end) by {
                                if longer < end {
                                    assert(is_parameter_byte(first[longer]));
                                }
                            }
                            if !separators_follow_digits(first.subrange(3, end)) {
                                let i = choose|i: int|
                                    0 <= i < end - 3 && #[trigger] first.subrange(3, end)[i]
                                        == SEMICOLON && !(i > 0 && first.subrange(3, end)[i - 1]
                                        != SEMICOLON);
                                assert(whole.subrange(3, longer)[i] == first.subrange(3, end)[i]);
                                assert(i > 0 ==> whole.subrange(3, longer)[i - 1] == first.subrange(
                                    3,
                                    end,
                                )[i - 1]);
                            }
                        }
                    }
                }
                assert(whole.skip(1) == first.skip(1) + second);
                law_scanning_in_chunks(autowrap, first.skip(1), second);
            },
        }
    }
}

/// What is kept for the next scan is short.
pub proof fn law_kept_beginning_is_short(autowrap: bool, data: Seq<u8>)
    ensures
        dec_scanned(autowrap, data).1.len() <= MAX_SEQUENCE_BYTES,
    decreases data.len(),
{
    if data.len() > 0 {
        if data[0] != ESC {
            law_kept_beginning_is_short(autowrap, data.skip(1));
        } else {
            if data.len() >= 3 {
                lemma_parameters_end(data, 3);
            }
            match dec_sequence(data) {
                DecSequence::Mode { autowrap: listed, set, length } => {
                    law_kept_beginning_is_short(
                        if listed {
                            set
                        } else {
                            autowrap
                        },
                        data.skip(length as int),
                    );
                },
                DecSequence::Incomplete => {},
                DecSequence::NotAMode => law_kept_beginning_is_short(autowrap, data.skip(1)),
            }
        }
    }
}

/// What stands at an escape byte, as found by `parse_dec_private_mode`.
enum DecScan {
    Mode { matches_mode_7: bool, final_byte: u8, consumed: usize },
    Incomplete,
    NotAMode,
}

/// Reads a private mode sequence at `data[start..]`.
fn parse_dec_private_mode(data: &[u8], start: usize) -> (scan: DecScan)
    requires
        start < data@.len(),
    ensures
        match (scan, dec_sequence(data@.skip(start as int))) {
            (
                DecScan::Mode { matches_mode_7, final_byte, consumed },
                DecSequence::Mode { autowrap, set, length },
            ) => matches_mode_7 == autowrap && (final_byte == 0x68) == set && consumed == length
                && 0 < consumed <= data@.len() - start && final_byte == data@[start + consumed - 1],
            (DecScan::Incomplete, DecSequence::Incomplete) => true,
            (DecScan::NotAMode, DecSequence::NotAMode) => true,
            _ => false,
        },
{
    let ghost bytes = data@.skip(start as int);
    let total: usize = data.len();
    let available: usize = total - start;
    if available < 2 {
        return DecScan::Incomplete;
    }
    if data[start + 1] != 0x5b {
        return DecScan::NotAMode;
    }
    if available < 3 {
        return DecScan::Incomplete;
    }
    if data[start + 2] != 0x3f {
        return DecScan::NotAMode;
    }
    let ghost end = parameters_end(bytes, 3);
    let ghost parameters = bytes.subrange(3, end);
    proof {
        lemma_parameters_end(bytes, 3);
    }
    let mut index: usize = 3;
    let mut mode: u32 = 0;
    let mut seen_digit = false;
    let mut matches_mode_7 = false;
    while index < available
        invariant
            bytes == data@.skip(start as int),
            total == data@.len(),
            available == total - start,
            3 <= index <= available,
            bytes[1] == 0x5b,
            bytes[2] == 0x3f,
            end == parameters_end(bytes, 3),
            index <= end <= available,
            parameters == bytes.subrange(3, end),
            forall|i: int| 3 <= i < end ==> is_parameter_byte(#[trigger] bytes[i]),
            end < available ==> !is_parameter_byte(bytes[end]),
            separators_follow_digits(parameters.take(index - 3)),
            seen_digit == (index > 3 && bytes[index - 1] != SEMICOLON),
            mode == (if number_before(parameters, index - 3) > u32::MAX {
                u32::MAX as int
            } else {
                number_before(parameters, index - 3)
            }),
            matches_mode_7 == exists|at: int|
                0 <= at < index - 3 && #[trigger] parameters[at] == SEMICOLON && number_before(
                    parameters,
                    at,
                ) == 7,
        decreases available - index,
    {
        let byte: u8 = data[start + index];
        assert(byte == bytes[index as int]);
        let ghost at = index - 3;
        if 0x30 <= byte && byte <= 0x39 {
            assert(index < end);
            assert(parameters[at] == byte);
            proof {
                lemma_number_is_natural(parameters, at);
                assert(parameters.take(at + 1) == parameters.take(at).push(byte));
            }
            seen_digit = true;
            let digit: u32 = (byte - 0x30) as u32;
            mode = match mode.checked_mul(10) {
                Some(tens) => tens.saturating_add(digit),
                None => u32::MAX,
            };
            index = index + 1;
        } else if byte == SEMICOLON {
            assert(index < end);
            assert(parameters[at] == byte);
            if !seen_digit {
                assert(!separators_follow_digits(parameters));
                return DecScan::NotAMode;
            }
            proof {
                assert(parameters.take(at + 1) == parameters.take(at).push(byte));
                assert(parameters[at - 1] == bytes[index - 1]);
                assert forall|i: int|
                    0 <= i < at + 1 && #[trigger] parameters.take(at + 1)[i] == SEMICOLON implies i > 0
                    && parameters.take(at + 1)[i - 1] != SEMICOLON by {
                    if i < at {
                        assert(parameters.take(at)[i] == SEMICOLON);
                    }
                }
            }
            matches_mode_7 = matches_mode_7 || mode == 7;
            mode = 0;
            seen_digit = false;
            index = index + 1;
        } else {
            assert(index == end);
            assert(parameters.take(at) == parameters);
            if (byte == 0x68 || byte == 0x6c) && seen_digit && index < MAX_SEQUENCE_BYTES {
                assert(parameters.last() == bytes[index - 1]);
                proof {
                    if mode == 7 {
                        assert(number_before(parameters, parameters.len() as int) == 7);
                    }
                    if lists_autowrap(parameters) {
                        let found = choose|found: int|
                            0 <= found <= parameters.len() && (found == parameters.len()
                                || parameters[found] == SEMICOLON) && #[trigger] number_before(
                                parameters,
                                found,
                            ) == 7;
                        assert(found < parameters.len() ==> parameters[found] == SEMICOLON);
                    }
                }
                return DecScan::Mode {
                    matches_mode_7: matches_mode_7 || mode == 7,
                    final_byte: byte,
                    consumed: index + 1,
                };
            }
            return DecScan::NotAMode;
        }
    }
    assert(index == end);
    assert(parameters.take(index - 3) == parameters);
    if available > MAX_SEQUENCE_BYTES {
        DecScan::NotAMode
    } else {
        DecScan::Incomplete
    }
}

proof fn lemma_number_is_natural(parameters: Seq<u8>, end: int)
    requires
        0 <= end <= parameters.len(),
        forall|i: int| 0 <= i < parameters.len() ==> is_parameter_byte(#[trigger] parameters[i]),
    ensures
        number_before(parameters, end) >= 0,
    decreases end,
{
    if end > 0 {
        lemma_number_is_natural(parameters, end - 1);
    }
}

/// Follows the automatic wrap mode through a stream of bytes.
#[derive(Debug)]
pub struct DecModeTracker {
    autowrap: bool,
    tail: Vec<u8>,
}

impl Default for DecModeTracker {
    fn default() -> (tracker: Self)
        ensures
            tracker.wraps(),
            tracker.tail() == Seq::<u8>::empty(),
    {
        Self::new()
    }
}

impl DecModeTracker {
    /// Whether text wraps automatically.
    pub closed spec fn wraps(&self) -> bool {
        self.autowrap
    }

    /// The beginning of a sequence that waits for its end.
    pub closed spec fn tail(&self) -> Seq<u8> {
        self.tail@
    }

    /// A terminal wraps text until it is told otherwise.
    pub fn new() -> (tracker: Self)
        ensures
            tracker.wraps(),
            tracker.tail() == Seq::<u8>::empty(),
    {
        DecModeTracker { autowrap: true, tail: Vec::new() }
    }

    pub fn autowrap(&self) -> (autowrap: bool)
        ensures
            autowrap == self.wraps(),
    {
        self.autowrap
    }

    /// Reads the next bytes of the stream.
    pub fn scan(&mut self, bytes: &[u8])
        ensures
            (final(self).wraps(), final(self).tail()) == dec_scanned(
                old(self).wraps(),
                old(self).tail() + bytes@,
            ),
    {
        let mut data: Vec<u8> = Vec::new();
        data.append(&mut self.tail);
        data.extend_from_slice(bytes);
        let ghost whole = old(self).tail() + bytes@;
        let ghost target = dec_scanned(self.autowrap, whole);
        assert(data@ == whole);
        assert(whole.skip(0) == whole);
        let mut index: usize = 0;
        while index < data.len()
            invariant
                whole == old(self).tail() + bytes@,
                target == dec_scanned(old(self).wraps(), whole),
                data@ == whole,
                index <= data@.len(),
                self.tail@.len() == 0,
                target == dec_scanned(self.autowrap, whole.skip(index as int)),
            decreases data@.len() - index,
        {
            let ghost rest = whole.skip(index as int);
            assert(rest.skip(1) == whole.skip(index + 1));
            if data[index] != ESC {
                index = index + 1;
            } else {
                match parse_dec_private_mode(data.as_slice(), index) {
                    DecScan::Mode { matches_mode_7, final_byte, consumed } => {
                        assert(rest.skip(consumed as int) == whole.skip(index + consumed));
                        if matches_mode_7 {
                            self.autowrap = final_byte == 0x68;
                        }
                        index = index + consumed;
                    },
                    DecScan::Incomplete => {
                        self.tail = data.split_off(index);
                        assert(self.tail@ == rest);
                        return ;
                    },
                    DecScan::NotAMode => {
                        index = index + 1;
                    },
                }
            }
        }
        assert(whole.skip(index as int) == Seq::<u8>::empty());
        assert(self.tail@ == Seq::<u8>::empty());
    }
}

} // verus!
