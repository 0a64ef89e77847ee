//! What is promised of texts: of what is shown, of what is tracked and of what is written, said
//! without the functions that the library works it out with.

use vstd::prelude::*;
use vstd::utf8::{encode_scalar, encode_utf8, is_ascii_chars, is_ascii_chars_encode_utf8};

use crate::marker::{
    held_back, law_shown_text_accumulates, law_the_marker_is_found_however_cut, marker_prefix,
    strip, stripped_through, with_marker,
};
use crate::modes::{
    dec_scanned, dec_sequence, is_parameter_byte, law_scanning_in_chunks, lists_autowrap,
    number_before, parameters_end, separators_follow_digits, DecSequence,
};
use crate::preview::{
    escape_state, json_char_length, json_length, json_operation_length, json_operations_length,
    json_text_length, EscapeState,
};
use crate::protocol::{Operation, ScreenImage};
use crate::security::hex;
use crate::session::{all_text, shown};
use crate::text::{
    decimal, digit_char, find_from, is_digit, is_space, lemma_decimal_has_digits,
    lemma_decimal_value, lemma_encode_concat, lemma_find_from, occurs_at, parsed_unsigned, trimmed,
    trimmed_end, trimmed_start,
};
use crate::time::{
    date_of, day_number, is_date, iso_text, law_days_have_one_number, padded, zero_filled, Date,
};
use crate::utf8::{
    decoded, decoded_lossily, law_chunking_is_invisible, law_encoded_text_decodes_to_itself,
    undecoded,
};

verus! {

/// What a session shows of its output is all of it but the exit marker of its launch: the marker is
/// never shown, all around it is, and it does not matter how the output was cut into chunks.
pub proof fn law_exit_marker_is_never_shown(
    token: Seq<char>,
    before: Seq<char>,
    status: Seq<char>,
    after: Seq<char>,
    chunks: Seq<Seq<char>>,
)
    requires
        token.len() > 0,
        1 <= status.len() <= 3,
        forall|i: int| 0 <= i < status.len() ==> '0' <= #[trigger] status[i] && status[i] <= '9',
        ({
            let start = "\u{1e}WAND_CLI_EXIT:"@ + token + seq![':'];
            let whole = before + start + status + seq!['\u{1f}'] + after;
            &&& chunks.flatten() == whole
            &&& forall|i: int|
                0 <= i < before.len() ==> #[trigger] whole.subrange(i, i + start.len()) != start
        }),
    ensures
        shown(Some(token), chunks) == before + after,
{
    let prefix = marker_prefix(token);
    let start = "\u{1e}WAND_CLI_EXIT:"@ + token + seq![':'];
    let whole = before + start + status + seq!['\u{1f}'] + after;
    assert(prefix == start);
    assert(with_marker(prefix, before, status, after) == whole);
    lemma_find_from(whole, prefix, 0);
    assert(whole.subrange(before.len() as int, (before.len() + prefix.len()) as int) == prefix);
    assert(occurs_at(whole, prefix, before.len() as int));
    if let Some(at) = find_from(whole, prefix, 0) {
        if at < before.len() {
            assert(whole.subrange(at, at + start.len()) == start);
        } else if at > before.len() {
            assert(!occurs_at(whole, prefix, before.len() as int));
        }
    } else {
        assert(!occurs_at(whole, prefix, before.len() as int));
    }
    law_the_marker_is_found_however_cut(prefix, before, status, after, chunks);
    law_shown_text_accumulates(prefix, chunks);
}

/// Output without the character that every exit marker starts with is shown at once, all of it.
pub proof fn law_text_without_a_marker_is_shown_at_once(token: Seq<char>, chunks: Seq<Seq<char>>)
    requires
        forall|i: int, j: int|
            0 <= i < chunks.len() && 0 <= j < chunks[i].len() ==> #[trigger] chunks[i][j]
                != '\u{1e}',
    ensures
        shown(Some(token), chunks) == all_text(chunks),
        shown(None, chunks) == all_text(chunks),
    decreases chunks.len(),
{
    if token.len() > 0 {
        lemma_plain_chunks(token, chunks);
    }
}

proof fn lemma_plain_chunks(token: Seq<char>, chunks: Seq<Seq<char>>)
    requires
        forall|i: int, j: int|
            0 <= i < chunks.len() && 0 <= j < chunks[i].len() ==> #[trigger] chunks[i][j]
                != '\u{1e}',
    ensures
        ({
            let through = stripped_through(marker_prefix(token), chunks);
            &&& through.visible == all_text(chunks)
            &&& through.pending.len() == 0
            &&& !through.completed
        }),
    decreases chunks.len(),
{
    if chunks.len() > 0 {
        let shorter = chunks.drop_last();
        assert forall|i: int, j: int|
            0 <= i < shorter.len() && 0 <= j < shorter[i].len() implies #[trigger] shorter[i][j]
            != '\u{1e}' by {
            assert(chunks[i][j] != '\u{1e}');
        }
        lemma_plain_chunks(token, shorter);
        let last = chunks.last();
        let before = stripped_through(marker_prefix(token), shorter);
        assert(before.pending + last == last);
        assert forall|j: int| 0 <= j < last.len() implies #[trigger] last[j] != '\u{1e}' by {
            assert(chunks[chunks.len() - 1][j] != '\u{1e}');
        }
        lemma_plain_text(token, last);
    }
}

proof fn lemma_plain_text(token: Seq<char>, text: Seq<char>)
    requires
        forall|j: int| 0 <= j < text.len() ==> #[trigger] text[j] != '\u{1e}',
    ensures
        strip(marker_prefix(token), text).visible == text,
        strip(marker_prefix(token), text).pending.len() == 0,
        !strip(marker_prefix(token), text).completed,
{
    let prefix = marker_prefix(token);
    reveal_strlit("\u{1e}WAND_CLI_EXIT:");
    assert(prefix[0] == '\u{1e}');
    lemma_find_from(text, prefix, 0);
    if let Some(at) = find_from(text, prefix, 0) {
        assert(text.subrange(at, at + prefix.len())[0] == text[at]);
    }
    lemma_no_overlap(
        text,
        prefix,
        if text.len() < prefix.len() - 1 {
            text.len() as int
        } else {
            prefix.len() - 1
        },
    );
    assert(held_back(text, prefix) == 0);
    assert(text.take(text.len() as int) == text);
}

proof fn lemma_no_overlap(text: Seq<char>, prefix: Seq<char>, limit: int)
    requires
        limit <= text.len(),
        limit <= prefix.len(),
        prefix.len() > 0,
        prefix[0] == '\u{1e}',
        forall|j: int| 0 <= j < text.len() ==> #[trigger] text[j] != '\u{1e}',
    ensures
        crate::marker::longest_overlap(text, prefix, limit) == 0,
    decreases limit,
{
    if limit > 0 {
        if crate::marker::ends_with_start_of(text, prefix, limit) {
            assert(text.skip(text.len() - limit)[0] == prefix.take(limit)[0]);
        }
        lemma_no_overlap(text, prefix, limit - 1);
    }
}

/// The wrap mode is what was set last: `ESC [ ? 7 h` turns it on and `ESC [ ? 7 l` turns it off,
/// whatever came before, and bytes without an `ESC` change nothing.
pub proof fn law_wrap_mode_is_what_was_set_last(autowrap: bool, before: Seq<u8>, plain: Seq<u8>)
    requires
        dec_scanned(autowrap, before).1.len() == 0,
        forall|i: int| 0 <= i < plain.len() ==> #[trigger] plain[i] != 0x1b,
    ensures
        dec_scanned(autowrap, before + seq![0x1bu8, 0x5bu8, 0x3fu8, 0x37u8, 0x68u8]) == (
            true,
            Seq::<u8>::empty(),
        ),
        dec_scanned(autowrap, before + seq![0x1bu8, 0x5bu8, 0x3fu8, 0x37u8, 0x6cu8]) == (
            false,
            Seq::<u8>::empty(),
        ),
        dec_scanned(autowrap, before + plain) == (
            dec_scanned(autowrap, before).0,
            Seq::<u8>::empty(),
        ),
{
    let on = seq![0x1bu8, 0x5bu8, 0x3fu8, 0x37u8, 0x68u8];
    let off = seq![0x1bu8, 0x5bu8, 0x3fu8, 0x37u8, 0x6cu8];
    let (mode, kept) = dec_scanned(autowrap, before);
    law_scanning_in_chunks(autowrap, before, on);
    law_scanning_in_chunks(autowrap, before, off);
    law_scanning_in_chunks(autowrap, before, plain);
    assert(kept + on == on);
    assert(kept + off == off);
    assert(kept + plain == plain);
    lemma_switch(mode, on);
    lemma_switch(mode, off);
    lemma_plain_bytes(mode, plain);
}

proof fn lemma_switch(mode: bool, switch: Seq<u8>)
    requires
        switch.len() == 5,
        switch[0] == 0x1b,
        switch[1] == 0x5b,
        switch[2] == 0x3f,
        switch[3] == 0x37,
        switch[4] == 0x68 || switch[4] == 0x6c,
    ensures
        dec_scanned(mode, switch) == (switch[4] == 0x68, Seq::<u8>::empty()),
{
    reveal_with_fuel(parameters_end, 3);
    reveal_with_fuel(number_before, 3);
    let parameters = switch.subrange(3, 4);
    assert(parameters_end(switch, 3) == 4);
    assert(parameters.len() == 1 && parameters[0] == 0x37);
    assert(number_before(parameters, 1) == 7);
    assert(lists_autowrap(parameters));
    assert(dec_sequence(switch) == DecSequence::Mode {
        autowrap: true,
        set: switch[4] == 0x68,
        length: 5,
    });
    assert(switch.skip(5) == Seq::<u8>::empty());
    reveal_with_fuel(dec_scanned, 2);
}

proof fn lemma_plain_bytes(mode: bool, plain: Seq<u8>)
    requires
        forall|i: int| 0 <= i < plain.len() ==> #[trigger] plain[i] != 0x1b,
    ensures
        dec_scanned(mode, plain) == (mode, Seq::<u8>::empty()),
    decreases plain.len(),
{
    if plain.len() > 0 {
        lemma_plain_bytes(mode, plain.skip(1));
    } else {
        assert(plain == Seq::<u8>::empty());
    }
}

/// The two digits of a number below a hundred.
pub open spec fn two_digits(number: int) -> Seq<char> {
    seq![(48 + number / 10) as char, (48 + number % 10) as char]
}

/// A year in four characters, the sign of a negative one among them, and more only where it takes
/// more.
pub open spec fn year_text(year: int) -> Seq<char> {
    if year < -999 {
        "-"@ + decimal((-year) as nat)
    } else if year < 0 {
        "-"@ + seq![(48 + (-year) / 100) as char] + two_digits((-year) % 100)
    } else if year <= 9_999 {
        two_digits(year / 100) + two_digits(year % 100)
    } else {
        decimal(year as nat)
    }
}

proof fn lemma_digits(number: nat)
    ensures
        number < 10 ==> decimal(number) == seq![(48 + number) as char],
        10 <= number < 100 ==> decimal(number) == two_digits(number as int),
        100 <= number < 1_000 ==> decimal(number) == seq![(48 + number / 100) as char]
            + two_digits((number % 100) as int),
        1_000 <= number < 10_000 ==> decimal(number) == two_digits((number / 100) as int)
            + two_digits((number % 100) as int),
        number >= 1_000 ==> decimal(number).len() >= 4,
    decreases number,
{
    if number >= 10 {
        let shorter = number / 10;
        lemma_digits(shorter);
        assert(decimal(number) == decimal(shorter).push((48 + number % 10) as char));
        if number < 100 {
        } else if number < 1_000 {
            assert(shorter / 10 == number / 100);
            assert(shorter % 10 == number % 100 / 10);
        } else if number < 10_000 {
            assert(shorter / 100 == number / 1_000);
            assert(shorter % 100 / 10 == number / 100 % 10);
            assert(shorter % 10 == number % 100 / 10);
            assert(number / 100 / 10 == number / 1_000);
        }
    }
}

proof fn lemma_year_text(year: int)
    ensures
        padded(year, 4) == year_text(year),
{
    let size = if year < 0 {
        (-year) as nat
    } else {
        year as nat
    };
    lemma_digits(size);
    if size < 10 {
        assert(size / 100 == 0 && size % 100 == size && size / 10 == 0 && size % 10 == size);
    } else if size < 100 {
        assert(size / 100 == 0 && size % 100 == size);
    }
    if year < 0 && size < 1_000 {
        assert(zero_filled(size, 3) == seq![(48 + size / 100) as char] + two_digits(
            (size % 100) as int,
        ));
        assert(padded(year, 4) == year_text(year));
    } else if 0 <= year <= 9_999 {
        assert(zero_filled(size, 4) == two_digits(year / 100) + two_digits(year % 100));
    }
}

/// A moment is written as its year, month, day, hour, minute and second, the last five with two
/// digits each: `YYYY-MM-DDTHH:MM:SSZ`. It is counted in seconds: 86400 for each day since the
/// first of January 1970, 3600 for each hour, 60 for each minute.
pub proof fn law_moments_are_written_by_the_calendar(
    date: Date,
    hour: int,
    minute: int,
    second: int,
)
    requires
        is_date(date),
        0 <= hour < 24,
        0 <= minute < 60,
        0 <= second < 60,
    ensures
        iso_text(day_number(date) * 86_400 + hour * 3_600 + minute * 60 + second) == year_text(
            date.year,
        ) + "-"@ + two_digits(date.month) + "-"@ + two_digits(date.day) + "T"@ + two_digits(hour)
            + ":"@ + two_digits(minute) + ":"@ + two_digits(second) + "Z"@,
{
    let moment = day_number(date) * 86_400 + hour * 3_600 + minute * 60 + second;
    let day_second = hour * 3_600 + minute * 60 + second;
    assert(moment / 86_400 == day_number(date) && moment % 86_400 == day_second);
    let found = date_of(day_number(date));
    assert(is_date(found) && day_number(found) == day_number(date));
    law_days_have_one_number(found, date);
    assert(day_second / 3_600 == hour);
    assert(day_second % 3_600 / 60 == minute);
    assert(day_second % 60 == second);
    lemma_two_digits(date.month);
    lemma_two_digits(date.day);
    lemma_two_digits(hour);
    lemma_two_digits(minute);
    lemma_two_digits(second);
    lemma_year_text(date.year);
}

proof fn lemma_two_digits(number: int)
    requires
        0 <= number < 100,
    ensures
        padded(number, 2) == two_digits(number),
{
    reveal_with_fuel(crate::text::written, 3);
    assert(zero_filled(number as nat, 2) == two_digits(number));
}

/// White space around a text is dropped, all of it, and nothing else.
pub proof fn law_trimming_drops_the_space_around(
    before: Seq<char>,
    core: Seq<char>,
    after: Seq<char>,
)
    requires
        forall|i: int| 0 <= i < before.len() ==> is_space(#[trigger] before[i]),
        forall|i: int| 0 <= i < after.len() ==> is_space(#[trigger] after[i]),
        core.len() > 0 ==> !is_space(core[0]) && !is_space(core.last()),
    ensures
        trimmed(before + core + after) == core,
        is_space(' ') && is_space('\t') && is_space('\n') && is_space('\r'),
{
    lemma_trim_start(before, core + after);
    assert(before + (core + after) == before + core + after);
    if core.len() > 0 {
        assert((core + after)[0] == core[0]);
        assert(trimmed_start(core + after) == core + after);
        lemma_trim_end(core, after);
        assert(trimmed_end(core) == core);
    } else {
        assert(core + after == after);
        lemma_trim_start(after, Seq::empty());
        assert(after + Seq::<char>::empty() == after);
        assert(trimmed_start(Seq::<char>::empty()) == Seq::<char>::empty());
    }
}

proof fn lemma_trim_start(space: Seq<char>, rest: Seq<char>)
    requires
        forall|i: int| 0 <= i < space.len() ==> is_space(#[trigger] space[i]),
    ensures
        trimmed_start(space + rest) == trimmed_start(rest),
    decreases space.len(),
{
    if space.len() > 0 {
        assert((space + rest).drop_first() == space.drop_first() + rest);
        assert((space + rest)[0] == space[0]);
        lemma_trim_start(space.drop_first(), rest);
    } else {
        assert(space + rest == rest);
    }
}

proof fn lemma_trim_end(rest: Seq<char>, space: Seq<char>)
    requires
        forall|i: int| 0 <= i < space.len() ==> is_space(#[trigger] space[i]),
    ensures
        trimmed_end(rest + space) == trimmed_end(rest),
    decreases space.len(),
{
    if space.len() > 0 {
        assert((rest + space).drop_last() == rest + space.drop_last());
        assert((rest + space).last() == space.last());
        lemma_trim_end(rest, space.drop_last());
    } else {
        assert(rest + space == rest);
    }
}

/// Each byte is written as two characters out of `0123456789abcdef`, the high half first.
pub proof fn law_hex_digits_are_the_bytes(bytes: Seq<u8>, at: int)
    requires
        0 <= at < bytes.len(),
    ensures
        ({
            let digits = "0123456789abcdef"@;
            &&& hex(bytes).len() == 2 * bytes.len()
            &&& hex(bytes)[2 * at] == digits[bytes[at] as int / 16]
            &&& hex(bytes)[2 * at + 1] == digits[bytes[at] as int % 16]
        }),
    decreases bytes.len(),
{
    reveal_strlit("0123456789abcdef");
    crate::security::lemma_hex_length(bytes.drop_last());
    if at < bytes.len() - 1 {
        law_hex_digits_are_the_bytes(bytes.drop_last(), at);
    }
    lemma_digit_char(bytes[at] as int / 16);
    lemma_digit_char(bytes[at] as int % 16);
}

proof fn lemma_digit_char(digit: int)
    requires
        0 <= digit < 16,
    ensures
        digit_char(digit) == "0123456789abcdef"@[digit],
{
    reveal_strlit("0123456789abcdef");
    assert(digit == 0 || digit == 1 || digit == 2 || digit == 3 || digit == 4 || digit == 5 || digit
        == 6 || digit == 7 || digit == 8 || digit == 9 || digit == 10 || digit == 11 || digit == 12
        || digit == 13 || digit == 14 || digit == 15);
}

/// A character within a JSON string.
pub open spec fn json_char(c: char) -> Seq<char> {
    if c == '"' {
        seq!['\\', '"']
    } else if c == '\\' {
        seq!['\\', '\\']
    } else if c == '\u{8}' {
        seq!['\\', 'b']
    } else if c == '\u{9}' {
        seq!['\\', 't']
    } else if c == '\u{a}' {
        seq!['\\', 'n']
    } else if c == '\u{c}' {
        seq!['\\', 'f']
    } else if c == '\u{d}' {
        seq!['\\', 'r']
    } else if ' ' > c {
        seq!['\\', 'u', '0', '0', digit_char(c as int / 16), digit_char(c as int % 16)]
    } else {
        seq![c]
    }
}

/// A text within a JSON string.
pub open spec fn json_string(text: Seq<char>) -> Seq<char>
    decreases text.len(),
{
    if text.len() == 0 {
        Seq::empty()
    } else {
        json_string(text.drop_last()) + json_char(text.last())
    }
}

/// A pending operation in JSON.
pub open spec fn json_operation(operation: Operation) -> Seq<char> {
    match operation {
        Operation::Data { data } => "{\"type\":\"data\",\"data\":\""@ + json_string(data)
            + "\"}"@,
        Operation::Resize { cols, rows } => "{\"type\":\"resize\",\"cols\":"@ + decimal(
            cols as nat,
        ) + ",\"rows\":"@ + decimal(rows as nat) + "}"@,
    }
}

/// Pending operations in JSON, with commas between them.
pub open spec fn json_operations(pending: Seq<Operation>) -> Seq<char>
    decreases pending.len(),
{
    if pending.len() == 0 {
        Seq::empty()
    } else if pending.len() == 1 {
        json_operation(pending[0])
    } else {
        json_operations(pending.drop_last()) + ","@ + json_operation(pending.last())
    }
}

/// A snapshot in JSON.
pub open spec fn json_snapshot(image: ScreenImage) -> Seq<char> {
    "{\"version\":"@ + decimal(image.version as nat) + ",\"data\":\""@ + json_string(image.data)
        + "\",\"cols\":"@ + decimal(image.cols as nat) + ",\"rows\":"@ + decimal(image.rows as nat)
        + ",\"pending\":["@ + json_operations(image.pending) + "]}"@
}

/// The number of bytes of a text.
pub open spec fn size(text: Seq<char>) -> int {
    encode_utf8(text).len() as int
}

proof fn lemma_size_concat(first: Seq<char>, second: Seq<char>)
    ensures
        size(first + second) == size(first) + size(second),
{
    lemma_encode_concat(first, second);
}

proof fn lemma_size_ascii(text: Seq<char>)
    requires
        is_ascii_chars(text),
    ensures
        size(text) == text.len(),
{
    is_ascii_chars_encode_utf8(text);
}

proof fn lemma_size_decimal(number: nat)
    ensures
        size(decimal(number)) == decimal(number).len(),
{
    lemma_decimal_has_digits(number);
    let digits = decimal(number);
    assert forall|i: int| 0 <= i < digits.len() implies '\0' <= #[trigger] digits[i]
        <= '\u{7f}' by {
        assert(crate::text::is_digit(digits[i]));
    }
    lemma_size_ascii(digits);
}

proof fn lemma_size_string(text: Seq<char>)
    ensures
        size(json_string(text)) == json_text_length(text),
    decreases text.len(),
{
    if text.len() > 0 {
        lemma_size_string(text.drop_last());
        lemma_size_concat(json_string(text.drop_last()), json_char(text.last()));
        lemma_size_char(text.last());
    }
}

proof fn lemma_size_char(c: char)
    ensures
        size(json_char(c)) == json_char_length(c),
{
    let text = json_char(c);
    if c == '"' || c == '\\' || c == '\u{8}' || c == '\u{9}' || c == '\u{a}' || c == '\u{c}' || c
        == '\u{d}' || ' ' > c {
        lemma_size_ascii(text);
    } else {
        assert(text == seq![c]);
        assert(text.drop_first() == Seq::<char>::empty());
        assert(encode_utf8(text.drop_first()) == Seq::<u8>::empty());
        assert(encode_utf8(text) == encode_scalar(c as u32) + Seq::<u8>::empty());
    }
}

proof fn lemma_size_operation(operation: Operation)
    ensures
        size(json_operation(operation)) == json_operation_length(operation),
{
    match operation {
        Operation::Data { data } => {
            reveal_strlit("{\"type\":\"data\",\"data\":\"");
            reveal_strlit("\"}");
            let head = "{\"type\":\"data\",\"data\":\""@;
            lemma_size_ascii(head);
            lemma_size_ascii("\"}"@);
            lemma_size_string(data);
            lemma_size_concat(head, json_string(data));
            lemma_size_concat(head + json_string(data), "\"}"@);
        },
        Operation::Resize { cols, rows } => {
            reveal_strlit("{\"type\":\"resize\",\"cols\":");
            reveal_strlit(",\"rows\":");
            reveal_strlit("}");
            let head = "{\"type\":\"resize\",\"cols\":"@;
            let middle = ",\"rows\":"@;
            lemma_size_ascii(head);
            lemma_size_ascii(middle);
            lemma_size_ascii("}"@);
            lemma_size_decimal(cols as nat);
            lemma_size_decimal(rows as nat);
            let first = head + decimal(cols as nat);
            lemma_size_concat(head, decimal(cols as nat));
            lemma_size_concat(first, middle);
            lemma_size_concat(first + middle, decimal(rows as nat));
            lemma_size_concat(first + middle + decimal(rows as nat), "}"@);
        },
    }
}

proof fn lemma_size_operations(pending: Seq<Operation>)
    ensures
        size(json_operations(pending)) == json_operations_length(pending) - (if pending.len() > 0 {
            1int
        } else {
            0int
        }),
    decreases pending.len(),
{
    if pending.len() == 1 {
        lemma_size_operation(pending[0]);
        assert(pending.drop_last() == Seq::<Operation>::empty());
        assert(json_operations_length(pending.drop_last()) == 0);
    } else if pending.len() > 1 {
        let before = json_operations(pending.drop_last());
        lemma_size_operations(pending.drop_last());
        lemma_size_operation(pending.last());
        reveal_strlit(",");
        lemma_size_ascii(","@);
        lemma_size_concat(before, ","@);
        lemma_size_concat(before + ","@, json_operation(pending.last()));
    }
}

/// The size of a snapshot, by which a listing cuts it, is the number of bytes that it takes in JSON:
/// an object with its version, its data, its columns, its rows and its pending operations.
pub proof fn law_snapshot_size_is_that_of_its_json(image: ScreenImage)
    ensures
        json_length(image) == encode_utf8(json_snapshot(image)).len(),
{
    reveal_strlit("{\"version\":");
    reveal_strlit(",\"data\":\"");
    reveal_strlit("\",\"cols\":");
    reveal_strlit(",\"rows\":");
    reveal_strlit(",\"pending\":[");
    reveal_strlit("]}");
    lemma_size_ascii("{\"version\":"@);
    lemma_size_ascii(",\"data\":\""@);
    lemma_size_ascii("\",\"cols\":"@);
    lemma_size_ascii(",\"rows\":"@);
    lemma_size_ascii(",\"pending\":["@);
    lemma_size_ascii("]}"@);
    lemma_size_decimal(image.version as nat);
    lemma_size_decimal(image.cols as nat);
    lemma_size_decimal(image.rows as nat);
    lemma_size_string(image.data);
    lemma_size_operations(image.pending);
    let one = "{\"version\":"@ + decimal(image.version as nat);
    let two = one + ",\"data\":\""@;
    let three = two + json_string(image.data);
    let four = three + "\",\"cols\":"@;
    let five = four + decimal(image.cols as nat);
    let six = five + ",\"rows\":"@;
    let seven = six + decimal(image.rows as nat);
    let eight = seven + ",\"pending\":["@;
    let nine = eight + json_operations(image.pending);
    lemma_size_concat("{\"version\":"@, decimal(image.version as nat));
    lemma_size_concat(one, ",\"data\":\""@);
    lemma_size_concat(two, json_string(image.data));
    lemma_size_concat(three, "\",\"cols\":"@);
    lemma_size_concat(four, decimal(image.cols as nat));
    lemma_size_concat(five, ",\"rows\":"@);
    lemma_size_concat(six, decimal(image.rows as nat));
    lemma_size_concat(seven, ",\"pending\":["@);
    lemma_size_concat(eight, json_operations(image.pending));
    lemma_size_concat(nine, "]}"@);
}

/// The number that digits in ASCII make up.
pub open spec fn number_of(digits: Seq<u8>) -> int
    decreases digits.len(),
{
    if digits.len() == 0 {
        0
    } else {
        number_of(digits.drop_last()) * 10 + (digits.last() - 48)
    }
}

/// A private mode is switched by its number: `ESC [ ? n h` and `ESC [ ? n l` change the wrap mode if
/// `n` is 7, and else leave it as it is.
pub proof fn law_only_mode_7_is_the_wrap_mode(autowrap: bool, digits: Seq<u8>, set: bool)
    requires
        1 <= digits.len() <= 27,
        forall|i: int| 0 <= i < digits.len() ==> 48 <= #[trigger] digits[i] <= 57,
    ensures
        dec_scanned(
            autowrap,
            seq![0x1bu8, 0x5bu8, 0x3fu8] + digits + seq![
                if set {
                    0x68u8
                } else {
                    0x6cu8
                },
            ],
        ) == (
            if number_of(digits) == 7 {
                set
            } else {
                autowrap
            },
            Seq::<u8>::empty(),
        ),
{
    let last = if set {
        0x68u8
    } else {
        0x6cu8
    };
    let whole = seq![0x1bu8, 0x5bu8, 0x3fu8] + digits + seq![last];
    let end = 3 + digits.len() as int;
    assert(whole[end] == last);
    assert forall|i: int| 3 <= i < end implies is_parameter_byte(#[trigger] whole[i]) by {
        assert(whole[i] == digits[i - 3]);
    }
    lemma_parameters_reach(whole, 3, end);
    assert(whole.subrange(3, end) == digits);
    lemma_number_before(digits, digits.len() as int);
    assert(digits.take(digits.len() as int) == digits);
    assert(lists_autowrap(digits) == (number_of(digits) == 7)) by {
        if lists_autowrap(digits) {
            let at = choose|at: int|
                0 <= at <= digits.len() && (at == digits.len() || digits[at] == 0x3b)
                    && #[trigger] number_before(digits, at) == 7;
            assert(at == digits.len());
        }
    }
    assert(separators_follow_digits(digits));
    assert(dec_sequence(whole) == DecSequence::Mode {
        autowrap: number_of(digits) == 7,
        set,
        length: (end + 1) as nat,
    });
    assert(whole.skip(end + 1) == Seq::<u8>::empty());
    reveal_with_fuel(dec_scanned, 2);
}

proof fn lemma_parameters_reach(bytes: Seq<u8>, from: int, end: int)
    requires
        0 <= from <= end < bytes.len(),
        forall|i: int| from <= i < end ==> is_parameter_byte(#[trigger] bytes[i]),
        !is_parameter_byte(bytes[end]),
    ensures
        parameters_end(bytes, from) == end,
    decreases end - from,
{
    if from < end {
        lemma_parameters_reach(bytes, from + 1, end);
    }
}

proof fn lemma_number_before(digits: Seq<u8>, end: int)
    requires
        0 <= end <= digits.len(),
        forall|i: int| 0 <= i < digits.len() ==> 48 <= #[trigger] digits[i] <= 57,
    ensures
        number_before(digits, end) == number_of(digits.take(end)),
    decreases end,
{
    if end > 0 {
        lemma_number_before(digits, end - 1);
        assert(digits.take(end).drop_last() == digits.take(end - 1));
        assert(digits[end - 1] != 0x3b);
    }
}

/// Bytes that can be in no character are left out, and the text around them stays.
pub proof fn law_bytes_of_no_character_are_left_out(
    before: Seq<char>,
    byte: u8,
    after: Seq<char>,
)
    requires
        0x80 <= byte <= 0xc1 || byte >= 0xf5,
    ensures
        decoded(encode_utf8(before) + seq![byte] + encode_utf8(after)) == before + after,
        undecoded(encode_utf8(before) + seq![byte] + encode_utf8(after)).len() == 0,
{
    let rest = seq![byte] + encode_utf8(after);
    let whole = encode_utf8(before) + rest;
    assert(whole == encode_utf8(before) + seq![byte] + encode_utf8(after));
    law_encoded_text_decodes_to_itself(before);
    law_encoded_text_decodes_to_itself(after);
    law_chunking_is_invisible(encode_utf8(before), rest);
    assert(undecoded(encode_utf8(before)) + rest == rest);
    assert(rest.skip(1) == encode_utf8(after));
    assert(rest[0] == byte);
}

/// A text that ends within a control sequence is known to: behind `ESC` and `[` and parameters, until
/// the letter that ends them; and behind `ESC` and `]`, until a `BEL` or an `ESC` and a backslash.
/// Text without an `ESC` opens none.
pub proof fn law_open_sequences_are_known(
    before: Seq<char>,
    parameters: Seq<char>,
    letter: char,
    text: Seq<char>,
)
    requires
        escape_state(before) == EscapeState::Ground,
        forall|i: int|
            0 <= i < parameters.len() ==> ' ' <= #[trigger] parameters[i] && parameters[i] <= '?',
        '@' <= letter && letter <= '~',
        forall|i: int|
            0 <= i < text.len() ==> #[trigger] text[i] != '\u{1b}' && text[i] != '\u{7}' && text[i]
                != '\u{18}' && text[i] != '\u{1a}',
    ensures
        escape_state(before + text) == EscapeState::Ground,
        escape_state(before.push('\u{1b}')) != EscapeState::Ground,
        escape_state(before.push('\u{1b}').push('[') + parameters) != EscapeState::Ground,
        escape_state((before.push('\u{1b}').push('[') + parameters).push(letter))
            == EscapeState::Ground,
        escape_state(before.push('\u{1b}').push(']') + text) != EscapeState::Ground,
        escape_state((before.push('\u{1b}').push(']') + text).push('\u{7}'))
            == EscapeState::Ground,
        escape_state((before.push('\u{1b}').push(']') + text).push('\u{1b}'))
            != EscapeState::Ground,
        escape_state((before.push('\u{1b}').push(']') + text).push('\u{1b}').push('\\'))
            == EscapeState::Ground,
        escape_state(text.push('\u{18}')) == EscapeState::Ground,
        escape_state(text.push('\u{1a}')) == EscapeState::Ground,
{
    assert(text.push('\u{18}').drop_last() == text);
    assert(text.push('\u{1a}').drop_last() == text);
    let escape = before.push('\u{1b}');
    let control = escape.push('[');
    let string = escape.push(']');
    assert(escape.drop_last() == before);
    assert(control.drop_last() == escape);
    assert(string.drop_last() == escape);
    assert(escape_state(escape) == EscapeState::Escape);
    assert(escape_state(control) == EscapeState::Control);
    assert(escape_state(string) == EscapeState::Text);
    lemma_state_stays(before, text);
    lemma_state_stays(string, text);
    lemma_control_stays(control, parameters);
    let open = control + parameters;
    let body = string + text;
    assert(open.push(letter).drop_last() == open);
    assert(body.push('\u{7}').drop_last() == body);
    assert(body.push('\u{1b}').drop_last() == body);
    assert(body.push('\u{1b}').push('\\').drop_last() == body.push('\u{1b}'));
}

proof fn lemma_state_stays(before: Seq<char>, text: Seq<char>)
    requires
        escape_state(before) == EscapeState::Ground || escape_state(before) == EscapeState::Text,
        forall|i: int|
            0 <= i < text.len() ==> #[trigger] text[i] != '\u{1b}' && text[i] != '\u{7}' && text[i]
                != '\u{18}' && text[i] != '\u{1a}',
    ensures
        escape_state(before + text) == escape_state(before),
    decreases text.len(),
{
    if text.len() > 0 {
        lemma_state_stays(before, text.drop_last());
        assert((before + text).drop_last() == before + text.drop_last());
        assert((before + text).last() == text[text.len() - 1]);
    } else {
        assert(before + text == before);
    }
}

proof fn lemma_control_stays(before: Seq<char>, parameters: Seq<char>)
    requires
        escape_state(before) == EscapeState::Control,
        forall|i: int|
            0 <= i < parameters.len() ==> ' ' <= #[trigger] parameters[i] && parameters[i] <= '?',
    ensures
        escape_state(before + parameters) == EscapeState::Control,
    decreases parameters.len(),
{
    if parameters.len() > 0 {
        lemma_control_stays(before, parameters.drop_last());
        assert((before + parameters).drop_last() == before + parameters.drop_last());
        assert((before + parameters).last() == parameters[parameters.len() - 1]);
    } else {
        assert(before + parameters == before);
    }
}

/// Behind an `ESC` a character from the blank to the slash waits for the one that ends the sequence;
/// one of `P`, `X`, `^` and `_` begins a text, as `]` does; any other printable one but `[` ends it.
pub proof fn law_short_sequences_are_known(
    before: Seq<char>,
    between: char,
    ending: char,
    opening: char,
)
    requires
        escape_state(before) == EscapeState::Ground,
        ' ' <= between && between <= '/',
        '0' <= ending && ending <= '~',
        opening == 'P' || opening == 'X' || opening == '^' || opening == '_',
    ensures
        escape_state(before.push('\u{1b}').push(between)) != EscapeState::Ground,
        escape_state(before.push('\u{1b}').push(between).push(between)) != EscapeState::Ground,
        escape_state(before.push('\u{1b}').push(between).push(ending)) == EscapeState::Ground,
        escape_state(before.push('\u{1b}').push(opening)) == escape_state(
            before.push('\u{1b}').push(']'),
        ),
        ending != '[' && ending != ']' && ending != 'P' && ending != 'X' && ending != '^' && ending
            != '_' ==> escape_state(before.push('\u{1b}').push(ending)) == EscapeState::Ground,
{
    let escape = before.push('\u{1b}');
    let open = escape.push(between);
    assert(escape.drop_last() == before);
    assert(escape_state(escape) == EscapeState::Escape);
    assert(open.drop_last() == escape);
    assert(open.push(between).drop_last() == open);
    assert(open.push(ending).drop_last() == open);
    assert(escape.push(opening).drop_last() == escape);
    assert(escape.push(']').drop_last() == escape);
    assert(escape.push(ending).drop_last() == escape);
}

/// White space is what Unicode calls so.
pub proof fn law_white_space_is_that_of_unicode(c: char)
    ensures
        is_space(c) <==> 9 <= c as int <= 13 || c as int == 0x20 || c as int == 0x85 || c as int
            == 0xa0 || c as int == 0x1680 || 0x2000 <= c as int <= 0x200a || c as int == 0x2028
            || c as int == 0x2029 || c as int == 0x202f || c as int == 0x205f || c as int == 0x3000,
{
}

/// A number is read as it is written, with a plus or without, up to a limit. Nothing is no number,
/// and neither is a plus alone.
pub proof fn law_numbers_are_read_as_written(number: nat, limit: int)
    ensures
        ({
            let read = if number <= limit {
                Some(number as int)
            } else {
                None
            };
            &&& parsed_unsigned(decimal(number), limit) == read
            &&& parsed_unsigned(seq!['+'] + decimal(number), limit) == read
            &&& parsed_unsigned(seq!['-'] + decimal(number), limit) is None
            &&& parsed_unsigned(Seq::empty(), limit) is None
            &&& parsed_unsigned(seq!['+'], limit) is None
        }),
{
    let digits = decimal(number);
    lemma_decimal_has_digits(number);
    lemma_decimal_value(number);
    assert(is_digit(digits[0]));
    assert((seq!['+'] + digits).drop_first() == digits);
    let negative = seq!['-'] + digits;
    assert(negative[0] == '-');
    assert(seq!['+'].drop_first() == Seq::<char>::empty());
}

/// A private mode whose list ends with a separator switches nothing. One that has only begun waits
/// for its end, up to 32 bytes in all, and is given up beyond that.
pub proof fn law_unfinished_modes_wait_or_are_given_up(autowrap: bool, digits: Seq<u8>, set: bool)
    requires
        digits.len() >= 1,
        forall|i: int| 0 <= i < digits.len() ==> 48 <= #[trigger] digits[i] <= 57,
    ensures
        ({
            let begun = seq![0x1bu8, 0x5bu8, 0x3fu8] + digits;
            let ended = begun.push(0x3b).push(
                if set {
                    0x68
                } else {
                    0x6c
                },
            );
            &&& dec_scanned(autowrap, ended) == (autowrap, Seq::<u8>::empty())
            &&& digits.len() <= 29 ==> dec_scanned(autowrap, begun) == (autowrap, begun)
            &&& digits.len() > 29 ==> dec_scanned(autowrap, begun) == (autowrap, Seq::<u8>::empty())
        }),
{
    let begun = seq![0x1bu8, 0x5bu8, 0x3fu8] + digits;
    let last: u8 = if set {
        0x68
    } else {
        0x6c
    };
    let ended = begun.push(0x3b).push(last);
    let end = 4 + digits.len() as int;
    assert forall|i: int| 3 <= i < end implies is_parameter_byte(#[trigger] ended[i]) by {
        if i < end - 1 {
            assert(ended[i] == digits[i - 3]);
        }
    }
    lemma_parameters_reach(ended, 3, end);
    let listed = ended.subrange(3, end);
    assert(listed == digits.push(0x3b));
    assert(listed.last() == 0x3b);
    assert(dec_sequence(ended) == DecSequence::NotAMode);
    assert forall|i: int| 1 <= i < ended.len() implies #[trigger] ended[i] != 0x1b by {
        if 3 <= i < end - 1 {
            assert(ended[i] == digits[i - 3]);
        }
    }
    lemma_nothing_to_scan(autowrap, ended.skip(1));
    assert forall|i: int| 3 <= i < begun.len() implies is_parameter_byte(#[trigger] begun[i]) by {
        assert(begun[i] == digits[i - 3]);
    }
    lemma_parameters_reach_the_end(begun, 3);
    assert(begun.subrange(3, begun.len() as int) == digits);
    assert(separators_follow_digits(digits));
    assert forall|i: int| 1 <= i < begun.len() implies #[trigger] begun[i] != 0x1b by {
        if 3 <= i {
            assert(begun[i] == digits[i - 3]);
        }
    }
    lemma_nothing_to_scan(autowrap, begun.skip(1));
}

proof fn lemma_parameters_reach_the_end(bytes: Seq<u8>, from: int)
    requires
        0 <= from <= bytes.len(),
        forall|i: int| from <= i < bytes.len() ==> is_parameter_byte(#[trigger] bytes[i]),
    ensures
        parameters_end(bytes, from) == bytes.len(),
    decreases bytes.len() - from,
{
    if from < bytes.len() {
        lemma_parameters_reach_the_end(bytes, from + 1);
    }
}

proof fn lemma_nothing_to_scan(autowrap: bool, data: Seq<u8>)
    requires
        forall|i: int| 0 <= i < data.len() ==> #[trigger] data[i] != 0x1b,
    ensures
        dec_scanned(autowrap, data) == (autowrap, Seq::<u8>::empty()),
    decreases data.len(),
{
    if data.len() > 0 {
        assert(data[0] != 0x1b);
        lemma_nothing_to_scan(autowrap, data.skip(1));
    }
}

/// Where a text is decoded in one go, a character that breaks off is replaced once, however many of
/// its bytes are there, and so is each byte that can begin none.
pub proof fn law_broken_characters_are_replaced_once(
    lead: u8,
    second: u8,
    third: u8,
    after: Seq<u8>,
)
    requires
        after.len() > 0 ==> !(0x80 <= after[0] <= 0xbf),
        0x80 <= second <= 0xbf,
        0x80 <= third <= 0xbf,
    ensures
        ({
            let replaced = seq!['\u{fffd}'] + decoded_lossily(after);
            &&& lead >= 0x80 ==> decoded_lossily(seq![lead] + after) == replaced
            &&& 0xe1 <= lead <= 0xec || 0xf1 <= lead <= 0xf3 ==> decoded_lossily(
                seq![lead, second] + after,
            ) == replaced
            &&& 0xf1 <= lead <= 0xf3 ==> decoded_lossily(seq![lead, second, third] + after)
                == replaced
        }),
{
    let one = seq![lead] + after;
    let two = seq![lead, second] + after;
    let three = seq![lead, second, third] + after;
    assert(one.skip(1) == after);
    assert(two.skip(2) == after);
    assert(three.skip(3) == after);
    assert(one[0] == lead && two[0] == lead && three[0] == lead);
    assert(two[1] == second && three[1] == second && three[2] == third);
    if after.len() > 0 {
        assert(one[1] == after[0] && two[2] == after[0] && three[3] == after[0]);
    } else {
        assert(decoded_lossily(after) == Seq::<char>::empty());
    }
}

/// Whether a part of a list is one of the numbers that stand between its separators.
pub open spec fn is_listed(list: Seq<u8>, from: int, end: int) -> bool {
    &&& 0 <= from < end <= list.len()
    &&& from == 0 || list[from - 1] == 0x3b
    &&& end == list.len() || list[end] == 0x3b
    &&& forall|i: int| from <= i < end ==> #[trigger] list[i] != 0x3b
}

/// Several private modes can be switched at once: `ESC [ ? n ; n h` and `ESC [ ? n ; n l` change the
/// wrap mode if any of the numbers is 7, and else leave it as it is.
pub proof fn law_every_mode_of_a_list_is_switched(autowrap: bool, list: Seq<u8>, set: bool)
    requires
        1 <= list.len() <= 28,
        forall|i: int| 0 <= i < list.len() ==> 48 <= #[trigger] list[i] <= 57 || list[i] == 0x3b,
        list[0] != 0x3b && list.last() != 0x3b,
        forall|i: int|
            0 < i < list.len() && #[trigger] list[i] == 0x3b ==> list[i - 1] != 0x3b,
    ensures
        dec_scanned(
            autowrap,
            seq![0x1bu8, 0x5bu8, 0x3fu8] + list + seq![
                if set {
                    0x68u8
                } else {
                    0x6cu8
                },
            ],
        ) == (
            if exists|from: int, end: int| #[trigger]
                is_listed(list, from, end) && number_of(list.subrange(from, end)) == 7 {
                set
            } else {
                autowrap
            },
            Seq::<u8>::empty(),
        ),
{
    let last = if set {
        0x68u8
    } else {
        0x6cu8
    };
    let whole = seq![0x1bu8, 0x5bu8, 0x3fu8] + list + seq![last];
    let end = 3 + list.len() as int;
    assert(whole[end] == last);
    assert forall|i: int| 3 <= i < end implies is_parameter_byte(#[trigger] whole[i]) by {
        assert(whole[i] == list[i - 3]);
    }
    lemma_parameters_reach(whole, 3, end);
    assert(whole.subrange(3, end) == list);
    let listed = exists|from: int, end: int| #[trigger]
        is_listed(list, from, end) && number_of(list.subrange(from, end)) == 7;
    if lists_autowrap(list) {
        let at = choose|at: int|
            0 <= at <= list.len() && (at == list.len() || list[at] == 0x3b)
                && #[trigger] number_before(list, at) == 7;
        let from = lemma_listed_number(list, at);
        assert(is_listed(list, from, at));
    }
    if listed {
        let (from, at) = choose|from: int, at: int| #[trigger]
            is_listed(list, from, at) && number_of(list.subrange(from, at)) == 7;
        lemma_number_of_part(list, from, at);
        assert(number_before(list, at) == 7);
    }
    assert(separators_follow_digits(list));
    assert(dec_sequence(whole) == DecSequence::Mode {
        autowrap: listed,
        set,
        length: (end + 1) as nat,
    });
    assert(whole.skip(end + 1) == Seq::<u8>::empty());
    reveal_with_fuel(dec_scanned, 2);
}

proof fn lemma_number_of_part(list: Seq<u8>, from: int, end: int)
    requires
        0 <= from <= end <= list.len(),
        from == 0 || list[from - 1] == 0x3b,
        forall|i: int| from <= i < end ==> #[trigger] list[i] != 0x3b,
    ensures
        number_before(list, end) == number_of(list.subrange(from, end)),
    decreases end - from,
{
    if from < end {
        lemma_number_of_part(list, from, end - 1);
        assert(list.subrange(from, end).drop_last() == list.subrange(from, end - 1));
        assert(list[end - 1] != 0x3b);
    }
}

proof fn lemma_listed_number(list: Seq<u8>, end: int) -> (from: int)
    requires
        0 <= end <= list.len(),
    ensures
        0 <= from <= end,
        from == 0 || list[from - 1] == 0x3b,
        forall|i: int| from <= i < end ==> #[trigger] list[i] != 0x3b,
        number_before(list, end) == number_of(list.subrange(from, end)),
    decreases end,
{
    if end == 0 || list[end - 1] == 0x3b {
        lemma_number_of_part(list, end, end);
        end
    } else {
        let from = lemma_listed_number(list, end - 1);
        lemma_number_of_part(list, from, end);
        from
    }
}

} // verus!
