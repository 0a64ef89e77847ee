//! Memory: how much the process holds, and how much new sessions may take.

use vstd::prelude::*;

use crate::text::{
    chars_of, decimal, is_digit, is_space, is_whitespace, lemma_decimal_has_digits,
    lemma_decimal_value, occurs_at, parse_unsigned, parsed_unsigned, stands_at, trim, trimmed,
    trimmed_end, trimmed_start,
};

verus! {

/// The most that sessions may take together, however much memory there is.
pub const MAX_BUDGET: u64 = 2_147_483_648;

/// What sessions may take together where it is not known how much memory there is.
pub const UNKNOWN_MEMORY_BUDGET: u64 = 536_870_912;

/// What sessions may take together: a quarter of the memory, up to a limit.
pub fn budget_for_physical_memory(bytes: Option<u64>) -> (budget: u64)
    ensures
        budget == (match bytes {
            Some(bytes) if bytes > 0 => if bytes / 4 < MAX_BUDGET {
                bytes / 4
            } else {
                MAX_BUDGET
            },
            _ => UNKNOWN_MEMORY_BUDGET,
        }),
        budget <= 2_147_483_648,
        bytes matches Some(memory) ==> (0 < memory < 8_589_934_592 ==> budget == memory / 4) && (
        memory >= 8_589_934_592 ==> budget == 2_147_483_648),
        bytes is None ==> budget == 536_870_912,
{
    match bytes {
        Some(bytes) => if bytes == 0 {
            UNKNOWN_MEMORY_BUDGET
        } else if bytes / 4 < MAX_BUDGET {
            bytes / 4
        } else {
            MAX_BUDGET
        },
        None => UNKNOWN_MEMORY_BUDGET,
    }
}

/// Whether a character ends a piece: a line feed, or any white space.
pub open spec fn separates(lines: bool, c: char) -> bool {
    if lines {
        c == '\n'
    } else {
        is_space(c)
    }
}

/// The pieces of a text: its lines, or what stands between its white space. Some may be empty.
pub open spec fn text_pieces(text: Seq<char>, lines: bool) -> Seq<Seq<char>>
    decreases text.len(),
{
    if text.len() == 0 {
        seq![Seq::empty()]
    } else {
        let before = text_pieces(text.drop_last(), lines);
        if separates(lines, text.last()) {
            before.push(Seq::empty())
        } else {
            before.drop_last().push(before.last().push(text.last()))
        }
    }
}

/// The pieces that are not empty.
pub open spec fn non_empty(pieces: Seq<Seq<char>>) -> Seq<Seq<char>>
    decreases pieces.len(),
{
    if pieces.len() == 0 {
        Seq::empty()
    } else if pieces.last().len() == 0 {
        non_empty(pieces.drop_last())
    } else {
        non_empty(pieces.drop_last()).push(pieces.last())
    }
}

/// The number that the second word of a text is, if it is one.
pub open spec fn second_number(text: Seq<char>) -> Option<int> {
    let words = non_empty(text_pieces(text, false));
    if words.len() < 2 {
        None
    } else {
        parsed_unsigned(words[1], u64::MAX as int)
    }
}

/// What pieces are.
pub open spec fn piece_views(all: Seq<Vec<char>>) -> Seq<Seq<char>> {
    Seq::new(all.len(), |i: int| all[i]@)
}

fn split_text(text: &[char], lines: bool) -> (found: Vec<Vec<char>>)
    ensures
        piece_views(found@) == text_pieces(text@, lines),
{
    let mut done: Vec<Vec<char>> = Vec::new();
    let mut current: Vec<char> = Vec::new();
    let mut index: usize = 0;
    assert(text@.take(0) == Seq::<char>::empty());
    assert(piece_views(done@).push(current@) == seq![Seq::<char>::empty()]);
    while index < text.len()
        invariant
            index <= text@.len(),
            piece_views(done@).push(current@) == text_pieces(text@.take(index as int), lines),
        decreases text@.len() - index,
    {
        let ghost before = piece_views(done@).push(current@);
        assert(text@.take(index + 1).drop_last() == text@.take(index as int));
        assert(before.drop_last() == piece_views(done@));
        let ends = if lines {
            text[index] == '\n'
        } else {
            is_whitespace(text[index])
        };
        if ends {
            done.push(current);
            current = Vec::new();
            assert(piece_views(done@) == before);
        } else {
            current.push(text[index]);
        }
        index = index + 1;
    }
    assert(text@.take(index as int) == text@);
    let ghost before = piece_views(done@).push(current@);
    done.push(current);
    assert(piece_views(done@) == before);
    done
}

fn second_word_number(text: &[char]) -> (number: Option<u64>)
    ensures
        match (number, second_number(text@)) {
            (Some(number), Some(value)) => number == value,
            (None, None) => true,
            _ => false,
        },
{
    let parts = split_text(text, false);
    let ghost all = text_pieces(text@, false);
    let mut words: Vec<usize> = Vec::new();
    let mut index: usize = 0;
    assert(all.take(0) == Seq::<Seq<char>>::empty());
    while index < parts.len()
        invariant
            index <= parts@.len(),
            all == piece_views(parts@),
            words@.len() == non_empty(all.take(index as int)).len(),
            forall|i: int|
                0 <= i < words@.len() ==> (#[trigger] words@[i]) < parts@.len()
                    && parts@[words@[i] as int]@ == non_empty(all.take(index as int))[i],
        decreases parts@.len() - index,
    {
        assert(all.take(index + 1).drop_last() == all.take(index as int));
        if parts[index].len() > 0 {
            words.push(index);
        }
        index = index + 1;
    }
    assert(all.take(index as int) == all);
    if words.len() < 2 {
        None
    } else {
        let at: usize = words[1];
        parse_unsigned(parts[at].as_slice(), u64::MAX)
    }
}

/// The memory of the machine by what the system tells of it: the number on the first line that
/// starts with `MemTotal:`, in units of 1024 bytes.
pub open spec fn memory_total(lines: Seq<Seq<char>>) -> Option<int>
    decreases lines.len(),
{
    if lines.len() == 0 {
        None
    } else if occurs_at(lines[0], "MemTotal:"@, 0) {
        match second_number(lines[0]) {
            Some(kib) if kib * 1024 <= u64::MAX => Some(kib * 1024),
            _ => None,
        }
    } else {
        memory_total(lines.drop_first())
    }
}

/// The limit on memory that a text names, if it names one: a positive number.
pub open spec fn memory_limit(text: Option<Seq<char>>) -> Option<int> {
    match text {
        Some(text) => match parsed_unsigned(trimmed(text), u64::MAX as int) {
            Some(limit) if limit > 0 => Some(limit),
            _ => None,
        },
        None => None,
    }
}

/// The memory that the process can use: that of the machine, or the limit on it where that is less.
pub open spec fn usable_memory(meminfo: Option<Seq<char>>, limit: Option<Seq<char>>) -> Option<int> {
    match meminfo {
        None => None,
        Some(text) => match memory_total(text_pieces(text, true)) {
            None => None,
            Some(host) => match memory_limit(limit) {
                Some(limit) if limit < host => Some(limit),
                _ => Some(host),
            },
        },
    }
}

/// The meaning of an optional text.
pub open spec fn optional_str(text: Option<&str>) -> Option<Seq<char>> {
    match text {
        Some(text) => Some(text@),
        None => None,
    }
}

fn total_memory(meminfo: &str) -> (bytes: Option<u64>)
    ensures
        match (bytes, memory_total(text_pieces(meminfo@, true))) {
            (Some(bytes), Some(total)) => bytes == total,
            (None, None) => true,
            _ => false,
        },
{
    let chars: Vec<char> = chars_of(meminfo);
    let lines = split_text(chars.as_slice(), true);
    let prefix: Vec<char> = chars_of("MemTotal:");
    let ghost all = text_pieces(meminfo@, true);
    let mut index: usize = 0;
    assert(all.skip(0) == all);
    while index < lines.len()
        invariant
            index <= lines@.len(),
            all == piece_views(lines@),
            prefix@ == "MemTotal:"@,
            memory_total(all) == memory_total(all.skip(index as int)),
            all == text_pieces(meminfo@, true),
        decreases lines@.len() - index,
    {
        assert(all.skip(index as int)[0] == lines@[index as int]@);
        assert(all.skip(index as int).drop_first() == all.skip(index + 1));
        if stands_at(lines[index].as_slice(), prefix.as_slice(), 0) {
            return match second_word_number(lines[index].as_slice()) {
                Some(kib) => kib.checked_mul(1024),
                None => None,
            };
        }
        index = index + 1;
    }
    None
}

/// The memory that the process can use. `meminfo` is what the system tells of the machine's memory,
/// and `limit` what it tells of the limit on the process's, each if it tells anything.
pub fn physical_memory_bytes(meminfo: Option<&str>, limit: Option<&str>) -> (bytes: Option<u64>)
    ensures
        match (bytes, usable_memory(optional_str(meminfo), optional_str(limit))) {
            (Some(bytes), Some(usable)) => bytes == usable,
            (None, None) => true,
            _ => false,
        },
{
    let host: u64 = match meminfo {
        None => return None,
        Some(text) => match total_memory(text) {
            None => return None,
            Some(host) => host,
        },
    };
    let cap: Option<u64> = match limit {
        None => None,
        Some(text) => {
            let chars: Vec<char> = trim(text);
            match parse_unsigned(chars.as_slice(), u64::MAX) {
                Some(limit) => if limit > 0 {
                    Some(limit)
                } else {
                    None
                },
                None => None,
            }
        },
    };
    match cap {
        Some(limit) => if limit < host {
            Some(limit)
        } else {
            Some(host)
        },
        None => Some(host),
    }
}

/// What new sessions may take together, on this machine.
pub fn admission_budget_bytes(meminfo: Option<&str>, limit: Option<&str>) -> (budget: u64)
    ensures
        budget == (match usable_memory(optional_str(meminfo), optional_str(limit)) {
            Some(bytes) if bytes > 0 => if bytes / 4 < MAX_BUDGET {
                bytes / 4
            } else {
                MAX_BUDGET as int
            },
            _ => UNKNOWN_MEMORY_BUDGET as int,
        }),
{
    budget_for_physical_memory(physical_memory_bytes(meminfo, limit))
}

/// What the process holds by what the system tells of it: the second number counts pages. There is
/// no answer where the pages have no size, or would be more bytes than can be counted.
pub open spec fn resident(statm: Option<Seq<char>>, page_size: i64) -> Option<int> {
    match statm {
        None => None,
        Some(text) => match second_number(text) {
            Some(pages) if page_size > 0 && pages * page_size <= u64::MAX => Some(pages * page_size),
            _ => None,
        },
    }
}

/// The most that the process has held, in bytes: none where the system does not tell.
pub open spec fn peak_bytes(peak: Option<i64>, unit: u64) -> int {
    match peak {
        Some(amount) if amount > 0 => if amount * unit <= u64::MAX {
            amount * unit
        } else {
            u64::MAX as int
        },
        _ => 0,
    }
}

/// What the process holds, in bytes. `statm` is what the system tells of it, in pages of
/// `page_size` bytes; where that says nothing, the most that the process has held stands in, which
/// is `peak` units.
pub fn rss_bytes(statm: Option<&str>, page_size: i64, peak: Option<i64>, unit: u64) -> (bytes: u64)
    ensures
        bytes == (match resident(optional_str(statm), page_size) {
            Some(bytes) => bytes,
            None => peak_bytes(peak, unit),
        }),
{
    if let Some(text) = statm {
        let chars: Vec<char> = chars_of(text);
        if let Some(pages) = second_word_number(chars.as_slice()) {
            if page_size > 0 {
                if let Some(bytes) = pages.checked_mul(page_size as u64) {
                    return bytes;
                }
            }
        }
    }
    match peak {
        Some(amount) => if amount > 0 {
            match (amount as u64).checked_mul(unit) {
                Some(bytes) => bytes,
                None => u64::MAX,
            }
        } else {
            0
        },
        None => 0,
    }
}

proof fn lemma_pieces_have_a_last(text: Seq<char>, lines: bool)
    ensures
        text_pieces(text, lines).len() > 0,
    decreases text.len(),
{
    if text.len() > 0 {
        lemma_pieces_have_a_last(text.drop_last(), lines);
    }
}

/// Text without white space behind some text makes its last piece longer.
proof fn lemma_word_behind(text: Seq<char>, word: Seq<char>)
    requires
        forall|i: int| 0 <= i < word.len() ==> !is_space(#[trigger] word[i]),
    ensures
        ({
            let before = text_pieces(text, false);
            text_pieces(text + word, false) == before.drop_last().push(before.last() + word)
        }),
    decreases word.len(),
{
    let before = text_pieces(text, false);
    lemma_pieces_have_a_last(text, false);
    if word.len() == 0 {
        assert(text + word == text);
        assert(before.last() + word == before.last());
        assert(before.drop_last().push(before.last()) == before);
    } else {
        lemma_word_behind(text, word.drop_last());
        assert((text + word).drop_last() == text + word.drop_last());
        let middle = text_pieces(text + word.drop_last(), false);
        assert(middle.drop_last() == before.drop_last());
        assert((before.last() + word.drop_last()).push(word.last()) == before.last() + word);
        assert(!is_space(word[word.len() - 1]));
    }
}

/// White space behind some text adds empty pieces only.
proof fn lemma_space_behind(text: Seq<char>, gap: Seq<char>)
    requires
        forall|i: int| 0 <= i < gap.len() ==> is_space(#[trigger] gap[i]),
    ensures
        non_empty(text_pieces(text + gap, false)) == non_empty(text_pieces(text, false)),
        gap.len() > 0 ==> text_pieces(text + gap, false).last().len() == 0,
    decreases gap.len(),
{
    if gap.len() == 0 {
        assert(text + gap == text);
    } else {
        lemma_space_behind(text, gap.drop_last());
        assert((text + gap).drop_last() == text + gap.drop_last());
        let before = text_pieces(text + gap.drop_last(), false);
        assert(is_space(gap[gap.len() - 1]));
        assert(text_pieces(text + gap, false) == before.push(Seq::empty()));
        assert(before.push(Seq::<char>::empty()).drop_last() == before);
    }
}

/// What stands before white space is not changed by what comes behind that.
proof fn lemma_words_stay(text: Seq<char>, rest: Seq<char>)
    requires
        rest.len() > 0,
        is_space(rest[0]),
    ensures
        ({
            let before = text_pieces(text, false);
            let after = text_pieces(text + rest, false);
            after.len() > before.len() && after.take(before.len() as int) == before
        }),
    decreases rest.len(),
{
    let before = text_pieces(text, false);
    assert((text + rest).drop_last() == text + rest.drop_last());
    if rest.len() == 1 {
        assert(rest.drop_last() == Seq::<char>::empty());
        assert(text + rest.drop_last() == text);
        assert(before.push(Seq::<char>::empty()).take(before.len() as int) == before);
    } else {
        lemma_words_stay(text, rest.drop_last());
        let middle = text_pieces(text + rest.drop_last(), false);
        let after = text_pieces(text + rest, false);
        assert(after.take(before.len() as int) == middle.take(before.len() as int));
    }
}

proof fn lemma_non_empty_prefix(pieces: Seq<Seq<char>>, count: int)
    requires
        0 <= count <= pieces.len(),
    ensures
        ({
            let short = non_empty(pieces.take(count));
            let long = non_empty(pieces);
            long.len() >= short.len() && long.take(short.len() as int) == short
        }),
    decreases pieces.len(),
{
    if count == pieces.len() {
        assert(pieces.take(count) == pieces);
        assert(non_empty(pieces).take(non_empty(pieces).len() as int) == non_empty(pieces));
    } else {
        lemma_non_empty_prefix(pieces.drop_last(), count);
        assert(pieces.drop_last().take(count) == pieces.take(count));
        let short = non_empty(pieces.take(count));
        let middle = non_empty(pieces.drop_last());
        assert(non_empty(pieces).take(short.len() as int) == middle.take(short.len() as int));
    }
}

/// The second word of a text is the number that is read from it.
pub proof fn law_second_word_is_the_number(
    first: Seq<char>,
    gap: Seq<char>,
    number: u64,
    rest: Seq<char>,
)
    requires
        first.len() > 0,
        forall|i: int| 0 <= i < first.len() ==> !is_space(#[trigger] first[i]),
        gap.len() > 0,
        forall|i: int| 0 <= i < gap.len() ==> is_space(#[trigger] gap[i]),
        rest.len() > 0 ==> is_space(rest[0]),
    ensures
        second_number(first + gap + decimal(number as nat) + rest) == Some(number as int),
{
    let digits = decimal(number as nat);
    lemma_decimal_has_digits(number as nat);
    lemma_decimal_value(number as nat);
    assert forall|i: int| 0 <= i < digits.len() implies !is_space(#[trigger] digits[i]) by {
        assert(is_digit(digits[i]));
    }
    let none = Seq::<char>::empty();
    lemma_word_behind(none, first);
    assert(none + first == first);
    let one = text_pieces(first, false);
    assert(text_pieces(none, false) == seq![none]);
    assert(one == seq![first]);
    assert(one.drop_last() == Seq::<Seq<char>>::empty());
    assert(non_empty(one) == seq![first]) by {
        assert(non_empty(one.drop_last()) == Seq::<Seq<char>>::empty());
    }
    lemma_space_behind(first, gap);
    lemma_pieces_have_a_last(first + gap, false);
    let two = text_pieces(first + gap, false);
    lemma_word_behind(first + gap, digits);
    let three = text_pieces(first + gap + digits, false);
    assert(two.last() + digits == digits);
    assert(three.drop_last() == two.drop_last());
    assert(non_empty(two) == non_empty(two.drop_last()));
    assert(non_empty(three) == seq![first].push(digits));
    if rest.len() > 0 {
        lemma_words_stay(first + gap + digits, rest);
        let four = text_pieces(first + gap + digits + rest, false);
        lemma_non_empty_prefix(four, three.len() as int);
        assert(non_empty(four).take(2) == seq![first].push(digits));
        assert(non_empty(four)[1] == non_empty(four).take(2)[1]);
    } else {
        assert(first + gap + digits + rest == first + gap + digits);
    }
    assert(is_digit(digits[0]));
}

/// The memory of the machine is the number on the first line that starts with `MemTotal:`, times
/// 1024.
pub proof fn law_memory_is_the_total(
    lines: Seq<Seq<char>>,
    at: int,
    gap: Seq<char>,
    kib: u64,
    rest: Seq<char>,
)
    requires
        0 <= at < lines.len(),
        gap.len() > 0,
        forall|i: int| 0 <= i < gap.len() ==> is_space(#[trigger] gap[i]),
        rest.len() > 0 ==> is_space(rest[0]),
        lines[at] == "MemTotal:"@ + gap + decimal(kib as nat) + rest,
        forall|i: int|
            0 <= i < at ==> !((#[trigger] lines[i]).len() >= 9 && lines[i].subrange(0, 9)
                == "MemTotal:"@),
        kib * 1024 <= u64::MAX,
    ensures
        memory_total(lines) == Some(kib * 1024),
    decreases at,
{
    reveal_strlit("MemTotal:");
    if at == 0 {
        law_second_word_is_the_number("MemTotal:"@, gap, kib, rest);
        assert(lines[0].subrange(0, 9) == "MemTotal:"@);
    } else {
        assert(!(lines[0].len() >= 9 && lines[0].subrange(0, 9) == "MemTotal:"@));
        assert forall|i: int| 0 <= i < at - 1 implies !((#[trigger] lines.drop_first()[i]).len()
            >= 9 && lines.drop_first()[i].subrange(0, 9) == "MemTotal:"@) by {
            assert(lines.drop_first()[i] == lines[i + 1]);
        }
        law_memory_is_the_total(lines.drop_first(), at - 1, gap, kib, rest);
    }
}

/// The process can use no more than a limit that is named, and no more than the machine has. A limit
/// of nothing, and a word that is no number, limit nothing.
pub proof fn law_limit_counts_where_it_is_less(
    meminfo: Seq<char>,
    limit: u64,
    host: int,
    word: Seq<char>,
)
    requires
        memory_total(text_pieces(meminfo, true)) == Some(host),
        word.len() > 0,
        !is_space(word[0]) && !is_digit(word[0]) && word[0] != '+',
    ensures
        usable_memory(Some(meminfo), None) == Some(host),
        limit > 0 ==> usable_memory(Some(meminfo), Some(decimal(limit as nat))) == Some(
            if limit < host {
                limit as int
            } else {
                host
            },
        ),
        usable_memory(Some(meminfo), Some(decimal(0))) == Some(host),
        usable_memory(Some(meminfo), Some(word)) == Some(host),
        usable_memory(None, None) is None,
{
    let digits = decimal(limit as nat);
    lemma_decimal_has_digits(limit as nat);
    lemma_decimal_value(limit as nat);
    assert(is_digit(digits[0]));
    assert(is_digit(digits[digits.len() - 1]));
    assert(trimmed(digits) == digits);
    let none = decimal(0);
    lemma_decimal_has_digits(0);
    lemma_decimal_value(0);
    assert(is_digit(none[0]));
    assert(is_digit(none[none.len() - 1]));
    assert(trimmed(none) == none);
    assert(trimmed_start(word) == word);
    lemma_trimmed_end_keeps_the_first(word);
}

proof fn lemma_trimmed_end_keeps_the_first(text: Seq<char>)
    requires
        text.len() > 0,
        !is_space(text[0]),
    ensures
        trimmed_end(text).len() > 0,
        trimmed_end(text)[0] == text[0],
    decreases text.len(),
{
    if is_space(text.last()) {
        lemma_trimmed_end_keeps_the_first(text.drop_last());
    }
}

/// What the process holds is its pages times their size, if that can be counted. What it has held at
/// most is counted in units; more than can be counted is as much as can be.
pub proof fn law_memory_held_is_pages_or_the_peak(
    first: Seq<char>,
    gap: Seq<char>,
    pages: u64,
    rest: Seq<char>,
    page_size: i64,
    peak: i64,
    unit: u64,
)
    requires
        first.len() > 0,
        forall|i: int| 0 <= i < first.len() ==> !is_space(#[trigger] first[i]),
        gap.len() > 0,
        forall|i: int| 0 <= i < gap.len() ==> is_space(#[trigger] gap[i]),
        rest.len() > 0 ==> is_space(rest[0]),
    ensures
        resident(Some(first + gap + decimal(pages as nat) + rest), page_size) == (if page_size <= 0
            || pages * page_size > u64::MAX {
            None::<int>
        } else {
            Some(pages * page_size)
        }),
        resident(None, page_size) is None,
        peak > 0 && peak * unit <= u64::MAX ==> peak_bytes(Some(peak), unit) == peak * unit,
        peak > 0 && peak * unit > u64::MAX ==> peak_bytes(Some(peak), unit) == u64::MAX,
        peak <= 0 ==> peak_bytes(Some(peak), unit) == 0,
        peak_bytes(None, unit) == 0,
{
    law_second_word_is_the_number(first, gap, pages, rest);
}

} // verus!
