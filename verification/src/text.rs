//! Characters, strings and numbers in text form.

use vstd::prelude::*;
use vstd::utf8::*;

verus! {

/// `String::push`: the character is appended to what the string held.
pub assume_specification[ String::push ](text: &mut String, c: char)
    ensures
        final(text)@ == old(text)@.push(c),
;

/// `char::from_u32`: every scalar value becomes the character with that number, and everything
/// else (surrogates and numbers above `0x10FFFF`) becomes `None`.
pub assume_specification[ char::from_u32 ](value: u32) -> (c: Option<char>)
    ensures
        c == (if value <= 0xD7FF || 0xE000 <= value <= 0x10FFFF {
            Some(value as char)
        } else {
            None::<char>
        }),
;

/// The characters of a text, one element each.
pub fn chars_of(text: &str) -> (chars: Vec<char>)
    ensures
        chars@ == text@,
{
    let mut chars: Vec<char> = Vec::new();
    for c in iter: text.chars()
        invariant
            chars@ == text@.take(iter.index()),
            iter.seq() == text@,
    {
        chars.push(c);
        assert(text@.take(iter.index() + 1) == text@.take(iter.index()).push(c));
    }
    assert(text@.take(text@.len() as int) == text@);
    chars
}

/// The text made of `chars[from..to]`.
pub fn text_between(chars: &[char], from: usize, to: usize) -> (text: String)
    requires
        from <= to <= chars@.len(),
    ensures
        text@ == chars@.subrange(from as int, to as int),
{
    let mut text = String::new();
    let mut index: usize = from;
    while index < to
        invariant
            from <= index <= to <= chars@.len(),
            text@ == chars@.subrange(from as int, index as int),
        decreases to - index,
    {
        text.push(chars[index]);
        assert(chars@.subrange(from as int, index + 1) == chars@.subrange(
            from as int,
            index as int,
        ).push(chars@[index as int]));
        index = index + 1;
    }
    text
}

/// Whether `pattern` stands in `text` at position `at`.
pub open spec fn occurs_at(text: Seq<char>, pattern: Seq<char>, at: int) -> bool {
    &&& 0 <= at <= text.len() - pattern.len()
    &&& text.subrange(at, at + pattern.len()) == pattern
}

/// The first position at or after `from` where `pattern` stands in `text`.
pub open spec fn find_from(text: Seq<char>, pattern: Seq<char>, from: int) -> Option<int>
    decreases text.len() + 1 - from,
{
    if from > text.len() - pattern.len() {
        None
    } else if occurs_at(text, pattern, from) {
        Some(from)
    } else {
        find_from(text, pattern, from + 1)
    }
}

/// What `find_from` means: the position found is an occurrence, and none comes before it.
pub proof fn lemma_find_from(text: Seq<char>, pattern: Seq<char>, from: int)
    requires
        0 <= from,
    ensures
        match find_from(text, pattern, from) {
            Some(at) => from <= at && occurs_at(text, pattern, at) && forall|q: int|
                from <= q < at ==> !#[trigger] occurs_at(text, pattern, q),
            None => forall|q: int| from <= q ==> !#[trigger] occurs_at(text, pattern, q),
        },
    decreases text.len() + 1 - from,
{
    if from <= text.len() - pattern.len() && !occurs_at(text, pattern, from) {
        lemma_find_from(text, pattern, from + 1);
    }
}

/// Whether `pattern` stands in `text` at position `at`.
pub fn stands_at(text: &[char], pattern: &[char], at: usize) -> (found: bool)
    ensures
        found == occurs_at(text@, pattern@, at as int),
{
    let total: usize = text.len();
    if at > total || total - at < pattern.len() {
        return false;
    }
    let mut index: usize = 0;
    while index < pattern.len()
        invariant
            index <= pattern@.len(),
            total == text@.len(),
            at + pattern@.len() <= total,
            forall|i: int| 0 <= i < index ==> text@[at + i] == pattern@[i],
        decreases pattern@.len() - index,
    {
        if text[at + index] != pattern[index] {
            assert(text@.subrange(at as int, at + pattern@.len())[index as int] != pattern@[index as int]);
            return false;
        }
        index = index + 1;
    }
    assert(text@.subrange(at as int, at + pattern@.len()) == pattern@);
    true
}

/// The first position at or after `from` where `pattern` stands in `text`.
pub fn find(text: &[char], pattern: &[char], from: usize) -> (found: Option<usize>)
    ensures
        match (found, find_from(text@, pattern@, from as int)) {
            (Some(position), Some(at)) => position == at,
            (None, None) => true,
            _ => false,
        },
{
    let mut at: usize = from;
    while at <= text.len() && pattern.len() <= text.len() - at
        invariant
            find_from(text@, pattern@, from as int) == find_from(text@, pattern@, at as int),
        decreases text@.len() + 1 - at,
    {
        if stands_at(text, pattern, at) {
            return Some(at);
        }
        if at == text.len() {
            assert(find_from(text@, pattern@, at + 1) is None);
            return None;
        }
        at = at + 1;
    }
    None
}

/// Whether two lists of characters are the same.
pub fn same(left: &[char], right: &[char]) -> (equal: bool)
    ensures
        equal == (left@ == right@),
{
    if left.len() != right.len() {
        return false;
    }
    let mut index: usize = 0;
    while index < left.len()
        invariant
            index <= left@.len(),
            left@.len() == right@.len(),
            forall|i: int| 0 <= i < index ==> left@[i] == right@[i],
        decreases left@.len() - index,
    {
        if left[index] != right[index] {
            return false;
        }
        index = index + 1;
    }
    assert(left@ == right@);
    true
}

/// Whether `c` is one of the ten decimal digits.
pub open spec fn is_digit(c: char) -> bool {
    '0' <= c && c <= '9'
}

/// `String::capacity`: at least the bytes that the string holds. How much more depends on the
/// allocator and is left open.
pub assume_specification[ String::capacity ](text: &String) -> (capacity: usize)
    ensures
        capacity >= text@.len(),
        capacity >= encode_utf8(text@).len(),
;

/// The number of bytes of a text.
pub fn byte_length(text: &str) -> (length: usize)
    ensures
        length == encode_utf8(text@).len(),
{
    text.as_bytes().len()
}

/// The encoding of a concatenation is the concatenation of the encodings.
pub proof fn lemma_encode_concat(first: Seq<char>, second: Seq<char>)
    ensures
        encode_utf8(first + second) == encode_utf8(first) + encode_utf8(second),
    decreases first.len(),
{
    if first.len() == 0 {
        assert(first + second == second);
        assert(encode_utf8(first) + encode_utf8(second) == encode_utf8(second));
    } else {
        assert((first + second).drop_first() == first.drop_first() + second);
        lemma_encode_concat(first.drop_first(), second);
        assert(encode_utf8(first + second) == encode_utf8(first) + encode_utf8(second));
    }
}

/// The smaller of a number and the largest `usize`: what a saturating sum of sizes reports.
pub open spec fn capped(size: int) -> int {
    if size > usize::MAX {
        usize::MAX as int
    } else {
        size
    }
}

/// The character of a digit in a base of up to sixteen.
pub open spec fn digit_char(digit: int) -> char {
    if digit < 10 {
        (0x30 + digit) as char
    } else {
        (0x57 + digit) as char
    }
}

/// A number written in a base, without leading zeros.
pub open spec fn written(number: nat, base: nat) -> Seq<char>
    decreases number,
    when base >= 2
{
    if number < base {
        seq![digit_char(number as int)]
    } else {
        proof {
            assert(number / base < number) by (nonlinear_arith)
                requires
                    number >= base,
                    base >= 2,
            ;
        }
        written(number / base, base).push(digit_char((number % base) as int))
    }
}

/// A number written in decimal.
pub open spec fn decimal(number: nat) -> Seq<char> {
    written(number, 10)
}

/// A number in decimal is made of digits.
pub proof fn lemma_decimal_has_digits(number: nat)
    ensures
        is_digits(decimal(number)),
    decreases number,
{
    if number >= 10 {
        lemma_decimal_has_digits(number / 10);
        let shorter = decimal(number / 10);
        let longer = decimal(number);
        assert forall|i: int| 0 <= i < longer.len() implies is_digit(#[trigger] longer[i]) by {
            if i < shorter.len() {
                assert(longer[i] == shorter[i]);
            }
        }
    }
}

/// Different numbers look different in decimal.
pub proof fn lemma_decimal_is_injective(first: nat, second: nat)
    requires
        decimal(first) == decimal(second),
    ensures
        first == second,
    decreases first,
{
    lemma_decimal_has_digits(first / 10);
    lemma_decimal_has_digits(second / 10);
    let text = decimal(first);
    let other = decimal(second);
    assert(text.last() == digit_char((first % 10) as int));
    assert(other.last() == digit_char((second % 10) as int));
    if first >= 10 && second >= 10 {
        assert(text.drop_last() == decimal(first / 10));
        assert(other.drop_last() == decimal(second / 10));
        lemma_decimal_is_injective(first / 10, second / 10);
    } else if first >= 10 {
        assert(text.len() == decimal(first / 10).len() + 1);
        assert(other.len() == 1);
    } else if second >= 10 {
        assert(other.len() == decimal(second / 10).len() + 1);
        assert(text.len() == 1);
    }
}

/// Writes a number in a base of up to sixteen.
pub fn write_number(number: u128, base: u128) -> (text: String)
    requires
        2 <= base <= 16,
    ensures
        text@ == written(number as nat, base as nat),
{
    let mut digits: Vec<char> = Vec::new();
    let mut rest: u128 = number;
    proof {
        assert(digits@.reverse() == Seq::<char>::empty());
    }
    while rest >= base
        invariant
            2 <= base <= 16,
            written(number as nat, base as nat) == written(rest as nat, base as nat)
                + digits@.reverse(),
        decreases rest,
    {
        let digit: char = digit_of((rest % base) as u8);
        let ghost before = digits@;
        proof {
            let shorter = written((rest / base) as nat, base as nat);
            assert(before.push(digit).reverse() == seq![digit] + before.reverse());
            assert(shorter.push(digit) + before.reverse() == shorter + before.push(
                digit,
            ).reverse());
        }
        digits.push(digit);
        rest = rest / base;
    }
    let first: char = digit_of(rest as u8);
    let mut text = String::new();
    text.push(first);
    let mut index: usize = digits.len();
    assert(digits@.reverse().take(0) == Seq::<char>::empty());
    while index > 0
        invariant
            index <= digits@.len(),
            text@ == seq![first] + digits@.reverse().take(digits@.len() - index),
        decreases index,
    {
        index = index - 1;
        text.push(digits[index]);
        assert(digits@.reverse().take(digits@.len() - index) == digits@.reverse().take(
            digits@.len() - index - 1,
        ).push(digits@[index as int]));
    }
    assert(digits@.reverse().take(digits@.len() as int) == digits@.reverse());
    text
}

/// The character of a digit in a base of up to sixteen.
fn digit_of(digit: u8) -> (c: char)
    requires
        digit < 16,
    ensures
        c == digit_char(digit as int),
{
    if digit < 10 {
        (0x30u8 + digit) as char
    } else {
        (0x57u8 + digit) as char
    }
}

/// Writes a number in decimal.
pub fn write_decimal(number: u128) -> (text: String)
    ensures
        text@ == decimal(number as nat),
{
    write_number(number, 10)
}

/// Whether a character is white space: the characters with Unicode's `White_Space` property.
pub open spec fn is_space(c: char) -> bool {
    ||| '\u{9}' <= c && c <= '\u{d}'
    ||| c == ' ' || c == '\u{85}' || c == '\u{a0}' || c == '\u{1680}'
    ||| '\u{2000}' <= c && c <= '\u{200a}'
    ||| c == '\u{2028}' || c == '\u{2029}' || c == '\u{202f}' || c == '\u{205f}' || c == '\u{3000}'
}

/// Whether a character is white space.
pub fn is_whitespace(c: char) -> (space: bool)
    ensures
        space == is_space(c),
{
    ('\u{9}' <= c && c <= '\u{d}') || c == ' ' || c == '\u{85}' || c == '\u{a0}' || c == '\u{1680}'
        || ('\u{2000}' <= c && c <= '\u{200a}') || c == '\u{2028}' || c == '\u{2029}' || c
        == '\u{202f}' || c == '\u{205f}' || c == '\u{3000}'
}

/// A text without the white space at its beginning.
pub open spec fn trimmed_start(text: Seq<char>) -> Seq<char>
    decreases text.len(),
{
    if text.len() > 0 && is_space(text[0]) {
        trimmed_start(text.drop_first())
    } else {
        text
    }
}

/// A text without the white space at its end.
pub open spec fn trimmed_end(text: Seq<char>) -> Seq<char>
    decreases text.len(),
{
    if text.len() > 0 && is_space(text.last()) {
        trimmed_end(text.drop_last())
    } else {
        text
    }
}

/// A text without the white space around it.
pub open spec fn trimmed(text: Seq<char>) -> Seq<char> {
    trimmed_end(trimmed_start(text))
}

/// The characters of a text without the white space around it.
pub fn trim(text: &str) -> (chars: Vec<char>)
    ensures
        chars@ == trimmed(text@),
{
    let mut all: Vec<char> = chars_of(text);
    let mut start: usize = 0;
    assert(all@.skip(0) == all@);
    while start < all.len() && is_whitespace(all[start])
        invariant
            start <= all@.len(),
            trimmed_start(all@) == trimmed_start(all@.skip(start as int)),
        decreases all@.len() - start,
    {
        assert(all@.skip(start as int).drop_first() == all@.skip(start + 1));
        start = start + 1;
    }
    let mut chars: Vec<char> = all.split_off(start);
    assert(chars@ == trimmed_start(text@));
    while chars.len() > 0 && is_whitespace(chars[chars.len() - 1])
        invariant
            trimmed_end(chars@) == trimmed(text@),
        decreases chars@.len(),
    {
        let ghost before = chars@;
        let _ = chars.pop();
        assert(chars@ == before.drop_last());
    }
    chars
}

/// The number written by decimal digits.
pub open spec fn digits_value(digits: Seq<char>) -> nat
    decreases digits.len(),
{
    if digits.len() == 0 {
        0
    } else {
        (10 * digits_value(digits.drop_last()) + (digits.last() as int - '0' as int)) as nat
    }
}

/// A number is read back from its decimal digits.
pub proof fn lemma_decimal_value(number: nat)
    ensures
        digits_value(decimal(number)) == number,
    decreases number,
{
    if number < 10 {
        assert(decimal(number).drop_last() == Seq::<char>::empty());
        assert(digits_value(Seq::<char>::empty()) == 0);
    } else {
        lemma_decimal_value(number / 10);
        assert(decimal(number).drop_last() == decimal(number / 10));
    }
}

/// Whether a text is made of decimal digits, at least one.
pub open spec fn is_digits(text: Seq<char>) -> bool {
    &&& text.len() > 0
    &&& forall|i: int| 0 <= i < text.len() ==> is_digit(#[trigger] text[i])
}

/// The digits of a number that may have a plus sign in front.
pub open spec fn unsigned_digits(text: Seq<char>) -> Seq<char> {
    if text.len() > 0 && text[0] == '+' {
        text.drop_first()
    } else {
        text
    }
}

/// The number that a text is, up to a limit: decimal digits, with or without a plus sign.
pub open spec fn parsed_unsigned(text: Seq<char>, limit: int) -> Option<int> {
    let digits = unsigned_digits(text);
    if is_digits(digits) && digits_value(digits) <= limit {
        Some(digits_value(digits) as int)
    } else {
        None
    }
}

/// The number that characters are, up to a limit: decimal digits, with or without a plus sign.
pub fn parse_unsigned(chars: &[char], limit: u64) -> (number: Option<u64>)
    ensures
        match (number, parsed_unsigned(chars@, limit as int)) {
            (Some(number), Some(value)) => number == value,
            (None, None) => true,
            _ => false,
        },
{
    let start: usize = if chars.len() > 0 && chars[0] == '+' {
        1
    } else {
        0
    };
    let ghost digits = unsigned_digits(chars@);
    assert(digits == chars@.skip(start as int));
    if start == chars.len() {
        return None;
    }
    let mut number: u64 = 0;
    let mut index: usize = start;
    let mut fits = true;
    assert(digits.take(0) == Seq::<char>::empty());
    while index < chars.len()
        invariant
            start <= index <= chars@.len(),
            digits == chars@.skip(start as int),
            digits == unsigned_digits(chars@),
            forall|i: int| 0 <= i < index - start ==> is_digit(#[trigger] digits[i]),
            fits ==> number == digits_value(digits.take(index - start)) && number <= limit,
            !fits ==> digits_value(digits.take(index - start)) > limit,
        decreases chars@.len() - index,
    {
        let c: char = chars[index];
        let ghost shorter = digits.take(index - start);
        let ghost longer = digits.take(index - start + 1);
        proof {
            assert(longer.drop_last() == shorter);
            assert(longer.last() == digits[index - start]);
        }
        if c < '0' || c > '9' {
            assert(!is_digit(digits[index - start]));
            return None;
        }
        let digit: u64 = c as u64 - 0x30;
        if fits {
            match number.checked_mul(10) {
                Some(tens) => match tens.checked_add(digit) {
                    Some(sum) => {
                        if sum <= limit {
                            number = sum;
                        } else {
                            fits = false;
                        }
                    },
                    None => {
                        fits = false;
                    },
                },
                None => {
                    fits = false;
                },
            }
        }
        index = index + 1;
    }
    assert(digits.take(digits.len() as int) == digits);
    if fits {
        Some(number)
    } else {
        None
    }
}

} // verus!
