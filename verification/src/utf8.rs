//! Incremental UTF-8 decoding.
//!
//! Output arrives in chunks that may cut a character anywhere. The decoder hands out complete
//! characters only, keeps an unfinished character until its remaining bytes arrive, and drops
//! bytes that cannot belong to any character. It never makes up a replacement character.

use vstd::prelude::*;
use vstd::utf8::*;

verus! {

/// What stands at the head of a non-empty byte sequence.
pub enum Utf8Step {
    /// A complete character of `width` bytes.
    Scalar { width: nat },
    /// `width` bytes that no continuation can turn into a character.
    Invalid { width: nat },
    /// The beginning of a character whose remaining bytes are missing.
    Incomplete,
}

/// The number of bytes of a character that starts with `lead`, or 0 where none does.
pub open spec fn scalar_width(lead: u8) -> nat {
    if lead <= 0x7f {
        1
    } else if 0xc2 <= lead <= 0xdf {
        2
    } else if 0xe0 <= lead <= 0xef {
        3
    } else if 0xf0 <= lead <= 0xf4 {
        4
    } else {
        0
    }
}

/// Whether `second` can follow `lead`: overlong forms, surrogates and numbers above `0x10FFFF`
/// all show in the second byte.
pub open spec fn second_byte_fits(lead: u8, second: u8) -> bool {
    &&& is_continuation_byte(second)
    &&& lead == 0xe0 ==> second >= 0xa0
    &&& lead == 0xed ==> second <= 0x9f
    &&& lead == 0xf0 ==> second >= 0x90
    &&& lead == 0xf4 ==> second <= 0x8f
}

/// Classifies the head of `bytes`: the longest prefix that could still become a character is
/// taken as one unit.
pub open spec fn utf8_step(bytes: Seq<u8>) -> Utf8Step {
    let width = scalar_width(bytes[0]);
    if width == 0 {
        Utf8Step::Invalid { width: 1 }
    } else if width >= 2 && bytes.len() >= 2 && !second_byte_fits(bytes[0], bytes[1]) {
        Utf8Step::Invalid { width: 1 }
    } else if width >= 3 && bytes.len() >= 3 && !is_continuation_byte(bytes[2]) {
        Utf8Step::Invalid { width: 2 }
    } else if width >= 4 && bytes.len() >= 4 && !is_continuation_byte(bytes[3]) {
        Utf8Step::Invalid { width: 3 }
    } else if bytes.len() < width {
        Utf8Step::Incomplete
    } else {
        Utf8Step::Scalar { width }
    }
}

/// The characters of `bytes`: complete characters in order, with invalid bytes dropped and an
/// unfinished character at the end left out.
pub open spec fn decoded(bytes: Seq<u8>) -> Seq<char>
    decreases bytes.len(),
{
    if bytes.len() == 0 {
        Seq::empty()
    } else {
        match utf8_step(bytes) {
            Utf8Step::Scalar { width } => seq![decode_first_scalar(bytes) as char] + decoded(
                bytes.skip(width as int),
            ),
            Utf8Step::Invalid { width } => decoded(bytes.skip(width as int)),
            Utf8Step::Incomplete => Seq::empty(),
        }
    }
}

/// The unfinished character at the end of `bytes`, empty where there is none.
pub open spec fn undecoded(bytes: Seq<u8>) -> Seq<u8>
    decreases bytes.len(),
{
    if bytes.len() == 0 {
        Seq::empty()
    } else {
        match utf8_step(bytes) {
            Utf8Step::Scalar { width } => undecoded(bytes.skip(width as int)),
            Utf8Step::Invalid { width } => undecoded(bytes.skip(width as int)),
            Utf8Step::Incomplete => bytes,
        }
    }
}

/// A step that yields a character finds exactly a well-formed encoding of one.
proof fn lemma_scalar_step(bytes: Seq<u8>)
    requires
        bytes.len() > 0,
    ensures
        utf8_step(bytes) is Scalar <==> valid_first_scalar(bytes),
        utf8_step(bytes) is Scalar ==> utf8_step(bytes)->Scalar_width == length_of_first_scalar(
            bytes,
        ),
        utf8_step(bytes) is Scalar ==> is_scalar(decode_first_scalar(bytes)),
{
    let b0 = bytes[0];
    if bytes.len() >= 2 {
        lemma_width_2(b0, bytes[1]);
    }
    if bytes.len() >= 3 {
        lemma_width_3(b0, bytes[1], bytes[2]);
    }
    if bytes.len() >= 4 {
        lemma_width_4(b0, bytes[1], bytes[2], bytes[3]);
    }
    assert(b0 <= 0x7f ==> (b0 & 0x7f) as u32 <= 0x7f) by (bit_vector);
}

proof fn lemma_width_2(b0: u8, b1: u8)
    ensures
        is_leading_byte_width_2(b0) && is_continuation_byte(b1) ==> {
            &&& codepoint_width_2(b0, b1) <= 0x7ff
            &&& codepoint_width_2(b0, b1) >= 0x80 <==> b0 >= 0xc2
        },
{
    assert(0xc0 <= b0 <= 0xdf && 0x80 <= b1 <= 0xbf ==> {
        let code = ((((b0 & 0x1F) as u32) << 6) | ((b1 & 0x3f) as u32));
        code <= 0x7ff && (code >= 0x80 <==> b0 >= 0xc2)
    }) by (bit_vector);
}

proof fn lemma_width_3(b0: u8, b1: u8, b2: u8)
    ensures
        is_leading_byte_width_3(b0) && is_continuation_byte(b1) && is_continuation_byte(b2) ==> {
            let code = codepoint_width_3(b0, b1, b2);
            &&& code <= 0xffff
            &&& code >= 0x800 && not_surrogate(code) <==> second_byte_fits(b0, b1)
        },
{
    assert(0xe0 <= b0 <= 0xef && 0x80 <= b1 <= 0xbf && 0x80 <= b2 <= 0xbf ==> {
        let code = ((((b0 & 0x0F) as u32) << 12) | (((b1 & 0x3f) as u32) << 6) | ((b2
            & 0x3f) as u32));
        &&& code <= 0xffff
        &&& (code >= 0x800 && !(0xD800 <= code && code <= 0xDFFF)) <==> ((b0 == 0xe0 ==> b1 >= 0xa0)
            && (b0 == 0xed ==> b1 <= 0x9f))
    }) by (bit_vector);
}

proof fn lemma_width_4(b0: u8, b1: u8, b2: u8, b3: u8)
    ensures
        is_leading_byte_width_4(b0) && is_continuation_byte(b1) && is_continuation_byte(b2)
            && is_continuation_byte(b3) ==> {
            let code = codepoint_width_4(b0, b1, b2, b3);
            0x10000 <= code <= 0x10ffff <==> b0 <= 0xf4 && second_byte_fits(b0, b1)
        },
{
    assert(0xf0 <= b0 <= 0xf7 && 0x80 <= b1 <= 0xbf && 0x80 <= b2 <= 0xbf && 0x80 <= b3 <= 0xbf
        ==> {
        let code = ((((b0 & 0x07) as u32) << 18) | (((b1 & 0x3f) as u32) << 12) | (((b2
            & 0x3f) as u32) << 6) | ((b3 & 0x3f) as u32));
        (0x10000 <= code && code <= 0x10ffff) <==> (b0 <= 0xf4 && (b0 == 0xf0 ==> b1 >= 0x90) && (b0
            == 0xf4 ==> b1 <= 0x8f))
    }) by (bit_vector);
}

/// Feeding `first` and then `second` gives the same characters, and leaves the same unfinished
/// character, as feeding both at once: where the stream is cut does not matter.
pub proof fn law_chunking_is_invisible(first: Seq<u8>, second: Seq<u8>)
    ensures
        decoded(first + second) == decoded(first) + decoded(undecoded(first) + second),
        undecoded(first + second) == undecoded(undecoded(first) + second),
    decreases first.len(),
{
    let whole = first + second;
    if first.len() == 0 {
        assert(whole == second);
        assert(undecoded(first) + second == second);
        assert(decoded(first) + decoded(second) == decoded(second));
    } else {
        match utf8_step(first) {
            Utf8Step::Scalar { width } => {
                lemma_scalar_step(first);
                assert(utf8_step(whole) == utf8_step(first));
                assert(decode_first_scalar(whole) == decode_first_scalar(first));
                assert(whole.skip(width as int) == first.skip(width as int) + second);
                law_chunking_is_invisible(first.skip(width as int), second);
                assert(decoded(whole) == decoded(first) + decoded(undecoded(first) + second));
            },
            Utf8Step::Invalid { width } => {
                assert(utf8_step(whole) == utf8_step(first));
                assert(whole.skip(width as int) == first.skip(width as int) + second);
                law_chunking_is_invisible(first.skip(width as int), second);
            },
            Utf8Step::Incomplete => {
                assert(decoded(first) + decoded(whole) == decoded(whole));
            },
        }
    }
}

/// What is held back is the beginning of one character: three bytes at most.
pub proof fn law_at_most_three_bytes_wait(bytes: Seq<u8>)
    ensures
        undecoded(bytes).len() <= 3,
    decreases bytes.len(),
{
    if bytes.len() > 0 {
        match utf8_step(bytes) {
            Utf8Step::Scalar { width } => law_at_most_three_bytes_wait(bytes.skip(width as int)),
            Utf8Step::Invalid { width } => law_at_most_three_bytes_wait(bytes.skip(width as int)),
            Utf8Step::Incomplete => {},
        }
    }
}

/// The encoding of a text decodes to that text, with nothing left over.
pub proof fn law_encoded_text_decodes_to_itself(text: Seq<char>)
    ensures
        decoded(encode_utf8(text)) == text,
        undecoded(encode_utf8(text)) == Seq::<u8>::empty(),
    decreases text.len(),
{
    if text.len() > 0 {
        let bytes = encode_utf8(text);
        encode_utf8_first_scalar(text);
        lemma_scalar_step(bytes);
        char_u32_cast(text[0], decode_first_scalar(bytes));
        let width = length_of_first_scalar(bytes);
        assert(bytes.skip(width) == encode_utf8(text.drop_first()));
        law_encoded_text_decodes_to_itself(text.drop_first());
        assert(seq![text[0]] + text.drop_first() == text);
    }
}

/// The characters handed out when `chunks` are fed one after another to a decoder that holds
/// `held` back.
pub open spec fn decoded_in_chunks(held: Seq<u8>, chunks: Seq<Seq<u8>>) -> Seq<char>
    decreases chunks.len(),
{
    if chunks.len() == 0 {
        Seq::empty()
    } else {
        decoded(held + chunks[0]) + decoded_in_chunks(
            undecoded(held + chunks[0]),
            chunks.drop_first(),
        )
    }
}

/// However an encoded text is cut into chunks, feeding them in order hands out the text.
pub proof fn law_any_cut_of_a_text_restores_it(text: Seq<char>, chunks: Seq<Seq<u8>>)
    requires
        chunks.flatten() == encode_utf8(text),
    ensures
        decoded_in_chunks(Seq::empty(), chunks) == text,
{
    lemma_chunks_join(Seq::empty(), chunks);
    law_encoded_text_decodes_to_itself(text);
    assert(Seq::<u8>::empty() + chunks.flatten() == encode_utf8(text));
}

proof fn lemma_chunks_join(held: Seq<u8>, chunks: Seq<Seq<u8>>)
    requires
        held == undecoded(held),
    ensures
        decoded_in_chunks(held, chunks) == decoded(held + chunks.flatten()),
    decreases chunks.len(),
{
    if chunks.len() == 0 {
        assert(held + chunks.flatten() == held);
        lemma_held_back_decodes_to_nothing(held);
    } else {
        let rest = chunks.drop_first();
        let first = held + chunks[0];
        assert(chunks.flatten() == chunks[0] + rest.flatten());
        assert(held + chunks.flatten() == first + rest.flatten());
        law_chunking_is_invisible(first, rest.flatten());
        law_chunking_is_invisible(first, Seq::empty());
        assert(first + Seq::<u8>::empty() == first);
        assert(undecoded(first) + Seq::<u8>::empty() == undecoded(first));
        lemma_chunks_join(undecoded(first), rest);
    }
}

proof fn lemma_held_back_decodes_to_nothing(held: Seq<u8>)
    requires
        held == undecoded(held),
    ensures
        decoded(held) == Seq::<char>::empty(),
{
    if held.len() > 0 {
        match utf8_step(held) {
            Utf8Step::Scalar { width } => lemma_undecoded_shrinks(held.skip(width as int)),
            Utf8Step::Invalid { width } => lemma_undecoded_shrinks(held.skip(width as int)),
            Utf8Step::Incomplete => {},
        }
    }
}

proof fn lemma_undecoded_shrinks(bytes: Seq<u8>)
    ensures
        undecoded(bytes).len() <= bytes.len(),
    decreases bytes.len(),
{
    if bytes.len() > 0 {
        match utf8_step(bytes) {
            Utf8Step::Scalar { width } => lemma_undecoded_shrinks(bytes.skip(width as int)),
            Utf8Step::Invalid { width } => lemma_undecoded_shrinks(bytes.skip(width as int)),
            Utf8Step::Incomplete => {},
        }
    }
}

/// The characters of some bytes take no more bytes than those.
pub proof fn law_decoding_adds_nothing(bytes: Seq<u8>)
    ensures
        encode_utf8(decoded(bytes)).len() <= bytes.len(),
    decreases bytes.len(),
{
    if bytes.len() > 0 {
        match utf8_step(bytes) {
            Utf8Step::Scalar { width } => {
                let rest = bytes.skip(width as int);
                let head = bytes.take(width as int);
                law_decoding_adds_nothing(rest);
                lemma_scalar_step(bytes);
                lemma_scalar_step(head);
                assert(pop_first_scalar(head) == Seq::<u8>::empty());
                assert(valid_utf8(pop_first_scalar(head)));
                decode_utf8_first_scalar(head);
                assert(decode_first_scalar(head) == decode_first_scalar(bytes));
                assert(take_first_scalar(head) == head);
                assert(decoded(bytes).drop_first() == decoded(rest));
            },
            Utf8Step::Invalid { width } => law_decoding_adds_nothing(bytes.skip(width as int)),
            Utf8Step::Incomplete => {},
        }
    }
}

/// Whether the encoding of `c` occurs in `bytes` at position `at`.
pub open spec fn encoded_at(bytes: Seq<u8>, at: int, c: char) -> bool {
    &&& 0 <= at <= bytes.len() - encode_scalar(c as u32).len()
    &&& bytes.subrange(at, at + encode_scalar(c as u32).len()) == encode_scalar(c as u32)
}

/// No character is made up: each one handed out stood in the input, encoded. In particular a
/// replacement character comes out only where the input holds one.
pub proof fn law_no_character_is_made_up(bytes: Seq<u8>, c: char)
    requires
        decoded(bytes).contains(c),
    ensures
        exists|at: int| encoded_at(bytes, at, c),
    decreases bytes.len(),
{
    let index = choose|index: int|
        0 <= index < decoded(bytes).len() && decoded(bytes)[index] == c;
    match utf8_step(bytes) {
        Utf8Step::Scalar { width } => {
            let rest = bytes.skip(width as int);
            lemma_scalar_step(bytes);
            if index == 0 {
                let head = bytes.take(width as int);
                lemma_scalar_step(head);
                assert(pop_first_scalar(head) == Seq::<u8>::empty());
                assert(valid_utf8(pop_first_scalar(head)));
                decode_utf8_first_scalar(head);
                assert(decode_first_scalar(head) == decode_first_scalar(bytes));
                assert(take_first_scalar(head) == head);
                assert(bytes.subrange(0, width as int) == head);
                assert(encoded_at(bytes, 0, c));
            } else {
                assert(decoded(rest)[index - 1] == c);
                law_no_character_is_made_up(rest, c);
                let at = choose|at: int| encoded_at(rest, at, c);
                lemma_occurs_later(bytes, width as int, at, c);
            }
        },
        Utf8Step::Invalid { width } => {
            let rest = bytes.skip(width as int);
            assert(decoded(rest)[index] == c);
            law_no_character_is_made_up(rest, c);
            let at = choose|at: int| encoded_at(rest, at, c);
            lemma_occurs_later(bytes, width as int, at, c);
        },
        Utf8Step::Incomplete => {},
    }
}

proof fn lemma_occurs_later(bytes: Seq<u8>, width: int, at: int, c: char)
    requires
        0 <= width <= bytes.len(),
        encoded_at(bytes.skip(width), at, c),
    ensures
        encoded_at(bytes, at + width, c),
{
    let length = encode_scalar(c as u32).len() as int;
    assert(bytes.subrange(at + width, at + width + length) == bytes.skip(width).subrange(
        at,
        at + length,
    ));
}

/// One unit found at the head of some bytes.
enum Found {
    Scalar(char, usize),
    Invalid(usize),
    Incomplete,
}

/// Classifies what stands at `data[index..]`.
fn step_at(data: &[u8], index: usize) -> (found: Found)
    requires
        index < data@.len(),
    ensures
        match (found, utf8_step(data@.skip(index as int))) {
            (Found::Scalar(c, length), Utf8Step::Scalar { width }) => length == width && length
                <= data@.len() - index && c == decode_first_scalar(data@.skip(index as int)) as char,
            (Found::Invalid(length), Utf8Step::Invalid { width }) => length == width && length
                <= data@.len() - index,
            (Found::Incomplete, Utf8Step::Incomplete) => true,
            _ => false,
        },
{
    let ghost rest = data@.skip(index as int);
    proof {
        lemma_scalar_step(rest);
    }
    let available: usize = data.len() - index;
    let lead: u8 = data[index];
    let width: usize = if lead <= 0x7f {
        1
    } else if 0xc2 <= lead && lead <= 0xdf {
        2
    } else if 0xe0 <= lead && lead <= 0xef {
        3
    } else if 0xf0 <= lead && lead <= 0xf4 {
        4
    } else {
        return Found::Invalid(1);
    };
    if width >= 2 && available >= 2 {
        let second: u8 = data[index + 1];
        let fits = 0x80 <= second && second <= 0xbf && (lead != 0xe0 || second >= 0xa0) && (lead
            != 0xed || second <= 0x9f) && (lead != 0xf0 || second >= 0x90) && (lead != 0xf4
            || second <= 0x8f);
        if !fits {
            return Found::Invalid(1);
        }
    }
    if width >= 3 && available >= 3 && (data[index + 2] < 0x80 || data[index + 2] > 0xbf) {
        return Found::Invalid(2);
    }
    if width >= 4 && available >= 4 && (data[index + 3] < 0x80 || data[index + 3] > 0xbf) {
        return Found::Invalid(3);
    }
    if available < width {
        return Found::Incomplete;
    }
    let code: u32 = if width == 1 {
        (lead & 0x7F) as u32
    } else if width == 2 {
        (((lead & 0x1F) as u32) << 6) | ((data[index + 1] & 0x3f) as u32)
    } else if width == 3 {
        (((lead & 0x0F) as u32) << 12) | (((data[index + 1] & 0x3f) as u32) << 6) | ((data[index
            + 2] & 0x3f) as u32)
    } else {
        (((lead & 0x07) as u32) << 18) | (((data[index + 1] & 0x3f) as u32) << 12) | (((data[index
            + 2] & 0x3f) as u32) << 6) | ((data[index + 3] & 0x3f) as u32)
    };
    assert(code == decode_first_scalar(rest));
    match char::from_u32(code) {
        Some(c) => Found::Scalar(c, width),
        None => Found::Incomplete,
    }
}

/// A stateful decoder. Its view is the unfinished character that it holds back.
#[derive(Debug)]
pub struct IncrementalUtf8Decoder {
    pending: Vec<u8>,
}

impl View for IncrementalUtf8Decoder {
    type V = Seq<u8>;

    closed spec fn view(&self) -> Seq<u8> {
        self.pending@
    }
}

impl Default for IncrementalUtf8Decoder {
    fn default() -> (decoder: Self)
        ensures
            decoder@ == Seq::<u8>::empty(),
    {
        Self::new()
    }
}

impl IncrementalUtf8Decoder {
    pub fn new() -> (decoder: Self)
        ensures
            decoder@ == Seq::<u8>::empty(),
    {
        IncrementalUtf8Decoder { pending: Vec::new() }
    }

    /// Takes the next bytes and returns the characters that are now complete.
    pub fn push(&mut self, bytes: &[u8]) -> (text: String)
        ensures
            text@ == decoded(old(self)@ + bytes@),
            final(self)@ == undecoded(old(self)@ + bytes@),
    {
        let mut data: Vec<u8> = Vec::new();
        data.append(&mut self.pending);
        data.extend_from_slice(bytes);
        let ghost whole = old(self)@ + bytes@;
        assert(data@ == whole);
        let mut text = String::new();
        let mut index: usize = 0;
        let mut waiting = false;
        assert(whole.skip(0) == whole);
        while index < data.len() && !waiting
            invariant
                data@ == whole,
                index <= data@.len(),
                decoded(whole) == text@ + (if waiting {
                    Seq::empty()
                } else {
                    decoded(whole.skip(index as int))
                }),
                undecoded(whole) == (if waiting {
                    whole.skip(index as int)
                } else {
                    undecoded(whole.skip(index as int))
                }),
            decreases data@.len() - index, (if waiting {
                    0int
                } else {
                    1int
                }),
        {
            let ghost rest = whole.skip(index as int);
            match step_at(data.as_slice(), index) {
                Found::Scalar(c, width) => {
                    let ghost before = text@;
                    text.push(c);
                    proof {
                        assert(rest.skip(width as int) == whole.skip(index + width));
                        assert(before + (seq![c] + decoded(rest.skip(width as int))) == text@
                            + decoded(rest.skip(width as int)));
                    }
                    index = index + width;
                },
                Found::Invalid(width) => {
                    assert(rest.skip(width as int) == whole.skip(index + width));
                    index = index + width;
                },
                Found::Incomplete => {
                    assert(text@ + decoded(rest) == text@ + Seq::<char>::empty());
                    waiting = true;
                },
            }
        }
        assert(!waiting ==> whole.skip(index as int) == Seq::<u8>::empty());
        assert(text@ + Seq::<char>::empty() == text@);
        self.pending = data.split_off(index);
        assert(self.pending@ == whole.skip(index as int));
        text
    }

    /// Drops the unfinished character at the end of a stream.
    pub fn discard_tail(&mut self)
        ensures
            final(self)@ == Seq::<u8>::empty(),
    {
        self.pending.clear();
    }

    /// The number of bytes held back.
    pub fn pending_bytes(&self) -> (count: usize)
        ensures
            count == self@.len(),
    {
        self.pending.len()
    }
}

/// The replacement character.
pub const REPLACEMENT: char = '\u{fffd}';

/// The characters of `bytes` with a replacement character for every invalid unit and for an
/// unfinished character at the end.
pub open spec fn decoded_lossily(bytes: Seq<u8>) -> Seq<char>
    decreases bytes.len(),
{
    if bytes.len() == 0 {
        Seq::empty()
    } else {
        match utf8_step(bytes) {
            Utf8Step::Scalar { width } => seq![decode_first_scalar(bytes) as char]
                + decoded_lossily(bytes.skip(width as int)),
            Utf8Step::Invalid { width } => seq![REPLACEMENT] + decoded_lossily(
                bytes.skip(width as int),
            ),
            Utf8Step::Incomplete => seq![REPLACEMENT],
        }
    }
}

/// The encoding of a text is read back without replacement.
pub proof fn law_lossy_decoding_restores_text(text: Seq<char>)
    ensures
        decoded_lossily(encode_utf8(text)) == text,
    decreases text.len(),
{
    if text.len() > 0 {
        let bytes = encode_utf8(text);
        encode_utf8_first_scalar(text);
        lemma_scalar_step(bytes);
        char_u32_cast(text[0], decode_first_scalar(bytes));
        let width = length_of_first_scalar(bytes);
        assert(bytes.skip(width) == encode_utf8(text.drop_first()));
        law_lossy_decoding_restores_text(text.drop_first());
        assert(seq![text[0]] + text.drop_first() == text);
    }
}

/// Nothing is lost in decoding valid bytes.
pub proof fn law_valid_bytes_lose_nothing(bytes: Seq<u8>)
    requires
        valid_utf8(bytes),
    ensures
        encode_utf8(decoded_lossily(bytes)) == bytes,
{
    decode_utf8_encode_utf8(bytes);
    law_lossy_decoding_restores_text(decode_utf8(bytes));
}

/// Bytes that are all ASCII are valid.
pub proof fn lemma_ascii_is_valid(bytes: Seq<u8>)
    requires
        forall|i: int| 0 <= i < bytes.len() ==> #[trigger] bytes[i] < 0x80,
    ensures
        valid_utf8(bytes),
    decreases bytes.len(),
{
    if bytes.len() > 0 {
        let first = bytes[0];
        assert(codepoint_width_1(first) < 0x80) by {
            assert(first < 0x80 ==> (first & 0x7F) as u32 <= 0x7f) by (bit_vector);
        }
        lemma_ascii_is_valid(bytes.subrange(1, bytes.len() as int));
    }
}

/// Decodes `bytes` in one go, replacing what is invalid.
pub fn decode_lossy(bytes: &[u8]) -> (text: String)
    ensures
        text@ == decoded_lossily(bytes@),
{
    let mut text = String::new();
    let mut index: usize = 0;
    assert(bytes@.skip(0) == bytes@);
    while index < bytes.len()
        invariant
            index <= bytes@.len(),
            decoded_lossily(bytes@) == text@ + decoded_lossily(bytes@.skip(index as int)),
        decreases bytes@.len() - index,
    {
        let ghost rest = bytes@.skip(index as int);
        let ghost before = text@;
        match step_at(bytes, index) {
            Found::Scalar(c, width) => {
                text.push(c);
                proof {
                    assert(rest.skip(width as int) == bytes@.skip(index + width));
                    assert(before + (seq![c] + decoded_lossily(rest.skip(width as int))) == text@
                        + decoded_lossily(rest.skip(width as int)));
                }
                index = index + width;
            },
            Found::Invalid(width) => {
                text.push(REPLACEMENT);
                proof {
                    assert(rest.skip(width as int) == bytes@.skip(index + width));
                    assert(before + (seq![REPLACEMENT] + decoded_lossily(rest.skip(width as int)))
                        == text@ + decoded_lossily(rest.skip(width as int)));
                }
                index = index + width;
            },
            Found::Incomplete => {
                text.push(REPLACEMENT);
                assert(before + seq![REPLACEMENT] == text@);
                return text;
            },
        }
    }
    assert(bytes@.skip(index as int) == Seq::<u8>::empty());
    assert(text@ + Seq::<char>::empty() == text@);
    text
}

} // verus!
