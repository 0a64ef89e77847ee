//! Bounded windows over the newest output.
//!
//! Both windows count characters, not bytes. Text is kept in segments, so that dropping old text
//! does not move the text that stays.

use std::collections::VecDeque;
use vstd::prelude::*;
use vstd::utf8::encode_utf8;

use crate::text::{byte_length, capped, lemma_encode_concat};

verus! {

/// The last `max_chars` characters of a text, or all of it where it is no longer than that.
pub open spec fn newest_chars(text: Seq<char>, max_chars: int) -> Seq<char> {
    if text.len() <= max_chars {
        text
    } else {
        text.skip(text.len() - max_chars)
    }
}

/// The last `max_chars` characters of `value`.
pub fn tail_chars(value: &str, max_chars: usize) -> (tail: &str)
    ensures
        tail@ == newest_chars(value@, max_chars as int),
{
    let count: usize = value.unicode_len();
    if count <= max_chars {
        return value;
    }
    let tail = value.substring_char(count - max_chars, count);
    assert(tail@ == value@.skip(count - max_chars));
    tail
}

/// The text that segments make up together.
pub open spec fn joined(segments: Seq<String>) -> Seq<char>
    decreases segments.len(),
{
    if segments.len() == 0 {
        Seq::empty()
    } else {
        joined(segments.drop_last()) + segments.last()@
    }
}

proof fn lemma_joined_front(segments: Seq<String>)
    requires
        segments.len() > 0,
    ensures
        joined(segments) == segments[0]@ + joined(segments.drop_first()),
    decreases segments.len(),
{
    if segments.len() == 1 {
        assert(segments.drop_last() == Seq::<String>::empty());
        assert(segments.drop_first() == Seq::<String>::empty());
        assert(Seq::<char>::empty() + segments[0]@ == segments[0]@ + Seq::<char>::empty());
    } else {
        lemma_joined_front(segments.drop_last());
        assert(segments.drop_first().drop_last() == segments.drop_last().drop_first());
        assert(segments[0]@ + joined(segments.drop_last().drop_first()) + segments.last()@
            == segments[0]@ + (joined(segments.drop_first().drop_last()) + segments.last()@));
    }
}

/// The newest text of a stream, up to a number of characters.
#[derive(Debug)]
pub struct TextWindow {
    max_chars: usize,
    chars: usize,
    segments: VecDeque<String>,
}

impl TextWindow {
    /// The most characters that the window keeps.
    pub closed spec fn limit(&self) -> int {
        self.max_chars as int
    }

    /// The text that the window holds.
    pub closed spec fn text(&self) -> Seq<char> {
        joined(self.segments@)
    }

    pub closed spec fn well_formed(&self) -> bool {
        &&& self.chars == self.text().len()
        &&& self.chars <= self.max_chars
    }

    pub fn new(max_chars: usize) -> (window: Self)
        ensures
            window.well_formed(),
            window.limit() == max_chars,
            window.text() == Seq::<char>::empty(),
    {
        TextWindow { max_chars, chars: 0, segments: VecDeque::new() }
    }

    /// Appends a chunk and lets the oldest characters go.
    pub fn push(&mut self, chunk: &str)
        requires
            old(self).well_formed(),
        ensures
            final(self).well_formed(),
            final(self).limit() == old(self).limit(),
            final(self).text() == newest_chars(old(self).text() + chunk@, old(self).limit()),
    {
        let ghost before = self.text();
        let chunk_chars: usize = chunk.unicode_len();
        if chunk_chars >= self.max_chars {
            self.segments.clear();
            self.segments.push_back(tail_chars(chunk, self.max_chars).to_owned());
            self.chars = self.max_chars;
            proof {
                let whole = before + chunk@;
                assert(self.segments@.drop_last() == Seq::<String>::empty());
                assert(joined(Seq::<String>::empty()) == Seq::<char>::empty());
                assert(self.text() == newest_chars(chunk@, self.max_chars as int));
                assert(newest_chars(whole, self.max_chars as int) == newest_chars(
                    chunk@,
                    self.max_chars as int,
                ));
            }
            return ;
        }
        let room: usize = self.max_chars - self.chars;
        if chunk_chars > room {
            self.trim(chunk_chars - room);
        }
        let ghost segments = self.segments@;
        self.segments.push_back(chunk.to_owned());
        self.chars = self.chars + chunk_chars;
        proof {
            let whole = before + chunk@;
            assert(self.segments@.drop_last() == segments);
            assert(self.text() == joined(segments) + chunk@);
            assert(self.text() == newest_chars(whole, self.max_chars as int));
        }
    }

    /// Drops the oldest `overflow` characters.
    fn trim(&mut self, overflow: usize)
        requires
            old(self).well_formed(),
            overflow <= old(self).text().len(),
        ensures
            final(self).well_formed(),
            final(self).limit() == old(self).limit(),
            final(self).text() == old(self).text().skip(overflow as int),
    {
        let ghost target = self.text().skip(overflow as int);
        let mut overflow: usize = overflow;
        while overflow > 0
            invariant
                self.well_formed(),
                self.limit() == old(self).limit(),
                overflow <= self.text().len(),
                self.text().skip(overflow as int) == target,
            decreases overflow, self.segments@.len(),
        {
            let ghost segments = self.segments@;
            proof {
                if segments.len() > 0 {
                    lemma_joined_front(segments);
                }
            }
            let front = match self.segments.pop_front() {
                Some(front) => front,
                None => return ,
            };
            assert(self.segments@ == segments.drop_first());
            let front_chars: usize = front.as_str().unicode_len();
            if front_chars <= overflow {
                self.chars = self.chars - front_chars;
                assert(joined(segments).skip(overflow as int) == self.text().skip(
                    overflow - front_chars,
                ));
                overflow = overflow - front_chars;
            } else {
                let trimmed = tail_chars(front.as_str(), front_chars - overflow).to_owned();
                self.segments.push_front(trimmed);
                self.chars = self.chars - overflow;
                proof {
                    lemma_joined_front(self.segments@);
                    assert(self.segments@.drop_first() == segments.drop_first());
                    assert(self.text() == joined(segments).skip(overflow as int));
                }
                overflow = 0;
                assert(self.text().skip(0) == self.text());
            }
        }
        assert(self.text().skip(0) == self.text());
    }

    /// The number of characters held.
    pub fn chars(&self) -> (count: usize)
        requires
            self.well_formed(),
        ensures
            count == self.text().len(),
            count <= self.limit(),
    {
        self.chars
    }

    /// The number of bytes held.
    pub fn bytes(&self) -> (count: usize)
        ensures
            count == capped(encode_utf8(self.text()).len() as int),
    {
        let mut count: usize = 0;
        let mut index: usize = 0;
        assert(self.segments@.take(0) == Seq::<String>::empty());
        while index < self.segments.len()
            invariant
                index <= self.segments@.len(),
                count == capped(encode_utf8(joined(self.segments@.take(index as int))).len() as int),
            decreases self.segments@.len() - index,
        {
            count = count.saturating_add(byte_length(self.segments[index].as_str()));
            proof {
                let longer = self.segments@.take(index + 1);
                assert(longer.drop_last() == self.segments@.take(index as int));
                lemma_encode_concat(joined(longer.drop_last()), longer.last()@);
            }
            index = index + 1;
        }
        assert(self.segments@.take(index as int) == self.segments@);
        count
    }

    /// The number of bytes allocated for the text.
    pub fn allocated_bytes(&self) -> (count: usize)
        ensures
            count >= capped(encode_utf8(self.text()).len() as int),
    {
        let mut count: usize = 0;
        let mut index: usize = 0;
        assert(self.segments@.take(0) == Seq::<String>::empty());
        while index < self.segments.len()
            invariant
                index <= self.segments@.len(),
                count >= capped(encode_utf8(joined(self.segments@.take(index as int))).len() as int),
            decreases self.segments@.len() - index,
        {
            count = count.saturating_add(self.segments[index].capacity());
            proof {
                let longer = self.segments@.take(index + 1);
                assert(longer.drop_last() == self.segments@.take(index as int));
                lemma_encode_concat(joined(longer.drop_last()), longer.last()@);
            }
            index = index + 1;
        }
        assert(self.segments@.take(index as int) == self.segments@);
        count
    }

    /// The text held, in one piece.
    pub fn to_string_value(&self) -> (text: String)
        ensures
            text@ == self.text(),
    {
        let mut text = String::new();
        let mut index: usize = 0;
        assert(self.segments@.take(0) == Seq::<String>::empty());
        while index < self.segments.len()
            invariant
                index <= self.segments@.len(),
                text@ == joined(self.segments@.take(index as int)),
            decreases self.segments@.len() - index,
        {
            text.append(self.segments[index].as_str());
            proof {
                let longer = self.segments@.take(index + 1);
                assert(longer.drop_last() == self.segments@.take(index as int));
            }
            index = index + 1;
        }
        assert(self.segments@.take(index as int) == self.segments@);
        text
    }
}

/// Dropping old text early changes nothing: the newest characters of what was kept and a new
/// chunk are the newest characters of everything.
pub proof fn law_window_keeps_the_newest_of_everything(
    text: Seq<char>,
    chunk: Seq<char>,
    max_chars: int,
)
    requires
        max_chars >= 0,
    ensures
        newest_chars(newest_chars(text, max_chars) + chunk, max_chars) == newest_chars(
            text + chunk,
            max_chars,
        ),
        newest_chars(text, max_chars).len() <= max_chars,
{
    let kept = newest_chars(text, max_chars) + chunk;
    assert(newest_chars(kept, max_chars) == newest_chars(text + chunk, max_chars));
}

/// The number of characters in a list of numbered chunks.
pub open spec fn total_chars(entries: Seq<(u64, Seq<char>)>) -> int
    decreases entries.len(),
{
    if entries.len() == 0 {
        0
    } else {
        entries[0].1.len() + total_chars(entries.drop_first())
    }
}

/// The chunks that stay: whole chunks go, oldest first, while there are too many characters.
/// The newest chunk always stays.
pub open spec fn newest_entries(
    entries: Seq<(u64, Seq<char>)>,
    max_chars: int,
) -> Seq<(u64, Seq<char>)>
    decreases entries.len(),
{
    if total_chars(entries) > max_chars && entries.len() > 1 {
        newest_entries(entries.drop_first(), max_chars)
    } else {
        entries
    }
}

proof fn lemma_total_push(entries: Seq<(u64, Seq<char>)>, entry: (u64, Seq<char>))
    ensures
        total_chars(entries.push(entry)) == total_chars(entries) + entry.1.len(),
        total_chars(entries) >= 0,
    decreases entries.len(),
{
    let longer = entries.push(entry);
    if entries.len() == 0 {
        assert(longer.drop_first() == Seq::<(u64, Seq<char>)>::empty());
        assert(total_chars(longer.drop_first()) == 0);
    } else {
        assert(longer.drop_first() == entries.drop_first().push(entry));
        lemma_total_push(entries.drop_first(), entry);
    }
}

/// The newest chunks of a stream with their sequence numbers, for replay.
#[derive(Debug)]
pub struct ChunkWindow {
    max_chars: usize,
    chars: usize,
    entries: VecDeque<(u64, String)>,
}

/// The numbers and texts of stored chunks.
pub open spec fn entries_of(stored: Seq<(u64, String)>) -> Seq<(u64, Seq<char>)> {
    Seq::new(stored.len(), |i: int| (stored[i].0, stored[i].1@))
}

impl ChunkWindow {
    /// The most characters that the window keeps.
    pub closed spec fn limit(&self) -> int {
        self.max_chars as int
    }

    /// The chunks that the window holds, oldest first.
    pub closed spec fn entries(&self) -> Seq<(u64, Seq<char>)> {
        entries_of(self.entries@)
    }

    pub closed spec fn well_formed(&self) -> bool {
        &&& self.chars == total_chars(self.entries())
        &&& self.chars <= self.max_chars
    }

    pub fn new(max_chars: usize) -> (window: Self)
        ensures
            window.well_formed(),
            window.limit() == max_chars,
            window.entries() == Seq::<(u64, Seq<char>)>::empty(),
    {
        let window = ChunkWindow { max_chars, chars: 0, entries: VecDeque::new() };
        assert(window.entries() == Seq::<(u64, Seq<char>)>::empty());
        window
    }

    /// Appends a chunk, cut to its newest characters where it is too long by itself, and lets
    /// the oldest chunks go.
    pub fn push(&mut self, seq: u64, chunk: &str)
        requires
            old(self).well_formed(),
        ensures
            final(self).well_formed(),
            final(self).limit() == old(self).limit(),
            final(self).entries() == newest_entries(
                old(self).entries().push((seq, newest_chars(chunk@, old(self).limit()))),
                old(self).limit(),
            ),
    {
        let stored: String = tail_chars(chunk, self.max_chars).to_owned();
        let stored_chars: usize = stored.as_str().unicode_len();
        let ghost entry = (seq, stored@);
        let ghost target = newest_entries(
            self.entries().push(entry),
            self.max_chars as int,
        );
        while self.entries.len() > 0 && self.chars > self.max_chars - stored_chars
            invariant
                self.well_formed(),
                self.max_chars == old(self).max_chars,
                stored_chars <= self.max_chars,
                entry == (seq, stored@),
                stored_chars == stored@.len(),
                newest_entries(self.entries().push(entry), self.max_chars as int) == target,
            decreases self.entries@.len(),
        {
            let ghost before = self.entries();
            proof {
                lemma_total_push(before, entry);
                lemma_total_push(before.drop_first(), entry);
                assert(before.push(entry).drop_first() == before.drop_first().push(entry));
            }
            if let Some(front) = self.entries.pop_front() {
                assert(self.entries() == before.drop_first());
                self.chars = self.chars - front.1.as_str().unicode_len();
            }
        }
        let ghost kept = self.entries();
        proof {
            lemma_total_push(kept, entry);
        }
        self.entries.push_back((seq, stored));
        self.chars = self.chars + stored_chars;
        assert(self.entries() == kept.push(entry));
    }

    /// The number of characters held.
    pub fn chars(&self) -> (count: usize)
        requires
            self.well_formed(),
        ensures
            count == total_chars(self.entries()),
            count <= self.limit(),
    {
        self.chars
    }

    /// The number of bytes held.
    pub fn bytes(&self) -> (count: usize)
        ensures
            count == capped(total_bytes(self.entries())),
    {
        let mut count: usize = 0;
        let mut index: usize = self.entries.len();
        assert(self.entries().skip(index as int) == Seq::<(u64, Seq<char>)>::empty());
        while index > 0
            invariant
                index <= self.entries@.len(),
                count == capped(total_bytes(self.entries().skip(index as int))),
            decreases index,
        {
            index = index - 1;
            count = count.saturating_add(byte_length(self.entries[index].1.as_str()));
            assert(self.entries().skip(index as int).drop_first() == self.entries().skip(index + 1));
        }
        assert(self.entries().skip(0) == self.entries());
        count
    }

    /// The number of bytes allocated for the chunks' text.
    pub fn allocated_bytes(&self) -> (count: usize)
        ensures
            count >= capped(total_bytes(self.entries())),
    {
        let mut count: usize = 0;
        let mut index: usize = self.entries.len();
        assert(self.entries().skip(index as int) == Seq::<(u64, Seq<char>)>::empty());
        while index > 0
            invariant
                index <= self.entries@.len(),
                count >= capped(total_bytes(self.entries().skip(index as int))),
            decreases index,
        {
            index = index - 1;
            count = count.saturating_add(self.entries[index].1.capacity());
            assert(self.entries().skip(index as int).drop_first() == self.entries().skip(index + 1));
        }
        assert(self.entries().skip(0) == self.entries());
        count
    }

    /// The chunks held, oldest first.
    pub fn iter(&self) -> (chunks: Vec<(u64, &str)>)
        ensures
            chunks@.len() == self.entries().len(),
            forall|i: int|
                0 <= i < chunks@.len() ==> (#[trigger] chunks@[i]).0 == self.entries()[i].0
                    && chunks@[i].1@ == self.entries()[i].1,
    {
        let mut chunks: Vec<(u64, &str)> = Vec::new();
        let mut index: usize = 0;
        while index < self.entries.len()
            invariant
                index <= self.entries@.len(),
                chunks@.len() == index,
                forall|i: int|
                    0 <= i < index ==> (#[trigger] chunks@[i]).0 == self.entries()[i].0
                        && chunks@[i].1@ == self.entries()[i].1,
            decreases self.entries@.len() - index,
        {
            chunks.push((self.entries[index].0, self.entries[index].1.as_str()));
            index = index + 1;
        }
        chunks
    }

    /// The number of the newest chunk.
    pub fn last_seq(&self) -> (seq: Option<u64>)
        ensures
            seq == (if self.entries().len() == 0 {
                None::<u64>
            } else {
                Some(self.entries().last().0)
            }),
    {
        let count: usize = self.entries.len();
        if count == 0 {
            None
        } else {
            Some(self.entries[count - 1].0)
        }
    }
}

/// The number of bytes in a list of numbered chunks.
pub open spec fn total_bytes(entries: Seq<(u64, Seq<char>)>) -> int
    decreases entries.len(),
{
    if entries.len() == 0 {
        0
    } else {
        encode_utf8(entries[0].1).len() + total_bytes(entries.drop_first())
    }
}

/// The chunks kept are the newest ones, within the limit, and no more chunks were dropped than
/// had to be: with the next older one there would be too many characters.
pub proof fn law_window_keeps_the_newest_chunks(entries: Seq<(u64, Seq<char>)>, max_chars: int)
    requires
        entries.len() > 0,
        entries.last().1.len() <= max_chars,
    ensures
        ({
            let kept = newest_entries(entries, max_chars);
            let dropped = entries.len() - kept.len();
            &&& 0 <= dropped < entries.len()
            &&& kept == entries.skip(dropped)
            &&& total_chars(kept) <= max_chars
            &&& dropped > 0 ==> total_chars(entries.skip(dropped - 1)) > max_chars
        }),
    decreases entries.len(),
{
    if total_chars(entries) > max_chars && entries.len() > 1 {
        law_window_keeps_the_newest_chunks(entries.drop_first(), max_chars);
        let kept = newest_entries(entries, max_chars);
        let dropped = entries.len() - kept.len();
        assert(entries.drop_first().skip(dropped - 1) == entries.skip(dropped));
        if dropped == 1 {
            assert(entries.skip(0) == entries);
        } else {
            assert(entries.drop_first().skip(dropped - 2) == entries.skip(dropped - 1));
        }
    } else {
        assert(entries.skip(0) == entries);
        if entries.len() == 1 {
            assert(entries.drop_first() == Seq::<(u64, Seq<char>)>::empty());
            assert(total_chars(entries.drop_first()) == 0);
        }
    }
}

} // verus!
