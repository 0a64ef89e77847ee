//! The newest output of one stream of a process, numbered, for replay in pages.

use std::collections::VecDeque;
use vstd::prelude::*;
use vstd::utf8::encode_utf8;

use crate::bounds::total_bytes;
use crate::structured_v2::{
    chunk_views, Page, ReplayStream, StreamChunk, RUN_LOG_MAX_BYTES,
};
use crate::text::byte_length;

verus! {

/// The newest chunks that take no more than `max_bytes` together.
pub open spec fn newest_within(chunks: Seq<(u64, Seq<char>)>, max_bytes: int) -> Seq<
    (u64, Seq<char>),
>
    decreases chunks.len(),
{
    if chunks.len() > 0 && total_bytes(chunks) > max_bytes {
        newest_within(chunks.drop_first(), max_bytes)
    } else {
        chunks
    }
}

/// How many chunks from the front fit into `budget` bytes.
pub open spec fn fitting(chunks: Seq<(u64, Seq<char>)>, budget: int) -> int
    decreases chunks.len(),
{
    if chunks.len() == 0 || encode_utf8(chunks[0].1).len() > budget {
        0
    } else {
        1 + fitting(chunks.drop_first(), budget - encode_utf8(chunks[0].1).len())
    }
}

/// What a log is.
#[verifier::ext_equal]
pub struct LogModel {
    /// The chunks that are kept, oldest first.
    pub chunks: Seq<(u64, Seq<char>)>,
    /// The number of the newest chunk.
    pub seq: u64,
    /// Whether chunks have been dropped.
    pub truncated: bool,
}

impl LogModel {
    /// A log to which nothing has been written.
    pub open spec fn empty() -> LogModel {
        LogModel { chunks: Seq::empty(), seq: 0, truncated: false }
    }

    /// The log with one more chunk.
    pub open spec fn appended(self, data: Seq<char>) -> LogModel {
        let seq = (self.seq + 1) as u64;
        let all = self.chunks.push((seq, data));
        let kept = newest_within(all, RUN_LOG_MAX_BYTES as int);
        LogModel { chunks: kept, seq, truncated: self.truncated || kept.len() < all.len() }
    }

    /// The number of the newest chunk that is not kept any more, 0 where all are.
    pub open spec fn floor(self) -> int {
        self.seq - self.chunks.len()
    }

    /// Whether a client that has seen the chunks up to `after` must start over: what follows is
    /// no longer kept, or has never been.
    pub open spec fn needs_reset(self, after: u64) -> bool {
        after > self.seq || after < self.floor()
    }

    /// Where a page for a client that has seen the chunks up to `after` starts.
    pub open spec fn cursor(self, after: u64) -> int {
        if self.needs_reset(after) {
            self.floor()
        } else {
            after as int
        }
    }

    /// The chunks behind a cursor.
    pub open spec fn behind(self, cursor: int) -> Seq<(u64, Seq<char>)> {
        self.chunks.skip(cursor - self.floor())
    }

    /// The number of chunks on a page of up to `budget` bytes.
    pub open spec fn page_length(self, after: u64, budget: int) -> int {
        fitting(self.behind(self.cursor(after)), budget)
    }

    /// A page of up to `budget` bytes for a client that has seen the chunks up to `after`.
    pub open spec fn page(self, after: u64, budget: int) -> Page {
        let length = self.page_length(after, budget);
        let reached = self.cursor(after) + length;
        Page {
            chunks: self.behind(self.cursor(after)).take(length),
            next_seq: if length == 0 {
                after
            } else {
                reached as u64
            },
            complete: reached == self.seq,
            reset_required: self.needs_reset(after),
        }
    }

    /// Whether every chunk has at most so many bytes.
    pub open spec fn has_chunks_within(self, max_bytes: int) -> bool {
        forall|i: int|
            0 <= i < self.chunks.len() ==> encode_utf8((#[trigger] self.chunks[i]).1).len()
                <= max_bytes
    }

    /// What holds of every log: the chunks are numbered without a gap up to the newest, they fit,
    /// and some are missing exactly if some were dropped.
    pub open spec fn valid(self) -> bool {
        &&& self.chunks.len() <= self.seq
        &&& total_bytes(self.chunks) <= RUN_LOG_MAX_BYTES
        &&& self.truncated <==> self.floor() > 0
        &&& forall|i: int|
            0 <= i < self.chunks.len() ==> (#[trigger] self.chunks[i]).0 == self.floor() + i + 1
    }
}

proof fn lemma_total_bytes_push(chunks: Seq<(u64, Seq<char>)>, chunk: (u64, Seq<char>))
    ensures
        total_bytes(chunks.push(chunk)) == total_bytes(chunks) + encode_utf8(chunk.1).len(),
        total_bytes(chunks) >= 0,
    decreases chunks.len(),
{
    let longer = chunks.push(chunk);
    if chunks.len() == 0 {
        assert(longer.drop_first() == Seq::<(u64, Seq<char>)>::empty());
        assert(total_bytes(longer.drop_first()) == 0);
    } else {
        assert(longer.drop_first() == chunks.drop_first().push(chunk));
        lemma_total_bytes_push(chunks.drop_first(), chunk);
    }
}

proof fn lemma_newest_within(chunks: Seq<(u64, Seq<char>)>, max_bytes: int)
    requires
        max_bytes >= 0,
    ensures
        ({
            let kept = newest_within(chunks, max_bytes);
            let dropped = chunks.len() - kept.len();
            &&& 0 <= dropped <= chunks.len()
            &&& kept == chunks.skip(dropped)
            &&& total_bytes(kept) <= max_bytes
            &&& dropped > 0 ==> total_bytes(chunks.skip(dropped - 1)) > max_bytes
        }),
    decreases chunks.len(),
{
    if chunks.len() > 0 && total_bytes(chunks) > max_bytes {
        lemma_newest_within(chunks.drop_first(), max_bytes);
        let kept = newest_within(chunks, max_bytes);
        let dropped = chunks.len() - kept.len();
        assert(chunks.drop_first().skip(dropped - 1) == chunks.skip(dropped));
        if dropped == 1 {
            assert(chunks.skip(0) == chunks);
        } else {
            assert(chunks.drop_first().skip(dropped - 2) == chunks.skip(dropped - 1));
        }
    } else {
        assert(chunks.skip(0) == chunks);
    }
}

/// However much is written to a log, it keeps no more than its limit, numbered without a gap up to
/// the newest chunk, and it says so once it has dropped something.
pub proof fn law_log_stays_bounded(log: LogModel, data: Seq<char>)
    requires
        log.valid(),
        log.seq < u64::MAX,
    ensures
        log.appended(data).valid(),
        log.appended(data).seq == log.seq + 1,
{
    let after = log.appended(data);
    let all = log.chunks.push(((log.seq + 1) as u64, data));
    lemma_newest_within(all, RUN_LOG_MAX_BYTES as int);
    let gone = all.len() - after.chunks.len();
    assert forall|i: int| 0 <= i < after.chunks.len() implies (#[trigger] after.chunks[i]).0
        == after.floor() + i + 1 by {
        assert(after.chunks[i] == all[gone + i]);
        if gone + i < log.chunks.len() {
            assert(all[gone + i] == log.chunks[gone + i]);
        }
    }
}

proof fn lemma_fitting(chunks: Seq<(u64, Seq<char>)>, budget: int)
    requires
        budget >= 0,
    ensures
        0 <= fitting(chunks, budget) <= chunks.len(),
        total_bytes(chunks.take(fitting(chunks, budget))) <= budget,
    decreases chunks.len(),
{
    assert(chunks.take(0) == Seq::<(u64, Seq<char>)>::empty());
    if chunks.len() > 0 && encode_utf8(chunks[0].1).len() <= budget {
        let length = fitting(chunks, budget);
        lemma_fitting(chunks.drop_first(), budget - encode_utf8(chunks[0].1).len());
        assert(chunks.take(length).drop_first() == chunks.drop_first().take(length - 1));
    }
}

/// A page never hides a gap: it starts right behind what the client has seen, or says that the
/// client must start over; its chunks follow each other without a gap up to the one that it names
/// last, or it names what the client asked for if it has none; it is called complete exactly when
/// nothing newer is kept; and it fits its budget.
pub proof fn law_pages_hide_no_gap(log: LogModel, after: u64, budget: int)
    requires
        log.valid(),
        budget >= 0,
    ensures
        ({
            let page = log.page(after, budget);
            let start = log.cursor(after);
            &&& !page.reset_required ==> start == after
            &&& page.reset_required <==> after > log.seq || after < log.floor()
            &&& page.next_seq == (if page.chunks.len() == 0 {
                after as int
            } else {
                start + page.chunks.len()
            })
            &&& forall|i: int|
                0 <= i < page.chunks.len() ==> (#[trigger] page.chunks[i]).0 == start + i + 1
            &&& page.complete <==> start + page.chunks.len() == log.seq
            &&& total_bytes(page.chunks) <= budget
        }),
{
    let start = log.cursor(after);
    let behind = log.behind(start);
    let length = log.page_length(after, budget);
    lemma_fitting(behind, budget);
    let page = log.page(after, budget);
    assert forall|i: int| 0 <= i < page.chunks.len() implies (#[trigger] page.chunks[i]).0 == start + i
        + 1 by {
        assert(page.chunks[i] == log.chunks[start - log.floor() + i]);
    }
}

/// Paging on from where a page ends joins without loss: two pages in a row are the beginning of
/// what is kept behind the client's position, and all of it once the second is complete. It needs
/// a new start only if the first page asked for one and held nothing.
pub proof fn law_pages_join(log: LogModel, after: u64, first_budget: int, second_budget: int)
    requires
        log.valid(),
        first_budget >= 0,
        second_budget >= 0,
    ensures
        ({
            let first = log.page(after, first_budget);
            let second = log.page(first.next_seq, second_budget);
            let behind = log.behind(log.cursor(after));
            let joined = first.chunks + second.chunks;
            &&& second.reset_required ==> first.reset_required && first.chunks.len() == 0
            &&& joined == behind.take(joined.len() as int)
            &&& second.complete ==> joined == behind
        }),
{
    let start = log.cursor(after);
    let behind = log.behind(start);
    let first = log.page(after, first_budget);
    let second = log.page(first.next_seq, second_budget);
    lemma_fitting(behind, first_budget);
    assert(log.cursor(first.next_seq) == start + first.chunks.len());
    let rest = log.behind(log.cursor(first.next_seq));
    lemma_fitting(rest, second_budget);
    assert(rest == behind.skip(first.chunks.len() as int));
    let joined = first.chunks + second.chunks;
    assert(joined == behind.take(joined.len() as int));
    if second.complete {
        assert(joined.len() == behind.len());
        assert(behind.take(behind.len() as int) == behind);
    }
}

/// Paging gets on: as long as something is left and the next chunk fits the budget, a page holds
/// it.
pub proof fn law_paging_gets_on(log: LogModel, after: u64, budget: int)
    requires
        log.valid(),
        !log.page(after, budget).complete,
        encode_utf8(log.behind(log.cursor(after))[0].1).len() <= budget,
    ensures
        log.page(after, budget).chunks.len() > 0,
        log.page(after, budget).next_seq > log.cursor(after),
{
    let behind = log.behind(log.cursor(after));
    assert(budget >= 0);
    lemma_fitting(behind, budget);
    if behind.len() > 0 {
        lemma_fitting(behind.drop_first(), budget - encode_utf8(behind[0].1).len());
    }
}

/// Chunks that are written with at most so many bytes stay so.
pub proof fn law_chunks_stay_within(log: LogModel, data: Seq<char>, max_bytes: int)
    requires
        log.has_chunks_within(max_bytes),
        encode_utf8(data).len() <= max_bytes,
    ensures
        log.appended(data).has_chunks_within(max_bytes),
{
    let after = log.appended(data);
    let all = log.chunks.push(((log.seq + 1) as u64, data));
    lemma_newest_within(all, RUN_LOG_MAX_BYTES as int);
    let gone = all.len() - after.chunks.len();
    assert forall|i: int| 0 <= i < after.chunks.len() implies encode_utf8(
        (#[trigger] after.chunks[i]).1,
    ).len() <= max_bytes by {
        assert(after.chunks[i] == all[gone + i]);
        if gone + i < log.chunks.len() {
            assert(all[gone + i] == log.chunks[gone + i]);
        }
    }
}

/// The newest output of one stream.
pub struct Log {
    chunks: VecDeque<StreamChunk>,
    size: usize,
    seq: u64,
    truncated: bool,
}

impl View for Log {
    type V = LogModel;

    closed spec fn view(&self) -> LogModel {
        LogModel {
            chunks: chunk_views(self.chunks@),
            seq: self.seq,
            truncated: self.truncated,
        }
    }
}

impl Log {
    pub closed spec fn well_formed(&self) -> bool {
        &&& self@.valid()
        &&& self.size == total_bytes(self@.chunks)
    }

    /// Every log in order is valid.
    pub proof fn law_log_is_valid(&self)
        requires
            self.well_formed(),
        ensures
            self@.valid(),
    {
    }

    pub fn new() -> (log: Self)
        ensures
            log.well_formed(),
            log@ == LogModel::empty(),
    {
        let log = Log { chunks: VecDeque::new(), size: 0, seq: 0, truncated: false };
        assert(log@.chunks == Seq::<(u64, Seq<char>)>::empty());
        log
    }

    /// Whether another chunk can still be numbered.
    pub fn can_append(&self) -> (can: bool)
        ensures
            can == (self@.seq < u64::MAX),
    {
        self.seq < u64::MAX
    }

    /// The number of the newest chunk.
    pub fn last_seq(&self) -> (seq: u64)
        ensures
            seq == self@.seq,
    {
        self.seq
    }

    /// Whether chunks have been dropped.
    pub fn is_truncated(&self) -> (truncated: bool)
        ensures
            truncated == self@.truncated,
    {
        self.truncated
    }

    /// The number of bytes kept.
    pub fn bytes(&self) -> (bytes: usize)
        requires
            self.well_formed(),
        ensures
            bytes == total_bytes(self@.chunks),
            bytes <= RUN_LOG_MAX_BYTES,
    {
        self.size
    }

    /// Writes a chunk and lets the oldest ones go. Returns its number.
    pub fn append(&mut self, data: String) -> (seq: u64)
        requires
            old(self).well_formed(),
            old(self)@.seq < u64::MAX,
        ensures
            final(self).well_formed(),
            final(self)@ == old(self)@.appended(data@),
            seq == old(self)@.seq + 1,
    {
        let length: usize = byte_length(data.as_str());
        let ghost chunk = ((self.seq + 1) as u64, data@);
        let ghost before = self@;
        let ghost all = before.chunks.push(chunk);
        let ghost target = newest_within(all, RUN_LOG_MAX_BYTES as int);
        proof {
            lemma_newest_within(all, RUN_LOG_MAX_BYTES as int);
            lemma_total_bytes_push(before.chunks, chunk);
            assert(before.chunks.skip(0) == before.chunks);
        }
        let ghost mut dropped: int = 0;
        while self.chunks.len() > 0 && (length > RUN_LOG_MAX_BYTES || self.size > RUN_LOG_MAX_BYTES
            - length)
            invariant
                0 <= dropped <= before.chunks.len(),
                before.valid(),
                before == old(self)@,
                self.seq == before.seq,
                self.truncated == (before.truncated || dropped > 0),
                chunk_views(self.chunks@) == before.chunks.skip(dropped),
                self.size == total_bytes(before.chunks.skip(dropped)),
                self.size <= RUN_LOG_MAX_BYTES,
                length == encode_utf8(chunk.1).len(),
                newest_within(before.chunks.skip(dropped).push(chunk), RUN_LOG_MAX_BYTES as int)
                    == target,
            decreases self.chunks@.len(),
        {
            let ghost rest = before.chunks.skip(dropped);
            proof {
                lemma_total_bytes_push(rest, chunk);
                lemma_total_bytes_push(rest.drop_first(), chunk);
                assert(rest.push(chunk).drop_first() == rest.drop_first().push(chunk));
                assert(rest.drop_first() == before.chunks.skip(dropped + 1));
            }
            if let Some(old_chunk) = self.chunks.pop_front() {
                assert(old_chunk@ == rest[0]);
                assert(chunk_views(self.chunks@) == rest.drop_first());
                self.size = self.size - byte_length(old_chunk.data.as_str());
                self.truncated = true;
            }
            proof {
                dropped = dropped + 1;
            }
        }
        self.seq = self.seq + 1;
        let ghost rest = before.chunks.skip(dropped);
        proof {
            lemma_total_bytes_push(rest, chunk);
        }
        if length > RUN_LOG_MAX_BYTES {
            self.truncated = true;
            proof {
                assert(rest == Seq::<(u64, Seq<char>)>::empty());
                assert(rest.push(chunk).drop_first() == Seq::<(u64, Seq<char>)>::empty());
                assert(newest_within(Seq::<(u64, Seq<char>)>::empty(), RUN_LOG_MAX_BYTES as int)
                    == Seq::<(u64, Seq<char>)>::empty());
                assert(target == Seq::<(u64, Seq<char>)>::empty());
            }
        } else {
            self.chunks.push_back(StreamChunk { seq: self.seq, data });
            self.size = self.size + length;
            proof {
                assert(chunk_views(self.chunks@) == rest.push(chunk));
                assert(target == rest.push(chunk));
            }
        }
        proof {
            assert(self@.chunks == target);
            assert(self@ == before.appended(data@));
            law_log_stays_bounded(before, data@);
        }
        self.seq
    }

    /// A page for a client that has seen the chunks up to `after`, of at most `remaining` bytes,
    /// which are then less by what the page holds.
    pub fn page(&self, after: u64, remaining: &mut usize) -> (page: ReplayStream)
        requires
            self.well_formed(),
        ensures
            page@ == self@.page(after, *old(remaining) as int),
            *final(remaining) == *old(remaining) - total_bytes(page@.chunks),
    {
        let ghost budget = *remaining as int;
        let floor: u64 = self.seq - self.chunks.len() as u64;
        let reset_required = after > self.seq || after < floor;
        let cursor: u64 = if reset_required {
            floor
        } else {
            after
        };
        let total: usize = self.chunks.len();
        let from: usize = (cursor - floor) as usize;
        let mut at: usize = from;
        let mut chunks: Vec<StreamChunk> = Vec::new();
        let ghost behind = self@.behind(cursor as int);
        let ghost length = self@.page_length(after, budget);
        let mut full = false;
        assert(behind == self@.chunks.skip(from as int));
        assert(behind.take(0) == Seq::<(u64, Seq<char>)>::empty());
        assert(behind.skip(0) == behind);
        while at < total && !full
            invariant
                total == self.chunks@.len(),
                from <= at <= total,
                behind == self@.chunks.skip(from as int),
                chunk_views(chunks@) == behind.take(at - from),
                *remaining == budget - total_bytes(behind.take(at - from)),
                length == at - from + (if full {
                    0
                } else {
                    fitting(behind.skip(at - from), *remaining as int)
                }),
            decreases total - at, !full as int,
        {
            let size: usize = byte_length(self.chunks[at].data.as_str());
            let ghost rest = behind.skip(at - from);
            assert(rest[0] == self.chunks@[at as int]@);
            if size > *remaining {
                full = true;
            } else {
                proof {
                    assert(rest.drop_first() == behind.skip(at - from + 1));
                    assert(behind.take(at - from + 1) == behind.take(at - from).push(rest[0]));
                    lemma_total_bytes_push(behind.take(at - from), rest[0]);
                }
                *remaining = *remaining - size;
                chunks.push(self.chunks[at].clone());
                assert(chunk_views(chunks@) == behind.take(at - from + 1));
                at = at + 1;
            }
        }
        let reached: u64 = floor + at as u64;
        assert(at - from == length);
        let page = ReplayStream {
            chunks,
            next_seq: if at == from {
                after
            } else {
                reached
            },
            complete: reached == self.seq,
            reset_required,
        };
        assert(page@ == self@.page(after, budget));
        page
    }
}

impl Default for Log {
    fn default() -> (log: Self)
        ensures
            log.well_formed(),
            log@ == LogModel::empty(),
    {
        Log::new()
    }
}

} // verus!
