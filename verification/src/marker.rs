//! Removal of the private exit marker of a launched command.
//!
//! The shell that launches a command prints `\x1eWAND_CLI_EXIT:<token>:<code>\x1f` when the
//! command ends. The marker is taken out before text reaches the journal and the screen. It may
//! be cut over several chunks, so text that may turn out to be part of it is held back.

use vstd::prelude::*;

use crate::text::{
    chars_of, find, find_from, is_digit, lemma_find_from, occurs_at, stands_at, text_between,
};

verus! {

/// What every marker starts with.
pub const MARKER_START: &'static str = "\u{1e}WAND_CLI_EXIT:";

/// What ends a marker.
pub const MARKER_END: char = '\u{1f}';

/// What the marker of `token` starts with, up to the exit code.
pub open spec fn marker_prefix(token: Seq<char>) -> Seq<char> {
    MARKER_START@ + token + seq![':']
}

/// Whether a marker with this status ends the command: one to three decimal digits.
pub open spec fn is_exit_code(status: Seq<char>) -> bool {
    &&& 1 <= status.len() <= 3
    &&& forall|i: int| 0 <= i < status.len() ==> is_digit(#[trigger] status[i])
}

/// Whether the last `length` characters of `text` are the first `length` of `prefix`.
pub open spec fn ends_with_start_of(text: Seq<char>, prefix: Seq<char>, length: int) -> bool {
    &&& 0 <= length <= text.len()
    &&& length <= prefix.len()
    &&& text.skip(text.len() - length) == prefix.take(length)
}

/// The largest `length` up to `limit` for which the text ends with the start of the prefix.
pub open spec fn longest_overlap(text: Seq<char>, prefix: Seq<char>, limit: int) -> int
    decreases limit,
{
    if limit <= 0 {
        0
    } else if ends_with_start_of(text, prefix, limit) {
        limit
    } else {
        longest_overlap(text, prefix, limit - 1)
    }
}

/// The number of characters at the end of `text` that may be the beginning of a marker.
pub open spec fn held_back(text: Seq<char>, prefix: Seq<char>) -> int {
    longest_overlap(
        text,
        prefix,
        if text.len() < prefix.len() - 1 {
            text.len() as int
        } else {
            prefix.len() - 1
        },
    )
}

/// What comes of taking in a text: the part that is shown, the part that waits, and whether the
/// marker has been found and removed.
pub struct Stripped {
    pub visible: Seq<char>,
    pub pending: Seq<char>,
    pub completed: bool,
}

/// Strips `text`, everything not shown yet, of the first marker with this prefix.
pub open spec fn strip(prefix: Seq<char>, text: Seq<char>) -> Stripped {
    let kept = text.len() - held_back(text, prefix);
    let without_marker = Stripped {
        visible: text.take(kept),
        pending: text.skip(kept),
        completed: false,
    };
    match find_from(text, prefix, 0) {
        None => without_marker,
        Some(start) => {
            let status_at = start + prefix.len();
            match find_from(text, seq![MARKER_END], status_at) {
                None => Stripped {
                    visible: text.take(start),
                    pending: text.skip(start),
                    completed: false,
                },
                Some(end) => if is_exit_code(text.subrange(status_at, end)) {
                    Stripped {
                        visible: text.take(start) + text.skip(end + 1),
                        pending: Seq::empty(),
                        completed: true,
                    }
                } else {
                    without_marker
                },
            }
        },
    }
}

/// Whether a complete marker with this prefix fills `text[start..end]`.
pub open spec fn marker_between(prefix: Seq<char>, text: Seq<char>, start: int, end: int) -> bool {
    &&& occurs_at(text, prefix, start)
    &&& start + prefix.len() < end <= text.len()
    &&& text[end - 1] == MARKER_END
    &&& is_exit_code(text.subrange(start + prefix.len(), end - 1))
}

/// No text is lost: what is shown, followed by what waits, is what was taken in, save for one
/// complete marker where the stripper has done its work.
pub proof fn law_only_the_marker_is_removed(prefix: Seq<char>, text: Seq<char>)
    requires
        prefix.len() > 0,
    ensures
        !strip(prefix, text).completed ==> strip(prefix, text).visible + strip(prefix, text).pending
            == text,
        strip(prefix, text).completed ==> strip(prefix, text).pending.len() == 0 && exists|
            start: int,
            end: int,
        | #[trigger]
            marker_between(prefix, text, start, end) && strip(prefix, text).visible == text.take(
                start,
            ) + text.skip(end),
{
    lemma_find_from(text, prefix, 0);
    lemma_overlap_bounds(
        text,
        prefix,
        if text.len() < prefix.len() - 1 {
            text.len() as int
        } else {
            prefix.len() - 1
        },
    );
    let kept = text.len() - held_back(text, prefix);
    assert(text.take(kept) + text.skip(kept) == text);
    if let Some(start) = find_from(text, prefix, 0) {
        let status_at = start + prefix.len();
        lemma_find_from(text, seq![MARKER_END], status_at);
        assert(text.take(start) + text.skip(start) == text);
        if let Some(end) = find_from(text, seq![MARKER_END], status_at) {
            assert(text.subrange(end, end + 1)[0] == MARKER_END);
            assert(is_exit_code(text.subrange(status_at, end)) ==> marker_between(
                prefix,
                text,
                start,
                end + 1,
            ));
        }
    }
}

/// What waits is always the beginning of a marker: a part of the prefix, or all of it and more.
pub proof fn law_only_a_possible_marker_waits(prefix: Seq<char>, text: Seq<char>)
    requires
        prefix.len() > 0,
    ensures
        ({
            let pending = strip(prefix, text).pending;
            ||| pending.len() < prefix.len() && pending == prefix.take(pending.len() as int)
            ||| prefix.len() <= pending.len() && pending.take(prefix.len() as int) == prefix
        }),
{
    lemma_find_from(text, prefix, 0);
    lemma_overlap_bounds(
        text,
        prefix,
        if text.len() < prefix.len() - 1 {
            text.len() as int
        } else {
            prefix.len() - 1
        },
    );
    if let Some(start) = find_from(text, prefix, 0) {
        assert(text.skip(start).take(prefix.len() as int) == text.subrange(
            start,
            start + prefix.len(),
        ));
    }
    assert(Seq::<char>::empty() == prefix.take(0));
}

/// What is shown when `chunks` are taken in one after another.
pub open spec fn shown_in_chunks(
    prefix: Seq<char>,
    pending: Seq<char>,
    completed: bool,
    chunks: Seq<Seq<char>>,
) -> Seq<char>
    decreases chunks.len(),
{
    if chunks.len() == 0 {
        Seq::empty()
    } else if completed {
        chunks[0] + shown_in_chunks(prefix, pending, true, chunks.drop_first())
    } else {
        let step = strip(prefix, pending + chunks[0]);
        step.visible + shown_in_chunks(prefix, step.pending, step.completed, chunks.drop_first())
    }
}

/// The text with one marker in it.
pub open spec fn with_marker(
    prefix: Seq<char>,
    before: Seq<char>,
    status: Seq<char>,
    after: Seq<char>,
) -> Seq<char> {
    before + prefix + status + seq![MARKER_END] + after
}

/// The marker is removed and everything around it is shown, however the text is cut into
/// chunks: inside the prefix, inside the code, or anywhere else.
pub proof fn law_the_marker_is_found_however_cut(
    prefix: Seq<char>,
    before: Seq<char>,
    status: Seq<char>,
    after: Seq<char>,
    chunks: Seq<Seq<char>>,
)
    requires
        prefix.len() > 0,
        is_exit_code(status),
        chunks.flatten() == with_marker(prefix, before, status, after),
        find_from(with_marker(prefix, before, status, after), prefix, 0) == Some(
            before.len() as int,
        ),
    ensures
        shown_in_chunks(prefix, Seq::empty(), false, chunks) == before + after,
{
    let whole = with_marker(prefix, before, status, after);
    assert(whole.subrange(0, 0) == Seq::<char>::empty());
    assert(whole.skip(0) == whole);
    lemma_shown(prefix, before, status, after, 0, 0, chunks);
    assert(before.skip(0) == before);
}

proof fn lemma_overlap_bounds(text: Seq<char>, prefix: Seq<char>, limit: int)
    requires
        0 <= limit <= text.len(),
        limit <= prefix.len(),
    ensures
        0 <= longest_overlap(text, prefix, limit) <= limit,
        ends_with_start_of(text, prefix, longest_overlap(text, prefix, limit)),
    decreases limit,
{
    if limit > 0 && !ends_with_start_of(text, prefix, limit) {
        lemma_overlap_bounds(text, prefix, limit - 1);
    } else if limit == 0 {
        assert(text.skip(text.len() as int) == prefix.take(0));
    }
}

proof fn lemma_overlap_is_longest(text: Seq<char>, prefix: Seq<char>, limit: int, length: int)
    requires
        0 <= length <= limit,
        ends_with_start_of(text, prefix, length),
    ensures
        longest_overlap(text, prefix, limit) >= length,
    decreases limit,
{
    if limit > length {
        lemma_overlap_is_longest(text, prefix, limit - 1, length);
    }
}

/// One step on the part `from..to` of a text with a marker, none of which precedes the marker's
/// end by being shown too early.
proof fn lemma_strip_part(
    prefix: Seq<char>,
    before: Seq<char>,
    status: Seq<char>,
    after: Seq<char>,
    from: int,
    to: int,
)
    requires
        prefix.len() > 0,
        is_exit_code(status),
        find_from(with_marker(prefix, before, status, after), prefix, 0) == Some(
            before.len() as int,
        ),
        0 <= from <= before.len(),
        from <= to <= with_marker(prefix, before, status, after).len(),
    ensures
        ({
            let whole = with_marker(prefix, before, status, after);
            let end = before.len() + prefix.len() + status.len() + 1;
            let step = strip(prefix, whole.subrange(from, to));
            let shown = from + step.visible.len();
            if to >= end {
                &&& step.completed
                &&& step.visible == before.skip(from) + whole.subrange(end as int, to)
            } else {
                &&& !step.completed
                &&& shown <= before.len()
                &&& shown <= to
                &&& step.visible == whole.subrange(from, shown)
                &&& step.pending == whole.subrange(shown, to)
            }
        }),
{
    let whole = with_marker(prefix, before, status, after);
    let text = whole.subrange(from, to);
    let first = before.len() as int;
    let status_end = first + prefix.len() + status.len();
    lemma_find_from(whole, prefix, 0);
    lemma_find_from(text, prefix, 0);
    let limit = if text.len() < prefix.len() - 1 {
        text.len() as int
    } else {
        prefix.len() - 1
    };
    lemma_overlap_bounds(text, prefix, limit);
    assert forall|q: int| #[trigger] occurs_at(text, prefix, q) implies occurs_at(
        whole,
        prefix,
        from + q,
    ) by {
        assert(text.subrange(q, q + prefix.len()) == whole.subrange(
            from + q,
            from + q + prefix.len(),
        ));
    }
    assert forall|q: int| occurs_at(text, prefix, q) implies q >= first - from by {
        assert(occurs_at(whole, prefix, from + q));
    }
    if to >= first + prefix.len() {
        assert(text.subrange(first - from, first - from + prefix.len()) == whole.subrange(
            first,
            first + prefix.len(),
        ));
        assert(occurs_at(text, prefix, first - from));
        assert(find_from(text, prefix, 0) == Some(first - from));
        let status_at = first - from + prefix.len();
        lemma_find_from(text, seq![MARKER_END], status_at);
        assert forall|q: int|
            status_at <= q && #[trigger] occurs_at(text, seq![MARKER_END], q) implies q >= status_end
            - from by {
            assert(text.subrange(q, q + 1)[0] == MARKER_END);
            if q < status_end - from {
                assert(status[q - status_at] == text[q]);
                assert(is_digit(status[q - status_at]));
            }
        }
        if to > status_end {
            assert(text.subrange(status_end - from, status_end - from + 1) == seq![MARKER_END]);
            assert(occurs_at(text, seq![MARKER_END], status_end - from));
            assert(text.subrange(status_at, status_end - from) == status);
            assert(text.take(first - from) == before.skip(from));
            assert(text.skip(status_end - from + 1) == whole.subrange(status_end + 1, to));
        } else {
            if let Some(end) = find_from(text, seq![MARKER_END], status_at) {
                assert(occurs_at(text, seq![MARKER_END], end));
            }
            assert(text.take(first - from) == whole.subrange(from, first));
            assert(text.skip(first - from) == whole.subrange(first, to));
        }
    } else {
        if let Some(at) = find_from(text, prefix, 0) {
            assert(occurs_at(text, prefix, at));
        }
        if to > first {
            let length = to - first;
            assert(text.skip(text.len() - length) == prefix.take(length)) by {
                assert forall|i: int| 0 <= i < length implies text.skip(text.len() - length)[i]
                    == prefix.take(length)[i] by {
                    assert(whole[first + i] == prefix[i]);
                }
            }
            lemma_overlap_is_longest(text, prefix, limit, length);
        }
        let kept = text.len() - held_back(text, prefix);
        assert(text.take(kept) == whole.subrange(from, from + kept));
        assert(text.skip(kept) == whole.subrange(from + kept, to));
    }
}

proof fn lemma_shown(
    prefix: Seq<char>,
    before: Seq<char>,
    status: Seq<char>,
    after: Seq<char>,
    from: int,
    to: int,
    chunks: Seq<Seq<char>>,
)
    requires
        prefix.len() > 0,
        is_exit_code(status),
        find_from(with_marker(prefix, before, status, after), prefix, 0) == Some(
            before.len() as int,
        ),
        0 <= from <= before.len(),
        from <= to <= before.len() + prefix.len() + status.len(),
        chunks.flatten() == with_marker(prefix, before, status, after).skip(to),
    ensures
        shown_in_chunks(
            prefix,
            with_marker(prefix, before, status, after).subrange(from, to),
            false,
            chunks,
        ) == before.skip(from) + after,
    decreases chunks.len(),
{
    let whole = with_marker(prefix, before, status, after);
    if chunks.len() > 0 {
        let rest = chunks.drop_first();
        assert(chunks.flatten() == chunks[0] + rest.flatten());
        let next = to + chunks[0].len();
        assert(whole.skip(to).take(chunks[0].len() as int) == chunks[0]);
        assert(whole.subrange(from, to) + chunks[0] == whole.subrange(from, next));
        assert((chunks[0] + rest.flatten()).len() == whole.skip(to).len());
        assert((chunks[0] + rest.flatten()).skip(chunks[0].len() as int) == rest.flatten());
        assert(whole.skip(to).skip(chunks[0].len() as int) == whole.skip(next));
        lemma_strip_part(prefix, before, status, after, from, next);
        let step = strip(prefix, whole.subrange(from, next));
        let end = before.len() + prefix.len() + status.len() + 1;
        if next >= end {
            lemma_shown_after(prefix, step.pending, rest);
            assert(whole.subrange(end as int, next) + whole.skip(next) == after);
            assert(before.skip(from) + whole.subrange(end as int, next) + whole.skip(next)
                == before.skip(from) + after);
        } else {
            let shown = from + step.visible.len();
            lemma_shown(prefix, before, status, after, shown, next, rest);
            assert(whole.subrange(from, shown) + (before.skip(shown) + after) == before.skip(from)
                + after) by {
                assert(whole.subrange(from, shown) + before.skip(shown) == before.skip(from));
            }
        }
    }
}

proof fn lemma_shown_after(prefix: Seq<char>, pending: Seq<char>, chunks: Seq<Seq<char>>)
    ensures
        shown_in_chunks(prefix, pending, true, chunks) == chunks.flatten(),
    decreases chunks.len(),
{
    if chunks.len() > 0 {
        lemma_shown_after(prefix, pending, chunks.drop_first());
    }
}

/// What has come of taking in `chunks` one after another.
pub open spec fn stripped_through(prefix: Seq<char>, chunks: Seq<Seq<char>>) -> Stripped
    decreases chunks.len(),
{
    if chunks.len() == 0 {
        Stripped { visible: Seq::empty(), pending: Seq::empty(), completed: false }
    } else {
        let before = stripped_through(prefix, chunks.drop_last());
        if before.completed {
            Stripped { visible: before.visible + chunks.last(), ..before }
        } else {
            let step = strip(prefix, before.pending + chunks.last());
            Stripped { visible: before.visible + step.visible, ..step }
        }
    }
}

/// What has been shown by the time all chunks are taken in is what each of them showed in turn.
pub proof fn law_shown_text_accumulates(prefix: Seq<char>, chunks: Seq<Seq<char>>)
    ensures
        stripped_through(prefix, chunks).visible == shown_in_chunks(
            prefix,
            Seq::empty(),
            false,
            chunks,
        ),
{
    lemma_shown_split(prefix, chunks, chunks.len() as int);
    assert(chunks.take(chunks.len() as int) == chunks);
    assert(chunks.skip(chunks.len() as int) == Seq::<Seq<char>>::empty());
    let through = stripped_through(prefix, chunks);
    assert(through.visible + Seq::<char>::empty() == through.visible);
}

proof fn lemma_shown_split(prefix: Seq<char>, chunks: Seq<Seq<char>>, count: int)
    requires
        0 <= count <= chunks.len(),
    ensures
        ({
            let through = stripped_through(prefix, chunks.take(count));
            shown_in_chunks(prefix, Seq::empty(), false, chunks) == through.visible
                + shown_in_chunks(prefix, through.pending, through.completed, chunks.skip(count))
        }),
    decreases count,
{
    if count == 0 {
        assert(chunks.skip(0) == chunks);
        assert(chunks.take(0) == Seq::<Seq<char>>::empty());
        let all = shown_in_chunks(prefix, Seq::empty(), false, chunks);
        assert(Seq::<char>::empty() + all == all);
    } else {
        lemma_shown_split(prefix, chunks, count - 1);
        let before = stripped_through(prefix, chunks.take(count - 1));
        let through = stripped_through(prefix, chunks.take(count));
        assert(chunks.take(count).drop_last() == chunks.take(count - 1));
        let rest = chunks.skip(count - 1);
        assert(rest[0] == chunks[count - 1]);
        assert(rest.drop_first() == chunks.skip(count));
        let later = shown_in_chunks(
            prefix,
            through.pending,
            through.completed,
            chunks.skip(count),
        );
        if before.completed {
            assert(before.visible + (rest[0] + later) == before.visible + rest[0] + later);
        } else {
            let step = strip(prefix, before.pending + rest[0]);
            assert(before.visible + (step.visible + later) == before.visible + step.visible
                + later);
        }
    }
}

/// The number of characters at the end of `value` that may be the beginning of a marker.
fn longest_prefix_suffix(value: &[char], prefix: &[char]) -> (length: usize)
    ensures
        length == held_back(value@, prefix@),
        length <= value@.len(),
{
    if prefix.len() == 0 {
        return 0;
    }
    let mut length: usize = if value.len() < prefix.len() - 1 {
        value.len()
    } else {
        prefix.len() - 1
    };
    while length > 0
        invariant
            length <= value@.len(),
            length < prefix@.len(),
            held_back(value@, prefix@) == longest_overlap(value@, prefix@, length as int),
        decreases length,
    {
        let head = vstd::slice::slice_subrange(prefix, 0, length);
        let total: usize = value.len();
        if stands_at(value, head, total - length) {
            assert(value@.skip(value@.len() - length) == value@.subrange(
                value@.len() - length,
                value@.len() as int,
            ));
            assert(head@ == prefix@.take(length as int));
            return length;
        }
        proof {
            assert(value@.skip(value@.len() - length) == value@.subrange(
                value@.len() - length,
                value@.len() as int,
            ));
            assert(head@ == prefix@.take(length as int));
        }
        length = length - 1;
    }
    0
}

/// Whether `chars[from..to]` is one to three decimal digits.
fn exit_code_between(chars: &[char], from: usize, to: usize) -> (found: bool)
    requires
        from <= to <= chars@.len(),
    ensures
        found == is_exit_code(chars@.subrange(from as int, to as int)),
{
    let ghost status = chars@.subrange(from as int, to as int);
    if to == from || to - from > 3 {
        return false;
    }
    let mut index: usize = from;
    while index < to
        invariant
            from <= index <= to <= chars@.len(),
            status == chars@.subrange(from as int, to as int),
            forall|i: int| 0 <= i < index - from ==> is_digit(#[trigger] status[i]),
        decreases to - index,
    {
        if chars[index] < '0' || chars[index] > '9' {
            assert(!is_digit(status[index - from]));
            return false;
        }
        assert(status[index - from] == chars@[index as int]);
        index = index + 1;
    }
    true
}

/// A stateful stripper for the marker of one launch.
#[derive(Debug)]
pub struct MarkerStripper {
    prefix: Vec<char>,
    pending: Vec<char>,
    completed: bool,
}

impl MarkerStripper {
    /// What the marker starts with.
    pub closed spec fn prefix(&self) -> Seq<char> {
        self.prefix@
    }

    /// The text that waits to be shown or removed.
    pub closed spec fn pending(&self) -> Seq<char> {
        self.pending@
    }

    /// Whether the marker has been removed already.
    pub closed spec fn completed(&self) -> bool {
        self.completed
    }

    pub open spec fn well_formed(&self) -> bool {
        &&& self.prefix().len() > 0
        &&& self.completed() ==> self.pending().len() == 0
    }

    pub fn new(token: &str) -> (stripper: Self)
        ensures
            stripper.well_formed(),
            stripper.prefix() == marker_prefix(token@),
            stripper.pending() == Seq::<char>::empty(),
            !stripper.completed(),
    {
        let mut prefix: Vec<char> = chars_of(MARKER_START);
        let mut rest: Vec<char> = chars_of(token);
        prefix.append(&mut rest);
        prefix.push(':');
        assert(prefix@ == marker_prefix(token@));
        MarkerStripper { prefix, pending: Vec::new(), completed: false }
    }

    pub fn is_completed(&self) -> (completed: bool)
        ensures
            completed == self.completed(),
    {
        self.completed
    }

    /// Takes the next chunk and returns the part of the text that can be shown now.
    pub fn consume(&mut self, chunk: &str) -> (visible: String)
        requires
            old(self).well_formed(),
        ensures
            final(self).well_formed(),
            final(self).prefix() == old(self).prefix(),
            old(self).completed() ==> visible@ == chunk@ && *final(self) == *old(self),
            !old(self).completed() ==> (Stripped {
                visible: visible@,
                pending: final(self).pending(),
                completed: final(self).completed(),
            }) == strip(old(self).prefix(), old(self).pending() + chunk@),
    {
        if self.completed {
            return chunk.to_owned();
        }
        let mut combined: Vec<char> = Vec::new();
        combined.append(&mut self.pending);
        let mut rest: Vec<char> = chars_of(chunk);
        combined.append(&mut rest);
        let ghost text = old(self).pending() + chunk@;
        assert(combined@ == text);
        proof {
            lemma_find_from(text, self.prefix@, 0);
        }
        if let Some(start) = find(combined.as_slice(), self.prefix.as_slice(), 0) {
            let total: usize = combined.len();
            assert(start + self.prefix@.len() <= total);
            let status_at: usize = start + self.prefix.len();
            proof {
                lemma_find_from(text, seq![MARKER_END], status_at as int);
            }
            let end_mark: [char; 1] = [MARKER_END];
            assert(end_mark@ == seq![MARKER_END]);
            match find(combined.as_slice(), &end_mark, status_at) {
                None => {
                    let visible = text_between(combined.as_slice(), 0, start);
                    self.pending = combined.split_off(start);
                    assert(visible@ == text.take(start as int));
                    assert(self.pending@ == text.skip(start as int));
                    return visible;
                },
                Some(end) => {
                    if exit_code_between(combined.as_slice(), status_at, end) {
                        self.completed = true;
                        let mut visible = text_between(combined.as_slice(), 0, start);
                        let tail = text_between(combined.as_slice(), end + 1, total);
                        visible.append(tail.as_str());
                        assert(visible@ == text.take(start as int) + text.skip(end + 1));
                        assert(self.pending@ == Seq::<char>::empty());
                        return visible;
                    }
                },
            }
        }
        let partial: usize = longest_prefix_suffix(combined.as_slice(), self.prefix.as_slice());
        let kept: usize = combined.len() - partial;
        let visible = text_between(combined.as_slice(), 0, kept);
        self.pending = combined.split_off(kept);
        assert(visible@ == text.take(kept as int));
        assert(self.pending@ == text.skip(kept as int));
        visible
    }
}

} // verus!
