//! Snapshots cut to size for listings.
//!
//! A listing holds the snapshots of all sessions in one response, so each is cut down: first the
//! pending operations go, then the end of the data. Data is cut only where no control sequence
//! is open: a terminal that is shown an unfinished sequence would swallow what comes next.

use vstd::prelude::*;
use vstd::utf8::encode_scalar;

use crate::protocol::{operations, Operation, PendingOp, ScreenImage, TerminalSnapshot};
use crate::text::{decimal, write_decimal};

verus! {

/// The longest serialised snapshot in a listing, in bytes.
pub const LIST_SNAPSHOT_MAX_BYTES: usize = 65_536;

/// Where a terminal stands within a control sequence.
#[derive(Clone, Copy, PartialEq, Eq, Structural)]
pub enum EscapeState {
    /// Outside of any sequence.
    Ground,
    /// Behind `ESC`.
    Escape,
    /// Behind `ESC` and intermediate characters.
    Intermediate,
    /// Within `ESC [ ...`.
    Control,
    /// Within a string such as `ESC ] ...`.
    Text,
    /// Behind an `ESC` within a string.
    TextEscape,
}

/// The state behind `c`.
pub open spec fn escape_step(state: EscapeState, c: char) -> EscapeState {
    if c == '\u{18}' || c == '\u{1a}' {
        EscapeState::Ground
    } else {
        match state {
            EscapeState::Ground => if c == '\u{1b}' {
                EscapeState::Escape
            } else {
                EscapeState::Ground
            },
            EscapeState::Escape => after_escape(c),
            EscapeState::Intermediate => if c == '\u{1b}' {
                EscapeState::Escape
            } else if '0' > c {
                EscapeState::Intermediate
            } else {
                EscapeState::Ground
            },
            EscapeState::Control => if c == '\u{1b}' {
                EscapeState::Escape
            } else if '@' <= c && c <= '~' {
                EscapeState::Ground
            } else {
                EscapeState::Control
            },
            EscapeState::Text => if c == '\u{1b}' {
                EscapeState::TextEscape
            } else if c == '\u{7}' {
                EscapeState::Ground
            } else {
                EscapeState::Text
            },
            EscapeState::TextEscape => if c == '\\' {
                EscapeState::Ground
            } else {
                after_escape(c)
            },
        }
    }
}

/// The state behind `ESC` and `c`.
pub open spec fn after_escape(c: char) -> EscapeState {
    if c == '[' {
        EscapeState::Control
    } else if c == ']' || c == 'P' || c == 'X' || c == '^' || c == '_' {
        EscapeState::Text
    } else if c == '\u{1b}' || ' ' > c {
        EscapeState::Escape
    } else if '0' > c {
        EscapeState::Intermediate
    } else {
        EscapeState::Ground
    }
}

/// The state behind a text.
pub open spec fn escape_state(text: Seq<char>) -> EscapeState
    decreases text.len(),
{
    if text.len() == 0 {
        EscapeState::Ground
    } else {
        escape_step(escape_state(text.drop_last()), text.last())
    }
}

fn next_escape_state(state: EscapeState, c: char) -> (next: EscapeState)
    ensures
        next == escape_step(state, c),
{
    if c == '\u{18}' || c == '\u{1a}' {
        return EscapeState::Ground;
    }
    match state {
        EscapeState::Ground => if c == '\u{1b}' {
            EscapeState::Escape
        } else {
            EscapeState::Ground
        },
        EscapeState::Escape => state_after_escape(c),
        EscapeState::Intermediate => if c == '\u{1b}' {
            EscapeState::Escape
        } else if '0' > c {
            EscapeState::Intermediate
        } else {
            EscapeState::Ground
        },
        EscapeState::Control => if c == '\u{1b}' {
            EscapeState::Escape
        } else if '@' <= c && c <= '~' {
            EscapeState::Ground
        } else {
            EscapeState::Control
        },
        EscapeState::Text => if c == '\u{1b}' {
            EscapeState::TextEscape
        } else if c == '\u{7}' {
            EscapeState::Ground
        } else {
            EscapeState::Text
        },
        EscapeState::TextEscape => if c == '\\' {
            EscapeState::Ground
        } else {
            state_after_escape(c)
        },
    }
}

fn state_after_escape(c: char) -> (next: EscapeState)
    ensures
        next == after_escape(c),
{
    if c == '[' {
        EscapeState::Control
    } else if c == ']' || c == 'P' || c == 'X' || c == '^' || c == '_' {
        EscapeState::Text
    } else if c == '\u{1b}' || ' ' > c {
        EscapeState::Escape
    } else if '0' > c {
        EscapeState::Intermediate
    } else {
        EscapeState::Ground
    }
}

/// The bytes of a character within a JSON string.
pub open spec fn json_char_length(c: char) -> int {
    if c == '"' || c == '\\' || c == '\u{8}' || c == '\u{9}' || c == '\u{a}' || c == '\u{c}' || c
        == '\u{d}' {
        2
    } else if ' ' > c {
        6
    } else {
        encode_scalar(c as u32).len() as int
    }
}

/// The bytes of a text within a JSON string, without the quotation marks.
pub open spec fn json_text_length(text: Seq<char>) -> int
    decreases text.len(),
{
    if text.len() == 0 {
        0
    } else {
        json_text_length(text.drop_last()) + json_char_length(text.last())
    }
}

/// The bytes of a number in JSON.
pub open spec fn json_number_length(number: int) -> int {
    decimal(number as nat).len() as int
}

/// The bytes of a pending operation: `{"type":"data","data":"..."}` or
/// `{"type":"resize","cols":...,"rows":...}`.
pub open spec fn json_operation_length(operation: Operation) -> int {
    match operation {
        Operation::Data { data } => 23 + json_text_length(data) + 2,
        Operation::Resize { cols, rows } => 24 + json_number_length(cols as int) + 8
            + json_number_length(rows as int) + 1,
    }
}

/// The bytes of a list of pending operations, each with the comma that follows it.
pub open spec fn json_operations_length(pending: Seq<Operation>) -> int
    decreases pending.len(),
{
    if pending.len() == 0 {
        0
    } else {
        json_operations_length(pending.drop_last()) + json_operation_length(pending.last()) + 1
    }
}

/// The bytes of a snapshot, serialised as
/// `{"version":...,"data":"...","cols":...,"rows":...,"pending":[...]}`.
pub open spec fn json_length(image: ScreenImage) -> int {
    11 + json_number_length(image.version as int) + 9 + json_text_length(image.data) + 9
        + json_number_length(image.cols as int) + 8 + json_number_length(image.rows as int) + 12
        + json_operations_length(image.pending) - (if image.pending.len() > 0 {
        1int
    } else {
        0int
    }) + 2
}

/// A snapshot without its data and its pending operations.
pub open spec fn shell(image: ScreenImage) -> ScreenImage {
    ScreenImage { data: Seq::empty(), pending: Seq::empty(), ..image }
}

/// Whether the first `length` characters of `data` leave no control sequence open and take no
/// more than `budget` bytes.
pub open spec fn cuts_cleanly(data: Seq<char>, budget: int, length: int) -> bool {
    &&& escape_state(data.take(length)) == EscapeState::Ground
    &&& json_text_length(data.take(length)) <= budget
}

/// The largest length up to `limit` at which the data cuts cleanly.
pub open spec fn clean_cut(data: Seq<char>, budget: int, limit: int) -> int
    decreases limit,
{
    if limit <= 0 {
        0
    } else if cuts_cleanly(data, budget, limit) {
        limit
    } else {
        clean_cut(data, budget, limit - 1)
    }
}

/// A snapshot cut down to `max_bytes`: whole where it fits, else without its pending operations,
/// else with the longest part of its data that cuts cleanly, else nothing.
pub open spec fn bounded(image: ScreenImage, max_bytes: int) -> Option<ScreenImage> {
    let baseline = ScreenImage { pending: Seq::empty(), ..image };
    let budget = max_bytes - json_length(shell(image));
    if json_length(image) <= max_bytes {
        Some(image)
    } else if json_length(baseline) <= max_bytes {
        Some(baseline)
    } else if budget >= 0 {
        Some(
            ScreenImage {
                data: image.data.take(clean_cut(image.data, budget, image.data.len() as int)),
                ..baseline
            },
        )
    } else {
        None
    }
}

proof fn lemma_text_length_grows(text: Seq<char>, length: int)
    requires
        0 <= length <= text.len(),
    ensures
        0 <= json_text_length(text.take(length)) <= json_text_length(text),
    decreases text.len(),
{
    if length < text.len() {
        lemma_text_length_grows(text.drop_last(), length);
        assert(text.drop_last().take(length) == text.take(length));
    } else {
        assert(text.take(length) == text);
        if text.len() > 0 {
            lemma_text_length_grows(text.drop_last(), text.len() - 1);
            assert(text.drop_last().take(text.len() - 1) == text.drop_last());
        }
    }
}

proof fn lemma_operations_length_grows(pending: Seq<Operation>, count: int)
    requires
        0 <= count <= pending.len(),
    ensures
        0 <= json_operations_length(pending.take(count)) <= json_operations_length(pending),
        count < pending.len() ==> json_operations_length(pending.take(count)) <
            json_operations_length(pending),
    decreases pending.len(),
{
    if pending.len() > 0 {
        match pending.last() {
            Operation::Data { data } => {
                lemma_text_length_grows(data, 0);
                assert(data.take(0) == Seq::<char>::empty());
            },
            Operation::Resize { .. } => {},
        }
    }
    if count < pending.len() {
        lemma_operations_length_grows(pending.drop_last(), count);
        assert(pending.drop_last().take(count) == pending.take(count));
    } else {
        assert(pending.take(count) == pending);
        if pending.len() > 0 {
            lemma_operations_length_grows(pending.drop_last(), pending.len() - 1);
            assert(pending.drop_last().take(pending.len() - 1) == pending.drop_last());
        }
    }
}

proof fn lemma_clean_cut(data: Seq<char>, budget: int, limit: int)
    requires
        0 <= limit <= data.len(),
        0 <= budget,
    ensures
        0 <= clean_cut(data, budget, limit) <= limit,
        cuts_cleanly(data, budget, clean_cut(data, budget, limit)),
        forall|longer: int|
            clean_cut(data, budget, limit) < longer <= limit ==> !#[trigger] cuts_cleanly(
                data,
                budget,
                longer,
            ),
    decreases limit,
{
    if limit > 0 && !cuts_cleanly(data, budget, limit) {
        lemma_clean_cut(data, budget, limit - 1);
    } else if limit == 0 {
        assert(data.take(0) == Seq::<char>::empty());
    }
}

/// A snapshot that fits stays as it is, and one that fits without its pending operations loses only
/// these. A snapshot that was cut down fits, and its data, where it was cut, leaves no control
/// sequence open and is as long as it can be.
pub proof fn law_bounded_snapshot_fits_and_is_clean(image: ScreenImage, max_bytes: int)
    ensures
        bounded(image, max_bytes) matches Some(kept) ==> {
            &&& json_length(kept) <= max_bytes
            &&& kept.version == image.version && kept.cols == image.cols && kept.rows == image.rows
            &&& kept.pending == image.pending || kept.pending.len() == 0
            &&& kept.data.len() <= image.data.len()
            &&& kept.data == image.data.take(kept.data.len() as int)
            &&& kept.data != image.data ==> escape_state(kept.data) == EscapeState::Ground
                && forall|longer: int|
                kept.data.len() < longer <= image.data.len() ==> !#[trigger] cuts_cleanly(
                    image.data,
                    max_bytes - json_length(shell(image)),
                    longer,
                )
        },
        bounded(image, max_bytes) is None <==> json_length(shell(image)) > max_bytes,
        json_length(image) <= max_bytes ==> bounded(image, max_bytes) == Some(image),
        json_length(image) > max_bytes && json_length(
            ScreenImage { pending: Seq::empty(), ..image },
        ) <= max_bytes ==> bounded(image, max_bytes) == Some(
            ScreenImage { pending: Seq::empty(), ..image },
        ),
{
    let data = image.data;
    let budget = max_bytes - json_length(shell(image));
    lemma_text_length_grows(data, 0);
    lemma_operations_length_grows(image.pending, 0);
    assert(data.take(0) == Seq::<char>::empty());
    assert(image.pending.take(0) == Seq::<Operation>::empty());
    assert(data.take(data.len() as int) == data);
    if budget >= 0 {
        lemma_clean_cut(data, budget, data.len() as int);
    }
}

/// Whether `after` is what remains of `before` once `cost` is spent.
spec fn spent(before: int, after: Option<usize>, cost: int) -> bool {
    match after {
        Some(left) => left == before - cost,
        None => before < cost,
    }
}

fn char_length(c: char) -> (length: usize)
    ensures
        length == json_char_length(c),
{
    let code: u32 = c as u32;
    if c == '"' || c == '\\' || c == '\u{8}' || c == '\u{9}' || c == '\u{a}' || c == '\u{c}' || c
        == '\u{d}' {
        2
    } else if code < 0x20 {
        6
    } else if code <= 0x7f {
        1
    } else if code <= 0x7ff {
        2
    } else if code <= 0xffff {
        3
    } else {
        4
    }
}

fn spend_text(budget: usize, text: &str) -> (left: Option<usize>)
    ensures
        spent(budget as int, left, json_text_length(text@)),
{
    let mut left: usize = budget;
    for c in iter: text.chars()
        invariant
            iter.seq() == text@,
            left == budget - json_text_length(text@.take(iter.index())),
    {
        let ghost longer = text@.take(iter.index() + 1);
        proof {
            assert(longer.drop_last() == text@.take(iter.index()));
            assert(longer.last() == c);
            lemma_text_length_grows(text@, iter.index() + 1);
        }
        match left.checked_sub(char_length(c)) {
            Some(rest) => {
                left = rest;
            },
            None => {
                return None;
            },
        }
    }
    assert(text@.take(text@.len() as int) == text@);
    Some(left)
}

fn spend_number(budget: usize, number: u32) -> (left: Option<usize>)
    ensures
        spent(budget as int, left, json_number_length(number as int)),
{
    let length: usize = write_decimal(number as u128).as_str().unicode_len();
    budget.checked_sub(length)
}

fn spend_operation(budget: usize, operation: &PendingOp) -> (left: Option<usize>)
    ensures
        spent(budget as int, left, json_operation_length(operation@)),
{
    match operation {
        PendingOp::Data { data } => {
            proof {
                lemma_text_length_grows(data@, 0);
                assert(data@.take(0) == Seq::<char>::empty());
            }
            match budget.checked_sub(25) {
                Some(rest) => spend_text(rest, data.as_str()),
                None => None,
            }
        },
        PendingOp::Resize { cols, rows } => {
            match budget.checked_sub(33) {
                Some(rest) => match spend_number(rest, *cols as u32) {
                    Some(rest) => spend_number(rest, *rows as u32),
                    None => None,
                },
                None => None,
            }
        },
    }
}

fn spend_operations(budget: usize, pending: &Vec<PendingOp>) -> (left: Option<usize>)
    ensures
        spent(
            budget as int,
            left,
            json_operations_length(operations(pending@)) - (if pending@.len() > 0 {
                1int
            } else {
                0int
            }),
        ),
{
    let ghost all = operations(pending@);
    let mut left: usize = budget;
    let mut index: usize = 0;
    assert(all.take(0) == Seq::<Operation>::empty());
    while index < pending.len()
        invariant
            index <= pending@.len(),
            all == operations(pending@),
            left == budget - json_operations_length(all.take(index as int)) + (if index > 0 {
                1int
            } else {
                0int
            }),
        decreases pending@.len() - index,
    {
        proof {
            let longer = all.take(index + 1);
            assert(longer.drop_last() == all.take(index as int));
            lemma_operations_length_grows(all, index + 1);
            assert(longer.last() == pending@[index as int]@);
        }
        let comma: usize = if index > 0 {
            1
        } else {
            0
        };
        match left.checked_sub(comma) {
            Some(rest) => match spend_operation(rest, &pending[index]) {
                Some(rest) => {
                    left = rest;
                },
                None => {
                    return None;
                },
            },
            None => {
                proof {
                    lemma_operation_length_is_positive(pending@[index as int]@);
                }
                return None;
            },
        }
        index = index + 1;
    }
    assert(all.take(index as int) == all);
    Some(left)
}

proof fn lemma_operation_length_is_positive(operation: Operation)
    ensures
        json_operation_length(operation) > 0,
{
    match operation {
        Operation::Data { data } => {
            lemma_text_length_grows(data, 0);
            assert(data.take(0) == Seq::<char>::empty());
        },
        Operation::Resize { .. } => {},
    }
}

fn spend_shell(budget: usize, snapshot: &TerminalSnapshot) -> (left: Option<usize>)
    ensures
        spent(budget as int, left, json_length(shell(snapshot@))),
{
    match budget.checked_sub(51) {
        Some(rest) => match spend_number(rest, snapshot.version) {
            Some(rest) => match spend_number(rest, snapshot.cols as u32) {
                Some(rest) => spend_number(rest, snapshot.rows as u32),
                None => None,
            },
            None => None,
        },
        None => None,
    }
}

/// The longest part of `data` that leaves no control sequence open and takes no more than
/// `budget` bytes.
fn cut_cleanly(data: &str, budget: usize) -> (prefix: String)
    ensures
        prefix@ == data@.take(clean_cut(data@, budget as int, data@.len() as int)),
{
    let total: usize = data.unicode_len();
    let mut state = EscapeState::Ground;
    let mut left: usize = budget;
    let mut read: usize = 0;
    let mut clean: usize = 0;
    let mut fits = true;
    let ghost whole = data@;
    proof {
        lemma_clean_cut(whole, budget as int, whole.len() as int);
        assert(whole.take(0) == Seq::<char>::empty());
    }
    for c in iter: data.chars()
        invariant
            iter.seq() == whole,
            whole == data@,
            total == whole.len(),
            clean <= read <= iter.index(),
            fits ==> read == iter.index(),
            fits ==> left == budget - json_text_length(whole.take(iter.index())),
            fits ==> state == escape_state(whole.take(iter.index())),
            !fits ==> json_text_length(whole.take(iter.index())) > budget,
            cuts_cleanly(whole, budget as int, clean as int),
            forall|longer: int|
                clean < longer <= iter.index() ==> !#[trigger] cuts_cleanly(
                    whole,
                    budget as int,
                    longer,
                ),
    {
        let ghost longer = whole.take(iter.index() + 1);
        proof {
            assert(longer.drop_last() == whole.take(iter.index()));
            assert(longer.last() == c);
            lemma_text_length_grows(longer, iter.index());
            assert(longer.take(iter.index()) == whole.take(iter.index()));
        }
        if fits {
            match left.checked_sub(char_length(c)) {
                Some(rest) => {
                    left = rest;
                    read = read + 1;
                    state = next_escape_state(state, c);
                    if state == EscapeState::Ground {
                        clean = read;
                    }
                },
                None => {
                    fits = false;
                },
            }
        }
    }
    let prefix = data.substring_char(0, clean);
    assert(prefix@ == whole.take(clean as int));
    prefix.to_owned()
}

/// Cuts a snapshot down so that it takes no more than `max_bytes` when serialised.
pub fn bound_for_list(snapshot: TerminalSnapshot, max_bytes: usize) -> (kept: Option<
    TerminalSnapshot,
>)
    ensures
        match (kept, bounded(snapshot@, max_bytes as int)) {
            (Some(cut), Some(image)) => cut@ == image,
            (None, None) => true,
            _ => false,
        },
{
    proof {
        lemma_text_length_grows(snapshot@.data, 0);
        lemma_operations_length_grows(snapshot@.pending, 0);
        assert(snapshot@.data.take(0) == Seq::<char>::empty());
        assert(snapshot@.pending.take(0) == Seq::<Operation>::empty());
    }
    let budget: usize = match spend_shell(max_bytes, &snapshot) {
        Some(budget) => budget,
        None => return None,
    };
    let none: Vec<PendingOp> = Vec::new();
    assert(operations(none@) == Seq::<Operation>::empty());
    match spend_text(budget, snapshot.data.as_str()) {
        Some(left) => {
            if spend_operations(left, &snapshot.pending).is_some() {
                Some(snapshot)
            } else {
                Some(
                    TerminalSnapshot {
                        version: snapshot.version,
                        data: snapshot.data,
                        cols: snapshot.cols,
                        rows: snapshot.rows,
                        pending: none,
                    },
                )
            }
        },
        None => Some(
            TerminalSnapshot {
                version: snapshot.version,
                data: cut_cleanly(snapshot.data.as_str(), budget),
                cols: snapshot.cols,
                rows: snapshot.rows,
                pending: none,
            },
        ),
    }
}

} // verus!
