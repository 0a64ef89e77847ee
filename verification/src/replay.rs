//! What pending operations stand for: the part of a terminal's feed that came after a baseline.

use vstd::prelude::*;
use vstd::utf8::encode_utf8;

use crate::protocol::{operations, Operation, PendingOp};
use crate::terminal::{grid_cols, grid_rows, TerminalOp};
use crate::text::lemma_encode_concat;

verus! {

/// All the data of a feed.
pub open spec fn fed_bytes(feed: Seq<TerminalOp>) -> Seq<u8>
    decreases feed.len(),
{
    if feed.len() == 0 {
        Seq::empty()
    } else {
        match feed.last() {
            TerminalOp::Data { bytes } => fed_bytes(feed.drop_last()) + bytes,
            _ => fed_bytes(feed.drop_last()),
        }
    }
}

/// A feed with every run of data joined to one piece.
pub open spec fn joined_feed(feed: Seq<TerminalOp>) -> Seq<TerminalOp>
    decreases feed.len(),
{
    if feed.len() == 0 {
        Seq::empty()
    } else {
        with_op(joined_feed(feed.drop_last()), feed.last())
    }
}

/// A joined feed with one more thing done.
pub open spec fn with_op(feed: Seq<TerminalOp>, op: TerminalOp) -> Seq<TerminalOp> {
    match (op, feed.last()) {
        (TerminalOp::Data { bytes }, TerminalOp::Data { bytes: before }) if feed.len() > 0 => {
            feed.drop_last().push(TerminalOp::Data { bytes: before + bytes })
        },
        _ => feed.push(op),
    }
}

/// What a client does to its terminal to replay an operation. A size that there is no room in
/// stands for the nearest one that there is.
pub open spec fn replayed(operation: Operation) -> TerminalOp {
    match operation {
        Operation::Data { data } => TerminalOp::Data { bytes: encode_utf8(data) },
        Operation::Resize { cols, rows } => TerminalOp::Resize {
            rows: grid_rows(rows),
            cols: grid_cols(cols),
        },
    }
}

/// What a client does to its terminal to replay a list of operations.
pub open spec fn replayed_all(pending: Seq<Operation>) -> Seq<TerminalOp> {
    pending.map_values(|operation: Operation| replayed(operation))
}

/// The number of characters in a list of operations.
pub open spec fn pending_chars(pending: Seq<Operation>) -> int
    decreases pending.len(),
{
    if pending.len() == 0 {
        0
    } else {
        pending_chars(pending.drop_last()) + (match pending.last() {
            Operation::Data { data } => data.len() as int,
            Operation::Resize { .. } => 0,
        })
    }
}

/// A list of operations with data behind it; data behind data makes one operation.
pub open spec fn with_data(pending: Seq<Operation>, data: Seq<char>) -> Seq<Operation> {
    match pending.last() {
        Operation::Data { data: before } if pending.len() > 0 => pending.drop_last().push(
            Operation::Data { data: before + data },
        ),
        _ => pending.push(Operation::Data { data }),
    }
}

pub(crate) proof fn lemma_fed_push(feed: Seq<TerminalOp>, op: TerminalOp)
    ensures
        fed_bytes(feed.push(op)) == fed_bytes(feed) + (match op {
            TerminalOp::Data { bytes } => bytes,
            _ => Seq::empty(),
        }),
{
    assert(feed.push(op).drop_last() == feed);
    assert(fed_bytes(feed) + Seq::<u8>::empty() == fed_bytes(feed));
}

/// Data put behind pending operations stands for the data put into the terminal.
pub(crate) proof fn lemma_with_data(pending: Seq<Operation>, data: Seq<char>)
    ensures
        replayed_all(with_data(pending, data)) == with_op(
            replayed_all(pending),
            TerminalOp::Data { bytes: encode_utf8(data) },
        ),
        pending_chars(with_data(pending, data)) == pending_chars(pending) + data.len(),
{
    let longer = with_data(pending, data);
    let all = replayed_all(pending);
    if pending.len() > 0 {
        assert(all.last() == replayed(pending.last()));
        match pending.last() {
            Operation::Data { data: before } => {
                lemma_encode_concat(before, data);
                assert(longer.drop_last() == pending.drop_last());
                assert(replayed_all(longer) == with_op(
                    all,
                    TerminalOp::Data { bytes: encode_utf8(data) },
                ));
            },
            Operation::Resize { .. } => {
                assert(longer.drop_last() == pending);
                assert(replayed_all(longer) == all.push(
                    TerminalOp::Data { bytes: encode_utf8(data) },
                ));
            },
        }
    } else {
        assert(longer.drop_last() == pending);
        assert(replayed_all(longer) == all.push(TerminalOp::Data { bytes: encode_utf8(data) }));
    }
}

pub(crate) proof fn lemma_with_resize(pending: Seq<Operation>, cols: u16, rows: u16)
    ensures
        replayed_all(pending.push(Operation::Resize { cols, rows })) == with_op(
            replayed_all(pending),
            TerminalOp::Resize { rows: grid_rows(rows), cols: grid_cols(cols) },
        ),
        pending_chars(pending.push(Operation::Resize { cols, rows })) == pending_chars(pending),
{
    let longer = pending.push(Operation::Resize { cols, rows });
    assert(longer.drop_last() == pending);
    assert(replayed_all(longer) == replayed_all(pending).push(
        TerminalOp::Resize { rows: grid_rows(rows), cols: grid_cols(cols) },
    ));
}

/// Joining runs of data keeps all of it, in order.
pub proof fn law_joining_keeps_the_data(feed: Seq<TerminalOp>)
    ensures
        fed_bytes(joined_feed(feed)) == fed_bytes(feed),
    decreases feed.len(),
{
    if feed.len() > 0 {
        let shorter = feed.drop_last();
        law_joining_keeps_the_data(shorter);
        let joined = joined_feed(shorter);
        match (feed.last(), joined.last()) {
            (
                TerminalOp::Data { bytes },
                TerminalOp::Data { bytes: before },
            ) if joined.len() > 0 => {
                lemma_fed_push(joined.drop_last(), TerminalOp::Data { bytes: before + bytes });
                lemma_fed_push(joined.drop_last(), joined.last());
                assert(joined.drop_last().push(joined.last()) == joined);
                assert(fed_bytes(joined.drop_last()) + (before + bytes) == fed_bytes(
                    joined.drop_last(),
                ) + before + bytes);
            },
            _ => {
                lemma_fed_push(joined, feed.last());
                assert(fed_bytes(shorter) + Seq::<u8>::empty() == fed_bytes(shorter));
            },
        }
    }
}

/// Puts data behind pending operations.
pub fn push_data(pending: &mut Vec<PendingOp>, data: &str)
    ensures
        operations(final(pending)@) == with_data(operations(old(pending)@), data@),
{
    let ghost before = operations(pending@);
    match pending.pop() {
        Some(PendingOp::Data { data: last }) => {
            let mut longer = last;
            longer.append(data);
            pending.push(PendingOp::Data { data: longer });
        },
        Some(other) => {
            pending.push(other);
            pending.push(PendingOp::Data { data: data.to_owned() });
        },
        None => {
            pending.push(PendingOp::Data { data: data.to_owned() });
        },
    }
    assert(operations(pending@) == with_data(before, data@));
}

} // verus!
