//! Frames: a big-endian length of four bytes, followed by a JSON document of that length.

use vstd::prelude::*;

use crate::json::{error_text, json_bytes, json_document, json_error_text, parse_json, write_json};
use crate::protocol::MAX_FRAME_BYTES;
use crate::text::{decimal, write_decimal};

verus! {

/// The four bytes of a number, most significant first.
pub open spec fn big_endian(number: u32) -> Seq<u8> {
    seq![
        (number / 0x1000000) as u8,
        (number / 0x10000 % 0x100) as u8,
        (number / 0x100 % 0x100) as u8,
        (number % 0x100) as u8,
    ]
}

/// The number that the first four bytes make up, most significant first.
pub open spec fn leading_number(bytes: Seq<u8>) -> int {
    bytes[0] * 0x1000000 + bytes[1] * 0x10000 + bytes[2] * 0x100 + bytes[3]
}

/// Why a frame cannot be written or read.
#[derive(Debug)]
pub enum FrameError {
    /// The body is longer than a frame can hold.
    TooLarge(u32),
    /// The body is no JSON document.
    Json(serde_json::Error),
}

impl FrameError {
    /// The description of the error.
    pub open spec fn text(&self) -> Seq<char> {
        match *self {
            FrameError::TooLarge(length) => "frame length "@ + decimal(length as nat)
                + " exceeds MAX_FRAME_BYTES"@,
            FrameError::Json(error) => "json error: "@ + json_error_text(error),
        }
    }

    pub fn message(&self) -> (message: String)
        ensures
            message@ == self.text(),
    {
        match self {
            FrameError::TooLarge(length) => {
                let mut message = "frame length ".to_owned();
                message.append(write_decimal(*length as u128).as_str());
                message.append(" exceeds MAX_FRAME_BYTES");
                message
            },
            FrameError::Json(error) => {
                let mut message = "json error: ".to_owned();
                message.append(error_text(error).as_str());
                message
            },
        }
    }
}

/// The frame of a body.
pub open spec fn framed(body: Seq<u8>) -> Seq<u8> {
    big_endian(body.len() as u32) + body
}

/// Puts a body into a frame, unless it is too long for one.
pub fn frame(body: &[u8]) -> (result: Result<Vec<u8>, FrameError>)
    ensures
        body@.len() <= MAX_FRAME_BYTES ==> (result matches Ok(bytes) && bytes@ == framed(body@)),
        body@.len() > MAX_FRAME_BYTES ==> (result matches Err(FrameError::TooLarge(length))
            && length == body@.len() as u32),
{
    let length: usize = body.len();
    if length as u64 > MAX_FRAME_BYTES as u64 {
        return Err(FrameError::TooLarge(length as u32));
    }
    let number: u32 = length as u32;
    let mut bytes: Vec<u8> = Vec::new();
    bytes.push((number / 0x1000000) as u8);
    bytes.push((number / 0x10000 % 0x100) as u8);
    bytes.push((number / 0x100 % 0x100) as u8);
    bytes.push((number % 0x100) as u8);
    bytes.extend_from_slice(body);
    assert(bytes@ == framed(body@));
    Ok(bytes)
}

/// Writes a document and puts it into a frame.
pub fn encode_frame(value: &serde_json::Value) -> (result: Result<Vec<u8>, FrameError>)
    ensures
        match json_bytes(*value) {
            Ok(body) => if body.len() <= MAX_FRAME_BYTES {
                result matches Ok(bytes) && bytes@ == framed(body)
            } else {
                result matches Err(FrameError::TooLarge(length)) && length == body.len() as u32
            },
            Err(text) => result matches Err(FrameError::Json(error)) && json_error_text(error)
                == text,
        },
{
    match write_json(value) {
        Ok(body) => frame(body.as_slice()),
        Err(error) => Err(FrameError::Json(error)),
    }
}

/// What the head of a buffer holds.
pub enum FrameSplit {
    /// Less than a whole frame.
    Partial,
    /// The header of a frame that is too long.
    TooLarge(u32),
    /// A frame of this many bytes, header and body.
    Whole(usize),
}

/// What the head of a buffer holds.
pub open spec fn frame_split(buffer: Seq<u8>) -> FrameSplit {
    if buffer.len() < 4 {
        FrameSplit::Partial
    } else if leading_number(buffer) > MAX_FRAME_BYTES {
        FrameSplit::TooLarge(leading_number(buffer) as u32)
    } else if buffer.len() < 4 + leading_number(buffer) {
        FrameSplit::Partial
    } else {
        FrameSplit::Whole((4 + leading_number(buffer)) as usize)
    }
}

/// Finds the frame at the head of a buffer.
pub fn split_frame(buffer: &[u8]) -> (split: FrameSplit)
    ensures
        split == frame_split(buffer@),
        split matches FrameSplit::Whole(total) ==> 4 <= total <= buffer@.len(),
{
    if buffer.len() < 4 {
        return FrameSplit::Partial;
    }
    let length: u32 = buffer[0] as u32 * 0x1000000 + buffer[1] as u32 * 0x10000 + buffer[2] as u32
        * 0x100 + buffer[3] as u32;
    if length > MAX_FRAME_BYTES {
        return FrameSplit::TooLarge(length);
    }
    let total: usize = 4 + length as usize;
    if buffer.len() < total {
        return FrameSplit::Partial;
    }
    FrameSplit::Whole(total)
}

/// Reads the frame at the head of a buffer: how many bytes it takes and the document in it.
/// `None` stands for a frame whose end is missing.
pub fn decode_frame(buffer: &[u8]) -> (result: Result<
    Option<(usize, serde_json::Value)>,
    FrameError,
>)
    ensures
        match frame_split(buffer@) {
            FrameSplit::Partial => result matches Ok(None),
            FrameSplit::TooLarge(length) => result matches Err(FrameError::TooLarge(found))
                && found == length,
            FrameSplit::Whole(total) => total <= buffer@.len() && match json_document(
                buffer@.subrange(4, total as int),
            ) {
                Ok(document) => result matches Ok(Some((consumed, value))) && consumed == total
                    && value == document,
                Err(text) => result matches Err(FrameError::Json(error)) && json_error_text(error)
                    == text,
            },
        },
{
    match split_frame(buffer) {
        FrameSplit::Partial => Ok(None),
        FrameSplit::TooLarge(length) => Err(FrameError::TooLarge(length)),
        FrameSplit::Whole(total) => {
            match parse_json(vstd::slice::slice_subrange(buffer, 4, total)) {
                Ok(value) => Ok(Some((total, value))),
                Err(error) => Err(FrameError::Json(error)),
            }
        },
    }
}

/// A frame is read back whole, whatever follows it, and its body is what was put in.
pub proof fn law_frame_is_read_back(body: Seq<u8>, rest: Seq<u8>)
    requires
        body.len() <= MAX_FRAME_BYTES,
    ensures
        frame_split(framed(body) + rest) == FrameSplit::Whole((4 + body.len()) as usize),
        (framed(body) + rest).subrange(4, 4 + body.len() as int) == body,
{
    let number = body.len() as u32;
    let buffer = framed(body) + rest;
    assert(leading_number(buffer) == number);
    assert(buffer.subrange(4, 4 + body.len() as int) == body);
}

/// A frame whose end is missing is never taken for a whole one nor for an error.
pub proof fn law_cut_frame_waits(body: Seq<u8>, length: int)
    requires
        body.len() <= MAX_FRAME_BYTES,
        0 <= length < 4 + body.len(),
    ensures
        frame_split(framed(body).take(length)) == FrameSplit::Partial,
{
    let number = body.len() as u32;
    let cut = framed(body).take(length);
    if length >= 4 {
        assert(leading_number(cut) == number);
    }
}

} // verus!
