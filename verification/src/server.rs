//! The server's side of a connection: reading frames, telling who may ask, answering, and
//! telling everybody what happens.

use vstd::prelude::*;

use crate::error::{RenderError, RenderErrorKind};
use crate::frame::{decode_frame, frame, frame_split, framed, FrameError, FrameSplit};
use crate::hub::{
    authenticated, client_index, closed, has_shown_token, lemma_client_index,
    lemma_closing_keeps_listeners, lemma_new_listener, listeners, ClientConn, ClientHub,
};
use crate::json::{
    error_text, json_bytes, json_document, json_number_at, json_text_at, number_at, text_at,
    write_json,
};
use crate::protocol::{
    ErrorBody, ErrorCode, Request, Response, MAX_FRAME_BYTES, RENDER_PROTOCOL_VERSION,
};
pub use crate::security::tokens_match;
use crate::text::{decimal, write_decimal};

verus! {

/// How many frames may wait for one client. A client that lets more pile up is cut off; it
/// reconnects and asks for what it missed.
pub const EVENT_QUEUE_DEPTH: usize = 1_024;

/// The longest that the buffer of a connection may grow: one frame and its header.
pub const MAX_REQUEST_BUFFER_BYTES: usize = 67_108_868;

/// What is at the head of a buffer.
pub enum Taken {
    /// A whole frame, which has been taken off the buffer.
    Document(serde_json::Value),
    /// Less than a frame: more must be read.
    More,
    /// Something that can never become a frame: the connection must be closed.
    Broken,
}

/// The bytes read from a connection that have not made up a frame yet.
pub struct FrameBuffer {
    bytes: Vec<u8>,
}

impl View for FrameBuffer {
    type V = Seq<u8>;

    closed spec fn view(&self) -> Seq<u8> {
        self.bytes@
    }
}

impl FrameBuffer {
    pub fn new() -> (buffer: Self)
        ensures
            buffer@ == Seq::<u8>::empty(),
    {
        FrameBuffer { bytes: Vec::new() }
    }

    /// Puts what was read behind what is there.
    pub fn extend(&mut self, chunk: &[u8])
        ensures
            final(self)@ == old(self)@ + chunk@,
    {
        self.bytes.extend_from_slice(chunk);
        assert(self.bytes@ == old(self)@ + chunk@);
    }

    /// Takes the next frame off the buffer.
    pub fn next(&mut self) -> (taken: Taken)
        ensures
            match frame_split(old(self)@) {
                FrameSplit::Partial => taken is More && final(self)@ == old(self)@,
                FrameSplit::TooLarge(_) => taken is Broken && final(self)@ == old(self)@,
                FrameSplit::Whole(total) => match json_document(old(self)@.subrange(4, total as int)) {
                    Ok(document) => (taken matches Taken::Document(value) && value == document)
                        && final(self)@ == old(self)@.skip(total as int),
                    Err(_) => taken is Broken && final(self)@ == old(self)@,
                },
            },
    {
        match decode_frame(self.bytes.as_slice()) {
            Ok(Some((total, value))) => {
                self.bytes = self.bytes.split_off(total);
                assert(self.bytes@ == old(self)@.skip(total as int));
                Taken::Document(value)
            },
            Ok(None) => Taken::More,
            Err(_) => Taken::Broken,
        }
    }
}

/// A buffer that waits for more never outgrows one frame and its header.
pub proof fn law_waiting_buffer_is_bounded(buffer: Seq<u8>)
    requires
        frame_split(buffer) is Partial,
    ensures
        buffer.len() < MAX_REQUEST_BUFFER_BYTES,
{
}

/// A frame that arrives in two pieces is taken when the second is there, whatever comes behind
/// it, and not before.
pub proof fn law_frame_is_taken_when_whole(body: Seq<u8>, cut: int, rest: Seq<u8>)
    requires
        body.len() <= MAX_FRAME_BYTES,
        0 <= cut < 4 + body.len(),
    ensures
        frame_split(framed(body).take(cut)) is Partial,
        frame_split(framed(body).take(cut) + (framed(body).skip(cut) + rest))
            == FrameSplit::Whole((4 + body.len()) as usize),
        (framed(body).take(cut) + (framed(body).skip(cut) + rest)).skip(4 + body.len() as int)
            == rest,
{
    crate::frame::law_cut_frame_waits(body, cut);
    crate::frame::law_frame_is_read_back(body, rest);
    let whole = framed(body).take(cut) + (framed(body).skip(cut) + rest);
    assert(whole == framed(body) + rest);
    assert(whole.skip(4 + body.len() as int) == rest);
}

/// What is to be done with a request.
pub enum Verdict {
    /// The token is wrong: the connection must be closed without an answer.
    Close,
    /// The version is wrong: this is the answer.
    Refuse(ErrorCode, String),
    /// The client may ask, and from now on hears of events.
    Accept,
}

/// The answer to a request of another version.
pub open spec fn version_text(version: u32) -> Seq<char> {
    "protocol version "@ + decimal(version as nat) + " is not supported (expected "@ + decimal(
        RENDER_PROTOCOL_VERSION as nat,
    ) + ")"@
}

/// Tells what is to be done with a request.
pub fn authenticate(token: &str, request: &Request) -> (verdict: Verdict)
    ensures
        if token@ != request.token@ {
            verdict is Close
        } else if request.protocol_version != RENDER_PROTOCOL_VERSION {
            verdict matches Verdict::Refuse(code, text) && code == ErrorCode::ProtocolMismatch && text@
                == version_text(request.protocol_version)
        } else {
            verdict is Accept
        },
{
    if !tokens_match(token, request.token.as_str()) {
        return Verdict::Close;
    }
    if request.protocol_version != RENDER_PROTOCOL_VERSION {
        let mut text = "protocol version ".to_owned();
        text.append(write_decimal(request.protocol_version as u128).as_str());
        text.append(" is not supported (expected ");
        text.append(write_decimal(RENDER_PROTOCOL_VERSION as u128).as_str());
        text.append(")");
        return Verdict::Refuse(ErrorCode::ProtocolMismatch, text);
    }
    Verdict::Accept
}

/// What can be told of a document that is no request: the number and the method to answer to.
pub fn malformed_request(value: &serde_json::Value) -> (about: (u32, String))
    ensures
        about.0 == (match json_number_at(*value, "id"@) {
            Some(id) => id as u32,
            None => 0u32,
        }),
        about.1@ == (match json_text_at(*value, "method"@) {
            Some(method) => method,
            None => "unknown"@,
        }),
{
    let id: u32 = match number_at(value, "id") {
        Some(id) => id as u32,
        None => 0,
    };
    let method: String = match text_at(value, "method") {
        Some(method) => method.to_owned(),
        None => "unknown".to_owned(),
    };
    (id, method)
}

/// What comes of a frame.
pub enum FrameStep {
    /// Answer the request with this number and method by this error.
    Refuse(u32, String, (ErrorCode, String)),
    /// The connection has been closed without an answer.
    Closed,
    /// Carry out this request. The client hears of events from now on.
    Dispatch(Request),
}

/// The clients once one of them has sent a request, or a document that is none: such a document
/// shows no token, so it closes the connection of a client that has not shown one yet.
pub open spec fn clients_after(
    clients: Seq<ClientConn>,
    client: u64,
    token: Seq<char>,
    request: Option<Request>,
) -> Seq<ClientConn> {
    match request {
        Some(request) => if token != request.token@ {
            closed(clients, client)
        } else if request.protocol_version != RENDER_PROTOCOL_VERSION {
            clients
        } else {
            authenticated(clients, client)
        },
        None => if has_shown_token(clients, client) {
            clients
        } else {
            closed(clients, client)
        },
    }
}

/// Decides what comes of a frame from a client. `parsed` is the request that the document was read
/// as, or why it is none.
pub fn handle_frame(
    hub: &mut ClientHub,
    client: u64,
    token: &str,
    value: &serde_json::Value,
    parsed: Result<Request, String>,
) -> (step: FrameStep)
    requires
        old(hub).well_formed(),
    ensures
        final(hub).well_formed(),
        final(hub)@ == clients_after(
            old(hub)@,
            client,
            token@,
            match parsed {
                Ok(request) => Some(request),
                Err(_) => None,
            },
        ),
        match parsed {
            Err(reason) => if !has_shown_token(old(hub)@, client) {
                step is Closed
            } else {
                step matches FrameStep::Refuse(id, method, (code, text)) && id == (
                match json_number_at(*value, "id"@) {
                    Some(id) => id as u32,
                    None => 0u32,
                }) && method@ == (match json_text_at(*value, "method"@) {
                    Some(method) => method,
                    None => "unknown"@,
                }) && code == ErrorCode::BadRequest && text@ == reason@
            },
            Ok(request) => if token@ != request.token@ {
                step is Closed
            } else if request.protocol_version != RENDER_PROTOCOL_VERSION {
                step matches FrameStep::Refuse(id, method, (code, text)) && id == request.id
                    && method@ == request.method@ && code == ErrorCode::ProtocolMismatch && text@
                    == version_text(request.protocol_version)
            } else {
                step == FrameStep::Dispatch(request)
            },
        },
{
    match parsed {
        Err(reason) => {
            if !hub.is_authed(client) {
                hub.close(client);
                return FrameStep::Closed;
            }
            let (id, method) = malformed_request(value);
            FrameStep::Refuse(id, method, (ErrorCode::BadRequest, reason))
        },
        Ok(request) => match authenticate(token, &request) {
            Verdict::Close => {
                hub.close(client);
                FrameStep::Closed
            },
            Verdict::Refuse(code, text) => FrameStep::Refuse(
                request.id,
                request.method,
                (code, text),
            ),
            Verdict::Accept => {
                hub.authenticate(client);
                FrameStep::Dispatch(request)
            },
        },
    }
}

/// A request with a wrong token, or something that shows no token from a client that has not shown
/// it before, closes the connection that it came over, and no client hears of more than before.
pub proof fn law_wrong_token_learns_nothing(
    clients: Seq<ClientConn>,
    client: u64,
    token: Seq<char>,
    request: Option<Request>,
)
    requires
        match request {
            Some(request) => token != request.token@,
            None => !has_shown_token(clients, client),
        },
    ensures
        ({
            let after = clients_after(clients, client, token, request);
            &&& listeners(after) == listeners(clients)
            &&& client_index(clients, client) matches Some(index) ==> after[index].closed
        }),
{
    lemma_closing_keeps_listeners(clients, client);
    lemma_client_index(clients, client);
}

/// A client that did not hear of events before hears of them only if it has just sent a request
/// with the right token and the right version.
pub proof fn law_listening_takes_the_token(
    clients: Seq<ClientConn>,
    client: u64,
    token: Seq<char>,
    request: Option<Request>,
    id: u64,
)
    requires
        !listeners(clients).contains(id),
        listeners(clients_after(clients, client, token, request)).contains(id),
    ensures
        id == client,
        request matches Some(request) && request.token@ == token && request.protocol_version
            == RENDER_PROTOCOL_VERSION,
{
    lemma_closing_keeps_listeners(clients, client);
    if clients_after(clients, client, token, request) == authenticated(clients, client) {
        lemma_new_listener(clients, client, id);
    }
}

/// The code and the text by which a client learns of an error.
pub fn map_render_error(error: RenderError) -> (answer: (ErrorCode, String))
    ensures
        answer.0 == (match error.meaning() {
            RenderErrorKind::NotFound => ErrorCode::NotFound,
            RenderErrorKind::BadRequest => ErrorCode::BadRequest,
            RenderErrorKind::Conflict => ErrorCode::Conflict,
            RenderErrorKind::Internal => ErrorCode::Internal,
        }),
        answer.1@ == error.text(),
{
    let code = match error.kind() {
        RenderErrorKind::NotFound => ErrorCode::NotFound,
        RenderErrorKind::BadRequest => ErrorCode::BadRequest,
        RenderErrorKind::Conflict => ErrorCode::Conflict,
        RenderErrorKind::Internal => ErrorCode::Internal,
    };
    (code, error.message())
}

/// The answer to a request.
pub fn response_to(id: u32, result: Result<serde_json::Value, (ErrorCode, String)>) -> (response:
    Response)
    ensures
        response.id == id,
        response.ok == (result is Ok),
        match result {
            Ok(value) => response.result == Some(value) && response.error is None,
            Err((code, text)) => response.result is None && (response.error matches Some(body)
                && body.code == code && body.message@ == text@),
        },
{
    match result {
        Ok(value) => Response { id, ok: true, result: Some(value), error: None },
        Err((code, message)) => Response {
            id,
            ok: false,
            result: None,
            error: Some(ErrorBody { code, message }),
        },
    }
}

/// What is to be done with an answer that was written out.
pub enum Delivery {
    /// Send this frame.
    Send(Vec<u8>),
    /// It does not fit: answer this instead.
    Instead(Response),
    /// Not even that could be sent: the connection must be closed.
    Close,
}

/// The text of the answer that stands in for one that does not fit.
pub open spec fn oversize_text(method: Seq<char>, error: FrameError) -> Seq<char> {
    method + " response could not be encoded as a frame: "@ + error.text()
}

/// Decides what to do with an answer that was written out, or failed to be. An answer that does
/// not fit is never dropped in silence: the first time another one says why, and if that fails
/// too the connection is closed, so that the client does not wait in vain.
pub fn respond(
    id: u32,
    method: &str,
    written: Result<Vec<u8>, serde_json::Error>,
    is_fallback: bool,
) -> (delivery: Delivery)
    ensures
        match written {
            Ok(body) => if body@.len() <= MAX_FRAME_BYTES {
                delivery matches Delivery::Send(bytes) && bytes@ == framed(body@)
            } else if is_fallback {
                delivery is Close
            } else {
                delivery matches Delivery::Instead(response) && is_oversize_answer(
                    response,
                    id,
                    method@,
                    FrameError::TooLarge(body@.len() as u32),
                )
            },
            Err(error) => if is_fallback {
                delivery is Close
            } else {
                delivery matches Delivery::Instead(response) && is_oversize_answer(
                    response,
                    id,
                    method@,
                    FrameError::Json(error),
                )
            },
        },
{
    let error = match written {
        Ok(body) => match frame(body.as_slice()) {
            Ok(bytes) => return Delivery::Send(bytes),
            Err(error) => error,
        },
        Err(error) => FrameError::Json(error),
    };
    if is_fallback {
        return Delivery::Close;
    }
    let mut message = method.to_owned();
    message.append(" response could not be encoded as a frame: ");
    message.append(error.message().as_str());
    Delivery::Instead(
        Response {
            id,
            ok: false,
            result: None,
            error: Some(ErrorBody { code: ErrorCode::Internal, message }),
        },
    )
}

/// Whether a response says that the answer to a request does not fit.
pub open spec fn is_oversize_answer(
    response: Response,
    id: u32,
    method: Seq<char>,
    error: FrameError,
) -> bool {
    &&& response.id == id
    &&& !response.ok
    &&& response.result is None
    &&& response.error matches Some(body) && body.code == ErrorCode::Internal && body.message@
        == oversize_text(method, error)
}

/// The text of the answer that stands in for a listing that does not fit.
pub open spec fn list_oversize_text(length: nat, max_bytes: nat) -> Seq<char> {
    "list response is "@ + decimal(length) + " bytes, over the "@ + decimal(max_bytes)
        + "-byte frame limit (MAX_FRAME_BYTES); fetch large session states individually with attach"@
}

/// Checks that a listing of this length fits into a frame.
pub fn check_list_length(length: usize, max_bytes: usize) -> (result: Result<
    (),
    (ErrorCode, String),
>)
    ensures
        length <= max_bytes ==> result is Ok,
        length > max_bytes ==> (result matches Err((code, text)) && code == ErrorCode::Internal && text@
            == list_oversize_text(length as nat, max_bytes as nat)),
{
    if length <= max_bytes {
        return Ok(());
    }
    let mut text = "list response is ".to_owned();
    text.append(write_decimal(length as u128).as_str());
    text.append(" bytes, over the ");
    text.append(write_decimal(max_bytes as u128).as_str());
    text.append(
        "-byte frame limit (MAX_FRAME_BYTES); fetch large session states individually with attach",
    );
    Err((ErrorCode::Internal, text))
}

/// Hands a listing on if it fits into a frame. Nothing is left out of it to make it fit.
pub fn list_response_with_frame_budget(value: serde_json::Value, max_bytes: usize) -> (result:
    Result<serde_json::Value, (ErrorCode, String)>)
    ensures
        match json_bytes(value) {
            Ok(body) => if body.len() <= max_bytes {
                result == Ok::<serde_json::Value, (ErrorCode, String)>(value)
            } else {
                result matches Err((code, text)) && code == ErrorCode::Internal && text@
                    == list_oversize_text(body.len(), max_bytes as nat)
            },
            Err(reason) => result matches Err((code, text)) && code == ErrorCode::Internal && text@
                == reason,
        },
{
    match write_json(&value) {
        Ok(body) => match check_list_length(body.len(), max_bytes) {
            Ok(_) => Ok(value),
            Err(error) => Err(error),
        },
        Err(error) => Err((ErrorCode::Internal, error_text(&error))),
    }
}

} // verus!
