//! What can go wrong with a session.

use vstd::prelude::*;

verus! {

/// What an error means to a client.
#[derive(Debug, Clone, Copy, PartialEq, Eq, Structural)]
pub enum RenderErrorKind {
    NotFound,
    BadRequest,
    Conflict,
    Internal,
}

#[derive(Debug)]
pub enum RenderError {
    /// There is no session with this identifier.
    NotFound(String),
    BadRequest(String),
    Conflict(String),
    /// Reading from or writing to the terminal failed.
    Io(String),
    Spawn(String),
    Internal(String),
}

impl RenderError {
    /// What the error means to a client.
    pub open spec fn meaning(&self) -> RenderErrorKind {
        match *self {
            RenderError::NotFound(_) => RenderErrorKind::NotFound,
            RenderError::BadRequest(_) => RenderErrorKind::BadRequest,
            RenderError::Conflict(_) => RenderErrorKind::Conflict,
            RenderError::Io(_) => RenderErrorKind::Internal,
            RenderError::Spawn(_) => RenderErrorKind::Internal,
            RenderError::Internal(_) => RenderErrorKind::Internal,
        }
    }

    /// The description of the error.
    pub open spec fn text(&self) -> Seq<char> {
        match *self {
            RenderError::NotFound(id) => "session "@ + id@ + " not found"@,
            RenderError::BadRequest(reason) => reason@,
            RenderError::Conflict(reason) => reason@,
            RenderError::Io(reason) => "pty io error: "@ + reason@,
            RenderError::Spawn(reason) => "spawn failed: "@ + reason@,
            RenderError::Internal(reason) => reason@,
        }
    }

    pub fn kind(&self) -> (kind: RenderErrorKind)
        ensures
            kind == self.meaning(),
    {
        match self {
            RenderError::NotFound(_) => RenderErrorKind::NotFound,
            RenderError::BadRequest(_) => RenderErrorKind::BadRequest,
            RenderError::Conflict(_) => RenderErrorKind::Conflict,
            RenderError::Io(_) => RenderErrorKind::Internal,
            RenderError::Spawn(_) => RenderErrorKind::Internal,
            RenderError::Internal(_) => RenderErrorKind::Internal,
        }
    }

    pub fn message(&self) -> (message: String)
        ensures
            message@ == self.text(),
    {
        match self {
            RenderError::NotFound(id) => {
                let mut message = "session ".to_owned();
                message.append(id.as_str());
                message.append(" not found");
                message
            },
            RenderError::BadRequest(reason) => reason.clone(),
            RenderError::Conflict(reason) => reason.clone(),
            RenderError::Io(reason) => {
                let mut message = "pty io error: ".to_owned();
                message.append(reason.as_str());
                message
            },
            RenderError::Spawn(reason) => {
                let mut message = "spawn failed: ".to_owned();
                message.append(reason.as_str());
                message
            },
            RenderError::Internal(reason) => reason.clone(),
        }
    }
}

} // verus!
