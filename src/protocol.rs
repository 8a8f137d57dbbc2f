//! The messages of the wire protocol.
//!
//! These are the values that a frame's body carries; turning them into and
//! out of bytes is the message encoder's work, outside this library.
use vstd::prelude::*;

verus! {

/// Outcome code of an authentication.
#[derive(Clone, Copy, Debug, PartialEq, Eq, Structural)]
pub enum Status {
    Success,
    InvalidCredentials,
    ServerIsFull,
    Banned,
}

/// The number that stands for `s` on the wire.
pub open spec fn status_code(s: Status) -> i32 {
    match s {
        Status::Success => 0,
        Status::InvalidCredentials => 1,
        Status::ServerIsFull => 2,
        Status::Banned => 3,
    }
}

impl Status {
    /// The number that stands for this status on the wire.
    pub fn code(self) -> (r: i32)
        ensures
            r == status_code(self),
    {
        match self {
            Status::Success => 0,
            Status::InvalidCredentials => 1,
            Status::ServerIsFull => 2,
            Status::Banned => 3,
        }
    }

    /// The status that `code` stands for, if any.
    pub fn from_code(code: i32) -> (r: Option<Status>)
        ensures
            match r {
                Some(s) => status_code(s) == code,
                None => 0 > code || code > 3,
            },
    {
        match code {
            0 => Some(Status::Success),
            1 => Some(Status::InvalidCredentials),
            2 => Some(Status::ServerIsFull),
            3 => Some(Status::Banned),
            _ => None,
        }
    }
}

/// What a granted authentication carries.
#[derive(Clone, Copy, Debug, PartialEq, Eq, Structural)]
pub struct Result {
    pub user_id: u32,
}

/// A client's first message: its credentials.
#[derive(Clone, Debug, PartialEq, Eq)]
pub struct AuthRequest {
    pub login: String,
    pub password: String,
}

/// The server's answer to an `AuthRequest`; `status` is a `Status` code.
#[derive(Clone, Copy, Debug, PartialEq, Eq, Structural)]
pub struct AuthResponse {
    pub status: i32,
    pub result: Option<Result>,
}

/// The message kinds that a frame may carry.
#[derive(Clone, Debug, PartialEq, Eq)]
pub enum Payload {
    AuthRequest(AuthRequest),
    AuthResponse(AuthResponse),
}

/// The message of one frame: when it was sent, and what it carries.
#[derive(Clone, Debug, PartialEq, Eq)]
pub struct GeneralMessage {
    pub time: i64,
    pub payload: Option<Payload>,
}

} // verus!
