use vstd::prelude::*;

verus! {

/// Why a request or a session failed.
#[derive(Clone, Copy, Debug, PartialEq, Eq, Structural)]
pub enum Error {
    /// The request is malformed; the connection is not upgraded.
    InvalidRequest,
    /// No room is registered under the given code.
    RoomNotFound,
    /// The host role was asked for without the room's join token.
    Unauthorized,
    /// The room already has a host.
    RoleConflict,
    /// No free room code or participant id could be found.
    ResourceExhausted,
    /// The transport failed.
    Io,
    /// The peer closed the connection.
    Closed,
}

impl Error {
    /// The HTTP status that reports this error: 400 for a malformed request,
    /// 401 for a missing or wrong token, 404 for an unknown room, 409 for an
    /// occupied host slot, 503 when codes or ids have run out, and 500 for a
    /// failure of the transport.
    pub open spec fn status(self) -> int {
        match self {
            Error::InvalidRequest => 400,
            Error::Unauthorized => 401,
            Error::RoomNotFound => 404,
            Error::RoleConflict => 409,
            Error::ResourceExhausted => 503,
            Error::Io | Error::Closed => 500,
        }
    }

    /// Whether the error is the client's fault.
    pub open spec fn is_client_error(self) -> bool {
        400 <= self.status() < 500
    }

    /// Whether the error is reported to the client as its own fault.
    pub fn is_client_fault(&self) -> (client: bool)
        ensures
            client == self.is_client_error(),
    {
        match self {
            Error::InvalidRequest | Error::Unauthorized | Error::RoomNotFound
            | Error::RoleConflict => true,
            Error::ResourceExhausted | Error::Io | Error::Closed => false,
        }
    }

    /// The HTTP status that reports this error to a client.
    pub fn http_status(&self) -> (code: u16)
        ensures
            code == self.status(),
    {
        match self {
            Error::InvalidRequest => 400,
            Error::Unauthorized => 401,
            Error::RoomNotFound => 404,
            Error::RoleConflict => 409,
            Error::ResourceExhausted => 503,
            Error::Io | Error::Closed => 500,
        }
    }
}

} // verus!
