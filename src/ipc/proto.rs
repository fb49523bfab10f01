use vstd::prelude::*;

use crate::common::idgen::{PaneId, PeerId, SessionId, WindowId};

verus! {

/// A JSON document, carried opaquely in a `State` response.
#[verifier::external_type_specification]
#[verifier::external_body]
pub struct ExJsonValue(serde_json::Value);

/// Error codes of failed requests; clients branch on these, never on messages.
#[derive(Clone, Copy, PartialEq, Eq, Structural, Debug)]
pub enum ErrorCode {
    Success,
    NotFound,
    InvalidArgs,
    NotAttached,
    VersionMismatch,
    Denied,
    Timeout,
    Internal,
}

/// The number of each code: `Success=0, NotFound=2, InvalidArgs=3, NotAttached=4,
/// VersionMismatch=5, Denied=6, Timeout=7, Internal=255`.
pub open spec fn code_number(c: ErrorCode) -> u8 {
    match c {
        ErrorCode::Success => 0,
        ErrorCode::NotFound => 2,
        ErrorCode::InvalidArgs => 3,
        ErrorCode::NotAttached => 4,
        ErrorCode::VersionMismatch => 5,
        ErrorCode::Denied => 6,
        ErrorCode::Timeout => 7,
        ErrorCode::Internal => 255,
    }
}

impl ErrorCode {
    pub fn code(self) -> (r: u8)
        ensures
            r == code_number(self),
    {
        match self {
            ErrorCode::Success => 0,
            ErrorCode::NotFound => 2,
            ErrorCode::InvalidArgs => 3,
            ErrorCode::NotAttached => 4,
            ErrorCode::VersionMismatch => 5,
            ErrorCode::Denied => 6,
            ErrorCode::Timeout => 7,
            ErrorCode::Internal => 255,
        }
    }

    /// The code with number `n`, if the closed set has one.
    pub fn from_code(n: u8) -> (r: Option<ErrorCode>)
        ensures
            r matches Some(c) ==> code_number(c) == n,
            r is None ==> forall|c: ErrorCode| code_number(c) != n,
    {
        if n == 0 {
            Some(ErrorCode::Success)
        } else if n == 2 {
            Some(ErrorCode::NotFound)
        } else if n == 3 {
            Some(ErrorCode::InvalidArgs)
        } else if n == 4 {
            Some(ErrorCode::NotAttached)
        } else if n == 5 {
            Some(ErrorCode::VersionMismatch)
        } else if n == 6 {
            Some(ErrorCode::Denied)
        } else if n == 7 {
            Some(ErrorCode::Timeout)
        } else if n == 255 {
            Some(ErrorCode::Internal)
        } else {
            None
        }
    }
}

/// First frame from a client.
#[derive(Clone, Copy, PartialEq, Eq, Structural, Debug)]
pub struct Hello {
    pub client_api_major: u8,
    pub features: u64,
}

/// The server's answer to `Hello`.
#[derive(Clone, Copy, PartialEq, Eq, Structural, Debug)]
pub struct HelloAck {
    pub server_api_major: u8,
    pub features: u64,
}

#[derive(Clone, Copy, PartialEq, Eq, Structural, Debug)]
pub enum DetachTarget {
    Session(SessionId),
    Window(WindowId),
    Pane(PaneId),
}

#[derive(Clone, Copy, PartialEq, Eq, Structural, Debug)]
pub enum KillTarget {
    Session(SessionId),
    Window(WindowId),
    Pane(PaneId),
}

#[derive(Clone, Copy, PartialEq, Eq, Structural, Debug)]
pub enum StateScope {
    Sessions,
    Windows { session: Option<SessionId> },
    Panes { window: Option<WindowId> },
    Peers,
}

/// Requests a peer sends to the server.
#[derive(Clone, Debug)]
pub enum Request {
    CreateSession { name: Option<String> },
    ListSessions,
    CreateWindow { session: SessionId, title: Option<String> },
    SpawnPane {
        session: SessionId,
        window: Option<WindowId>,
        title: Option<String>,
        cwd: Option<String>,
        argv: Vec<String>,
    },
    Attach { session: SessionId, window: Option<WindowId>, pane: Option<PaneId> },
    Detach { target: Option<DetachTarget> },
    Kill { target: KillTarget, force: bool },
    GetState { scope: StateScope },
}

/// A session as listed by `ListSessions`.
#[derive(Clone, Debug)]
pub struct SessionLite {
    pub id: SessionId,
    pub name: Option<String>,
}

/// Replies of the server, one per request.
#[derive(Debug)]
pub enum Response {
    Done,
    SessionCreated { session: SessionId },
    Sessions { items: Vec<SessionLite> },
    WindowCreated { window: WindowId },
    PaneSpawned { session: SessionId, window: WindowId, pane: PaneId },
    Attached,
    Detached,
    Killed,
    State { json: serde_json::Value },
    Failure { code: ErrorCode, msg: String },
}

/// Notifications the server pushes to peers.
#[derive(Clone, Debug)]
pub enum Event {
    PtyOutput { pane: PaneId, chunk: Vec<u8> },
    TitleChanged { window: WindowId, title: String },
    LayoutChanged { window: WindowId },
    PeerAttached { peer: PeerId, session: SessionId, window: WindowId, pane: PaneId },
    PeerDetached { peer: PeerId },
    Bye { reason: String },
    StreamDropNotice { pane: PaneId },
}

} // verus!
