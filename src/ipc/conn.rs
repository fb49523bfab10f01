use vstd::prelude::*;

use crate::ipc::proto::{Hello, HelloAck};
use crate::ipc::wire::{FrameHeader, Kind};

verus! {

/// Major version of the protocol that this server speaks.
pub const SERVER_API_MAJOR: u8 = 1;

/// Schema of the handshake frames.
pub const SCHEMA_HELLO: u32 = 0;

/// Schema of requests and responses.
pub const SCHEMA_CONTROL: u32 = 1;

/// Schema of events.
pub const SCHEMA_EVENT: u32 = 2;

/// Where a connection stands.
#[derive(Clone, Copy, PartialEq, Eq, Structural, Debug)]
pub enum ConnState {
    /// No frame read yet.
    AwaitingHello,
    /// Handshake done; `in_flight` while a request awaits the core's reply.
    Registered { in_flight: bool },
    /// Done: nothing more is read or forwarded.
    Closing,
}

/// What happened on a connection.
#[derive(Clone, Copy, PartialEq, Eq, Structural, Debug)]
pub enum ConnInput {
    /// The first frame arrived, with its schema and, if its payload decoded as a
    /// `Hello`, the client's major version.
    Handshake { schema_id: u32, client_api_major: Option<u8> },
    /// A later frame arrived; `decoded` says whether its payload decoded as a
    /// request.
    Frame { kind: Kind, schema_id: u32, decoded: bool },
    /// The core answered the request in flight.
    Reply,
    /// The core dropped the request in flight or missed the deadline.
    ReplyFailed,
    /// The socket reached its end or failed, or the core went away.
    Closed,
}

/// What the connection's tasks do next.
#[derive(Clone, Copy, PartialEq, Eq, Structural, Debug)]
pub enum ConnAction {
    /// Queue the `HelloAck` and register with the core.
    AckAndRegister,
    /// Queue the `HelloAck`, then close: the client speaks another major version.
    AckAndClose,
    /// Hand the request to the core and wait for its reply.
    Forward,
    /// Queue the core's reply as a response frame.
    Respond,
    /// Queue an error response (`Internal` or `Timeout`) for the request in flight.
    RespondFailure,
    /// Nothing to do; read on.
    Skip,
    /// Close with an error.
    Fail,
    /// Drain what is queued, then unregister the peer from the core.
    Unregister,
}

/// The transition function of a connection.
pub open spec fn step_spec(s: ConnState, i: ConnInput) -> (ConnState, ConnAction) {
    match s {
        ConnState::AwaitingHello => match i {
            ConnInput::Handshake { schema_id, client_api_major } => {
                if schema_id != SCHEMA_HELLO {
                    (ConnState::Closing, ConnAction::Fail)
                } else {
                    match client_api_major {
                        None => (ConnState::Closing, ConnAction::Fail),
                        Some(v) => if v == SERVER_API_MAJOR {
                            (ConnState::Registered { in_flight: false }, ConnAction::AckAndRegister)
                        } else {
                            (ConnState::Closing, ConnAction::AckAndClose)
                        },
                    }
                }
            },
            _ => (ConnState::Closing, ConnAction::Fail),
        },
        ConnState::Registered { in_flight } => match i {
            ConnInput::Frame { kind, schema_id, decoded } => {
                if schema_id != SCHEMA_CONTROL || kind != Kind::Request {
                    (s, ConnAction::Skip)
                } else if in_flight || !decoded {
                    (ConnState::Closing, ConnAction::Unregister)
                } else {
                    (ConnState::Registered { in_flight: true }, ConnAction::Forward)
                }
            },
            ConnInput::Reply => if in_flight {
                (ConnState::Registered { in_flight: false }, ConnAction::Respond)
            } else {
                (s, ConnAction::Skip)
            },
            ConnInput::ReplyFailed => if in_flight {
                (ConnState::Registered { in_flight: false }, ConnAction::RespondFailure)
            } else {
                (s, ConnAction::Skip)
            },
            ConnInput::Closed => (ConnState::Closing, ConnAction::Unregister),
            ConnInput::Handshake { .. } => (s, ConnAction::Skip),
        },
        ConnState::Closing => (ConnState::Closing, ConnAction::Skip),
    }
}

/// Advances a connection by one input. A first frame of another schema fails
/// the connection; a `Hello` of major version 1 registers it and any other
/// version is acknowledged and closed. While registered, only control requests
/// are forwarded, one at a time, and each reply becomes one response; a request
/// that arrives while another is in flight, or that does not decode, ends the
/// connection rather than being dropped.
pub fn step(s: ConnState, i: ConnInput) -> (r: (ConnState, ConnAction))
    ensures
        r == step_spec(s, i),
{
    match s {
        ConnState::AwaitingHello => match i {
            ConnInput::Handshake { schema_id, client_api_major } => {
                if schema_id != SCHEMA_HELLO {
                    (ConnState::Closing, ConnAction::Fail)
                } else {
                    match client_api_major {
                        None => (ConnState::Closing, ConnAction::Fail),
                        Some(v) => if v == SERVER_API_MAJOR {
                            (ConnState::Registered { in_flight: false }, ConnAction::AckAndRegister)
                        } else {
                            (ConnState::Closing, ConnAction::AckAndClose)
                        },
                    }
                }
            },
            _ => (ConnState::Closing, ConnAction::Fail),
        },
        ConnState::Registered { in_flight } => match i {
            ConnInput::Frame { kind, schema_id, decoded } => {
                let is_request = match kind {
                    Kind::Request => true,
                    _ => false,
                };
                if schema_id != SCHEMA_CONTROL || !is_request {
                    (s, ConnAction::Skip)
                } else if in_flight || !decoded {
                    (ConnState::Closing, ConnAction::Unregister)
                } else {
                    (ConnState::Registered { in_flight: true }, ConnAction::Forward)
                }
            },
            ConnInput::Reply => if in_flight {
                (ConnState::Registered { in_flight: false }, ConnAction::Respond)
            } else {
                (s, ConnAction::Skip)
            },
            ConnInput::ReplyFailed => if in_flight {
                (ConnState::Registered { in_flight: false }, ConnAction::RespondFailure)
            } else {
                (s, ConnAction::Skip)
            },
            ConnInput::Closed => (ConnState::Closing, ConnAction::Unregister),
            ConnInput::Handshake { .. } => (s, ConnAction::Skip),
        },
        ConnState::Closing => (ConnState::Closing, ConnAction::Skip),
    }
}

/// The state after a run of inputs, and the actions taken in order.
pub open spec fn run(s: ConnState, inputs: Seq<ConnInput>) -> (ConnState, Seq<ConnAction>)
    decreases inputs.len(),
{
    if inputs.len() == 0 {
        (s, Seq::empty())
    } else {
        let (s1, acts) = run(s, inputs.drop_last());
        let (s2, a) = step_spec(s1, inputs.last());
        (s2, acts.push(a))
    }
}

/// Whether an action sends a response.
pub open spec fn is_response(a: ConnAction) -> bool {
    a == ConnAction::Respond || a == ConnAction::RespondFailure
}

/// Requests forwarded minus responses sent, over a run of actions.
pub open spec fn outstanding(acts: Seq<ConnAction>) -> int
    decreases acts.len(),
{
    if acts.len() == 0 {
        0
    } else {
        outstanding(acts.drop_last()) + if acts.last() == ConnAction::Forward {
            1int
        } else if is_response(acts.last()) {
            -1int
        } else {
            0int
        }
    }
}

proof fn lemma_run_outstanding(inputs: Seq<ConnInput>)
    ensures
        ({
            let (s, acts) = run(ConnState::AwaitingHello, inputs);
            &&& 0 <= outstanding(acts) <= 1
            &&& s is AwaitingHello ==> outstanding(acts) == 0
            &&& s matches ConnState::Registered { in_flight } ==> outstanding(acts) == if in_flight {
                1int
            } else {
                0int
            }
        }),
    decreases inputs.len(),
{
    if inputs.len() > 0 {
        lemma_run_outstanding(inputs.drop_last());
        let (s1, acts) = run(ConnState::AwaitingHello, inputs.drop_last());
        let (s2, a) = step_spec(s1, inputs.last());
        assert(acts.push(a).drop_last() =~= acts);
    }
}

/// Responses follow requests one for one and in order: after any run of inputs
/// on a fresh connection, the requests forwarded exceed the responses sent by
/// zero or one, so each response answers the one request in flight.
pub proof fn lemma_responses_in_request_order(inputs: Seq<ConnInput>)
    ensures
        0 <= outstanding(run(ConnState::AwaitingHello, inputs).1) <= 1,
{
    lemma_run_outstanding(inputs);
}

/// A connection that closes stays closed and forwards nothing, whatever arrives.
pub proof fn lemma_closed_accepts_nothing(inputs: Seq<ConnInput>)
    ensures
        run(ConnState::Closing, inputs).0 == ConnState::Closing,
        run(ConnState::Closing, inputs).1.len() == inputs.len(),
        forall|k: int| 0 <= k < inputs.len() ==> #[trigger] run(ConnState::Closing, inputs).1[k]
            == ConnAction::Skip,
    decreases inputs.len(),
{
    if inputs.len() > 0 {
        lemma_closed_accepts_nothing(inputs.drop_last());
    }
}

/// The acknowledgement sent to any `Hello`.
pub fn hello_ack(_hello: &Hello) -> (r: HelloAck)
    ensures
        r.server_api_major == SERVER_API_MAJOR,
        r.features == 0,
{
    HelloAck { server_api_major: SERVER_API_MAJOR, features: 0 }
}

/// Header of an outgoing frame of `kind` and `schema_id` carrying `len` bytes.
pub fn outgoing_header(kind: Kind, schema_id: u32, len: u32) -> (r: FrameHeader)
    ensures
        r == (FrameHeader { api_major: SERVER_API_MAJOR, kind, schema_id, len }),
{
    FrameHeader { api_major: SERVER_API_MAJOR, kind, schema_id, len }
}

} // verus!
