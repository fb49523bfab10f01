use splicer::ipc::conn::{hello_ack, step, ConnAction, ConnInput, ConnState, SERVER_API_MAJOR};
use splicer::ipc::proto::Hello;
use splicer::ipc::wire::Kind;

fn run(inputs: &[ConnInput]) -> (ConnState, Vec<ConnAction>) {
    let mut s = ConnState::AwaitingHello;
    let mut acts = Vec::new();
    for &i in inputs {
        let (n, a) = step(s, i);
        s = n;
        acts.push(a);
    }
    (s, acts)
}

fn request() -> ConnInput {
    ConnInput::Frame { kind: Kind::Request, schema_id: 1, decoded: true }
}

#[test]
fn other_major_version_is_acked_then_closed() {
    let ack = hello_ack(&Hello { client_api_major: 2, features: 0 });
    assert_eq!(ack.server_api_major, 1);
    assert_eq!(SERVER_API_MAJOR, 1);
    let (s, acts) = run(&[
        ConnInput::Handshake { schema_id: 0, client_api_major: Some(2) },
        request(),
        ConnInput::Reply,
        request(),
    ]);
    assert_eq!(s, ConnState::Closing);
    assert_eq!(acts, vec![ConnAction::AckAndClose, ConnAction::Skip, ConnAction::Skip, ConnAction::Skip]);
}

#[test]
fn first_frame_must_be_a_hello() {
    let (s, acts) = run(&[ConnInput::Handshake { schema_id: 1, client_api_major: Some(1) }]);
    assert_eq!(s, ConnState::Closing);
    assert_eq!(acts, vec![ConnAction::Fail]);
    let (_, acts) = run(&[ConnInput::Handshake { schema_id: 0, client_api_major: None }]);
    assert_eq!(acts, vec![ConnAction::Fail]);
}

#[test]
fn responses_follow_requests_in_order() {
    let (s, acts) = run(&[
        ConnInput::Handshake { schema_id: 0, client_api_major: Some(1) },
        request(),
        ConnInput::Frame { kind: Kind::Response, schema_id: 1, decoded: true },
        ConnInput::Reply,
        ConnInput::Frame { kind: Kind::Event, schema_id: 1, decoded: true },
        ConnInput::Frame { kind: Kind::Request, schema_id: 2, decoded: true },
        request(),
        ConnInput::ReplyFailed,
        ConnInput::Reply,
        ConnInput::Closed,
    ]);
    assert_eq!(
        acts,
        vec![
            ConnAction::AckAndRegister,
            ConnAction::Forward,
            ConnAction::Skip,
            ConnAction::Respond,
            ConnAction::Skip,
            ConnAction::Skip,
            ConnAction::Forward,
            ConnAction::RespondFailure,
            ConnAction::Skip,
            ConnAction::Unregister,
        ]
    );
    assert_eq!(s, ConnState::Closing);
}

#[test]
fn undecodable_request_ends_the_connection() {
    let (s, acts) = run(&[
        ConnInput::Handshake { schema_id: 0, client_api_major: Some(1) },
        ConnInput::Frame { kind: Kind::Request, schema_id: 1, decoded: false },
    ]);
    assert_eq!(s, ConnState::Closing);
    assert_eq!(acts[1], ConnAction::Unregister);
}

#[test]
fn request_while_one_is_in_flight_ends_the_connection() {
    let (s, acts) = run(&[ConnInput::Handshake { schema_id: 0, client_api_major: Some(1) }, request(), request()]);
    assert_eq!(s, ConnState::Closing);
    assert_eq!(acts, vec![ConnAction::AckAndRegister, ConnAction::Forward, ConnAction::Unregister]);
}
