use vstd::prelude::*;

use crate::pty::PtyError;

verus! {

/// An I/O error of the standard library, carried through as it is.
#[verifier::external_type_specification]
#[verifier::external_body]
pub struct ExIoError(std::io::Error);

/// The error taxonomy of the server.
#[derive(Debug)]
pub enum Error {
    Io(std::io::Error),
    Ipc(String),
    Pty(PtyError),
    InvalidState(String),
    Timeout(String),
    UserInput(String),
}

impl From<PtyError> for Error {
    fn from(e: PtyError) -> (r: Error)
        ensures
            r == Error::Pty(e),
    {
        Error::Pty(e)
    }
}

impl vstd::std_specs::convert::FromSpecImpl<PtyError> for Error {
    open spec fn obeys_from_spec() -> bool {
        true
    }

    open spec fn from_spec(e: PtyError) -> Error {
        Error::Pty(e)
    }
}

/// The state-layer error for a violated precondition, with a short hint.
pub fn invalid_state(hint: &str) -> (r: Error)
    ensures
        r is InvalidState,
{
    Error::InvalidState(hint.to_owned())
}

} // verus!
