use vstd::prelude::*;

pub use crate::common::idgen::PeerId;

verus! {

/// A client connection known to the server.
#[derive(Clone, Debug)]
pub struct Peer {
    pub id: PeerId,
    pub name: String,
}

impl Peer {
    pub fn new(id: PeerId, name: &str) -> (r: Self)
        ensures
            r.id == id,
            r.name@ == name@,
    {
        Peer { id, name: name.to_owned() }
    }
}

} // verus!
