//! Selecting the node's own identity at start-up: a keypair loaded from disk
//! is used as it is; when none could be loaded, a freshly generated one is
//! used instead and must be exported so later runs find it.

use vstd::prelude::*;

verus! {

/// The node's own key material, opaque to the bridge, in its encoded form.
pub struct Identity {
    bytes: Vec<u8>,
}

impl View for Identity {
    type V = Seq<u8>;

    closed spec fn view(&self) -> Seq<u8> {
        self.bytes@
    }
}

impl Identity {
    pub fn new(bytes: Vec<u8>) -> (r: Identity)
        ensures
            r@ == bytes@,
    {
        Identity { bytes }
    }

    pub fn as_bytes(&self) -> (r: &Vec<u8>)
        ensures
            r@ == self@,
    {
        &self.bytes
    }
}

/// Decide which identity the node runs under: the one loaded from storage
/// when loading succeeded, else the freshly generated one. The flag says
/// whether the chosen identity is new and must still be exported.
pub fn read_ident(loaded: Option<Identity>, generated: Identity) -> (r: (Identity, bool))
    ensures
        r.1 <==> loaded is None,
        match loaded {
            Some(id) => r.0@ == id@,
            None => r.0@ == generated@,
        },
{
    match loaded {
        Some(id) => (id, false),
        None => (generated, true),
    }
}

} // verus!
