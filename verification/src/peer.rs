//! Plain-value models of the identifiers and messages that run through the
//! bridge: peer identifiers, transport addresses, and chat messages.

use vstd::prelude::*;

verus! {

/// Byte-wise equality of two buffers.
pub(crate) fn bytes_eq(a: &Vec<u8>, b: &Vec<u8>) -> (r: bool)
    ensures
        r <==> a@ == b@,
{
    if a.len() != b.len() {
        return false;
    }
    let mut i: usize = 0;
    while i < a.len()
        invariant
            i <= a.len(),
            a.len() == b.len(),
            forall|j: int| 0 <= j < i ==> a@[j] == b@[j],
        decreases a.len() - i,
    {
        if a[i] != b[i] {
            return false;
        }
        i += 1;
    }
    proof {
        assert(a@ =~= b@);
    }
    true
}

/// A peer identifier in its canonical multihash byte form.
pub struct PeerId {
    bytes: Vec<u8>,
}

impl View for PeerId {
    type V = Seq<u8>;

    closed spec fn view(&self) -> Seq<u8> {
        self.bytes@
    }
}

impl PeerId {
    pub fn new(bytes: Vec<u8>) -> (r: PeerId)
        ensures
            r@ == bytes@,
    {
        PeerId { bytes }
    }

    pub fn as_bytes(&self) -> (r: &Vec<u8>)
        ensures
            r@ == self@,
    {
        &self.bytes
    }

    /// Byte-wise comparison; two identifiers denote the same peer exactly
    /// when their canonical bytes agree.
    pub fn same_as(&self, other: &PeerId) -> (r: bool)
        ensures
            r <==> self@ == other@,
    {
        bytes_eq(&self.bytes, &other.bytes)
    }
}

impl Clone for PeerId {
    fn clone(&self) -> (r: Self)
        ensures
            r@ == self@,
    {
        let bytes = self.bytes.clone();
        proof {
            assert(bytes@ =~= self.bytes@);
        }
        PeerId { bytes }
    }
}

/// A transport-level locator for a peer, carried in its byte form.
pub struct Addr {
    bytes: Vec<u8>,
}

impl View for Addr {
    type V = Seq<u8>;

    closed spec fn view(&self) -> Seq<u8> {
        self.bytes@
    }
}

impl Addr {
    pub fn new(bytes: Vec<u8>) -> (r: Addr)
        ensures
            r@ == bytes@,
    {
        Addr { bytes }
    }

    pub fn as_bytes(&self) -> (r: &Vec<u8>)
        ensures
            r@ == self@,
    {
        &self.bytes
    }

    pub fn same_as(&self, other: &Addr) -> (r: bool)
        ensures
            r <==> self@ == other@,
    {
        bytes_eq(&self.bytes, &other.bytes)
    }
}

impl Clone for Addr {
    fn clone(&self) -> (r: Self)
        ensures
            r@ == self@,
    {
        let bytes = self.bytes.clone();
        proof {
            assert(bytes@ =~= self.bytes@);
        }
        Addr { bytes }
    }
}

/// The mathematical value of a [`Message`].
pub struct MessageView {
    pub sender: Seq<u8>,
    pub receiver: Seq<u8>,
    pub payload: Seq<char>,
}

/// An immutable chat message: sender, receiver and payload.
pub struct Message {
    sender: PeerId,
    receiver: PeerId,
    payload: String,
}

impl View for Message {
    type V = MessageView;

    closed spec fn view(&self) -> MessageView {
        MessageView { sender: self.sender@, receiver: self.receiver@, payload: self.payload@ }
    }
}

impl Message {
    pub fn new(sender: PeerId, receiver: PeerId, payload: String) -> (r: Message)
        ensures
            r@ == (MessageView { sender: sender@, receiver: receiver@, payload: payload@ }),
    {
        Message { sender, receiver, payload }
    }

    pub fn sender(&self) -> (r: &PeerId)
        ensures
            r@ == self@.sender,
    {
        &self.sender
    }

    pub fn receiver(&self) -> (r: &PeerId)
        ensures
            r@ == self@.receiver,
    {
        &self.receiver
    }

    pub fn payload(&self) -> (r: &String)
        ensures
            r@ == self@.payload,
    {
        &self.payload
    }
}

impl Clone for Message {
    fn clone(&self) -> (r: Self)
        ensures
            r@ == self@,
    {
        Message {
            sender: self.sender.clone(),
            receiver: self.receiver.clone(),
            payload: self.payload.clone(),
        }
    }
}

/// What parsing a textual peer identifier yields: the canonical bytes for a
/// well-formed text, nothing for a malformed one. The outcome depends on the
/// text alone.
pub uninterp spec fn peer_id_bytes_of(s: Seq<char>) -> Option<Seq<u8>>;

/// Relies on `libp2p_identity::PeerId`: `from_str` decodes the base58
/// multihash text form of a peer identifier and `to_bytes` yields its
/// canonical bytes; both depend on the text alone.
#[verifier::external_body]
fn parse_peer_id_bytes(s: &str) -> (r: Option<Vec<u8>>)
    ensures
        match r {
            Some(b) => peer_id_bytes_of(s@) == Some(b@),
            None => peer_id_bytes_of(s@) is None,
        },
{
    match s.parse::<libp2p_identity::PeerId>() {
        Ok(p) => Some(p.to_bytes()),
        Err(_) => None,
    }
}

/// Parses the textual form of a peer identifier into its canonical bytes.
pub fn parse_peer_id(s: &str) -> (r: Option<PeerId>)
    ensures
        match r {
            Some(p) => peer_id_bytes_of(s@) == Some(p@),
            None => peer_id_bytes_of(s@) is None,
        },
{
    match parse_peer_id_bytes(s) {
        Some(b) => Some(PeerId::new(b)),
        None => None,
    }
}

} // verus!
