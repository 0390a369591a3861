//! The node events the adapters consume. Every subscriber of the node's
//! broadcast stream receives each event; the adapters classify them and
//! ignore what does not concern them.

use vstd::prelude::*;

use crate::peer::{Addr, Message, PeerId};

verus! {

/// One occurrence on the node's event stream.
pub enum NodeEvent {
    /// Discovery found an address for a peer.
    DiscoveryAdd { peer: PeerId, addr: Addr },
    /// A previously discovered address is no longer believed valid.
    DiscoveryExpire { peer: PeerId, addr: Addr },
    /// A message arrived from a peer.
    InboundMessage { from: PeerId, msg: Message },
    /// A connection to a peer was established; `active_links` counts the
    /// concurrently established connections to that peer, this one included.
    ConnectionEstablished { peer: PeerId, active_links: u32 },
    /// A connection to a peer was closed.
    ConnectionClosed { peer: PeerId },
    /// Anything else on the stream; ignored by the adapters.
    Other,
}

/// An event of the messaging protocol itself, as surfaced by the node.
pub enum OutEvent {
    IncomingMessage { from: PeerId, msg: Message },
    OutboundNegotiated { peer: PeerId },
    InboundNegotiated { peer: PeerId },
    /// A protocol event the bridge does not surface downstream.
    Unsupported,
}

} // verus!
