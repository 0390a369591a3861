//! Messaging adapter: mirrors the per-peer chat history, folds send outcomes
//! back into it, and derives the notifications forwarded downstream. History
//! entries are append-only sequences; an entry is created lazily on the first
//! message to or from a peer, or explicitly when a conversation is prepared,
//! and clearing empties a sequence without dropping its key.

use vstd::prelude::*;

use crate::events::{NodeEvent, OutEvent};
use crate::kv;
use crate::peer::{parse_peer_id, peer_id_bytes_of, Message, MessageView, PeerId};

verus! {

/// The abstract value of a history entry snapshot.
pub open spec fn history_view(s: Seq<(PeerId, Vec<Message>)>) -> Seq<(Seq<u8>, Seq<MessageView>)> {
    s.map_values(|e: (PeerId, Vec<Message>)| (e.0@, e.1@.map_values(|m: Message| m@)))
}

/// The mapping a history entry snapshot denotes.
pub open spec fn history_as_map(s: Seq<(PeerId, Vec<Message>)>) -> Map<Seq<u8>, Seq<MessageView>> {
    kv::as_map(history_view(s))
}

/// How the history moves when a message is appended for a peer: the message
/// goes to the end of the peer's sequence, which is created if absent.
pub open spec fn history_push(
    h: Map<Seq<u8>, Seq<MessageView>>,
    p: Seq<u8>,
    m: MessageView,
) -> Map<Seq<u8>, Seq<MessageView>> {
    let base = if h.contains_key(p) {
        h[p]
    } else {
        Seq::<MessageView>::empty()
    };
    h.insert(p, base.push(m))
}

/// How the history moves when one peer's conversation is cleared: its
/// sequence is emptied but its key is kept; an absent peer is a no-op.
pub open spec fn history_clear_one(h: Map<Seq<u8>, Seq<MessageView>>, p: Seq<u8>) -> Map<
    Seq<u8>,
    Seq<MessageView>,
> {
    if h.contains_key(p) {
        h.insert(p, Seq::<MessageView>::empty())
    } else {
        h
    }
}

/// How the history moves when a conversation is prepared: an empty entry is
/// created for the peer unless one already exists.
pub open spec fn history_prepare(h: Map<Seq<u8>, Seq<MessageView>>, p: Seq<u8>) -> Map<
    Seq<u8>,
    Seq<MessageView>,
> {
    if h.contains_key(p) {
        h
    } else {
        h.insert(p, Seq::<MessageView>::empty())
    }
}

/// How the history moves under any node event: only an inbound message
/// changes it.
pub open spec fn messaging_step(h: Map<Seq<u8>, Seq<MessageView>>, ev: NodeEvent) -> Map<
    Seq<u8>,
    Seq<MessageView>,
> {
    match ev {
        NodeEvent::InboundMessage { from, msg } => history_push(h, from@, msg@),
        _ => h,
    }
}

/// The notification the event loop owes downstream for an event: inbound
/// messages are surfaced, a connection is reported only on the transition
/// from zero to one established links, and a closed connection is always
/// reported.
pub open spec fn expected_emit(ev: NodeEvent, r: Option<MessagingEmit>) -> bool {
    match ev {
        NodeEvent::InboundMessage { from, msg } => (r matches Some(
            MessagingEmit::IncomingMessage { from: f, msg: m },
        ) && f@ == from@ && m@ == msg@),
        NodeEvent::ConnectionEstablished { peer, active_links } => if active_links == 1 {
            (r matches Some(MessagingEmit::Connected { peer: q }) && q@ == peer@)
        } else {
            r is None
        },
        NodeEvent::ConnectionClosed { peer } => (r matches Some(
            MessagingEmit::Disconnected { peer: q },
        ) && q@ == peer@),
        _ => r is None,
    }
}

/// The notifications forwarded to the presentation layer.
pub enum MessagingEmit {
    IncomingMessage { from: PeerId, msg: Message },
    InboundNegotiated { peer: PeerId },
    OutboundNegotiated { peer: PeerId },
    Disconnected { peer: PeerId },
    Connected { peer: PeerId },
}

impl MessagingEmit {
    /// The downstream form of a messaging protocol event, where one exists.
    pub fn try_from(value: &OutEvent) -> (r: Result<MessagingEmit, ()>)
        ensures
            match value {
                OutEvent::IncomingMessage { from, msg } => (r matches Ok(
                    MessagingEmit::IncomingMessage { from: f, msg: m },
                ) && f@ == from@ && m@ == msg@),
                OutEvent::OutboundNegotiated { peer } => (r matches Ok(
                    MessagingEmit::OutboundNegotiated { peer: q },
                ) && q@ == peer@),
                OutEvent::InboundNegotiated { peer } => (r matches Ok(
                    MessagingEmit::InboundNegotiated { peer: q },
                ) && q@ == peer@),
                OutEvent::Unsupported => r is Err,
            },
    {
        match value {
            OutEvent::IncomingMessage { from, msg } => Ok(
                MessagingEmit::IncomingMessage { from: from.clone(), msg: msg.clone() },
            ),
            OutEvent::OutboundNegotiated { peer } => Ok(
                MessagingEmit::OutboundNegotiated { peer: peer.clone() },
            ),
            OutEvent::InboundNegotiated { peer } => Ok(
                MessagingEmit::InboundNegotiated { peer: peer.clone() },
            ),
            OutEvent::Unsupported => Err(()),
        }
    }
}

/// Why a history query failed.
#[derive(Debug)]
pub enum ChatError {
    /// The peer identifier text did not parse.
    InvalidPeerId,
    /// No history entry exists for the peer.
    NotFound,
}

/// Why a send failed.
#[derive(Debug)]
pub enum SendError {
    /// The target identifier text did not parse; nothing was dispatched.
    InvalidPeerId,
    /// The node reported a dispatch failure, surfaced verbatim; the history
    /// is left untouched.
    DispatchFailed(String),
}

/// The messaging adapter's state mirror: each peer with the ordered history
/// of messages exchanged with it.
pub struct State {
    message_history_store: Vec<(PeerId, Vec<Message>)>,
}

impl View for State {
    type V = Map<Seq<u8>, Seq<MessageView>>;

    closed spec fn view(&self) -> Map<Seq<u8>, Seq<MessageView>> {
        history_as_map(self.message_history_store@)
    }
}

impl State {
    pub closed spec fn entries(&self) -> Seq<(Seq<u8>, Seq<MessageView>)> {
        history_view(self.message_history_store@)
    }

    /// Entries have pairwise-distinct peers.
    pub closed spec fn wf(&self) -> bool {
        kv::keys_distinct(self.entries())
    }

    pub fn new() -> (r: State)
        ensures
            r.wf(),
            r@ == Map::<Seq<u8>, Seq<MessageView>>::empty(),
    {
        State { message_history_store: Vec::new() }
    }

    fn find_peer(&self, p: &PeerId) -> (r: Option<usize>)
        ensures
            match r {
                Some(i) => i < self.message_history_store@.len() && self.entries()[i as int].0
                    == p@,
                None => !kv::has_key(self.entries(), p@),
            },
    {
        let mut i: usize = 0;
        while i < self.message_history_store.len()
            invariant
                i <= self.message_history_store@.len(),
                forall|j: int| 0 <= j < i ==> self.entries()[j].0 != p@,
            decreases self.message_history_store@.len() - i,
        {
            if self.message_history_store[i].0.same_as(p) {
                return Some(i);
            }
            i += 1;
        }
        proof {
            if kv::has_key(self.entries(), p@) {
                let j = choose|j: int|
                    0 <= j < self.entries().len() && self.entries()[j].0 == p@;
                assert(self.entries()[j].0 != p@);
            }
        }
        None
    }

    /// Append a message to a peer's history, creating the entry if absent.
    pub fn push_history(&mut self, peer: &PeerId, msg: Message)
        requires
            old(self).wf(),
        ensures
            final(self).wf(),
            final(self)@ == history_push(old(self)@, peer@, msg@),
    {
        let ghost mv = msg@;
        proof {
            kv::lemma_as_map_contains(self.entries());
        }
        match self.find_peer(peer) {
            Some(i) => {
                proof {
                    kv::lemma_as_map_index(self.entries(), i as int);
                }
                let ghost ov = self.entries();
                let ghost om = ov[i as int].1;
                let mut e = self.message_history_store.remove(i);
                e.1.push(msg);
                proof {
                    assert(e.1@.map_values(|x: Message| x@) =~= om.push(mv));
                }
                self.message_history_store.insert(i, e);
                proof {
                    assert(self.message_history_store@ =~= old(self).message_history_store@.update(
                        i as int,
                        self.message_history_store@[i as int],
                    ));
                    assert(self.entries() =~= ov.update(i as int, (peer@, om.push(mv))));
                    kv::lemma_as_map_update(ov, i as int, om.push(mv));
                }
            },
            None => {
                let mut v: Vec<Message> = Vec::new();
                v.push(msg);
                proof {
                    assert(v@.map_values(|x: Message| x@) =~= seq![mv]);
                }
                self.message_history_store.push((peer.clone(), v));
                proof {
                    let ov = old(self).entries();
                    assert(self.entries() =~= ov.push((peer@, seq![mv])));
                    kv::lemma_as_map_push(ov, peer@, seq![mv]);
                    assert(Seq::<MessageView>::empty().push(mv) =~= seq![mv]);
                }
            },
        }
    }

    /// Classify one node event, fold it into the mirror, and hand back the
    /// notification owed downstream, if any. The history is updated before
    /// the notification is returned, so a query made by whoever receives it
    /// already observes the new message.
    pub fn handle_event(&mut self, ev: &NodeEvent) -> (r: Option<MessagingEmit>)
        requires
            old(self).wf(),
        ensures
            final(self).wf(),
            final(self)@ == messaging_step(old(self)@, *ev),
            expected_emit(*ev, r),
    {
        match ev {
            NodeEvent::InboundMessage { from, msg } => {
                let m = msg.clone();
                self.push_history(from, m);
                Some(MessagingEmit::IncomingMessage { from: from.clone(), msg: msg.clone() })
            },
            NodeEvent::ConnectionEstablished { peer, active_links } => {
                if *active_links == 1 {
                    Some(MessagingEmit::Connected { peer: peer.clone() })
                } else {
                    None
                }
            },
            NodeEvent::ConnectionClosed { peer } => {
                Some(MessagingEmit::Disconnected { peer: peer.clone() })
            },
            _ => None,
        }
    }

    /// Fold the outcome of a message dispatch back into the mirror: a
    /// successful send is appended to the target's history; a failed send
    /// leaves no trace and surfaces the node's reason verbatim.
    pub fn send_msg_finish(
        &mut self,
        target: &PeerId,
        msg: Message,
        dispatch: Result<u64, String>,
    ) -> (r: Result<u64, SendError>)
        requires
            old(self).wf(),
        ensures
            final(self).wf(),
            match dispatch {
                Ok(d) => r == Ok::<u64, SendError>(d) && final(self)@ == history_push(
                    old(self)@,
                    target@,
                    msg@,
                ),
                Err(reason) => (r matches Err(SendError::DispatchFailed(t)) && t@ == reason@)
                    && final(self)@ == old(self)@,
            },
    {
        match dispatch {
            Ok(d) => {
                self.push_history(target, msg);
                Ok(d)
            },
            Err(reason) => Err(SendError::DispatchFailed(reason)),
        }
    }

    /// The peer's history, as an owned copy in append order.
    pub fn get_chat_history(&self, peer_id: &str) -> (r: Result<Vec<Message>, ChatError>)
        requires
            self.wf(),
        ensures
            match r {
                Ok(v) => (match peer_id_bytes_of(peer_id@) {
                    Some(k) => self@.contains_key(k) && v@.map_values(|m: Message| m@) == self@[k],
                    None => false,
                }),
                Err(e) => match e {
                    ChatError::InvalidPeerId => peer_id_bytes_of(peer_id@) is None,
                    ChatError::NotFound => (match peer_id_bytes_of(peer_id@) {
                        Some(k) => !self@.contains_key(k),
                        None => false,
                    }),
                },
            },
    {
        let p = match parse_peer_id(peer_id) {
            Some(p) => p,
            None => {
                return Err(ChatError::InvalidPeerId);
            },
        };
        proof {
            kv::lemma_as_map_contains(self.entries());
        }
        match self.find_peer(&p) {
            Some(i) => {
                proof {
                    kv::lemma_as_map_index(self.entries(), i as int);
                }
                let v = self.message_history_store[i].1.clone();
                proof {
                    let ghost orig = self.message_history_store@[i as int].1;
                    assert forall|k: int| 0 <= k < v@.len() implies v@[k]@ == orig@[k]@ by {
                        assert(cloned::<Message>(orig@[k], v@[k]));
                    }
                    assert(v@.map_values(|m: Message| m@) =~= orig@.map_values(|m: Message| m@));
                }
                Ok(v)
            },
            None => Err(ChatError::NotFound),
        }
    }

    /// The peers with a history entry; an owned snapshot.
    pub fn get_all_chats(&self) -> (r: Vec<PeerId>)
        requires
            self.wf(),
        ensures
            r@.map_values(|p: PeerId| p@).no_duplicates(),
            forall|k: Seq<u8>|
                #![trigger self@.contains_key(k)]
                self@.contains_key(k) <==> r@.map_values(|p: PeerId| p@).contains(k),
    {
        let mut r: Vec<PeerId> = Vec::new();
        let mut i: usize = 0;
        while i < self.message_history_store.len()
            invariant
                i <= self.message_history_store@.len(),
                r@.len() == i,
                forall|j: int| 0 <= j < i ==> (#[trigger] r@[j])@ == self.entries()[j].0,
            decreases self.message_history_store@.len() - i,
        {
            r.push(self.message_history_store[i].0.clone());
            i += 1;
        }
        proof {
            kv::lemma_as_map_contains(self.entries());
            let keys = r@.map_values(|p: PeerId| p@);
            assert(keys.len() == self.entries().len());
            assert(forall|j: int| 0 <= j < keys.len() ==> #[trigger] keys[j] == self.entries()[j].0);
            assert forall|k: Seq<u8>| #![trigger self@.contains_key(k)]
                self@.contains_key(k) <==> keys.contains(k) by {
                if self@.contains_key(k) {
                    assert(kv::has_key(self.entries(), k));
                    let j = choose|j: int|
                        0 <= j < self.entries().len() && self.entries()[j].0 == k;
                    assert(keys[j] == k);
                    assert(keys.contains(k));
                }
                if keys.contains(k) {
                    let j = choose|j: int| 0 <= j < keys.len() && keys[j] == k;
                    assert(kv::has_key(self.entries(), k)) by {
                        assert(self.entries()[j].0 == k);
                    }
                }
            }
        }
        r
    }

    /// Clear one peer's conversation, or every conversation; sequences are
    /// emptied but every entry key is kept.
    pub fn clear_chat_history(&mut self, peer_id: Option<&str>) -> (r: Result<(), ChatError>)
        requires
            old(self).wf(),
        ensures
            final(self).wf(),
            match peer_id {
                Some(t) => (match peer_id_bytes_of(t@) {
                    Some(k) => r == Ok::<(), ChatError>(()) && final(self)@ == history_clear_one(
                        old(self)@,
                        k,
                    ),
                    None => r == Err::<(), ChatError>(ChatError::InvalidPeerId) && final(self)@
                        == old(self)@,
                }),
                None => r == Ok::<(), ChatError>(()) && final(self)@.dom() == old(self)@.dom()
                    && forall|k: Seq<u8>|
                    #[trigger] final(self)@.contains_key(k) ==> final(self)@[k]
                        == Seq::<MessageView>::empty(),
            },
    {
        match peer_id {
            Some(t) => {
                let p = match parse_peer_id(t) {
                    Some(p) => p,
                    None => {
                        return Err(ChatError::InvalidPeerId);
                    },
                };
                proof {
                    kv::lemma_as_map_contains(self.entries());
                }
                match self.find_peer(&p) {
                    Some(i) => {
                        proof {
                            kv::lemma_as_map_index(self.entries(), i as int);
                        }
                        let ghost ov = self.entries();
                        let mut e = self.message_history_store.remove(i);
                        e.1.clear();
                        proof {
                            assert(e.1@.map_values(|x: Message| x@)
                                =~= Seq::<MessageView>::empty());
                        }
                        self.message_history_store.insert(i, e);
                        proof {
                            assert(self.message_history_store@
                                =~= old(self).message_history_store@.update(
                                i as int,
                                self.message_history_store@[i as int],
                            ));
                            assert(self.entries() =~= ov.update(
                                i as int,
                                (p@, Seq::<MessageView>::empty()),
                            ));
                            kv::lemma_as_map_update(ov, i as int, Seq::<MessageView>::empty());
                        }
                    },
                    None => {},
                }
                Ok(())
            },
            None => {
                let mut i: usize = 0;
                while i < self.message_history_store.len()
                    invariant
                        i <= self.message_history_store@.len(),
                        self.message_history_store@.len()
                            == old(self).message_history_store@.len(),
                        forall|j: int|
                            0 <= j < self.message_history_store@.len() ==> (
                            #[trigger] self.message_history_store@[j]).0
                                == old(self).message_history_store@[j].0,
                        forall|j: int|
                            0 <= j < i ==> (#[trigger] self.message_history_store@[j]).1@.len()
                                == 0,
                        forall|j: int|
                            i <= j < self.message_history_store@.len() ==> (
                            #[trigger] self.message_history_store@[j])
                                == old(self).message_history_store@[j],
                    decreases self.message_history_store@.len() - i,
                {
                    let ghost prev = self.message_history_store@;
                    let mut e = self.message_history_store.remove(i);
                    e.1.clear();
                    self.message_history_store.insert(i, e);
                    proof {
                        assert(self.message_history_store@ =~= prev.update(
                            i as int,
                            self.message_history_store@[i as int],
                        ));
                    }
                    i += 1;
                }
                proof {
                    let ov = old(self).entries();
                    let nv = self.entries();
                    kv::lemma_as_map_contains(ov);
                    kv::lemma_as_map_contains(nv);
                    assert forall|j: int| 0 <= j < nv.len() implies (#[trigger] nv[j]).0 == ov[j].0
                        && nv[j].1 == Seq::<MessageView>::empty() by {
                        assert(self.message_history_store@[j].1@.map_values(|m: Message| m@)
                            =~= Seq::<MessageView>::empty());
                    }
                    assert(kv::keys_distinct(nv));
                    assert(self@.dom() =~= old(self)@.dom()) by {
                        assert forall|k: Seq<u8>|
                            self@.contains_key(k) <==> old(self)@.contains_key(k) by {
                            if kv::has_key(nv, k) {
                                let j = choose|j: int| 0 <= j < nv.len() && nv[j].0 == k;
                                assert(ov[j].0 == k);
                            }
                            if kv::has_key(ov, k) {
                                let j = choose|j: int| 0 <= j < ov.len() && ov[j].0 == k;
                                assert(nv[j].0 == k);
                            }
                        }
                    }
                    assert forall|k: Seq<u8>| #[trigger]
                        self@.contains_key(k) implies self@[k] == Seq::<MessageView>::empty() by {
                        assert(kv::has_key(nv, k));
                        let j = choose|j: int| 0 <= j < nv.len() && nv[j].0 == k;
                        kv::lemma_as_map_index(nv, j);
                    }
                }
                Ok(())
            },
        }
    }

    /// Ensure a (possibly empty) history entry exists for the peer, if one
    /// is given; otherwise do nothing.
    pub fn prepare_conversation(&mut self, peer: Option<&PeerId>)
        requires
            old(self).wf(),
        ensures
            final(self).wf(),
            match peer {
                Some(p) => final(self)@ == history_prepare(old(self)@, p@),
                None => final(self)@ == old(self)@,
            },
    {
        match peer {
            Some(p) => {
                proof {
                    kv::lemma_as_map_contains(self.entries());
                }
                match self.find_peer(p) {
                    Some(i) => {
                        proof {
                            assert(self.entries()[i as int].0 == p@);
                            assert(kv::has_key(self.entries(), p@));
                        }
                    },
                    None => {
                        let v: Vec<Message> = Vec::new();
                        proof {
                            assert(v@.map_values(|m: Message| m@)
                                =~= Seq::<MessageView>::empty());
                        }
                        self.message_history_store.push((p.clone(), v));
                        proof {
                            let ov = old(self).entries();
                            assert(self.entries() =~= ov.push(
                                (p@, Seq::<MessageView>::empty()),
                            ));
                            kv::lemma_as_map_push(ov, p@, Seq::<MessageView>::empty());
                        }
                    },
                }
            },
            None => {},
        }
    }
}

/// Builds the message a send dispatches: the caller's own identity as
/// sender, the parsed target as receiver; a malformed target is rejected
/// before anything is dispatched.
pub fn send_msg_prepare(self_id: &PeerId, target: &str, msg: String) -> (r: Result<
    (PeerId, Message),
    SendError,
>)
    ensures
        match r {
            Ok(pm) => (match peer_id_bytes_of(target@) {
                Some(k) => pm.0@ == k && pm.1@ == (MessageView {
                    sender: self_id@,
                    receiver: k,
                    payload: msg@,
                }),
                None => false,
            }),
            Err(e) => e == SendError::InvalidPeerId && peer_id_bytes_of(target@) is None,
        },
{
    match parse_peer_id(target) {
        Some(p) => {
            let receiver = p.clone();
            let message = Message::new(self_id.clone(), receiver, msg);
            Ok((p, message))
        },
        None => Err(SendError::InvalidPeerId),
    }
}

/// For one peer, messages observed earlier stand earlier in the history:
/// appending `m1` then `m2` extends the peer's prior sequence by `m1` then
/// `m2`, in that order, and touches nothing else of it.
pub proof fn lemma_history_append_ordered(
    h: Map<Seq<u8>, Seq<MessageView>>,
    p: Seq<u8>,
    m1: MessageView,
    m2: MessageView,
)
    ensures
        ({
            let h2 = history_push(history_push(h, p, m1), p, m2);
            let base = if h.contains_key(p) {
                h[p]
            } else {
                Seq::<MessageView>::empty()
            };
            h2.contains_key(p) && h2[p] == base.push(m1).push(m2)
        }),
{
}

/// Clearing one peer's conversation keeps every entry key — the set of known
/// conversations is unchanged — empties exactly that peer's sequence, and
/// leaves every other sequence as it was.
pub proof fn lemma_clear_retains_conversations(h: Map<Seq<u8>, Seq<MessageView>>, p: Seq<u8>)
    ensures
        history_clear_one(h, p).dom() == h.dom(),
        h.contains_key(p) ==> history_clear_one(h, p)[p] == Seq::<MessageView>::empty(),
        forall|q: Seq<u8>|
            q != p && h.contains_key(q) ==> #[trigger] history_clear_one(h, p)[q] == h[q],
{
    if h.contains_key(p) {
        assert(h.insert(p, Seq::<MessageView>::empty()).dom() =~= h.dom());
    }
}

} // verus!
