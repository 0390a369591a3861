use owlport::events::{NodeEvent, OutEvent};
use owlport::ident::{read_ident, Identity};
use owlport::mdns;
use owlport::messaging::{self, ChatError, MessagingEmit, SendError};
use owlport::peer::{parse_peer_id, Addr, Message, PeerId};

// A well-known sha2-256 multihash in its base58 text form; a valid peer
// identifier for the messaging paths that parse text.
const PEER_A: &str = "QmYwAPJzv5CZsnA625s3Xf2nemtYgPpHdWEz79ojWnPbdG";
const PEER_B: &str = "QmbWqxBEKC3P8tqsKc98xmWNzrzDtRLMiMPL8wBuTGsMnR";

fn peer(n: u8) -> PeerId {
    PeerId::new(vec![n, n + 1, n + 2])
}

fn addr(n: u8) -> Addr {
    Addr::new(vec![n; 4])
}

#[test]
fn parse_valid_peer_id_yields_multihash_bytes() {
    let p = parse_peer_id(PEER_A).expect("well-formed peer id must parse");
    let bytes = p.as_bytes();
    // sha2-256 multihash: code 0x12, digest length 0x20, then 32 bytes.
    assert_eq!(bytes.len(), 34);
    assert_eq!(bytes[0], 0x12);
    assert_eq!(bytes[1], 0x20);
}

#[test]
fn parse_rejects_malformed_text() {
    assert!(parse_peer_id("not a peer id").is_none());
    assert!(parse_peer_id("").is_none());
    // 0, O, I and l are not base58 digits.
    assert!(parse_peer_id("0OIl").is_none());
}

#[test]
fn discovery_add_is_idempotent() {
    let mut st = mdns::State::new();
    st.add_address(&peer(1), &addr(9));
    let once = st.list_discovered();
    st.add_address(&peer(1), &addr(9));
    let twice = st.list_discovered();
    assert_eq!(once.len(), 1);
    assert_eq!(twice.len(), 1);
    assert!(once[0].0.same_as(&twice[0].0));
    assert_eq!(once[0].1.len(), 1);
    assert_eq!(twice[0].1.len(), 1);
    assert!(once[0].1[0].same_as(&twice[0].1[0]));
}

#[test]
fn discovery_expiring_every_address_drops_the_peer() {
    let mut st = mdns::State::new();
    st.add_address(&peer(1), &addr(1));
    st.add_address(&peer(1), &addr(2));
    assert_eq!(st.list_discovered()[0].1.len(), 2);
    st.expire_address(&peer(1), &addr(1));
    assert_eq!(st.list_discovered()[0].1.len(), 1);
    st.expire_address(&peer(1), &addr(2));
    assert_eq!(st.list_discovered().len(), 0);
}

#[test]
fn discovery_ignores_unknown_peers_and_addresses() {
    let mut st = mdns::State::new();
    st.expire_address(&peer(7), &addr(7));
    assert_eq!(st.list_discovered().len(), 0);
    st.add_address(&peer(1), &addr(1));
    st.expire_address(&peer(1), &addr(2));
    let snap = st.list_discovered();
    assert_eq!(snap.len(), 1);
    assert_eq!(snap[0].1.len(), 1);
}

#[test]
fn discovery_events_route_through_handle_event() {
    let mut st = mdns::State::new();
    st.handle_event(&NodeEvent::DiscoveryAdd { peer: peer(3), addr: addr(4) });
    assert_eq!(st.list_discovered().len(), 1);
    st.handle_event(&NodeEvent::Other);
    assert_eq!(st.list_discovered().len(), 1);
    st.handle_event(&NodeEvent::DiscoveryExpire { peer: peer(3), addr: addr(4) });
    assert_eq!(st.list_discovered().len(), 0);
}

#[test]
fn inbound_messages_keep_observation_order() {
    let mut st = messaging::State::new();
    let from = parse_peer_id(PEER_A).unwrap();
    let me = peer(9);
    let m1 = Message::new(from.clone(), me.clone(), "first".to_string());
    let m2 = Message::new(from.clone(), me.clone(), "second".to_string());
    let e1 = st.handle_event(&NodeEvent::InboundMessage { from: from.clone(), msg: m1 });
    let e2 = st.handle_event(&NodeEvent::InboundMessage { from: from.clone(), msg: m2 });
    assert!(matches!(e1, Some(MessagingEmit::IncomingMessage { .. })));
    assert!(matches!(e2, Some(MessagingEmit::IncomingMessage { .. })));
    let hist = st.get_chat_history(PEER_A).expect("entry exists");
    assert_eq!(hist.len(), 2);
    assert_eq!(hist[0].payload(), "first");
    assert_eq!(hist[1].payload(), "second");
}

#[test]
fn failed_send_leaves_no_history_trace() {
    let mut st = messaging::State::new();
    let me = peer(9);
    let (target, msg) =
        messaging::send_msg_prepare(&me, PEER_A, "hi".to_string()).expect("target parses");
    let r = st.send_msg_finish(&target, msg, Err("connection reset".to_string()));
    match r {
        Err(SendError::DispatchFailed(reason)) => assert_eq!(reason, "connection reset"),
        _ => panic!("expected a dispatch failure"),
    }
    assert!(matches!(st.get_chat_history(PEER_A), Err(ChatError::NotFound)));
}

#[test]
fn successful_send_appends_exactly_one_entry() {
    let mut st = messaging::State::new();
    let me = peer(9);
    let prior = Message::new(peer(9), parse_peer_id(PEER_A).unwrap(), "old".to_string());
    st.push_history(&parse_peer_id(PEER_A).unwrap(), prior);
    let (target, msg) =
        messaging::send_msg_prepare(&me, PEER_A, "hi".to_string()).expect("target parses");
    let r = st.send_msg_finish(&target, msg, Ok(5));
    assert!(matches!(r, Ok(5)));
    let hist = st.get_chat_history(PEER_A).expect("entry exists");
    assert_eq!(hist.len(), 2);
    let sent = &hist[1];
    assert!(sent.sender().same_as(&me));
    assert!(sent.receiver().same_as(&target));
    assert_eq!(sent.payload(), "hi");
    assert_eq!(hist[0].payload(), "old");
}

#[test]
fn send_to_malformed_target_is_rejected_before_dispatch() {
    let me = peer(9);
    let r = messaging::send_msg_prepare(&me, "definitely wrong", "hi".to_string());
    assert!(matches!(r, Err(SendError::InvalidPeerId)));
}

#[test]
fn connection_dedup_reports_only_the_first_link() {
    let mut st = messaging::State::new();
    let p = peer(2);
    let first =
        st.handle_event(&NodeEvent::ConnectionEstablished { peer: p.clone(), active_links: 1 });
    assert!(matches!(first, Some(MessagingEmit::Connected { .. })));
    let second =
        st.handle_event(&NodeEvent::ConnectionEstablished { peer: p.clone(), active_links: 2 });
    assert!(second.is_none());
    let closed = st.handle_event(&NodeEvent::ConnectionClosed { peer: p.clone() });
    assert!(matches!(closed, Some(MessagingEmit::Disconnected { .. })));
}

#[test]
fn clear_one_peer_empties_only_that_sequence_and_keeps_keys() {
    let mut st = messaging::State::new();
    let pa = parse_peer_id(PEER_A).unwrap();
    let pb = parse_peer_id(PEER_B).unwrap();
    st.push_history(&pa, Message::new(peer(1), pa.clone(), "a".to_string()));
    st.push_history(&pb, Message::new(peer(1), pb.clone(), "b".to_string()));
    assert!(st.clear_chat_history(Some(PEER_A)).is_ok());
    assert_eq!(st.get_chat_history(PEER_A).expect("key kept").len(), 0);
    assert_eq!(st.get_chat_history(PEER_B).expect("untouched").len(), 1);
    let chats = st.get_all_chats();
    assert_eq!(chats.len(), 2);
    assert!(chats.iter().any(|q| q.same_as(&pa)));
    assert!(chats.iter().any(|q| q.same_as(&pb)));
}

#[test]
fn clear_all_empties_every_sequence_and_keeps_keys() {
    let mut st = messaging::State::new();
    let pa = parse_peer_id(PEER_A).unwrap();
    let pb = parse_peer_id(PEER_B).unwrap();
    st.push_history(&pa, Message::new(peer(1), pa.clone(), "a".to_string()));
    st.push_history(&pb, Message::new(peer(1), pb.clone(), "b".to_string()));
    assert!(st.clear_chat_history(None).is_ok());
    assert_eq!(st.get_chat_history(PEER_A).expect("key kept").len(), 0);
    assert_eq!(st.get_chat_history(PEER_B).expect("key kept").len(), 0);
    assert_eq!(st.get_all_chats().len(), 2);
}

#[test]
fn clear_with_malformed_text_reports_invalid_peer_id() {
    let mut st = messaging::State::new();
    assert!(matches!(
        st.clear_chat_history(Some("###")),
        Err(ChatError::InvalidPeerId)
    ));
}

#[test]
fn clear_unknown_peer_is_a_no_op() {
    let mut st = messaging::State::new();
    assert!(st.clear_chat_history(Some(PEER_A)).is_ok());
    assert!(st.get_all_chats().is_empty());
}

#[test]
fn history_query_distinguishes_unknown_peer_from_bad_text() {
    let st = messaging::State::new();
    assert!(matches!(st.get_chat_history(PEER_A), Err(ChatError::NotFound)));
    assert!(matches!(
        st.get_chat_history("###"),
        Err(ChatError::InvalidPeerId)
    ));
}

#[test]
fn prepare_conversation_creates_an_empty_entry_once() {
    let mut st = messaging::State::new();
    let pa = parse_peer_id(PEER_A).unwrap();
    st.prepare_conversation(Some(&pa));
    assert_eq!(st.get_chat_history(PEER_A).expect("entry exists").len(), 0);
    st.push_history(&pa, Message::new(peer(1), pa.clone(), "a".to_string()));
    st.prepare_conversation(Some(&pa));
    assert_eq!(st.get_chat_history(PEER_A).expect("entry exists").len(), 1);
    st.prepare_conversation(None);
    assert_eq!(st.get_all_chats().len(), 1);
}

#[test]
fn emit_conversion_covers_each_protocol_event() {
    let pa = peer(4);
    let msg = Message::new(peer(1), pa.clone(), "m".to_string());
    let inc = MessagingEmit::try_from(&OutEvent::IncomingMessage { from: pa.clone(), msg });
    assert!(matches!(inc, Ok(MessagingEmit::IncomingMessage { .. })));
    let out = MessagingEmit::try_from(&OutEvent::OutboundNegotiated { peer: pa.clone() });
    assert!(matches!(out, Ok(MessagingEmit::OutboundNegotiated { .. })));
    let inb = MessagingEmit::try_from(&OutEvent::InboundNegotiated { peer: pa.clone() });
    assert!(matches!(inb, Ok(MessagingEmit::InboundNegotiated { .. })));
    assert!(MessagingEmit::try_from(&OutEvent::Unsupported).is_err());
}

#[test]
fn read_ident_prefers_the_loaded_identity() {
    let loaded = Identity::new(vec![1, 2, 3]);
    let generated = Identity::new(vec![4, 5, 6]);
    let (chosen, must_export) = read_ident(Some(loaded), generated);
    assert!(!must_export);
    assert_eq!(chosen.as_bytes(), &vec![1, 2, 3]);
}

#[test]
fn read_ident_falls_back_to_the_generated_identity() {
    let generated = Identity::new(vec![4, 5, 6]);
    let (chosen, must_export) = read_ident(None, generated);
    assert!(must_export);
    assert_eq!(chosen.as_bytes(), &vec![4, 5, 6]);
}
