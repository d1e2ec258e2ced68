//! Tests of the client engine: membership, the nickname cache and event
//! translation.

use p2p_chat::client::{name_from_peer, Client, ClientEvent, NetAction, NetEvent};
use p2p_chat::protocol::{Command, MessageType};
use p2p_chat::{gen_id_keys, peer_id_from_keypair};

fn fresh_client(nick: &str) -> (Client, Vec<NetAction>, Vec<u8>) {
    let keys = gen_id_keys();
    let peer = peer_id_from_keypair(&keys);
    let (client, actions) = Client::new(nick.to_owned(), &keys).unwrap();
    (client, actions, peer)
}

#[test]
fn startup_subscribes_and_publishes_own_nickname() {
    let (client, actions, peer) = fresh_client("alice");
    assert_eq!(client.nick().as_str(), "alice");
    assert_eq!(client.peer_id(), &peer);
    assert!(client.channels().is_empty());

    assert_eq!(actions.len(), 2);
    assert!(matches!(&actions[0], NetAction::Subscribe { topic } if topic.as_str() == "/p2p-chat"));
    match &actions[1] {
        NetAction::PutRecordAsProvider { key, value } => {
            // the record must parse back to this node's own binding
            match p2p_chat::protocol::MemoryKey::decode(key).unwrap() {
                p2p_chat::protocol::MemoryKey::Nickname(p) => assert_eq!(&p, &peer),
                other => panic!("unexpected key: {:?}", other),
            }
            match p2p_chat::protocol::MemoryValue::decode(value).unwrap() {
                p2p_chat::protocol::MemoryValue::Nickname { user, nickname } => {
                    assert_eq!(&user, &peer);
                    assert_eq!(nickname, "alice");
                }
                other => panic!("unexpected value: {:?}", other),
            }
        }
        other => panic!("unexpected action: {:?}", other),
    }
}

#[test]
fn startup_accepts_any_nickname() {
    let keys = gen_id_keys();
    assert!(Client::new(String::new(), &keys).is_ok());
    let keys = gen_id_keys();
    assert!(Client::new("n".repeat(1000), &keys).is_ok());
}

#[test]
fn sealing_succeeds_for_any_owner() {
    let keys = gen_id_keys();
    let value = p2p_chat::protocol::MemoryValue::Nickname {
        user: vec![0; 100],
        nickname: "n".repeat(1000),
    };
    assert!(value.encode_signed(&keys).is_ok());
}

#[test]
fn own_nickname_is_cached_at_startup() {
    let (mut client, _actions, peer) = fresh_client("alice");
    let (cached, action) = client.fetch_nickname(&peer).unwrap();
    assert_eq!(cached.as_deref(), Some("alice"));
    assert!(action.is_none());
}

#[test]
fn fetch_nickname_is_idempotent_while_pending() {
    let (mut client, _actions, _peer) = fresh_client("alice");
    let stranger = peer_id_from_keypair(&gen_id_keys());

    let (cached, action) = client.fetch_nickname(&stranger).unwrap();
    assert!(cached.is_none());
    assert!(matches!(action, Some(NetAction::GetRecord { .. })));

    // a second call while the lookup is in flight issues nothing
    let (cached, action) = client.fetch_nickname(&stranger).unwrap();
    assert!(cached.is_none());
    assert!(action.is_none());
}

#[test]
fn join_and_leave_are_idempotent() {
    let (mut client, _actions, _peer) = fresh_client("alice");

    let action = client.join_channel("general".to_owned());
    assert!(matches!(&action, Some(NetAction::Subscribe { topic }) if topic.as_str() == "/p2p-chat/channel/general"));
    assert_eq!(client.channels(), &vec!["general".to_owned()]);

    assert!(client.join_channel("general".to_owned()).is_none());
    assert_eq!(client.channels(), &vec!["general".to_owned()]);

    let action = client.leave_channel("general".to_owned());
    assert!(matches!(&action, Some(NetAction::Unsubscribe { topic }) if topic.as_str() == "/p2p-chat/channel/general"));
    assert!(client.channels().is_empty());

    assert!(client.leave_channel("general".to_owned()).is_none());
}

#[test]
fn well_formed_message_is_accepted_and_delivered() {
    // node A posts to a channel; node B's engine translates the gossip
    // delivery into exactly one message event and an acceptance report
    let (sender, _a_actions, sender_peer) = fresh_client("alice");
    let (mut receiver, _b_actions, _receiver_peer) = fresh_client("bob");

    receiver.join_channel("general".to_owned());
    let publish = sender.send_message("hi", MessageType::Normal, "general".to_owned(), 64).unwrap();
    let data = match publish {
        NetAction::Publish { topic, data } => {
            assert_eq!(topic, "/p2p-chat/channel/general");
            data
        }
        other => panic!("unexpected action: {:?}", other),
    };

    let (event, actions) = receiver.handle_event(NetEvent::GossipMessage {
        message_id: vec![1],
        source: sender_peer.clone(),
        data,
    });
    match event {
        Some(ClientEvent::Message { contents, channel, timestamp, message_type, source }) => {
            assert_eq!(contents, "hi");
            assert_eq!(channel, "general");
            assert_eq!(timestamp, 64);
            assert!(matches!(message_type, MessageType::Normal));
            assert_eq!(source, sender_peer);
        }
        other => panic!("unexpected event: {:?}", other),
    }
    assert_eq!(actions.len(), 1);
    assert!(matches!(&actions[0], NetAction::Accept { message_id, source }
        if message_id == &vec![1] && source == &sender_peer));
}

#[test]
fn oversize_message_is_rejected_without_event() {
    let (mut receiver, _actions, _peer) = fresh_client("bob");
    let stranger = peer_id_from_keypair(&gen_id_keys());

    // a well-formed encoding of contents longer than the bound
    let contents = "a".repeat(513);
    let mut data: Vec<u8> = vec![0x95, 0x03, 0xda];
    data.extend_from_slice(&513u16.to_be_bytes());
    data.extend_from_slice(contents.as_bytes());
    data.extend_from_slice(&[0xa2, b'h', b'i', 0x00, 0x00]);

    let (event, actions) = receiver.handle_event(NetEvent::GossipMessage {
        message_id: vec![7],
        source: stranger.clone(),
        data,
    });
    assert!(event.is_none());
    assert_eq!(actions.len(), 1);
    assert!(matches!(&actions[0], NetAction::Reject { message_id, source }
        if message_id == &vec![7] && source == &stranger));
}

#[test]
fn nickname_update_message_updates_cache() {
    let (mut receiver, _actions, _peer) = fresh_client("bob");
    let stranger = peer_id_from_keypair(&gen_id_keys());

    let data = Command::NicknameUpdate { nick: "carol".to_owned() }.encode().unwrap();
    let (event, actions) = receiver.handle_event(NetEvent::GossipMessage {
        message_id: vec![2],
        source: stranger.clone(),
        data,
    });
    match event {
        Some(ClientEvent::UpdatedNickname { nick, source }) => {
            assert_eq!(nick, "carol");
            assert_eq!(source, stranger);
        }
        other => panic!("unexpected event: {:?}", other),
    }
    assert!(matches!(&actions[0], NetAction::Accept { .. }));

    let (cached, action) = receiver.fetch_nickname(&stranger).unwrap();
    assert_eq!(cached.as_deref(), Some("carol"));
    assert!(action.is_none());
}

#[test]
fn lookup_result_resolves_pending_nickname() {
    // node A publishes its nickname record at startup; node B fetches
    // it: unresolved at first, resolved once the lookup completes, with
    // the record's owner verified against its signer
    let a_keys = gen_id_keys();
    let a_peer = peer_id_from_keypair(&a_keys);
    let (_a_client, a_actions) = Client::new("alice".to_owned(), &a_keys).unwrap();
    let (record_key, record_value) = match a_actions.into_iter().nth(1).unwrap() {
        NetAction::PutRecordAsProvider { key, value } => (key, value),
        other => panic!("unexpected action: {:?}", other),
    };

    let (mut b_client, _b_actions, _b_peer) = fresh_client("bob");
    let (cached, action) = b_client.fetch_nickname(&a_peer).unwrap();
    assert!(cached.is_none());
    let requested = match action {
        Some(NetAction::GetRecord { key }) => key,
        other => panic!("unexpected action: {:?}", other),
    };
    assert_eq!(requested, record_key);

    let (event, actions) = b_client.handle_event(NetEvent::DhtRecords {
        records: vec![(record_key, record_value)],
    });
    assert!(event.is_none());
    assert!(actions.is_empty());

    let (cached, action) = b_client.fetch_nickname(&a_peer).unwrap();
    assert_eq!(cached.as_deref(), Some("alice"));
    assert!(action.is_none());
}

#[test]
fn mismatched_lookup_record_is_discarded() {
    // a record signed by one peer but claiming another peer's nickname
    // must leave the cache unresolved
    let victim = peer_id_from_keypair(&gen_id_keys());
    let mallory = gen_id_keys();
    let key = p2p_chat::protocol::MemoryKey::Nickname(victim.clone()).encode().unwrap();
    let value = p2p_chat::protocol::MemoryValue::Nickname {
        user: victim.clone(),
        nickname: "evil".to_owned(),
    }
    .encode_signed(&mallory)
    .unwrap();

    let (mut client, _actions, _peer) = fresh_client("bob");
    client.fetch_nickname(&victim).unwrap();
    client.handle_event(NetEvent::DhtRecords { records: vec![(key, value)] });

    let (cached, action) = client.fetch_nickname(&victim).unwrap();
    assert!(cached.is_none());
    assert!(action.is_none());
}

#[test]
fn discovery_events_register_and_unregister_peers() {
    let (mut client, _actions, _peer) = fresh_client("alice");
    let found = peer_id_from_keypair(&gen_id_keys());

    let (event, actions) = client.handle_event(NetEvent::PeerDiscovered { peer: found.clone() });
    assert!(event.is_none());
    assert_eq!(actions.len(), 2);
    assert!(matches!(&actions[0], NetAction::AddExplicitPeer { peer } if peer == &found));
    assert!(matches!(&actions[1], NetAction::AddAddress { peer } if peer == &found));

    let (event, actions) = client.handle_event(NetEvent::PeerExpired {
        peer: found.clone(),
        still_tracked: false,
    });
    assert!(event.is_none());
    assert_eq!(actions.len(), 2);
    assert!(matches!(&actions[0], NetAction::RemoveExplicitPeer { peer } if peer == &found));
    assert!(matches!(&actions[1], NetAction::RemoveAddress { peer } if peer == &found));

    let (event, actions) = client.handle_event(NetEvent::PeerExpired {
        peer: found.clone(),
        still_tracked: true,
    });
    assert!(event.is_none());
    assert_eq!(actions.len(), 1);
    assert!(matches!(&actions[0], NetAction::RemoveAddress { peer } if peer == &found));
}

#[test]
fn connection_events_are_passed_upward() {
    let (mut client, _actions, _peer) = fresh_client("alice");
    let other = peer_id_from_keypair(&gen_id_keys());

    let (event, actions) = client.handle_event(NetEvent::ConnectionEstablished {
        peer: other.clone(),
    });
    assert!(matches!(&event, Some(ClientEvent::PeerConnected(p)) if p == &other));
    assert_eq!(actions.len(), 1);
    assert!(matches!(&actions[0], NetAction::AddAddress { peer } if peer == &other));

    let (event, actions) = client.handle_event(NetEvent::ConnectionClosed { peer: other.clone() });
    assert!(matches!(&event, Some(ClientEvent::PeerDisconnected(p)) if p == &other));
    assert!(actions.is_empty());

    let (event, _) = client.handle_event(NetEvent::Dialing { peer: other.clone() });
    assert!(matches!(&event, Some(ClientEvent::Dialing(p)) if p == &other));

    let (event, _) = client.handle_event(NetEvent::OutgoingConnectionError {
        peer: Some(other.clone()),
    });
    assert!(matches!(&event, Some(ClientEvent::OutgoingConnectionError { peer_id: Some(p) }) if p == &other));
}

#[test]
fn send_message_rejects_invalid_input() {
    let (client, _actions, _peer) = fresh_client("alice");
    assert!(client.send_message("", MessageType::Normal, "general".to_owned(), 0).is_err());
    let long = "a".repeat(513);
    assert!(client.send_message(&long, MessageType::Normal, "general".to_owned(), 0).is_err());
    assert!(client.send_message("hi", MessageType::Normal, String::new(), 0).is_err());
}

#[test]
fn fallback_names_are_deterministic() {
    assert_eq!(name_from_peer(&vec![]), "alice");
    assert_eq!(name_from_peer(&vec![1, 2, 3]), "charlotte");
    assert_eq!(name_from_peer(&vec![255, 1]), "alice");
    assert_eq!(name_from_peer(&vec![1]), "bailie");
    assert_eq!(name_from_peer(&vec![3]), "danielle");
    let peer = peer_id_from_keypair(&gen_id_keys());
    assert_eq!(name_from_peer(&peer), name_from_peer(&peer.clone()));
}
