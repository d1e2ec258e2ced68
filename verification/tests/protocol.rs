//! Tests of the wire codec, validation bounds, topics and signed records.

use p2p_chat::protocol::{
    multicodec_msgpack, topic_from_channel, Channel, Command, MemoryKey, MemoryValue, MessageType,
};
use p2p_chat::{gen_id_keys, peer_id_from_keypair, Error};

#[test]
fn test_command_message_send() {
    // good
    assert!(Command::MessageSend {
        contents: "hello world!".to_owned(),
        channel: "hello".to_owned(),
        timestamp: 64,
        message_type: MessageType::Normal
    }
    .is_valid());

    // bad: too long of channel name
    assert!(!Command::MessageSend {
        contents: "hello world!".to_owned(),
        channel: "thisisanabsurdlylongchannelnameohnoiwonderifthisisokay".to_owned(),
        timestamp: 64,
        message_type: MessageType::Normal
    }
    .is_valid());

    // bad: empty channel name
    assert!(!Command::MessageSend {
        contents: "hello world!".to_owned(),
        channel: String::new(),
        timestamp: 64,
        message_type: MessageType::Normal
    }
    .is_valid());

    // bad: very long message
    assert!(!Command::MessageSend {
        contents: String::new(),
        channel: "hello".repeat(200),
        timestamp: 0,
        message_type: MessageType::Normal
    }
    .is_valid());

    // bad: empty message
    assert!(!Command::MessageSend {
        contents: String::new(),
        channel: "hello".to_owned(),
        timestamp: 0,
        message_type: MessageType::Me
    }
    .is_valid());
}

#[test]
fn test_command_nickname_update() {
    // good
    assert!(Command::NicknameUpdate { nick: "alice".to_owned() }.is_valid());

    // bad: name empty
    assert!(!Command::NicknameUpdate { nick: String::new() }.is_valid());

    // bad: name too long
    assert!(!Command::NicknameUpdate { nick: "verylongnameverylongname".to_owned() }.is_valid());
}

#[test]
fn test_channel_topics() {
    assert_eq!(
        "/p2p-chat/channel/hello world",
        topic_from_channel(&"hello world".to_owned()).as_str()
    );
}

#[test]
fn topic_is_deterministic() {
    let a = topic_from_channel(&"general".to_owned());
    let b = topic_from_channel(&"general".to_owned());
    assert_eq!(a, b);
    assert_eq!(a.as_bytes(), b.as_bytes());
    assert_eq!(a, "/p2p-chat/channel/general");
}

#[test]
fn message_send_boundaries() {
    let valid = Command::MessageSend {
        contents: "a".repeat(512),
        channel: "hello".to_owned(),
        timestamp: 1,
        message_type: MessageType::Normal,
    };
    assert!(valid.is_valid());
    assert!(valid.encode().is_ok());

    let too_long = Command::MessageSend {
        contents: "a".repeat(513),
        channel: "hello".to_owned(),
        timestamp: 1,
        message_type: MessageType::Normal,
    };
    assert!(!too_long.is_valid());
    assert!(matches!(too_long.encode(), Err(Error::InvalidData)));

    let channel_max = Command::MessageSend {
        contents: "hi".to_owned(),
        channel: "x".repeat(20),
        timestamp: 1,
        message_type: MessageType::Normal,
    };
    assert!(channel_max.is_valid());

    let channel_over = Command::MessageSend {
        contents: "hi".to_owned(),
        channel: "x".repeat(21),
        timestamp: 1,
        message_type: MessageType::Normal,
    };
    assert!(!channel_over.is_valid());
}

#[test]
fn nickname_boundaries() {
    assert!(Command::NicknameUpdate { nick: "n".repeat(20) }.is_valid());
    assert!(!Command::NicknameUpdate { nick: "n".repeat(21) }.is_valid());
}

#[test]
fn round_trip_message_send() {
    let cmd = Command::MessageSend {
        contents: "hello there".to_owned(),
        channel: "general".to_owned(),
        timestamp: 123_456_789_012_345,
        message_type: MessageType::Me,
    };
    let bytes = cmd.encode().unwrap();
    let back = Command::decode(&bytes).unwrap();
    match back {
        Command::MessageSend { contents, channel, timestamp, message_type } => {
            assert_eq!(contents, "hello there");
            assert_eq!(channel, "general");
            assert_eq!(timestamp, 123_456_789_012_345);
            assert!(matches!(message_type, MessageType::Me));
        }
        other => panic!("decoded to the wrong variant: {:?}", other),
    }
}

#[test]
fn round_trip_join_leave_nickname() {
    for (cmd, tag) in [
        (Command::ChannelRequestJoin { channel: "room".to_owned() }, 0),
        (Command::ChannelRequestLeave { channel: "room".to_owned() }, 1),
        (Command::NicknameUpdate { nick: "alice".to_owned() }, 2),
    ] {
        let bytes = cmd.encode().unwrap();
        let back = Command::decode(&bytes).unwrap();
        match (tag, back) {
            (0, Command::ChannelRequestJoin { channel }) => assert_eq!(channel, "room"),
            (1, Command::ChannelRequestLeave { channel }) => assert_eq!(channel, "room"),
            (2, Command::NicknameUpdate { nick }) => assert_eq!(nick, "alice"),
            (_, other) => panic!("decoded to the wrong variant: {:?}", other),
        }
    }
}

#[test]
fn round_trip_channel_update() {
    let cmd = Command::ChannelUpdate {
        channel: Channel {
            identifier: "general".to_owned(),
            owner: vec![1, 2, 3, 4],
            peers: vec![vec![1, 2, 3, 4], vec![5, 6], vec![]],
            version: 70_000,
        },
    };
    let bytes = cmd.encode().unwrap();
    match Command::decode(&bytes).unwrap() {
        Command::ChannelUpdate { channel } => {
            assert_eq!(channel.identifier, "general");
            assert_eq!(channel.owner, vec![1, 2, 3, 4]);
            assert_eq!(channel.peers, vec![vec![1, 2, 3, 4], vec![5, 6], vec![]]);
            assert_eq!(channel.version, 70_000);
        }
        other => panic!("decoded to the wrong variant: {:?}", other),
    }
}

#[test]
fn decode_rejects_malformed_bytes() {
    assert!(matches!(Command::decode(&[]), Err(Error::DecodingError)));
    assert!(matches!(Command::decode(&[0xff, 0x00]), Err(Error::DecodingError)));
    // a valid encoding with trailing garbage is refused
    let mut bytes = Command::NicknameUpdate { nick: "alice".to_owned() }.encode().unwrap();
    bytes.push(0);
    assert!(matches!(Command::decode(&bytes), Err(Error::DecodingError)));
    // an unknown variant tag is refused
    assert!(matches!(Command::decode(&[0x92, 0x09, 0xa0]), Err(Error::DecodingError)));
}

#[test]
fn decode_rejects_invalid_command() {
    // a well-formed encoding of an oversize message: array of five
    // fields, tag 3, 513 bytes of contents
    let contents = "a".repeat(513);
    let mut bytes: Vec<u8> = vec![0x95, 0x03];
    bytes.push(0xda);
    bytes.extend_from_slice(&513u16.to_be_bytes());
    bytes.extend_from_slice(contents.as_bytes());
    bytes.extend_from_slice(&[0xa2, b'h', b'i']);
    bytes.push(0x01);
    bytes.push(0x00);
    assert!(matches!(Command::decode(&bytes), Err(Error::InvalidData)));
}

#[test]
fn decode_rejects_invalid_utf8() {
    // array of two, tag 4, a two-byte string that is not UTF-8
    let bytes: Vec<u8> = vec![0x92, 0x04, 0xa2, 0xff, 0xfe];
    assert!(matches!(Command::decode(&bytes), Err(Error::DecodingError)));
}

#[test]
fn memory_key_round_trip() {
    let key = MemoryKey::Nickname(vec![9, 8, 7]);
    let bytes = key.encode().unwrap();
    match MemoryKey::decode(&bytes).unwrap() {
        MemoryKey::Nickname(p) => assert_eq!(p, vec![9, 8, 7]),
        other => panic!("decoded to the wrong variant: {:?}", other),
    }

    let key = MemoryKey::Channel("general".to_owned());
    let bytes = key.encode().unwrap();
    match MemoryKey::decode(&bytes).unwrap() {
        MemoryKey::Channel(c) => assert_eq!(c, "general"),
        other => panic!("decoded to the wrong variant: {:?}", other),
    }

    assert!(matches!(MemoryKey::decode(&[0x91]), Err(Error::DecodingError)));
}

#[test]
fn signed_record_round_trip() {
    let keys = gen_id_keys();
    let peer = peer_id_from_keypair(&keys);
    let value = MemoryValue::Nickname { user: peer.clone(), nickname: "alice".to_owned() };
    let sealed = value.encode_signed(&keys).unwrap();
    match MemoryValue::decode(&sealed).unwrap() {
        MemoryValue::Nickname { user, nickname } => {
            assert_eq!(user, peer);
            assert_eq!(nickname, "alice");
        }
        other => panic!("decoded to the wrong variant: {:?}", other),
    }
}

#[test]
fn signed_record_owner_mismatch_is_rejected() {
    let signer = gen_id_keys();
    let other = gen_id_keys();
    let value = MemoryValue::Nickname {
        user: peer_id_from_keypair(&other),
        nickname: "mallory".to_owned(),
    };
    let sealed = value.encode_signed(&signer).unwrap();
    assert!(matches!(MemoryValue::decode(&sealed), Err(Error::SignatureMismatch)));
}

#[test]
fn signed_channel_record_round_trip() {
    let keys = gen_id_keys();
    let peer = peer_id_from_keypair(&keys);
    let value = MemoryValue::Channel(Channel {
        identifier: "general".to_owned(),
        owner: peer.clone(),
        peers: vec![peer.clone()],
        version: 1,
    });
    let sealed = value.encode_signed(&keys).unwrap();
    match MemoryValue::decode(&sealed).unwrap() {
        MemoryValue::Channel(c) => {
            assert_eq!(c.identifier, "general");
            assert_eq!(c.owner, peer);
            assert_eq!(c.version, 1);
        }
        other => panic!("decoded to the wrong variant: {:?}", other),
    }
}

#[test]
fn signed_record_rejects_garbage() {
    assert!(matches!(MemoryValue::decode(&[1, 2, 3]), Err(Error::DecodingError)));
    assert!(matches!(MemoryValue::decode(&[]), Err(Error::DecodingError)));
}

#[test]
fn payload_type_tag_is_fixed() {
    assert_eq!(multicodec_msgpack(), vec![0x02, 0x01]);
}

#[test]
fn decode_accepts_wider_integer_forms() {
    // the same nickname update with its variant tag carried in a
    // one-byte unsigned form instead of the short form
    let bytes: Vec<u8> = vec![0x92, 0xcc, 0x04, 0xa5, b'a', b'l', b'i', b'c', b'e'];
    match Command::decode(&bytes).unwrap() {
        Command::NicknameUpdate { nick } => assert_eq!(nick, "alice"),
        other => panic!("decoded to the wrong variant: {:?}", other),
    }
}

#[test]
fn errors_describe_themselves() {
    assert_eq!(Error::InvalidData.describe(), "command is not valid");
    assert_eq!(Error::DecodingError.describe(), "decode error");
    assert_eq!(Error::SignatureMismatch.describe(), "signature mismatch");
    assert_eq!(Error::SigningError.describe(), "signing error");
    assert_eq!(Error::InsufficientPeers.describe(), "insufficient peers");
}
