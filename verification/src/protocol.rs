//! The wire protocol: command schema, structural validation and the
//! binary encoding of commands and distributed-store records.
//!
//! Commands are encoded as a tagged array: an array header, an unsigned
//! integer naming the variant, then the fields.  Decoding re-runs the same
//! validity predicate that encoding enforces, so no structurally invalid
//! command ever reaches the application layer.

use vstd::prelude::*;
use vstd::string::StringExecFns;
use vstd::utf8::encode_utf8;

use crate::envelope::{envelope_open, envelope_opening, envelope_seal};
use crate::error::Error;
use crate::msgpack::{
    bin_fits, bytes_eq, dec_arrhead, dec_bin, dec_str, dec_uint, enc_arrhead, enc_bin, enc_str,
    enc_uint,
    get_arrhead, get_bin, get_str, get_uint, lemma_dec_arrhead_enc, lemma_dec_bin_enc,
    lemma_dec_str_enc, lemma_dec_uint_enc, lemma_subrange_of_embed, put_arrhead, put_bin, put_str,
    put_uint, str_byte_len, str_fits, MAX_LEN32,
};
use crate::{MAX_CHANNEL_IDENTIFIER_LENGTH, MAX_MESSAGE_LENGTH, MAX_NICK_LENGTH,
    SIGNED_ENVELOPE_DOMAIN};

verus! {

/// A channel identifier.
pub type ChannelIdentifier = String;

/// How a chat message is meant to be displayed.
#[derive(Clone, Copy, Debug, PartialEq, Eq, Structural)]
pub enum MessageType {
    /// An ordinary message.
    Normal,
    /// A message describing an action of its sender.
    Me,
}

/// The wire tag of a message type.
pub open spec fn spec_mt_tag(m: MessageType) -> u64 {
    match m {
        MessageType::Normal => 0,
        MessageType::Me => 1,
    }
}

/// The message type a wire tag names, if any.
pub open spec fn spec_mt_from_tag(t: u64) -> Option<MessageType> {
    if t == 0 {
        Some(MessageType::Normal)
    } else if t == 1 {
        Some(MessageType::Me)
    } else {
        None
    }
}

/// Shared channel metadata, as carried in channel update commands and
/// channel records of the distributed store.
///
/// Peers are identified by their public-key-derived identifier bytes.
#[derive(Debug)]
pub struct Channel {
    /// The channel's identifier.
    pub identifier: ChannelIdentifier,
    /// The identifier bytes of the peer owning the channel.
    pub owner: Vec<u8>,
    /// The identifier bytes of the peers in the channel.
    pub peers: Vec<Vec<u8>>,
    /// A version counter; updates carry a fresh version.
    pub version: u64,
}

/// The mathematical value of a [`Channel`].
pub struct ChannelModel {
    /// The channel's identifier.
    pub identifier: Seq<char>,
    /// The identifier bytes of the owning peer.
    pub owner: Seq<u8>,
    /// The identifier bytes of the peers in the channel.
    pub peers: Seq<Seq<u8>>,
    /// The version counter.
    pub version: u64,
}

impl View for Channel {
    type V = ChannelModel;

    open spec fn view(&self) -> ChannelModel {
        ChannelModel {
            identifier: self.identifier@,
            owner: self.owner@,
            peers: self.peers.deep_view(),
            version: self.version,
        }
    }
}

/// An application command carried over the gossip overlay.
#[derive(Debug)]
pub enum Command {
    /// Updated metadata for a channel.
    ChannelUpdate {
        /// The new metadata.
        channel: Channel,
    },
    /// A request to join a channel.
    ChannelRequestJoin {
        /// The channel to join.
        channel: ChannelIdentifier,
    },
    /// A request to leave a channel.
    ChannelRequestLeave {
        /// The channel to leave.
        channel: ChannelIdentifier,
    },
    /// A chat message posted to a channel.
    MessageSend {
        /// The message text.
        contents: String,
        /// The channel the message is posted to.
        channel: ChannelIdentifier,
        /// Milliseconds since the epoch at the sender.
        timestamp: u64,
        /// How the message is meant to be displayed.
        message_type: MessageType,
    },
    /// A new nickname for the sending peer.
    NicknameUpdate {
        /// The nickname.
        nick: String,
    },
}

/// The mathematical value of a [`Command`].
pub enum CommandModel {
    /// Updated metadata for a channel.
    ChannelUpdate { channel: ChannelModel },
    /// A request to join a channel.
    ChannelRequestJoin { channel: Seq<char> },
    /// A request to leave a channel.
    ChannelRequestLeave { channel: Seq<char> },
    /// A chat message posted to a channel.
    MessageSend { contents: Seq<char>, channel: Seq<char>, timestamp: u64, message_type: MessageType },
    /// A new nickname for the sending peer.
    NicknameUpdate { nick: Seq<char> },
}

impl View for Command {
    type V = CommandModel;

    open spec fn view(&self) -> CommandModel {
        match self {
            Command::ChannelUpdate { channel } => CommandModel::ChannelUpdate { channel: channel@ },
            Command::ChannelRequestJoin { channel } => CommandModel::ChannelRequestJoin {
                channel: channel@,
            },
            Command::ChannelRequestLeave { channel } => CommandModel::ChannelRequestLeave {
                channel: channel@,
            },
            Command::MessageSend { contents, channel, timestamp, message_type } => CommandModel::MessageSend {
                contents: contents@,
                channel: channel@,
                timestamp: *timestamp,
                message_type: *message_type,
            },
            Command::NicknameUpdate { nick } => CommandModel::NicknameUpdate { nick: nick@ },
        }
    }
}

// ---------------------------------------------------------------------------
// Validity
// ---------------------------------------------------------------------------

/// The schema bounds a command must satisfy before it may be encoded, and
/// after it has been decoded: message contents non-empty and at most
/// [`MAX_MESSAGE_LENGTH`] bytes, its channel identifier non-empty and at
/// most [`MAX_CHANNEL_IDENTIFIER_LENGTH`] bytes, a nickname non-empty and
/// at most [`MAX_NICK_LENGTH`] bytes.  Metadata, join and leave commands
/// carry no additional structural constraint.
pub open spec fn spec_valid_command(c: CommandModel) -> bool {
    match c {
        CommandModel::MessageSend { contents, channel, .. } => 0 < encode_utf8(contents).len()
            <= MAX_MESSAGE_LENGTH && 0 < encode_utf8(channel).len()
            <= MAX_CHANNEL_IDENTIFIER_LENGTH,
        CommandModel::NicknameUpdate { nick } => 0 < encode_utf8(nick).len() <= MAX_NICK_LENGTH,
        _ => true,
    }
}

/// Whether every variable-length field of a channel fits its length header.
pub open spec fn spec_channel_encodable(c: ChannelModel) -> bool {
    &&& str_fits(c.identifier)
    &&& bin_fits(c.owner)
    &&& c.peers.len() <= MAX_LEN32
    &&& forall|k: int| 0 <= k < c.peers.len() ==> bin_fits(#[trigger] c.peers[k])
}

/// Whether every variable-length field of a command fits its length
/// header.  This always holds of a valid message or nickname command, and
/// of any value a machine can hold except degenerate metadata commands
/// with fields of four gibibytes or more.
pub open spec fn spec_command_encodable(c: CommandModel) -> bool {
    match c {
        CommandModel::ChannelUpdate { channel } => spec_channel_encodable(channel),
        CommandModel::ChannelRequestJoin { channel } => str_fits(channel),
        CommandModel::ChannelRequestLeave { channel } => str_fits(channel),
        CommandModel::MessageSend { contents, channel, .. } => str_fits(contents) && str_fits(
            channel,
        ),
        CommandModel::NicknameUpdate { nick } => str_fits(nick),
    }
}

// ---------------------------------------------------------------------------
// Specification-level encoding
// ---------------------------------------------------------------------------

/// The concatenated encodings of a list of peer identifiers.
pub open spec fn spec_enc_peers(ps: Seq<Seq<u8>>) -> Seq<u8>
    decreases ps.len(),
{
    if ps.len() == 0 {
        Seq::empty()
    } else {
        enc_bin(ps[0]) + spec_enc_peers(ps.drop_first())
    }
}

/// The encoding of channel metadata: a four-element array of identifier,
/// owner, peer list and version.
pub open spec fn spec_enc_channel(c: ChannelModel) -> Seq<u8> {
    enc_arrhead(4) + enc_str(c.identifier) + enc_bin(c.owner) + enc_arrhead(c.peers.len() as int)
        + spec_enc_peers(c.peers) + enc_uint(c.version)
}

/// The encoding of a command: an array header, the variant tag, then the
/// variant's fields.
pub open spec fn spec_encode_command(c: CommandModel) -> Seq<u8> {
    match c {
        CommandModel::ChannelUpdate { channel } => enc_arrhead(2) + enc_uint(0) + spec_enc_channel(
            channel,
        ),
        CommandModel::ChannelRequestJoin { channel } => enc_arrhead(2) + enc_uint(1) + enc_str(
            channel,
        ),
        CommandModel::ChannelRequestLeave { channel } => enc_arrhead(2) + enc_uint(2) + enc_str(
            channel,
        ),
        CommandModel::MessageSend { contents, channel, timestamp, message_type } => enc_arrhead(5)
            + enc_uint(3) + enc_str(contents) + enc_str(channel) + enc_uint(timestamp) + enc_uint(
            spec_mt_tag(message_type),
        ),
        CommandModel::NicknameUpdate { nick } => enc_arrhead(2) + enc_uint(4) + enc_str(nick),
    }
}

// ---------------------------------------------------------------------------
// Specification-level decoding
// ---------------------------------------------------------------------------

/// Decode `n` consecutive peer identifiers at `i`.
pub open spec fn spec_dec_peers(b: Seq<u8>, i: int, n: int) -> Option<(Seq<Seq<u8>>, int)>
    decreases n,
{
    if n <= 0 {
        Some((Seq::empty(), i))
    } else {
        match dec_bin(b, i) {
            None => None,
            Some((v, j)) => match spec_dec_peers(b, j, n - 1) {
                None => None,
                Some((vs, k)) => Some((seq![v] + vs, k)),
            },
        }
    }
}

/// Decode channel metadata at `i`.
pub open spec fn spec_dec_channel(b: Seq<u8>, i: int) -> Option<(ChannelModel, int)> {
    match dec_arrhead(b, i) {
        None => None,
        Some((n, j)) => if n != 4 {
            None
        } else {
            match dec_str(b, j) {
                None => None,
                Some((identifier, j1)) => match dec_bin(b, j1) {
                    None => None,
                    Some((owner, j2)) => match dec_arrhead(b, j2) {
                        None => None,
                        Some((np, j3)) => match spec_dec_peers(b, j3, np) {
                            None => None,
                            Some((peers, j4)) => match dec_uint(b, j4) {
                                None => None,
                                Some((version, j5)) => Some(
                                    (ChannelModel { identifier, owner, peers, version }, j5),
                                ),
                            },
                        },
                    },
                },
            }
        },
    }
}

/// Decode a whole buffer as a command, without the validity check: the
/// tagged array must fill the buffer exactly.
pub open spec fn spec_dec_command_raw(b: Seq<u8>) -> Option<CommandModel> {
    match dec_arrhead(b, 0) {
        None => None,
        Some((n, i)) => match dec_uint(b, i) {
            None => None,
            Some((tag, j)) => if tag == 0 {
                if n != 2 {
                    None
                } else {
                    match spec_dec_channel(b, j) {
                        None => None,
                        Some((channel, k)) => if k == b.len() {
                            Some(CommandModel::ChannelUpdate { channel })
                        } else {
                            None
                        },
                    }
                }
            } else if tag == 1 || tag == 2 || tag == 4 {
                if n != 2 {
                    None
                } else {
                    match dec_str(b, j) {
                        None => None,
                        Some((s, k)) => if k == b.len() {
                            if tag == 1 {
                                Some(CommandModel::ChannelRequestJoin { channel: s })
                            } else if tag == 2 {
                                Some(CommandModel::ChannelRequestLeave { channel: s })
                            } else {
                                Some(CommandModel::NicknameUpdate { nick: s })
                            }
                        } else {
                            None
                        },
                    }
                }
            } else if tag == 3 {
                if n != 5 {
                    None
                } else {
                    match dec_str(b, j) {
                        None => None,
                        Some((contents, j1)) => match dec_str(b, j1) {
                            None => None,
                            Some((channel, j2)) => match dec_uint(b, j2) {
                                None => None,
                                Some((timestamp, j3)) => match dec_uint(b, j3) {
                                    None => None,
                                    Some((mt, j4)) => if j4 == b.len() {
                                        match spec_mt_from_tag(mt) {
                                            None => None,
                                            Some(message_type) => Some(
                                                CommandModel::MessageSend {
                                                    contents,
                                                    channel,
                                                    timestamp,
                                                    message_type,
                                                },
                                            ),
                                        }
                                    } else {
                                        None
                                    },
                                },
                            },
                        },
                    }
                }
            } else {
                None
            },
        },
    }
}

/// Decode a whole buffer as a command: the bytes must parse and the
/// parsed command must satisfy the validity predicate.
pub open spec fn spec_decode_command(b: Seq<u8>) -> Option<CommandModel> {
    match spec_dec_command_raw(b) {
        None => None,
        Some(c) => if spec_valid_command(c) {
            Some(c)
        } else {
            None
        },
    }
}

// ---------------------------------------------------------------------------
// Executable encoding
// ---------------------------------------------------------------------------

/// Concatenation of peer encodings distributes over appending a peer.
proof fn lemma_enc_peers_push(ps: Seq<Seq<u8>>, x: Seq<u8>)
    ensures
        spec_enc_peers(ps.push(x)) == spec_enc_peers(ps) + enc_bin(x),
    decreases ps.len(),
{
    if ps.len() == 0 {
        assert(ps.push(x).drop_first() =~= Seq::<Seq<u8>>::empty());
        assert(ps.push(x)[0] == x);
        assert(spec_enc_peers(Seq::<Seq<u8>>::empty()) =~= Seq::<u8>::empty());
        assert(spec_enc_peers(ps.push(x)) =~= enc_bin(x));
        assert(spec_enc_peers(ps) + enc_bin(x) =~= enc_bin(x));
    } else {
        assert(ps.push(x).drop_first() =~= ps.drop_first().push(x));
        lemma_enc_peers_push(ps.drop_first(), x);
        assert(spec_enc_peers(ps.push(x)) =~= spec_enc_peers(ps) + enc_bin(x));
    }
}

/// Append the encoding of channel metadata to `out`; fails exactly when
/// some field is too long for its length header, leaving `out` in an
/// unspecified state that the caller discards.
fn put_channel(out: &mut Vec<u8>, c: &Channel) -> (ok: bool)
    ensures
        ok == spec_channel_encodable(c@),
        ok ==> final(out)@ == old(out)@ + spec_enc_channel(c@),
{
    put_arrhead(out, 4);
    if !put_str(out, c.identifier.as_str()) {
        return false;
    }
    if !put_bin(out, &c.owner) {
        return false;
    }
    if (c.peers.len() as u64) > MAX_LEN32 {
        return false;
    }
    put_arrhead(out, c.peers.len() as u64);
    let ghost mid = out@;
    let mut k: usize = 0;
    while k < c.peers.len()
        invariant
            k <= c.peers.len(),
            c@.peers.len() == c.peers.len(),
            out@ == mid + spec_enc_peers(c@.peers.take(k as int)),
            forall|t: int| 0 <= t < k ==> bin_fits(#[trigger] c@.peers[t]),
        decreases c.peers.len() - k,
    {
        assert(c@.peers[k as int] == c.peers@[k as int]@);
        if !put_bin(out, &c.peers[k]) {
            return false;
        }
        proof {
            assert(c@.peers.take(k + 1) =~= c@.peers.take(k as int).push(c@.peers[k as int]));
            lemma_enc_peers_push(c@.peers.take(k as int), c@.peers[k as int]);
        }
        k += 1;
    }
    assert(c@.peers.take(c.peers.len() as int) =~= c@.peers);
    put_uint(out, c.version);
    assert(out@ =~= old(out)@ + spec_enc_channel(c@));
    true
}

impl Command {
    /// Whether this command satisfies the schema bounds.
    pub fn is_valid(&self) -> (r: bool)
        ensures
            r == spec_valid_command(self@),
    {
        match self {
            Command::MessageSend { contents, channel, .. } => {
                let cl = str_byte_len(contents.as_str());
                let nl = str_byte_len(channel.as_str());
                0 < cl && cl <= MAX_MESSAGE_LENGTH && 0 < nl && nl <= MAX_CHANNEL_IDENTIFIER_LENGTH
            },
            Command::NicknameUpdate { nick } => {
                let l = str_byte_len(nick.as_str());
                0 < l && l <= MAX_NICK_LENGTH
            },
            _ => true,
        }
    }

    /// Encode this command.
    ///
    /// Succeeds exactly when the command satisfies the schema bounds and
    /// every field fits its length header, and then returns exactly the
    /// bytes of [`spec_encode_command`]; fails with
    /// [`Error::InvalidData`] otherwise.
    pub fn encode(&self) -> (r: Result<Vec<u8>, Error>)
        ensures
            r is Ok <==> spec_valid_command(self@) && spec_command_encodable(self@),
            r matches Ok(v) ==> v@ == spec_encode_command(self@),
            r matches Err(e) ==> e is InvalidData,
    {
        if !self.is_valid() {
            return Err(Error::InvalidData);
        }
        let mut out: Vec<u8> = Vec::new();
        match self {
            Command::ChannelUpdate { channel } => {
                put_arrhead(&mut out, 2);
                put_uint(&mut out, 0);
                if !put_channel(&mut out, channel) {
                    return Err(Error::InvalidData);
                }
                assert(out@ =~= spec_encode_command(self@));
            },
            Command::ChannelRequestJoin { channel } => {
                put_arrhead(&mut out, 2);
                put_uint(&mut out, 1);
                if !put_str(&mut out, channel.as_str()) {
                    return Err(Error::InvalidData);
                }
                assert(out@ =~= spec_encode_command(self@));
            },
            Command::ChannelRequestLeave { channel } => {
                put_arrhead(&mut out, 2);
                put_uint(&mut out, 2);
                if !put_str(&mut out, channel.as_str()) {
                    return Err(Error::InvalidData);
                }
                assert(out@ =~= spec_encode_command(self@));
            },
            Command::MessageSend { contents, channel, timestamp, message_type } => {
                put_arrhead(&mut out, 5);
                put_uint(&mut out, 3);
                if !put_str(&mut out, contents.as_str()) {
                    return Err(Error::InvalidData);
                }
                if !put_str(&mut out, channel.as_str()) {
                    return Err(Error::InvalidData);
                }
                put_uint(&mut out, *timestamp);
                let tag: u64 = match message_type {
                    MessageType::Normal => 0,
                    MessageType::Me => 1,
                };
                put_uint(&mut out, tag);
                assert(out@ =~= spec_encode_command(self@));
            },
            Command::NicknameUpdate { nick } => {
                put_arrhead(&mut out, 2);
                put_uint(&mut out, 4);
                if !put_str(&mut out, nick.as_str()) {
                    return Err(Error::InvalidData);
                }
                assert(out@ =~= spec_encode_command(self@));
            },
        }
        Ok(out)
    }
}

// ---------------------------------------------------------------------------
// Executable decoding
// ---------------------------------------------------------------------------

/// Decode channel metadata at `i`.
fn get_channel(b: &[u8], i: usize) -> (r: Option<(Channel, usize)>)
    ensures
        r matches Some(p) ==> spec_dec_channel(b@, i as int) matches Some(q) && p.0@ == q.0 && p.1
            as int == q.1 && i < p.1 <= b@.len(),
        r is None ==> spec_dec_channel(b@, i as int) is None,
{
    let (n, j) = match get_arrhead(b, i) {
        None => return None,
        Some(p) => p,
    };
    if n != 4 {
        return None;
    }
    let (identifier, j1) = match get_str(b, j) {
        None => return None,
        Some(p) => p,
    };
    let (owner, j2) = match get_bin(b, j1) {
        None => return None,
        Some(p) => p,
    };
    let (np, j3) = match get_arrhead(b, j2) {
        None => return None,
        Some(p) => p,
    };
    let mut peers: Vec<Vec<u8>> = Vec::new();
    let mut pos = j3;
    let mut k: u64 = 0;
    #[verifier::loop_isolation(false)]
    while k < np
        invariant
            k <= np,
            i < pos <= b@.len(),
            spec_dec_peers(b@, j3 as int, np as int) == (match spec_dec_peers(
                b@,
                pos as int,
                np - k,
            ) {
                None => None::<(Seq<Seq<u8>>, int)>,
                Some((vs, e)) => Some((peers.deep_view() + vs, e)),
            }),
        decreases np - k,
    {
        let ghost prev_dv = peers.deep_view();
        match get_bin(b, pos) {
            None => {
                return None;
            },
            Some((v, j4)) => {
                peers.push(v);
                proof {
                    assert(peers.deep_view() =~~= prev_dv.push(v@));
                    if spec_dec_peers(b@, j4 as int, np - k - 1) is Some {
                        let vs2 = (spec_dec_peers(b@, j4 as int, np - k - 1)->0).0;
                        assert(prev_dv + (seq![v@] + vs2) =~= prev_dv.push(v@) + vs2);
                    }
                }
                pos = j4;
                k = k + 1;
            },
        }
    }
    assert(peers.deep_view() + Seq::<Seq<u8>>::empty() =~= peers.deep_view());
    let (version, j5) = match get_uint(b, pos) {
        None => return None,
        Some(p) => p,
    };
    Some((Channel { identifier, owner, peers, version }, j5))
}

impl Command {
    /// Decode a command from a whole buffer.
    ///
    /// Succeeds exactly when the buffer is a well-formed encoding of a
    /// command that satisfies the schema bounds, and then returns exactly
    /// the command of [`spec_decode_command`].  Malformed bytes fail with
    /// [`Error::DecodingError`]; a well-formed encoding of an invalid
    /// command fails with [`Error::InvalidData`].
    pub fn decode(encoded: &[u8]) -> (r: Result<Command, Error>)
        ensures
            r matches Ok(c) ==> spec_decode_command(encoded@) == Some(c@),
            r is Err ==> spec_decode_command(encoded@) is None,
            r matches Err(e) ==> (match spec_dec_command_raw(encoded@) {
                None => e is DecodingError,
                Some(c) => !spec_valid_command(c) && e is InvalidData,
            }),
    {
        let (n, i) = match get_arrhead(encoded, 0) {
            None => return Err(Error::DecodingError),
            Some(p) => p,
        };
        let (tag, j) = match get_uint(encoded, i) {
            None => return Err(Error::DecodingError),
            Some(p) => p,
        };
        let cmd: Command;
        if tag == 0 {
            if n != 2 {
                return Err(Error::DecodingError);
            }
            let (channel, k) = match get_channel(encoded, j) {
                None => return Err(Error::DecodingError),
                Some(p) => p,
            };
            if k != encoded.len() {
                return Err(Error::DecodingError);
            }
            cmd = Command::ChannelUpdate { channel };
        } else if tag == 1 || tag == 2 || tag == 4 {
            if n != 2 {
                return Err(Error::DecodingError);
            }
            let (s, k) = match get_str(encoded, j) {
                None => return Err(Error::DecodingError),
                Some(p) => p,
            };
            if k != encoded.len() {
                return Err(Error::DecodingError);
            }
            cmd = if tag == 1 {
                Command::ChannelRequestJoin { channel: s }
            } else if tag == 2 {
                Command::ChannelRequestLeave { channel: s }
            } else {
                Command::NicknameUpdate { nick: s }
            };
        } else if tag == 3 {
            if n != 5 {
                return Err(Error::DecodingError);
            }
            let (contents, j1) = match get_str(encoded, j) {
                None => return Err(Error::DecodingError),
                Some(p) => p,
            };
            let (channel, j2) = match get_str(encoded, j1) {
                None => return Err(Error::DecodingError),
                Some(p) => p,
            };
            let (timestamp, j3) = match get_uint(encoded, j2) {
                None => return Err(Error::DecodingError),
                Some(p) => p,
            };
            let (mt, j4) = match get_uint(encoded, j3) {
                None => return Err(Error::DecodingError),
                Some(p) => p,
            };
            if j4 != encoded.len() {
                return Err(Error::DecodingError);
            }
            let message_type = if mt == 0 {
                MessageType::Normal
            } else if mt == 1 {
                MessageType::Me
            } else {
                return Err(Error::DecodingError);
            };
            cmd = Command::MessageSend { contents, channel, timestamp, message_type };
        } else {
            return Err(Error::DecodingError);
        }
        if cmd.is_valid() {
            Ok(cmd)
        } else {
            Err(Error::InvalidData)
        }
    }
}

// ---------------------------------------------------------------------------
// Decoding an encoding yields the command back
// ---------------------------------------------------------------------------

/// Decoding at the position of an embedded peer-list encoding yields the
/// peers and the position just past them.
proof fn lemma_dec_peers_enc(b: Seq<u8>, i: int, ps: Seq<Seq<u8>>)
    requires
        forall|t: int| 0 <= t < ps.len() ==> bin_fits(#[trigger] ps[t]),
        0 <= i,
        i + spec_enc_peers(ps).len() <= b.len(),
        b.subrange(i, i + spec_enc_peers(ps).len()) == spec_enc_peers(ps),
    ensures
        spec_dec_peers(b, i, ps.len() as int) == Some((ps, i + spec_enc_peers(ps).len())),
    decreases ps.len(),
{
    if ps.len() == 0 {
        assert(ps =~= Seq::<Seq<u8>>::empty());
    } else {
        let e = spec_enc_peers(ps);
        let e0 = enc_bin(ps[0]);
        let rest = spec_enc_peers(ps.drop_first());
        assert(e == e0 + rest);
        lemma_subrange_of_embed(b, i, e, 0, e0.len() as int);
        assert(e.subrange(0, e0.len() as int) =~= e0);
        lemma_dec_bin_enc(b, i, ps[0]);
        lemma_subrange_of_embed(b, i, e, e0.len() as int, e.len() as int);
        assert(e.subrange(e0.len() as int, e.len() as int) =~= rest);
        lemma_dec_peers_enc(b, i + e0.len(), ps.drop_first());
        assert(seq![ps[0]] + ps.drop_first() =~= ps);
    }
}

/// Decoding at the position of an embedded channel encoding yields the
/// channel metadata and the position just past it.
proof fn lemma_dec_channel_enc(b: Seq<u8>, i: int, c: ChannelModel)
    requires
        spec_channel_encodable(c),
        0 <= i,
        i + spec_enc_channel(c).len() <= b.len(),
        b.subrange(i, i + spec_enc_channel(c).len()) == spec_enc_channel(c),
    ensures
        spec_dec_channel(b, i) == Some((c, i + spec_enc_channel(c).len())),
{
    let e = spec_enc_channel(c);
    let p0 = enc_arrhead(4);
    let p1 = enc_str(c.identifier);
    let p2 = enc_bin(c.owner);
    let p3 = enc_arrhead(c.peers.len() as int);
    let p4 = spec_enc_peers(c.peers);
    let p5 = enc_uint(c.version);
    let o1 = p0.len() as int;
    let o2 = o1 + p1.len();
    let o3 = o2 + p2.len();
    let o4 = o3 + p3.len();
    let o5 = o4 + p4.len();
    assert(e == p0 + p1 + p2 + p3 + p4 + p5);

    lemma_subrange_of_embed(b, i, e, 0, o1);
    assert(e.subrange(0, o1) =~= p0);
    lemma_dec_arrhead_enc(b, i, 4);

    lemma_subrange_of_embed(b, i, e, o1, o2);
    assert(e.subrange(o1, o2) =~= p1);
    lemma_dec_str_enc(b, i + o1, c.identifier);

    lemma_subrange_of_embed(b, i, e, o2, o3);
    assert(e.subrange(o2, o3) =~= p2);
    lemma_dec_bin_enc(b, i + o2, c.owner);

    lemma_subrange_of_embed(b, i, e, o3, o4);
    assert(e.subrange(o3, o4) =~= p3);
    lemma_dec_arrhead_enc(b, i + o3, c.peers.len() as int);

    lemma_subrange_of_embed(b, i, e, o4, o5);
    assert(e.subrange(o4, o5) =~= p4);
    lemma_dec_peers_enc(b, i + o4, c.peers);

    lemma_subrange_of_embed(b, i, e, o5, e.len() as int);
    assert(e.subrange(o5, e.len() as int) =~= p5);
    lemma_dec_uint_enc(b, i + o5, c.version);
}

/// Law: decoding an encoding yields the command back.  For every command
/// value that satisfies the schema bounds and whose fields fit their
/// length headers, decoding the bytes of [`spec_encode_command`] yields
/// exactly the command.
pub proof fn lemma_command_round_trip(c: CommandModel)
    requires
        spec_valid_command(c),
        spec_command_encodable(c),
    ensures
        spec_decode_command(spec_encode_command(c)) == Some(c),
{
    let b = spec_encode_command(c);
    assert(b.subrange(0, b.len() as int) =~= b);
    match c {
        CommandModel::ChannelUpdate { channel } => {
            lemma_round_trip_channel_update(b, channel);
        },
        CommandModel::ChannelRequestJoin { channel } => {
            lemma_round_trip_tagged_str(b, 1, channel);
        },
        CommandModel::ChannelRequestLeave { channel } => {
            lemma_round_trip_tagged_str(b, 2, channel);
        },
        CommandModel::MessageSend { contents, channel, timestamp, message_type } => {
            lemma_round_trip_message_send(b, contents, channel, timestamp, message_type);
        },
        CommandModel::NicknameUpdate { nick } => {
            lemma_round_trip_tagged_str(b, 4, nick);
        },
    }
}

/// The shape of the channel update variant: an array of the tag and the
/// channel metadata.
proof fn lemma_round_trip_channel_update(b: Seq<u8>, channel: ChannelModel)
    requires
        spec_channel_encodable(channel),
        b == enc_arrhead(2) + enc_uint(0) + spec_enc_channel(channel),
    ensures
        dec_arrhead(b, 0) == Some((2int, enc_arrhead(2).len() as int)),
        dec_uint(b, enc_arrhead(2).len() as int) == Some(
            (0u64, enc_arrhead(2).len() + enc_uint(0).len() as int),
        ),
        spec_dec_channel(b, enc_arrhead(2).len() + enc_uint(0).len() as int) == Some(
            (channel, b.len() as int),
        ),
{
    let p0 = enc_arrhead(2);
    let p1 = enc_uint(0);
    let p2 = spec_enc_channel(channel);
    let o1 = p0.len() as int;
    let o2 = o1 + p1.len();
    assert(b.subrange(0, b.len() as int) =~= b);
    lemma_subrange_of_embed(b, 0, b, 0, o1);
    assert(b.subrange(0, o1) =~= p0);
    lemma_dec_arrhead_enc(b, 0, 2);
    lemma_subrange_of_embed(b, 0, b, o1, o2);
    assert(b.subrange(o1, o2) =~= p1);
    lemma_dec_uint_enc(b, o1, 0);
    lemma_subrange_of_embed(b, 0, b, o2, b.len() as int);
    assert(b.subrange(o2, b.len() as int) =~= p2);
    lemma_dec_channel_enc(b, o2, channel);
}

/// The shape of the message variant: an array of the tag, the contents,
/// the channel, the timestamp and the message type.
proof fn lemma_round_trip_message_send(
    b: Seq<u8>,
    contents: Seq<char>,
    channel: Seq<char>,
    timestamp: u64,
    message_type: MessageType,
)
    requires
        str_fits(contents),
        str_fits(channel),
        b == enc_arrhead(5) + enc_uint(3) + enc_str(contents) + enc_str(channel) + enc_uint(
            timestamp,
        ) + enc_uint(spec_mt_tag(message_type)),
    ensures
        ({
            let o1 = enc_arrhead(5).len() as int;
            let o2 = o1 + enc_uint(3).len();
            let o3 = o2 + enc_str(contents).len();
            let o4 = o3 + enc_str(channel).len();
            let o5 = o4 + enc_uint(timestamp).len();
            &&& dec_arrhead(b, 0) == Some((5int, o1))
            &&& dec_uint(b, o1) == Some((3u64, o2))
            &&& dec_str(b, o2) == Some((contents, o3))
            &&& dec_str(b, o3) == Some((channel, o4))
            &&& dec_uint(b, o4) == Some((timestamp, o5))
            &&& dec_uint(b, o5) == Some((spec_mt_tag(message_type), b.len() as int))
        }),
{
    let p0 = enc_arrhead(5);
    let p1 = enc_uint(3);
    let p2 = enc_str(contents);
    let p3 = enc_str(channel);
    let p4 = enc_uint(timestamp);
    let p5 = enc_uint(spec_mt_tag(message_type));
    let o1 = p0.len() as int;
    let o2 = o1 + p1.len();
    let o3 = o2 + p2.len();
    let o4 = o3 + p3.len();
    let o5 = o4 + p4.len();
    assert(b.subrange(0, b.len() as int) =~= b);
    lemma_subrange_of_embed(b, 0, b, 0, o1);
    assert(b.subrange(0, o1) =~= p0);
    lemma_dec_arrhead_enc(b, 0, 5);
    lemma_subrange_of_embed(b, 0, b, o1, o2);
    assert(b.subrange(o1, o2) =~= p1);
    lemma_dec_uint_enc(b, o1, 3);
    lemma_subrange_of_embed(b, 0, b, o2, o3);
    assert(b.subrange(o2, o3) =~= p2);
    lemma_dec_str_enc(b, o2, contents);
    lemma_subrange_of_embed(b, 0, b, o3, o4);
    assert(b.subrange(o3, o4) =~= p3);
    lemma_dec_str_enc(b, o3, channel);
    lemma_subrange_of_embed(b, 0, b, o4, o5);
    assert(b.subrange(o4, o5) =~= p4);
    lemma_dec_uint_enc(b, o4, timestamp);
    lemma_subrange_of_embed(b, 0, b, o5, b.len() as int);
    assert(b.subrange(o5, b.len() as int) =~= p5);
    lemma_dec_uint_enc(b, o5, spec_mt_tag(message_type));
}

/// The shared shape of the join, leave and nickname variants: an array of
/// the tag and one string.
proof fn lemma_round_trip_tagged_str(b: Seq<u8>, tag: u64, s: Seq<char>)
    requires
        str_fits(s),
        1 <= tag <= 4,
        b == enc_arrhead(2) + enc_uint(tag) + enc_str(s),
    ensures
        dec_arrhead(b, 0) == Some((2int, enc_arrhead(2).len() as int)),
        dec_uint(b, enc_arrhead(2).len() as int) == Some(
            (tag, enc_arrhead(2).len() + enc_uint(tag).len() as int),
        ),
        dec_str(b, enc_arrhead(2).len() + enc_uint(tag).len() as int) == Some(
            (s, b.len() as int),
        ),
{
    let p0 = enc_arrhead(2);
    let p1 = enc_uint(tag);
    let p2 = enc_str(s);
    let o1 = p0.len() as int;
    let o2 = o1 + p1.len();
    assert(b.subrange(0, b.len() as int) =~= b);
    lemma_subrange_of_embed(b, 0, b, 0, o1);
    assert(b.subrange(0, o1) =~= p0);
    lemma_dec_arrhead_enc(b, 0, 2);
    lemma_subrange_of_embed(b, 0, b, o1, o2);
    assert(b.subrange(o1, o2) =~= p1);
    lemma_dec_uint_enc(b, o1, tag);
    lemma_subrange_of_embed(b, 0, b, o2, b.len() as int);
    assert(b.subrange(o2, b.len() as int) =~= p2);
    lemma_dec_str_enc(b, o2, s);
}

// ---------------------------------------------------------------------------
// Distributed-store records
// ---------------------------------------------------------------------------

/// A key of the distributed key/value store.
#[derive(Debug)]
pub enum MemoryKey {
    /// The nickname record of the peer with these identifier bytes.
    Nickname(Vec<u8>),
    /// The metadata record of the channel with this identifier.
    Channel(String),
}

/// The mathematical value of a [`MemoryKey`].
pub enum MemoryKeyModel {
    /// The nickname record of a peer.
    Nickname(Seq<u8>),
    /// The metadata record of a channel.
    Channel(Seq<char>),
}

impl View for MemoryKey {
    type V = MemoryKeyModel;

    open spec fn view(&self) -> MemoryKeyModel {
        match self {
            MemoryKey::Nickname(p) => MemoryKeyModel::Nickname(p@),
            MemoryKey::Channel(s) => MemoryKeyModel::Channel(s@),
        }
    }
}

/// Whether every variable-length field of a key fits its length header.
pub open spec fn spec_key_encodable(k: MemoryKeyModel) -> bool {
    match k {
        MemoryKeyModel::Nickname(p) => bin_fits(p),
        MemoryKeyModel::Channel(s) => str_fits(s),
    }
}

/// The encoding of a store key: an array of the variant tag and its field.
pub open spec fn spec_encode_key(k: MemoryKeyModel) -> Seq<u8> {
    match k {
        MemoryKeyModel::Nickname(p) => enc_arrhead(2) + enc_uint(0) + enc_bin(p),
        MemoryKeyModel::Channel(s) => enc_arrhead(2) + enc_uint(1) + enc_str(s),
    }
}

/// Decode a whole buffer as a store key.
pub open spec fn spec_decode_key(b: Seq<u8>) -> Option<MemoryKeyModel> {
    match dec_arrhead(b, 0) {
        None => None,
        Some((n, i)) => if n != 2 {
            None
        } else {
            match dec_uint(b, i) {
                None => None,
                Some((tag, j)) => if tag == 0 {
                    match dec_bin(b, j) {
                        None => None,
                        Some((p, k)) => if k == b.len() {
                            Some(MemoryKeyModel::Nickname(p))
                        } else {
                            None
                        },
                    }
                } else if tag == 1 {
                    match dec_str(b, j) {
                        None => None,
                        Some((s, k)) => if k == b.len() {
                            Some(MemoryKeyModel::Channel(s))
                        } else {
                            None
                        },
                    }
                } else {
                    None
                },
            }
        },
    }
}

impl MemoryKey {
    /// Encode this key.
    ///
    /// Succeeds exactly when the field fits its length header, and then
    /// returns exactly the bytes of [`spec_encode_key`].
    pub fn encode(&self) -> (r: Result<Vec<u8>, Error>)
        ensures
            r is Ok <==> spec_key_encodable(self@),
            r matches Ok(v) ==> v@ == spec_encode_key(self@),
            r matches Err(e) ==> e is InvalidData,
    {
        let mut out: Vec<u8> = Vec::new();
        put_arrhead(&mut out, 2);
        match self {
            MemoryKey::Nickname(p) => {
                put_uint(&mut out, 0);
                if !put_bin(&mut out, p) {
                    return Err(Error::InvalidData);
                }
            },
            MemoryKey::Channel(s) => {
                put_uint(&mut out, 1);
                if !put_str(&mut out, s.as_str()) {
                    return Err(Error::InvalidData);
                }
            },
        }
        assert(out@ =~= spec_encode_key(self@));
        Ok(out)
    }

    /// Decode a store key from a whole buffer.
    ///
    /// Succeeds exactly when the buffer is a well-formed key encoding,
    /// and then returns exactly the key of [`spec_decode_key`].
    pub fn decode(encoded: &[u8]) -> (r: Result<MemoryKey, Error>)
        ensures
            r matches Ok(k) ==> spec_decode_key(encoded@) == Some(k@),
            r is Err ==> spec_decode_key(encoded@) is None,
            r matches Err(e) ==> e is DecodingError,
    {
        let (n, i) = match get_arrhead(encoded, 0) {
            None => return Err(Error::DecodingError),
            Some(p) => p,
        };
        if n != 2 {
            return Err(Error::DecodingError);
        }
        let (tag, j) = match get_uint(encoded, i) {
            None => return Err(Error::DecodingError),
            Some(p) => p,
        };
        if tag == 0 {
            let (p, k) = match get_bin(encoded, j) {
                None => return Err(Error::DecodingError),
                Some(p) => p,
            };
            if k != encoded.len() {
                return Err(Error::DecodingError);
            }
            Ok(MemoryKey::Nickname(p))
        } else if tag == 1 {
            let (s, k) = match get_str(encoded, j) {
                None => return Err(Error::DecodingError),
                Some(p) => p,
            };
            if k != encoded.len() {
                return Err(Error::DecodingError);
            }
            Ok(MemoryKey::Channel(s))
        } else {
            Err(Error::DecodingError)
        }
    }
}

/// Law: decoding an encoded store key yields the key back.
pub proof fn lemma_key_round_trip(k: MemoryKeyModel)
    requires
        spec_key_encodable(k),
    ensures
        spec_decode_key(spec_encode_key(k)) == Some(k),
{
    let b = spec_encode_key(k);
    assert(b.subrange(0, b.len() as int) =~= b);
    match k {
        MemoryKeyModel::Nickname(p) => {
            let p0 = enc_arrhead(2);
            let p1 = enc_uint(0);
            let p2 = enc_bin(p);
            let o1 = p0.len() as int;
            let o2 = o1 + p1.len();
            lemma_subrange_of_embed(b, 0, b, 0, o1);
            assert(b.subrange(0, o1) =~= p0);
            lemma_dec_arrhead_enc(b, 0, 2);
            lemma_subrange_of_embed(b, 0, b, o1, o2);
            assert(b.subrange(o1, o2) =~= p1);
            lemma_dec_uint_enc(b, o1, 0);
            lemma_subrange_of_embed(b, 0, b, o2, b.len() as int);
            assert(b.subrange(o2, b.len() as int) =~= p2);
            lemma_dec_bin_enc(b, o2, p);
        },
        MemoryKeyModel::Channel(s) => {
            lemma_round_trip_tagged_str(b, 1, s);
        },
    }
}

/// A value of the distributed key/value store.
#[derive(Debug)]
pub enum MemoryValue {
    /// A peer's nickname binding.
    Nickname {
        /// The identifier bytes of the peer the nickname belongs to.
        user: Vec<u8>,
        /// The nickname.
        nickname: String,
    },
    /// A channel's metadata.
    Channel(Channel),
}

/// The mathematical value of a [`MemoryValue`].
pub enum MemoryValueModel {
    /// A peer's nickname binding.
    Nickname { user: Seq<u8>, nickname: Seq<char> },
    /// A channel's metadata.
    Channel(ChannelModel),
}

impl View for MemoryValue {
    type V = MemoryValueModel;

    open spec fn view(&self) -> MemoryValueModel {
        match self {
            MemoryValue::Nickname { user, nickname } => MemoryValueModel::Nickname {
                user: user@,
                nickname: nickname@,
            },
            MemoryValue::Channel(c) => MemoryValueModel::Channel(c@),
        }
    }
}

/// The peer that a store value declares as its owner.
pub open spec fn spec_value_owner(v: MemoryValueModel) -> Seq<u8> {
    match v {
        MemoryValueModel::Nickname { user, .. } => user,
        MemoryValueModel::Channel(c) => c.owner,
    }
}

/// Whether every variable-length field of a value fits its length header.
pub open spec fn spec_value_encodable(v: MemoryValueModel) -> bool {
    match v {
        MemoryValueModel::Nickname { user, nickname } => bin_fits(user) && str_fits(nickname),
        MemoryValueModel::Channel(c) => spec_channel_encodable(c),
    }
}

/// The encoding of a store value: an array of the variant tag and its
/// fields.  This is the payload carried inside a signed envelope.
pub open spec fn spec_encode_value(v: MemoryValueModel) -> Seq<u8> {
    match v {
        MemoryValueModel::Nickname { user, nickname } => enc_arrhead(3) + enc_uint(0) + enc_bin(
            user,
        ) + enc_str(nickname),
        MemoryValueModel::Channel(c) => enc_arrhead(2) + enc_uint(1) + spec_enc_channel(c),
    }
}

/// Decode a whole buffer as a store value.
pub open spec fn spec_decode_value(b: Seq<u8>) -> Option<MemoryValueModel> {
    match dec_arrhead(b, 0) {
        None => None,
        Some((n, i)) => match dec_uint(b, i) {
            None => None,
            Some((tag, j)) => if tag == 0 {
                if n != 3 {
                    None
                } else {
                    match dec_bin(b, j) {
                        None => None,
                        Some((user, j1)) => match dec_str(b, j1) {
                            None => None,
                            Some((nickname, k)) => if k == b.len() {
                                Some(MemoryValueModel::Nickname { user, nickname })
                            } else {
                                None
                            },
                        },
                    }
                }
            } else if tag == 1 {
                if n != 2 {
                    None
                } else {
                    match spec_dec_channel(b, j) {
                        None => None,
                        Some((c, k)) => if k == b.len() {
                            Some(MemoryValueModel::Channel(c))
                        } else {
                            None
                        },
                    }
                }
            } else {
                None
            },
        },
    }
}

/// Encode a store value's payload bytes.
fn put_value(v: &MemoryValue) -> (r: Result<Vec<u8>, Error>)
    ensures
        r is Ok <==> spec_value_encodable(v@),
        r matches Ok(o) ==> o@ == spec_encode_value(v@),
        r matches Err(e) ==> e is InvalidData,
{
    let mut out: Vec<u8> = Vec::new();
    match v {
        MemoryValue::Nickname { user, nickname } => {
            put_arrhead(&mut out, 3);
            put_uint(&mut out, 0);
            if !put_bin(&mut out, user) {
                return Err(Error::InvalidData);
            }
            if !put_str(&mut out, nickname.as_str()) {
                return Err(Error::InvalidData);
            }
            assert(out@ =~= spec_encode_value(v@));
        },
        MemoryValue::Channel(c) => {
            put_arrhead(&mut out, 2);
            put_uint(&mut out, 1);
            if !put_channel(&mut out, c) {
                return Err(Error::InvalidData);
            }
            assert(out@ =~= spec_encode_value(v@));
        },
    }
    Ok(out)
}

/// Decode a store value's payload bytes.
fn get_value(b: &[u8]) -> (r: Result<MemoryValue, Error>)
    ensures
        r matches Ok(v) ==> spec_decode_value(b@) == Some(v@),
        r is Err ==> spec_decode_value(b@) is None,
        r matches Err(e) ==> e is DecodingError,
{
    let (n, i) = match get_arrhead(b, 0) {
        None => return Err(Error::DecodingError),
        Some(p) => p,
    };
    let (tag, j) = match get_uint(b, i) {
        None => return Err(Error::DecodingError),
        Some(p) => p,
    };
    if tag == 0 {
        if n != 3 {
            return Err(Error::DecodingError);
        }
        let (user, j1) = match get_bin(b, j) {
            None => return Err(Error::DecodingError),
            Some(p) => p,
        };
        let (nickname, k) = match get_str(b, j1) {
            None => return Err(Error::DecodingError),
            Some(p) => p,
        };
        if k != b.len() {
            return Err(Error::DecodingError);
        }
        Ok(MemoryValue::Nickname { user, nickname })
    } else if tag == 1 {
        if n != 2 {
            return Err(Error::DecodingError);
        }
        let (c, k) = match get_channel(b, j) {
            None => return Err(Error::DecodingError),
            Some(p) => p,
        };
        if k != b.len() {
            return Err(Error::DecodingError);
        }
        Ok(MemoryValue::Channel(c))
    } else {
        Err(Error::DecodingError)
    }
}

/// Law: decoding an encoded store value yields the value back.
pub proof fn lemma_value_round_trip(v: MemoryValueModel)
    requires
        spec_value_encodable(v),
    ensures
        spec_decode_value(spec_encode_value(v)) == Some(v),
{
    let b = spec_encode_value(v);
    assert(b.subrange(0, b.len() as int) =~= b);
    match v {
        MemoryValueModel::Nickname { user, nickname } => {
            let p0 = enc_arrhead(3);
            let p1 = enc_uint(0);
            let p2 = enc_bin(user);
            let p3 = enc_str(nickname);
            let o1 = p0.len() as int;
            let o2 = o1 + p1.len();
            let o3 = o2 + p2.len();
            lemma_subrange_of_embed(b, 0, b, 0, o1);
            assert(b.subrange(0, o1) =~= p0);
            lemma_dec_arrhead_enc(b, 0, 3);
            lemma_subrange_of_embed(b, 0, b, o1, o2);
            assert(b.subrange(o1, o2) =~= p1);
            lemma_dec_uint_enc(b, o1, 0);
            lemma_subrange_of_embed(b, 0, b, o2, o3);
            assert(b.subrange(o2, o3) =~= p2);
            lemma_dec_bin_enc(b, o2, user);
            lemma_subrange_of_embed(b, 0, b, o3, b.len() as int);
            assert(b.subrange(o3, b.len() as int) =~= p3);
            lemma_dec_str_enc(b, o3, nickname);
        },
        MemoryValueModel::Channel(c) => {
            let p0 = enc_arrhead(2);
            let p1 = enc_uint(1);
            let p2 = spec_enc_channel(c);
            let o1 = p0.len() as int;
            let o2 = o1 + p1.len();
            lemma_subrange_of_embed(b, 0, b, 0, o1);
            assert(b.subrange(0, o1) =~= p0);
            lemma_dec_arrhead_enc(b, 0, 2);
            lemma_subrange_of_embed(b, 0, b, o1, o2);
            assert(b.subrange(o1, o2) =~= p1);
            lemma_dec_uint_enc(b, o1, 1);
            lemma_subrange_of_embed(b, 0, b, o2, b.len() as int);
            assert(b.subrange(o2, b.len() as int) =~= p2);
            lemma_dec_channel_enc(b, o2, c);
        },
    }
}

// ---------------------------------------------------------------------------
// Signed record envelopes
// ---------------------------------------------------------------------------

/// The payload-type tag carried by record envelopes, identifying the
/// encoding of the payload so that unrelated payload formats are refused
/// rather than misparsed.
pub open spec fn spec_payload_type() -> Seq<u8> {
    seq![0x02u8, 0x01u8]
}

/// The payload-type tag of record envelopes, as bytes.
pub fn multicodec_msgpack() -> (r: Vec<u8>)
    ensures
        r@ == spec_payload_type(),
{
    let mut v: Vec<u8> = Vec::new();
    v.push(0x02);
    v.push(0x01);
    assert(v@ =~= spec_payload_type());
    v
}

/// What a store value decoded from envelope bytes means: nothing if the
/// envelope or its payload is malformed; the value if its declared owner
/// equals the envelope's signer; a signature mismatch otherwise.
pub open spec fn spec_decode_signed(b: Seq<u8>) -> Result<MemoryValueModel, Error> {
    match envelope_opening(SIGNED_ENVELOPE_DOMAIN@, spec_payload_type(), b) {
        None => Err(Error::DecodingError),
        Some((payload, signer)) => match spec_decode_value(payload) {
            None => Err(Error::DecodingError),
            Some(v) => if spec_value_owner(v) == signer {
                Ok(v)
            } else {
                Err(Error::SignatureMismatch)
            },
        },
    }
}

impl MemoryValue {
    /// Seal this value in a signed envelope under the record domain.
    ///
    /// Succeeds exactly when every field fits its length header; the
    /// returned bytes open to exactly this value's encoding, signed by
    /// `key`, and decoding them yields this value back if its declared
    /// owner is the signing key's peer identifier, and a signature
    /// mismatch otherwise.
    pub fn encode_signed(&self, key: &libp2p_identity::Keypair) -> (r: Result<Vec<u8>, Error>)
        ensures
            r is Ok <==> spec_value_encodable(self@),
            r matches Ok(env) ==> (match envelope_opening(
                SIGNED_ENVELOPE_DOMAIN@,
                spec_payload_type(),
                env@,
            ) {
                Some(ps) => ps.0 == spec_encode_value(self@) && spec_decode_signed(env@) == (
                if spec_value_owner(self@) == ps.1 {
                    Ok::<MemoryValueModel, Error>(self@)
                } else {
                    Err::<MemoryValueModel, Error>(Error::SignatureMismatch)
                }),
                None => false,
            }),
            r matches Err(e) ==> e is InvalidData,
    {
        let payload = match put_value(self) {
            Ok(p) => p,
            Err(e) => return Err(e),
        };
        let ptype = multicodec_msgpack();
        match envelope_seal(key, SIGNED_ENVELOPE_DOMAIN, &ptype, payload) {
            None => Err(Error::SigningError),
            Some((env, _signer)) => {
                proof {
                    lemma_value_round_trip(self@);
                }
                Ok(env)
            },
        }
    }

    /// Open a signed record envelope.
    ///
    /// Fails with [`Error::DecodingError`] if the envelope or its payload
    /// is malformed or wrongly signed, and with
    /// [`Error::SignatureMismatch`] if the payload's declared owner is
    /// not the envelope's signer; otherwise returns exactly the value of
    /// [`spec_decode_signed`].
    pub fn decode(encoded: &[u8]) -> (r: Result<MemoryValue, Error>)
        ensures
            r matches Ok(v) ==> spec_decode_signed(encoded@) == Ok::<MemoryValueModel, Error>(v@),
            r matches Err(e) ==> spec_decode_signed(encoded@) == Err::<MemoryValueModel, Error>(e),
    {
        let ptype = multicodec_msgpack();
        match envelope_open(SIGNED_ENVELOPE_DOMAIN, &ptype, encoded) {
            None => Err(Error::DecodingError),
            Some((payload, signer)) => match get_value(payload.as_slice()) {
                Err(_) => Err(Error::DecodingError),
                Ok(v) => {
                    let owner_matches = match &v {
                        MemoryValue::Nickname { user, .. } => bytes_eq(user, &signer),
                        MemoryValue::Channel(c) => bytes_eq(&c.owner, &signer),
                    };
                    if owner_matches {
                        Ok(v)
                    } else {
                        Err(Error::SignatureMismatch)
                    }
                },
            },
        }
    }
}

/// Law: opening a sealed record yields the record's value and enforces
/// owner-equals-signer.  Any envelope that opens to the encoding of a
/// value `v` with signer `signer` decodes to `v` exactly when `v`'s
/// declared owner equals `signer`, and to a signature mismatch otherwise.
pub proof fn lemma_open_sealed(b: Seq<u8>, v: MemoryValueModel, signer: Seq<u8>)
    requires
        spec_value_encodable(v),
        envelope_opening(SIGNED_ENVELOPE_DOMAIN@, spec_payload_type(), b) == Some(
            (spec_encode_value(v), signer),
        ),
    ensures
        spec_decode_signed(b) == (if spec_value_owner(v) == signer {
            Ok::<MemoryValueModel, Error>(v)
        } else {
            Err::<MemoryValueModel, Error>(Error::SignatureMismatch)
        }),
{
    lemma_value_round_trip(v);
}

// ---------------------------------------------------------------------------
// Gossip topics
// ---------------------------------------------------------------------------

/// The prefix of every per-channel gossip topic.
pub const CHANNEL_TOPIC_PREFIX: &'static str = "/p2p-chat/channel/";

/// The gossip topic of a channel: the fixed prefix followed by the
/// channel identifier.  Any two nodes computing the topic for the same
/// identifier arrive at the identical string.
pub fn topic_from_channel(ident: &ChannelIdentifier) -> (r: String)
    ensures
        r@ == CHANNEL_TOPIC_PREFIX@ + ident@,
{
    let mut topic = String::from_str(CHANNEL_TOPIC_PREFIX);
    topic.append(ident.as_str());
    topic
}

} // verus!
