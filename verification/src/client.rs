//! The client engine: the stateful façade of the protocol stack.
//!
//! The engine owns the node's nickname, its peer identifier, its channel
//! membership and the nickname cache, and decides how the node reacts to
//! every composite network event.  It performs no input or output
//! itself: each public method returns the [`NetAction`]s that the
//! surrounding network driver must carry out on the gossip, lookup and
//! discovery sub-protocols, and the driver feeds every composite event
//! back in as a [`NetEvent`].

use vstd::prelude::*;
use vstd::string::StringExecFns;

use crate::envelope::{envelope_opening, peer_id_from_keypair};
use crate::error::Error;
use crate::msgpack::{bytes_eq, str_fits};
use crate::protocol::{
    spec_decode_command, spec_decode_key, spec_decode_signed, spec_encode_command, spec_encode_key,
    spec_encode_value, spec_key_encodable, spec_payload_type, spec_valid_command,
    topic_from_channel, ChannelIdentifier, Command, CommandModel, MemoryKey, MemoryKeyModel,
    MemoryValue, MemoryValueModel, MessageType, CHANNEL_TOPIC_PREFIX,
};
use crate::{DEFAULT_GOSSIPSUB_TOPIC, SIGNED_ENVELOPE_DOMAIN};

verus! {

/// An event emitted by a [`Client`] towards its consumer.
#[derive(Debug)]
pub enum ClientEvent {
    /// A chat message arrived on a channel.
    Message {
        /// The message text.
        contents: String,
        /// The channel it was posted to.
        channel: ChannelIdentifier,
        /// Milliseconds since the epoch at the sender.
        timestamp: u64,
        /// How the message is meant to be displayed.
        message_type: MessageType,
        /// The identifier bytes of the peer that relayed the message.
        source: Vec<u8>,
    },
    /// A peer announced a new nickname.
    UpdatedNickname {
        /// The nickname.
        nick: String,
        /// The identifier bytes of the announcing peer.
        source: Vec<u8>,
    },
    /// A connection to a peer was established.
    PeerConnected(Vec<u8>),
    /// A connection to a peer was closed.
    PeerDisconnected(Vec<u8>),
    /// A dial attempt towards a peer started.
    Dialing(Vec<u8>),
    /// An outgoing connection attempt failed.
    OutgoingConnectionError {
        /// The peer dialled, where one was known.
        peer_id: Option<Vec<u8>>,
    },
}

/// A composite event of the three sub-protocols, as plain values.  The
/// network driver translates each raw event it polls into one of these.
#[derive(Debug)]
pub enum NetEvent {
    /// The gossip overlay delivered a message for validation.
    GossipMessage {
        /// The overlay's identifier for the message, echoed back in the
        /// acceptance report.
        message_id: Vec<u8>,
        /// The identifier bytes of the propagating peer.
        source: Vec<u8>,
        /// The message payload.
        data: Vec<u8>,
    },
    /// A lookup in the distributed store completed with these records,
    /// each a pair of key bytes and value bytes.
    DhtRecords {
        /// The returned records.
        records: Vec<(Vec<u8>, Vec<u8>)>,
    },
    /// Discovery found a peer on the local network.
    PeerDiscovered {
        /// The identifier bytes of the discovered peer.
        peer: Vec<u8>,
    },
    /// A peer's discovery announcement expired.
    PeerExpired {
        /// The identifier bytes of the expired peer.
        peer: Vec<u8>,
        /// Whether discovery still tracks the peer independently.
        still_tracked: bool,
    },
    /// A connection to a peer was established.
    ConnectionEstablished {
        /// The identifier bytes of the connected peer.
        peer: Vec<u8>,
    },
    /// A connection to a peer was closed.
    ConnectionClosed {
        /// The identifier bytes of the disconnected peer.
        peer: Vec<u8>,
    },
    /// A dial attempt towards a peer started.
    Dialing {
        /// The identifier bytes of the dialled peer.
        peer: Vec<u8>,
    },
    /// An outgoing connection attempt failed.
    OutgoingConnectionError {
        /// The peer dialled, where one was known.
        peer: Option<Vec<u8>>,
    },
}

/// A control call that the network driver must route to a sub-protocol.
#[derive(Debug)]
pub enum NetAction {
    /// Subscribe the gossip overlay to a topic.
    Subscribe {
        /// The topic string.
        topic: String,
    },
    /// Unsubscribe the gossip overlay from a topic.
    Unsubscribe {
        /// The topic string.
        topic: String,
    },
    /// Publish bytes on a gossip topic.
    Publish {
        /// The topic string.
        topic: String,
        /// The payload.
        data: Vec<u8>,
    },
    /// Report a held gossip message as accepted.
    Accept {
        /// The overlay's identifier for the message.
        message_id: Vec<u8>,
        /// The propagating peer.
        source: Vec<u8>,
    },
    /// Report a held gossip message as rejected, penalizing its sender.
    Reject {
        /// The overlay's identifier for the message.
        message_id: Vec<u8>,
        /// The propagating peer.
        source: Vec<u8>,
    },
    /// Register a peer as explicitly known to the gossip overlay.
    AddExplicitPeer {
        /// The peer's identifier bytes.
        peer: Vec<u8>,
    },
    /// Remove a peer from the gossip overlay's explicit set.
    RemoveExplicitPeer {
        /// The peer's identifier bytes.
        peer: Vec<u8>,
    },
    /// Add the address the surrounding event carried for this peer to
    /// the lookup sub-protocol's routing table.
    AddAddress {
        /// The peer's identifier bytes.
        peer: Vec<u8>,
    },
    /// Remove the address the surrounding event carried for this peer
    /// from the lookup sub-protocol's routing table.
    RemoveAddress {
        /// The peer's identifier bytes.
        peer: Vec<u8>,
    },
    /// Issue an asynchronous lookup for a record key; its result arrives
    /// later as a [`NetEvent::DhtRecords`].
    GetRecord {
        /// The encoded record key.
        key: Vec<u8>,
    },
    /// Store a record and announce this node as its provider.
    PutRecordAsProvider {
        /// The encoded record key.
        key: Vec<u8>,
        /// The sealed record value.
        value: Vec<u8>,
    },
}

// ---------------------------------------------------------------------------
// The nickname cache model
// ---------------------------------------------------------------------------

/// The value of an optional nickname.
pub open spec fn spec_opt_nick(o: Option<String>) -> Option<Seq<char>> {
    match o {
        None => None,
        Some(s) => Some(s@),
    }
}

/// The values of the cache's entries.
pub open spec fn spec_entries(s: Seq<(Vec<u8>, Option<String>)>) -> Seq<
    (Seq<u8>, Option<Seq<char>>),
> {
    Seq::new(s.len(), |i: int| (s[i].0@, spec_opt_nick(s[i].1)))
}

/// The mapping an entry list stands for: later entries win.
pub open spec fn spec_cache_map(s: Seq<(Seq<u8>, Option<Seq<char>>)>) -> Map<
    Seq<u8>,
    Option<Seq<char>>,
>
    decreases s.len(),
{
    if s.len() == 0 {
        Map::empty()
    } else {
        spec_cache_map(s.drop_last()).insert(s.last().0, s.last().1)
    }
}

/// Whether an entry list binds each peer at most once.
pub open spec fn spec_keys_distinct(s: Seq<(Seq<u8>, Option<Seq<char>>)>) -> bool {
    forall|i: int, j: int| 0 <= i < j < s.len() ==> (#[trigger] s[i]).0 != (#[trigger] s[j]).0
}

/// An entry of a distinct entry list is what the mapping binds its key to.
proof fn lemma_cache_map_index(s: Seq<(Seq<u8>, Option<Seq<char>>)>, i: int)
    requires
        spec_keys_distinct(s),
        0 <= i < s.len(),
    ensures
        spec_cache_map(s).contains_key(s[i].0),
        spec_cache_map(s)[s[i].0] == s[i].1,
    decreases s.len(),
{
    if i < s.len() - 1 {
        assert(s[i].0 != s.last().0);
        lemma_cache_map_index(s.drop_last(), i);
    }
}

/// A key bound by the mapping appears in the entry list.
proof fn lemma_cache_map_absent(s: Seq<(Seq<u8>, Option<Seq<char>>)>, k: Seq<u8>)
    requires
        forall|i: int| 0 <= i < s.len() ==> (#[trigger] s[i]).0 != k,
    ensures
        !spec_cache_map(s).contains_key(k),
    decreases s.len(),
{
    if s.len() > 0 {
        lemma_cache_map_absent(s.drop_last(), k);
    }
}

/// Removing the entry of a key removes the key's binding.
proof fn lemma_cache_map_remove(s: Seq<(Seq<u8>, Option<Seq<char>>)>, i: int)
    requires
        spec_keys_distinct(s),
        0 <= i < s.len(),
    ensures
        spec_cache_map(s.remove(i)) == spec_cache_map(s).remove(s[i].0),
    decreases s.len(),
{
    if i == s.len() - 1 {
        assert(s.remove(i) =~= s.drop_last());
        lemma_cache_map_absent(s.drop_last(), s[i].0);
        assert(spec_cache_map(s.drop_last()) =~= spec_cache_map(s).remove(s[i].0));
    } else {
        let t = s.remove(i);
        assert(t.drop_last() =~= s.drop_last().remove(i));
        assert(t.last() == s.last());
        lemma_cache_map_remove(s.drop_last(), i);
        assert(s[i].0 != s.last().0);
        assert(spec_cache_map(s.drop_last().remove(i)).insert(s.last().0, s.last().1)
            =~= spec_cache_map(s).remove(s[i].0));
    }
}

// ---------------------------------------------------------------------------
// The engine
// ---------------------------------------------------------------------------

/// The client engine's state.
pub struct Client {
    /// This node's nickname.
    nick: String,
    /// This node's peer identifier bytes.
    peer: Vec<u8>,
    /// The channels this node has joined, in join order.
    channels: Vec<ChannelIdentifier>,
    /// The nickname cache: one entry per peer; a `None` nickname marks a
    /// lookup in flight.
    nick_cache: Vec<(Vec<u8>, Option<String>)>,
}

/// The mathematical value of a [`Client`].
pub struct ClientModel {
    /// The node's nickname.
    pub nick: Seq<char>,
    /// The node's peer identifier bytes.
    pub peer: Seq<u8>,
    /// The joined channels, in join order.
    pub channels: Seq<Seq<char>>,
    /// The nickname cache: absent means unknown, `None` means a lookup
    /// is pending, `Some` means resolved.
    pub cache: Map<Seq<u8>, Option<Seq<char>>>,
}

impl View for Client {
    type V = ClientModel;

    closed spec fn view(&self) -> ClientModel {
        ClientModel {
            nick: self.nick@,
            peer: self.peer@,
            channels: self.channels.deep_view(),
            cache: spec_cache_map(spec_entries(self.nick_cache@)),
        }
    }
}

impl Client {
    /// Well-formedness: no channel and no cached peer appears twice.
    pub closed spec fn wf(&self) -> bool {
        &&& spec_keys_distinct(spec_entries(self.nick_cache@))
        &&& (forall|i: int, j: int|
            0 <= i < j < self.channels.deep_view().len() ==> self.channels.deep_view()[i]
                != self.channels.deep_view()[j])
    }

    /// This node's nickname.
    pub fn nick(&self) -> (r: &String)
        ensures
            r@ == self@.nick,
    {
        &self.nick
    }

    /// This node's peer identifier bytes.
    pub fn peer_id(&self) -> (r: &Vec<u8>)
        ensures
            r@ == self@.peer,
    {
        &self.peer
    }

    /// The channels this node has joined, in join order.
    pub fn channels(&self) -> (r: &Vec<ChannelIdentifier>)
        ensures
            r.deep_view() == self@.channels,
    {
        &self.channels
    }

    /// The index of a peer's cache entry, if it has one.
    fn cache_find(&self, peer: &Vec<u8>) -> (r: Option<usize>)
        requires
            self.wf(),
        ensures
            r matches Some(i) ==> i < self.nick_cache@.len() && self.nick_cache@[i as int].0@
                == peer@,
            r is None ==> !self@.cache.contains_key(peer@),
    {
        let mut i: usize = 0;
        #[verifier::loop_isolation(false)]
        while i < self.nick_cache.len()
            invariant
                i <= self.nick_cache@.len(),
                forall|k: int| 0 <= k < i ==> (#[trigger] self.nick_cache@[k]).0@ != peer@,
            decreases self.nick_cache@.len() - i,
        {
            if crate::msgpack::bytes_eq(&self.nick_cache[i].0, peer) {
                return Some(i);
            }
            i += 1;
        }
        proof {
            assert forall|k: int| 0 <= k < spec_entries(self.nick_cache@).len() implies (
            #[trigger] spec_entries(self.nick_cache@)[k]).0 != peer@ by {
                assert(self.nick_cache@[k].0@ != peer@);
            }
            lemma_cache_map_absent(spec_entries(self.nick_cache@), peer@);
        }
        None
    }

    /// Bind a peer to an optional nickname in the cache, replacing any
    /// earlier binding.
    fn cache_insert(&mut self, peer: Vec<u8>, nick: Option<String>)
        requires
            old(self).wf(),
        ensures
            final(self).wf(),
            final(self)@.cache == old(self)@.cache.insert(peer@, spec_opt_nick(nick)),
            final(self)@.nick == old(self)@.nick,
            final(self)@.peer == old(self)@.peer,
            final(self)@.channels == old(self)@.channels,
    {
        let ghost entries0 = spec_entries(self.nick_cache@);
        match self.cache_find(&peer) {
            Some(i) => {
                self.nick_cache.remove(i);
                proof {
                    assert(spec_entries(self.nick_cache@) =~= entries0.remove(i as int));
                    lemma_cache_map_remove(entries0, i as int);
                    assert(spec_keys_distinct(entries0.remove(i as int)));
                }
            },
            None => {
                proof {
                    assert(spec_cache_map(entries0).remove(peer@) =~= spec_cache_map(entries0));
                }
            },
        }
        let ghost entries1 = spec_entries(self.nick_cache@);
        proof {
            // after removal the cache no longer binds the key, so no
            // entry can still hold it
            assert(!spec_cache_map(entries1).contains_key(peer@));
            assert forall|w: int| 0 <= w < entries1.len() implies (#[trigger] entries1[w]).0
                != peer@ by {
                if entries1[w].0 == peer@ {
                    lemma_cache_map_index(entries1, w);
                }
            }
        }
        self.nick_cache.push((peer, nick));
        proof {
            let entries2 = spec_entries(self.nick_cache@);
            assert(entries2.drop_last() =~= entries1);
            assert(entries2.last() == (peer@, spec_opt_nick(nick)));
            assert forall|i: int, j: int| 0 <= i < j < entries2.len() implies (
            #[trigger] entries2[i]).0 != (#[trigger] entries2[j]).0 by {
                assert(entries2.drop_last()[i] == entries1[i]);
                assert(entries2[i] == entries1[i]);
                if j < entries2.len() - 1 {
                    assert(entries2.drop_last()[j] == entries1[j]);
                    assert(entries2[j] == entries1[j]);
                } else {
                    assert(entries2[j] == (peer@, spec_opt_nick(nick)));
                    assert(entries1[i].0 != peer@);
                }
            }
            assert(spec_keys_distinct(entries2));
            assert(self@.cache =~= old(self)@.cache.insert(peer@, spec_opt_nick(nick)));
        }
    }

    /// The index of a channel in the membership list, if present.
    fn find_channel(&self, ident: &ChannelIdentifier) -> (r: Option<usize>)
        ensures
            r matches Some(i) ==> 0 <= i < self@.channels.len() && self@.channels[i as int]
                == ident@,
            r is None ==> !self@.channels.contains(ident@),
    {
        let mut i: usize = 0;
        #[verifier::loop_isolation(false)]
        while i < self.channels.len()
            invariant
                i <= self.channels@.len(),
                forall|k: int| 0 <= k < i ==> self@.channels[k] != ident@,
            decreases self.channels@.len() - i,
        {
            assert(self@.channels[i as int] == self.channels@[i as int]@);
            if self.channels[i] == *ident {
                return Some(i);
            }
            i += 1;
        }
        None
    }

    /// Join a channel.
    ///
    /// A no-op if the channel is already joined; otherwise the channel
    /// is appended to the membership list and the driver must subscribe
    /// to its topic.
    pub fn join_channel(&mut self, ident: ChannelIdentifier) -> (r: Option<NetAction>)
        requires
            old(self).wf(),
        ensures
            final(self).wf(),
            old(self)@.channels.contains(ident@) ==> r is None && final(self)@ == old(self)@,
            !old(self)@.channels.contains(ident@) ==> ({
                &&& (r matches Some(a) && (a matches NetAction::Subscribe { topic } && topic@
                    == CHANNEL_TOPIC_PREFIX@ + ident@))
                &&& final(self)@.channels == old(self)@.channels.push(ident@)
                &&& final(self)@.nick == old(self)@.nick
                &&& final(self)@.peer == old(self)@.peer
                &&& final(self)@.cache == old(self)@.cache
            }),
    {
        match self.find_channel(&ident) {
            Some(_) => None,
            None => {
                let topic = topic_from_channel(&ident);
                let ghost idv = ident@;
                self.channels.push(ident);
                proof {
                    assert(self.channels.deep_view() =~= old(self)@.channels.push(idv));
                }
                Some(NetAction::Subscribe { topic })
            },
        }
    }

    /// Leave a channel.
    ///
    /// A no-op if the channel is not joined; otherwise the channel is
    /// removed from the membership list and the driver must unsubscribe
    /// from its topic.
    pub fn leave_channel(&mut self, ident: ChannelIdentifier) -> (r: Option<NetAction>)
        requires
            old(self).wf(),
        ensures
            final(self).wf(),
            !old(self)@.channels.contains(ident@) ==> r is None && final(self)@ == old(self)@,
            old(self)@.channels.contains(ident@) ==> ({
                &&& (r matches Some(a) && (a matches NetAction::Unsubscribe { topic } && topic@
                    == CHANNEL_TOPIC_PREFIX@ + ident@))
                &&& final(self)@.channels == old(self)@.channels.remove(
                    old(self)@.channels.index_of(ident@),
                )
                &&& final(self)@.nick == old(self)@.nick
                &&& final(self)@.peer == old(self)@.peer
                &&& final(self)@.cache == old(self)@.cache
            }),
    {
        match self.find_channel(&ident) {
            None => None,
            Some(i) => {
                proof {
                    let dv = self@.channels;
                    let x = dv.index_of(ident@);
                    assert(dv.contains(ident@));
                    assert(0 <= x < dv.len() && dv[x] == ident@);
                    assert(x == i as int);
                }
                let topic = topic_from_channel(&ident);
                self.channels.remove(i);
                proof {
                    assert(self.channels.deep_view() =~= old(self)@.channels.remove(i as int));
                }
                Some(NetAction::Unsubscribe { topic })
            },
        }
    }

    /// Post a message to a channel.
    ///
    /// Succeeds exactly when the message and channel satisfy the schema
    /// bounds, and then hands the driver the derived topic and the
    /// encoded command to publish.  The engine produces no local echo: a
    /// caller that wants to see its own message must append it to its
    /// own view.
    pub fn send_message(
        &self,
        message: &str,
        message_type: MessageType,
        channel: ChannelIdentifier,
        timestamp: u64,
    ) -> (r: Result<NetAction, Error>)
        ensures
            ({
                let cmd = CommandModel::MessageSend {
                    contents: message@,
                    channel: channel@,
                    timestamp,
                    message_type,
                };
                &&& (r matches Ok(a) ==> (a matches NetAction::Publish { topic, data } && topic@
                    == CHANNEL_TOPIC_PREFIX@ + channel@ && data@ == spec_encode_command(cmd)))
                &&& (r is Ok <==> spec_valid_command(cmd))
                &&& (r matches Err(e) ==> e is InvalidData)
            }),
    {
        let topic = topic_from_channel(&channel);
        let command = Command::MessageSend {
            contents: message.to_owned(),
            channel,
            timestamp,
            message_type,
        };
        let data = match command.encode() {
            Ok(d) => d,
            Err(e) => return Err(e),
        };
        Ok(NetAction::Publish { topic, data })
    }

    /// Look up a peer's nickname.
    ///
    /// Returns the cached nickname immediately if the peer is resolved.
    /// If the peer is unknown, marks it pending and hands the driver
    /// exactly one lookup to issue; while the lookup is pending, further
    /// calls return "unresolved" without issuing anything.  Never blocks.
    pub fn fetch_nickname(&mut self, peer: &Vec<u8>) -> (r: Result<
        (Option<String>, Option<NetAction>),
        Error,
    >)
        requires
            old(self).wf(),
        ensures
            final(self).wf(),
            old(self)@.cache.contains_key(peer@) ==> ({
                &&& final(self)@ == old(self)@
                &&& (r matches Ok(p) && p.1 is None && spec_opt_nick(p.0) == old(
                    self,
                )@.cache[peer@])
            }),
            !old(self)@.cache.contains_key(peer@) && spec_key_encodable(
                MemoryKeyModel::Nickname(peer@),
            ) ==> ({
                &&& final(self)@.cache == old(self)@.cache.insert(peer@, None)
                &&& final(self)@.nick == old(self)@.nick
                &&& final(self)@.peer == old(self)@.peer
                &&& final(self)@.channels == old(self)@.channels
                &&& (r matches Ok(p) && p.0 is None && (p.1 matches Some(a) && (
                a matches NetAction::GetRecord { key } && key@ == spec_encode_key(
                    MemoryKeyModel::Nickname(peer@),
                ))))
            }),
            !old(self)@.cache.contains_key(peer@) && !spec_key_encodable(
                MemoryKeyModel::Nickname(peer@),
            ) ==> final(self)@ == old(self)@ && (r matches Err(e) && e is InvalidData),
    {
        match self.cache_find(peer) {
            Some(i) => {
                proof {
                    lemma_cache_map_index(spec_entries(self.nick_cache@), i as int);
                }
                let cached = match &self.nick_cache[i].1 {
                    None => None,
                    Some(s) => Some(s.clone()),
                };
                Ok((cached, None))
            },
            None => {
                let key = MemoryKey::Nickname(clone_bytes(peer));
                let key_bytes = match key.encode() {
                    Ok(b) => b,
                    Err(e) => return Err(e),
                };
                self.cache_insert(clone_bytes(peer), None);
                Ok((None, Some(NetAction::GetRecord { key: key_bytes })))
            },
        }
    }
}

// ---------------------------------------------------------------------------
// Event translation
// ---------------------------------------------------------------------------

/// The value of an optional peer identifier.
pub open spec fn spec_opt_bytes(o: Option<Vec<u8>>) -> Option<Seq<u8>> {
    match o {
        None => None,
        Some(v) => Some(v@),
    }
}

/// The values of a record list.
pub open spec fn spec_records_view(rs: Seq<(Vec<u8>, Vec<u8>)>) -> Seq<(Seq<u8>, Seq<u8>)> {
    Seq::new(rs.len(), |i: int| (rs[i].0@, rs[i].1@))
}

/// What one looked-up record does to the nickname cache: a record whose
/// key is a nickname key, whose value opens to a nickname binding of the
/// same peer, resolves that peer; every other record is discarded.
pub open spec fn spec_apply_record(
    m: Map<Seq<u8>, Option<Seq<char>>>,
    key: Seq<u8>,
    value: Seq<u8>,
) -> Map<Seq<u8>, Option<Seq<char>>> {
    match spec_decode_key(key) {
        Some(MemoryKeyModel::Nickname(kp)) => match spec_decode_signed(value) {
            Ok(MemoryValueModel::Nickname { user, nickname }) => if user == kp {
                m.insert(kp, Some(nickname))
            } else {
                m
            },
            _ => m,
        },
        _ => m,
    }
}

/// The nickname cache after a list of looked-up records, applied in
/// order.
pub open spec fn spec_cache_after_records(
    m: Map<Seq<u8>, Option<Seq<char>>>,
    rs: Seq<(Seq<u8>, Seq<u8>)>,
) -> Map<Seq<u8>, Option<Seq<char>>>
    decreases rs.len(),
{
    if rs.len() == 0 {
        m
    } else {
        spec_cache_after_records(spec_apply_record(m, rs[0].0, rs[0].1), rs.drop_first())
    }
}

/// Applying records distributes over appending a record.
proof fn lemma_cache_after_push(
    m: Map<Seq<u8>, Option<Seq<char>>>,
    rs: Seq<(Seq<u8>, Seq<u8>)>,
    key: Seq<u8>,
    value: Seq<u8>,
)
    ensures
        spec_cache_after_records(m, rs.push((key, value))) == spec_apply_record(
            spec_cache_after_records(m, rs),
            key,
            value,
        ),
    decreases rs.len(),
{
    let p = rs.push((key, value));
    if rs.len() == 0 {
        assert(p.drop_first() =~= Seq::<(Seq<u8>, Seq<u8>)>::empty());
        assert(p[0] == (key, value));
        assert(spec_cache_after_records(m, p) == spec_cache_after_records(
            spec_apply_record(m, key, value),
            p.drop_first(),
        ));
        assert(spec_cache_after_records(spec_apply_record(m, key, value), p.drop_first())
            == spec_apply_record(m, key, value));
    } else {
        assert(p.drop_first() =~= rs.drop_first().push((key, value)));
        assert(p[0] == rs[0]);
        lemma_cache_after_push(spec_apply_record(m, rs[0].0, rs[0].1), rs.drop_first(), key, value);
        assert(spec_cache_after_records(m, p) == spec_cache_after_records(
            spec_apply_record(m, rs[0].0, rs[0].1),
            p.drop_first(),
        ));
        assert(spec_cache_after_records(m, rs) == spec_cache_after_records(
            spec_apply_record(m, rs[0].0, rs[0].1),
            rs.drop_first(),
        ));
    }
}

impl Client {
    /// Create the engine for a fresh identity, together with the
    /// startup actions the driver must perform: subscribing to the
    /// network-wide topic and publishing this node's own nickname
    /// record, with the node as the record's provider.
    ///
    /// Succeeds for every nickname that fits the wire format's length
    /// header.
    pub fn new(nick: String, key: &libp2p_identity::Keypair) -> (r: Result<
        (Client, Vec<NetAction>),
        Error,
    >)
        ensures
            r is Ok <==> str_fits(nick@),
            r matches Ok(p) ==> ({
                &&& p.0.wf()
                &&& p.0@.nick == nick@
                &&& p.0@.channels.len() == 0
                &&& p.0@.cache == Map::<Seq<u8>, Option<Seq<char>>>::empty().insert(
                    p.0@.peer,
                    Some(nick@),
                )
                &&& p.1@.len() == 2
                &&& (p.1@[0] matches NetAction::Subscribe { topic } && topic@
                    == DEFAULT_GOSSIPSUB_TOPIC@)
                &&& (p.1@[1] matches NetAction::PutRecordAsProvider { key: kb, value } && kb@
                    == spec_encode_key(MemoryKeyModel::Nickname(p.0@.peer)) && (
                match envelope_opening(SIGNED_ENVELOPE_DOMAIN@, spec_payload_type(), value@) {
                    Some(ps) => ps.0 == spec_encode_value(
                        MemoryValueModel::Nickname { user: p.0@.peer, nickname: nick@ },
                    ) && spec_decode_signed(value@) == (if p.0@.peer == ps.1 {
                        Ok::<MemoryValueModel, Error>(
                            MemoryValueModel::Nickname { user: p.0@.peer, nickname: nick@ },
                        )
                    } else {
                        Err::<MemoryValueModel, Error>(Error::SignatureMismatch)
                    }),
                    None => false,
                }))
            }),
            r matches Err(e) ==> e is InvalidData,
    {
        let peer = peer_id_from_keypair(key);
        let nick_key = MemoryKey::Nickname(clone_bytes(&peer));
        let nick_key_bytes = match nick_key.encode() {
            Ok(b) => b,
            Err(e) => return Err(e),
        };
        let record = MemoryValue::Nickname { user: clone_bytes(&peer), nickname: nick.clone() };
        let sealed = match record.encode_signed(key) {
            Ok(v) => v,
            Err(e) => return Err(e),
        };
        let mut actions: Vec<NetAction> = Vec::new();
        actions.push(NetAction::Subscribe { topic: String::from_str(DEFAULT_GOSSIPSUB_TOPIC) });
        actions.push(NetAction::PutRecordAsProvider { key: nick_key_bytes, value: sealed });
        let mut client = Client {
            nick,
            peer,
            channels: Vec::new(),
            nick_cache: Vec::new(),
        };
        proof {
            assert(spec_entries(client.nick_cache@) =~= Seq::<(Seq<u8>, Option<Seq<char>>)>::empty());
            assert(client.channels.deep_view() =~= Seq::<Seq<char>>::empty());
        }
        let own_peer = clone_bytes(&client.peer);
        let own_nick = client.nick.clone();
        client.cache_insert(own_peer, Some(own_nick));
        proof {
            assert(client@.cache =~= Map::<Seq<u8>, Option<Seq<char>>>::empty().insert(
                client@.peer,
                Some(client@.nick),
            ));
        }
        Ok((client, actions))
    }

    /// Translate one delivered gossip message.
    ///
    /// A payload that decodes to a valid command is reported as
    /// accepted; a chat message or nickname update becomes the matching
    /// client event, and a nickname update also resolves its sender in
    /// the cache.  A payload that fails to decode or validate is
    /// reported as rejected, with no event and no state change.
    fn handle_message(&mut self, message_id: Vec<u8>, source: Vec<u8>, data: &Vec<u8>) -> (r: (
        Option<ClientEvent>,
        NetAction,
    ))
        requires
            old(self).wf(),
        ensures
            final(self).wf(),
            final(self)@.nick == old(self)@.nick,
            final(self)@.peer == old(self)@.peer,
            final(self)@.channels == old(self)@.channels,
            (match spec_decode_command(data@) {
                None => ({
                    &&& r.0 is None
                    &&& (r.1 matches NetAction::Reject { message_id: m, source: s } && m@
                        == message_id@ && s@ == source@)
                    &&& final(self)@ == old(self)@
                }),
                Some(cmd) => ({
                    &&& (r.1 matches NetAction::Accept { message_id: m, source: s } && m@
                        == message_id@ && s@ == source@)
                    &&& (match cmd {
                        CommandModel::MessageSend { contents, channel, timestamp, message_type } => (
                        r.0 matches Some(e) && (e matches ClientEvent::Message {
                            contents: ec,
                            channel: eh,
                            timestamp: et,
                            message_type: em,
                            source: es,
                        } && ec@ == contents && eh@ == channel && et == timestamp && em
                            == message_type && es@ == source@)) && final(self)@ == old(self)@,
                        CommandModel::NicknameUpdate { nick } => (r.0 matches Some(e) && (
                        e matches ClientEvent::UpdatedNickname { nick: en, source: es } && en@
                            == nick && es@ == source@)) && final(self)@.cache == old(
                            self,
                        )@.cache.insert(source@, Some(nick)),
                        _ => r.0 is None && final(self)@ == old(self)@,
                    })
                }),
            }),
    {
        match Command::decode(data.as_slice()) {
            Err(_) => (None, NetAction::Reject { message_id, source }),
            Ok(cmd) => match cmd {
                Command::MessageSend { contents, channel, timestamp, message_type } => {
                    let evt = ClientEvent::Message {
                        contents,
                        channel,
                        timestamp,
                        message_type,
                        source: clone_bytes(&source),
                    };
                    (Some(evt), NetAction::Accept { message_id, source })
                },
                Command::NicknameUpdate { nick } => {
                    self.cache_insert(clone_bytes(&source), Some(nick.clone()));
                    let evt = ClientEvent::UpdatedNickname {
                        nick,
                        source: clone_bytes(&source),
                    };
                    (Some(evt), NetAction::Accept { message_id, source })
                },
                _ => (None, NetAction::Accept { message_id, source }),
            },
        }
    }

    /// Translate one composite network event into at most one client
    /// event and the control calls the driver must perform.
    ///
    /// A delivered gossip message is accepted exactly when it decodes to
    /// a valid command, and rejected otherwise; completed lookups
    /// resolve nickname records whose key, declared owner and signer all
    /// agree; discovery events register and unregister peers with the
    /// gossip and lookup sub-protocols; connection events are passed
    /// upward, with an established connection first seeding the lookup
    /// routing table with the peer's address.
    pub fn handle_event(&mut self, event: NetEvent) -> (r: (Option<ClientEvent>, Vec<NetAction>))
        requires
            old(self).wf(),
        ensures
            final(self).wf(),
            final(self)@.nick == old(self)@.nick,
            final(self)@.peer == old(self)@.peer,
            final(self)@.channels == old(self)@.channels,
            (event matches NetEvent::GossipMessage { message_id, source, data } ==> (
            match spec_decode_command(data@) {
                None => ({
                    &&& r.0 is None
                    &&& r.1@.len() == 1
                    &&& (r.1@[0] matches NetAction::Reject { message_id: m, source: s } && m@
                        == message_id@ && s@ == source@)
                    &&& final(self)@ == old(self)@
                }),
                Some(cmd) => ({
                    &&& r.1@.len() == 1
                    &&& (r.1@[0] matches NetAction::Accept { message_id: m, source: s } && m@
                        == message_id@ && s@ == source@)
                    &&& (match cmd {
                        CommandModel::MessageSend { contents, channel, timestamp, message_type } => (
                        r.0 matches Some(e) && (e matches ClientEvent::Message {
                            contents: ec,
                            channel: eh,
                            timestamp: et,
                            message_type: em,
                            source: es,
                        } && ec@ == contents && eh@ == channel && et == timestamp && em
                            == message_type && es@ == source@)) && final(self)@ == old(self)@,
                        CommandModel::NicknameUpdate { nick } => (r.0 matches Some(e) && (
                        e matches ClientEvent::UpdatedNickname { nick: en, source: es } && en@
                            == nick && es@ == source@)) && final(self)@.cache == old(
                            self,
                        )@.cache.insert(source@, Some(nick)),
                        _ => r.0 is None && final(self)@ == old(self)@,
                    })
                }),
            })),
            (event matches NetEvent::DhtRecords { records } ==> ({
                &&& r.0 is None
                &&& r.1@.len() == 0
                &&& final(self)@.cache == spec_cache_after_records(
                    old(self)@.cache,
                    spec_records_view(records@),
                )
            })),
            (event matches NetEvent::PeerDiscovered { peer } ==> ({
                &&& final(self)@ == old(self)@
                &&& r.0 is None
                &&& r.1@.len() == 2
                &&& (r.1@[0] matches NetAction::AddExplicitPeer { peer: p } && p@ == peer@)
                &&& (r.1@[1] matches NetAction::AddAddress { peer: p } && p@ == peer@)
            })),
            (event matches NetEvent::PeerExpired { peer, still_tracked } ==> ({
                &&& final(self)@ == old(self)@
                &&& r.0 is None
                &&& (still_tracked ==> r.1@.len() == 1 && (r.1@[0]
                    matches NetAction::RemoveAddress { peer: p } && p@ == peer@))
                &&& (!still_tracked ==> r.1@.len() == 2 && (r.1@[0]
                    matches NetAction::RemoveExplicitPeer { peer: p } && p@ == peer@) && (r.1@[1]
                    matches NetAction::RemoveAddress { peer: p } && p@ == peer@))
            })),
            (event matches NetEvent::ConnectionEstablished { peer } ==> ({
                &&& final(self)@ == old(self)@
                &&& r.1@.len() == 1
                &&& (r.1@[0] matches NetAction::AddAddress { peer: p } && p@ == peer@)
                &&& (r.0 matches Some(e) && (e matches ClientEvent::PeerConnected(p) && p@
                    == peer@))
            })),
            (event matches NetEvent::ConnectionClosed { peer } ==> ({
                &&& final(self)@ == old(self)@
                &&& r.1@.len() == 0
                &&& (r.0 matches Some(e) && (e matches ClientEvent::PeerDisconnected(p) && p@
                    == peer@))
            })),
            (event matches NetEvent::Dialing { peer } ==> ({
                &&& final(self)@ == old(self)@
                &&& r.1@.len() == 0
                &&& (r.0 matches Some(e) && (e matches ClientEvent::Dialing(p) && p@ == peer@))
            })),
            (event matches NetEvent::OutgoingConnectionError { peer } ==> ({
                &&& final(self)@ == old(self)@
                &&& r.1@.len() == 0
                &&& (r.0 matches Some(e) && (e matches ClientEvent::OutgoingConnectionError {
                    peer_id,
                } && spec_opt_bytes(peer_id) == spec_opt_bytes(peer)))
            })),
    {
        match event {
            NetEvent::GossipMessage { message_id, source, data } => {
                let (evt, action) = self.handle_message(message_id, source, &data);
                let mut actions: Vec<NetAction> = Vec::new();
                actions.push(action);
                (evt, actions)
            },
            NetEvent::DhtRecords { records } => {
                let ghost rv = spec_records_view(records@);
                let mut k: usize = 0;
                #[verifier::loop_isolation(false)]
                while k < records.len()
                    invariant
                        k <= records@.len(),
                        self.wf(),
                        self@.nick == old(self)@.nick,
                        self@.peer == old(self)@.peer,
                        self@.channels == old(self)@.channels,
                        self@.cache == spec_cache_after_records(
                            old(self)@.cache,
                            rv.take(k as int),
                        ),
                    decreases records@.len() - k,
                {
                    let ghost cache_before = self@.cache;
                    match MemoryKey::decode(records[k].0.as_slice()) {
                        Ok(MemoryKey::Nickname(kp)) => {
                            match MemoryValue::decode(records[k].1.as_slice()) {
                                Ok(MemoryValue::Nickname { user, nickname }) => {
                                    if bytes_eq(&user, &kp) {
                                        self.cache_insert(kp, Some(nickname));
                                    }
                                },
                                _ => {},
                            }
                        },
                        _ => {},
                    }
                    proof {
                        assert(self@.cache == spec_apply_record(
                            cache_before,
                            records@[k as int].0@,
                            records@[k as int].1@,
                        ));
                        assert(rv.take(k + 1) =~= rv.take(k as int).push(
                            (records@[k as int].0@, records@[k as int].1@),
                        ));
                        lemma_cache_after_push(
                            old(self)@.cache,
                            rv.take(k as int),
                            records@[k as int].0@,
                            records@[k as int].1@,
                        );
                    }
                    k += 1;
                }
                proof {
                    assert(rv.take(records@.len() as int) =~= rv);
                }
                (None, Vec::new())
            },
            NetEvent::PeerDiscovered { peer } => {
                let mut actions: Vec<NetAction> = Vec::new();
                actions.push(NetAction::AddExplicitPeer { peer: clone_bytes(&peer) });
                actions.push(NetAction::AddAddress { peer });
                (None, actions)
            },
            NetEvent::PeerExpired { peer, still_tracked } => {
                let mut actions: Vec<NetAction> = Vec::new();
                if !still_tracked {
                    actions.push(NetAction::RemoveExplicitPeer { peer: clone_bytes(&peer) });
                }
                actions.push(NetAction::RemoveAddress { peer });
                (None, actions)
            },
            NetEvent::ConnectionEstablished { peer } => {
                let mut actions: Vec<NetAction> = Vec::new();
                actions.push(NetAction::AddAddress { peer: clone_bytes(&peer) });
                (Some(ClientEvent::PeerConnected(peer)), actions)
            },
            NetEvent::ConnectionClosed { peer } => {
                (Some(ClientEvent::PeerDisconnected(peer)), Vec::new())
            },
            NetEvent::Dialing { peer } => (Some(ClientEvent::Dialing(peer)), Vec::new()),
            NetEvent::OutgoingConnectionError { peer } => {
                (Some(ClientEvent::OutgoingConnectionError { peer_id: peer }), Vec::new())
            },
        }
    }
}

/// A copy of a byte string.
fn clone_bytes(v: &Vec<u8>) -> (r: Vec<u8>)
    ensures
        r@ == v@,
{
    let r = v.clone();
    assert(r@ =~= v@);
    r
}

// ---------------------------------------------------------------------------
// Fallback names
// ---------------------------------------------------------------------------

/// The running byte sum, modulo 256, of a peer identifier.
pub open spec fn spec_byte_sum(s: Seq<u8>) -> int
    decreases s.len(),
{
    if s.len() == 0 {
        0
    } else {
        (spec_byte_sum(s.drop_last()) + s.last()) % 0x100
    }
}

/// The fallback name picked for a byte-sum residue.
pub open spec fn spec_fallback_name(i: int) -> Seq<char> {
    if i == 0 {
        "alice"@
    } else if i == 1 {
        "bailie"@
    } else if i == 2 {
        "charlotte"@
    } else {
        "danielle"@
    }
}

/// A deterministic fallback display name for a peer, picked from a small
/// built-in list by the peer identifier's byte sum.  Not meant to be
/// unique or secure.
pub fn name_from_peer(peer_id: &Vec<u8>) -> (r: &'static str)
    ensures
        r@ == spec_fallback_name(spec_byte_sum(peer_id@) % 4),
{
    let mut sum: u32 = 0;
    let mut i: usize = 0;
    #[verifier::loop_isolation(false)]
    while i < peer_id.len()
        invariant
            i <= peer_id@.len(),
            sum == spec_byte_sum(peer_id@.take(i as int)),
        decreases peer_id@.len() - i,
    {
        sum = (sum + peer_id[i] as u32) % 0x100;
        proof {
            assert(peer_id@.take(i + 1).drop_last() =~= peer_id@.take(i as int));
            assert(peer_id@.take(i + 1).last() == peer_id@[i as int]);
        }
        i += 1;
    }
    proof {
        assert(peer_id@.take(peer_id@.len() as int) =~= peer_id@);
    }
    match sum % 4 {
        0 => "alice",
        1 => "bailie",
        2 => "charlotte",
        _ => "danielle",
    }
}

} // verus!
