//! The cryptographic boundary of the signed-record subsystem.
//!
//! A record value is sealed in a signed envelope: the payload, a
//! payload-type tag, the signer's public key, and a signature over the
//! domain-separation string, the tag and the payload.  The sealing and
//! opening calls below are the only trusted items of this subsystem; what
//! an opened envelope means for a record is decided by verified code in
//! [`crate::protocol`].

use vstd::prelude::*;

verus! {

/// The cryptographic identity of a node: a libp2p keypair.
#[verifier::external_type_specification]
#[verifier::external_body]
pub struct ExKeypair(libp2p_identity::Keypair);

/// What opening a signed envelope yields under a given domain-separation
/// string and expected payload type: the embedded payload and the
/// signer's peer identifier bytes, or nothing for bytes that are not a
/// well-formed, correctly signed envelope of that domain and type.
///
/// This names the combined result of
/// `SignedEnvelope::from_protobuf_encoding`,
/// `SignedEnvelope::payload_and_signing_key` and
/// `PublicKey::to_peer_id`: parsing and signature verification are
/// deterministic, so the result is a function of the three arguments
/// alone.
pub uninterp spec fn envelope_opening(
    domain: Seq<char>,
    payload_type: Seq<u8>,
    envelope: Seq<u8>,
) -> Option<(Seq<u8>, Seq<u8>)>;

/// Relies on `SignedEnvelope::new` and
/// `SignedEnvelope::into_protobuf_encoding` of libp2p-core, and
/// `Keypair::public`, `PublicKey::to_peer_id` and `PeerId::to_bytes` of
/// libp2p-identity: a fresh envelope signs the payload under the given
/// domain and payload type, so opening its encoding under the same domain
/// and type yields the payload and the signing key's peer identifier
/// bytes; those bytes are also handed back directly as the second result.
/// Sealing always succeeds: with this crate's feature set every
/// `Keypair` is an Ed25519 keypair, whose `sign` returns `Ok`
/// unconditionally, and `SignedEnvelope::new` fails only when signing
/// fails.
#[verifier::external_body]
pub(crate) fn envelope_seal(
    key: &libp2p_identity::Keypair,
    domain: &str,
    payload_type: &Vec<u8>,
    payload: Vec<u8>,
) -> (r: Option<(Vec<u8>, Vec<u8>)>)
    ensures
        r is Some,
        r matches Some(p) ==> envelope_opening(domain@, payload_type@, p.0@) == Some(
            (payload@, p.1@),
        ),
{
    let envelope = match libp2p_core::SignedEnvelope::new(
        key,
        domain.to_string(),
        payload_type.clone(),
        payload,
    ) {
        Ok(e) => e,
        Err(_) => return None,
    };
    let signer = key.public().to_peer_id().to_bytes();
    Some((envelope.into_protobuf_encoding(), signer))
}

/// Relies on `SignedEnvelope::from_protobuf_encoding` and
/// `SignedEnvelope::payload_and_signing_key` of libp2p-core, and
/// `PublicKey::to_peer_id` and `PeerId::to_bytes` of libp2p-identity:
/// opening succeeds exactly on a well-formed envelope whose payload type
/// matches and whose signature verifies under the given domain, and then
/// yields the embedded payload and the signer's peer identifier bytes.
#[verifier::external_body]
pub(crate) fn envelope_open(domain: &str, payload_type: &Vec<u8>, envelope: &[u8]) -> (r: Option<
    (Vec<u8>, Vec<u8>),
>)
    ensures
        r matches Some(p) ==> envelope_opening(domain@, payload_type@, envelope@) == Some(
            (p.0@, p.1@),
        ),
        r is None ==> envelope_opening(domain@, payload_type@, envelope@) is None,
{
    let env = match libp2p_core::SignedEnvelope::from_protobuf_encoding(envelope) {
        Ok(e) => e,
        Err(_) => return None,
    };
    let (payload, key) = match env.payload_and_signing_key(domain.to_string(), payload_type) {
        Ok(p) => p,
        Err(_) => return None,
    };
    let signer = key.to_peer_id().to_bytes();
    Some((payload.to_vec(), signer))
}

/// Relies on `Keypair::generate_ed25519` of libp2p-identity: a fresh
/// random identity.  Nothing is promised of its value.
#[verifier::external_body]
pub fn gen_id_keys() -> libp2p_identity::Keypair {
    libp2p_identity::Keypair::generate_ed25519()
}

/// Relies on `Keypair::public`, `PublicKey::to_peer_id` and
/// `PeerId::to_bytes` of libp2p-identity: the peer identifier bytes
/// derived from the keypair's public key.  Nothing is promised of the
/// value beyond its size: a peer identifier is a multihash held in a
/// 64-byte container, so its bytes always fit a four-byte length
/// header.  What ties an identity to its records is the contract of
/// `envelope_seal`, which returns the signer bytes alongside the sealed
/// envelope.
#[verifier::external_body]
pub fn peer_id_from_keypair(key: &libp2p_identity::Keypair) -> (r: Vec<u8>)
    ensures
        r@.len() <= 0xffff_ffff,
{
    key.public().to_peer_id().to_bytes()
}

} // verus!
