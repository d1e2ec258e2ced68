//! The error taxonomy of the protocol engine.

use vstd::prelude::*;

verus! {

/// An error produced by the protocol engine.
///
/// Protocol errors on the receive path are never surfaced through this type;
/// they are absorbed into a "no event" outcome by the event translation.
#[derive(Debug)]
pub enum Error {
    /// A value failed the structural validity bounds of the wire schema.
    InvalidData,
    /// A byte sequence could not be decoded as a wire value.
    DecodingError,
    /// The declared owner of a signed record does not equal its signer.
    SignatureMismatch,
    /// The signing key could not produce a signature.
    SigningError,
    /// A publish found no eligible peer to deliver to.
    InsufficientPeers,
}

impl Error {
    /// A short human-readable description of the error.
    pub fn describe(&self) -> (r: &'static str)
        ensures
            r@ =~= match self {
                Error::InvalidData => "command is not valid"@,
                Error::DecodingError => "decode error"@,
                Error::SignatureMismatch => "signature mismatch"@,
                Error::SigningError => "signing error"@,
                Error::InsufficientPeers => "insufficient peers"@,
            },
    {
        match self {
            Error::InvalidData => "command is not valid",
            Error::DecodingError => "decode error",
            Error::SignatureMismatch => "signature mismatch",
            Error::SigningError => "signing error",
            Error::InsufficientPeers => "insufficient peers",
        }
    }
}

} // verus!
