use vstd::prelude::*;

verus! {

/// Every failure the broker can report, across the token codec, the session
/// store, the result authenticator and the flow orchestrator.
#[derive(Clone, Copy, Debug, PartialEq, Eq, Structural)]
pub enum Error {
    /// The token envelope or its claim payload does not decode.
    TokenMalformed,
    /// The envelope decodes but its tag does not match the trust key.
    TokenInvalid,
    /// The token is authentic but `now` lies outside its validity window.
    TokenExpired,
    /// No session carries the requested `attr_id`.
    SessionNotFound,
    /// The store refused the write (duplicate `attr_id`).
    PersistenceError,
    /// A result blob failed authentication, or was expired at write time.
    CryptoError,
    /// The authority's response did not parse as a client-url response.
    UpstreamError,
    /// A result was already recorded for this session; first write wins.
    Conflict,
}

impl Error {
    /// A short stable label for logs and transport layers.
    pub fn label(&self) -> (r: &'static str)
        ensures
            r@.len() > 0,
    {
        let r = match self {
            Error::TokenMalformed => "token malformed",
            Error::TokenInvalid => "token invalid",
            Error::TokenExpired => "token expired",
            Error::SessionNotFound => "session not found",
            Error::PersistenceError => "persistence error",
            Error::CryptoError => "crypto error",
            Error::UpstreamError => "upstream error",
            Error::Conflict => "conflict",
        };
        proof {
            reveal_strlit("token malformed");
            reveal_strlit("token invalid");
            reveal_strlit("token expired");
            reveal_strlit("session not found");
            reveal_strlit("persistence error");
            reveal_strlit("crypto error");
            reveal_strlit("upstream error");
            reveal_strlit("conflict");
        }
        r
    }
}

} // verus!
