//! Error taxonomy of the relay core.
use vstd::prelude::*;

verus! {

/// Errors surfaced by the relay core.
///
/// `Error` carries a free-form description of a transport-level failure,
/// `ParseError` marks a payload that cannot be decoded or encoded, and
/// `ProtocolError` marks a structurally valid packet that is wrong for the
/// current state of the exchange.
#[derive(Debug)]
pub enum RatError {
    Error(String),
    ParseError,
    ProtocolError,
}

impl RatError {
    /// A short human-readable description of the error, for logs and for
    /// the user.
    pub fn describe(&self) -> (r: String)
        ensures
            self is Error ==> r@ == "Generic error"@,
            self is ParseError ==> r@ == "Failed to parse"@,
            self is ProtocolError ==> r@ == "Protocol failure, wrong message in wrong order"@,
    {
        match self {
            RatError::Error(_) => "Generic error".to_owned(),
            RatError::ParseError => "Failed to parse".to_owned(),
            RatError::ProtocolError => "Protocol failure, wrong message in wrong order".to_owned(),
        }
    }
}

} // verus!
