use s9_websocket::S9WebSocketError;
use vstd::prelude::*;
use vstd::string::*;

verus! {

/// Declares the websocket client's error, carried through unchanged.
#[verifier::external_type_specification]
#[verifier::external_body]
pub struct ExS9WebSocketError(S9WebSocketError);

/// Declares serde_json's error, carried through unchanged.
#[verifier::external_type_specification]
#[verifier::external_body]
pub struct ExJsonError(serde_json::Error);

/// Why a client operation failed.
pub enum BinanceWebSocketError {
    /// The websocket client failed to connect or to send.
    WebSocket(S9WebSocketError),
    /// A subscription payload could not be serialised.
    Serialization(serde_json::Error),
}

/// The result of a client operation.
pub type BinanceResult<T> = Result<T, BinanceWebSocketError>;

pub open spec fn websocket_prefix() -> Seq<char> {
    seq!['W', 'e', 'b', 'S', 'o', 'c', 'k', 'e', 't', ' ', 'e', 'r', 'r', 'o', 'r', ':', ' ']
}

pub open spec fn serialization_prefix() -> Seq<char> {
    seq!['S', 'e', 'r', 'i', 'a', 'l', 'i', 'z', 'a', 't', 'i', 'o', 'n', ' ', 'e', 'r', 'r', 'o', 'r', ':', ' ']
}

impl BinanceWebSocketError {
    /// A line for people: which layer failed, then the cause's own text.
    pub fn message(&self) -> (r: String)
        ensures
            self matches BinanceWebSocketError::WebSocket(e) ==> exists|c: String|
                to_string_from_display_ensures::<S9WebSocketError>(&e, c) && r@ == websocket_prefix() + c@,
            self matches BinanceWebSocketError::Serialization(e) ==> exists|c: String|
                to_string_from_display_ensures::<serde_json::Error>(&e, c) && r@ == serialization_prefix() + c@,
    {
        proof {
            reveal_strlit("WebSocket error: ");
            reveal_strlit("Serialization error: ");
        }
        match self {
            BinanceWebSocketError::WebSocket(e) => {
                let mut s = String::from_str("WebSocket error: ");
                let cause = e.to_string();
                s.append(cause.as_str());
                assert(s@ =~= websocket_prefix() + cause@);
                s
            },
            BinanceWebSocketError::Serialization(e) => {
                let mut s = String::from_str("Serialization error: ");
                let cause = e.to_string();
                s.append(cause.as_str());
                assert(s@ =~= serialization_prefix() + cause@);
                s
            },
        }
    }
}

impl From<S9WebSocketError> for BinanceWebSocketError {
    fn from(err: S9WebSocketError) -> (r: Self)
        ensures
            r == BinanceWebSocketError::WebSocket(err),
    {
        BinanceWebSocketError::WebSocket(err)
    }
}

impl vstd::std_specs::convert::FromSpecImpl<S9WebSocketError> for BinanceWebSocketError {
    open spec fn obeys_from_spec() -> bool {
        true
    }

    open spec fn from_spec(v: S9WebSocketError) -> Self {
        BinanceWebSocketError::WebSocket(v)
    }
}

impl From<serde_json::Error> for BinanceWebSocketError {
    fn from(err: serde_json::Error) -> (r: Self)
        ensures
            r == BinanceWebSocketError::Serialization(err),
    {
        BinanceWebSocketError::Serialization(err)
    }
}

impl vstd::std_specs::convert::FromSpecImpl<serde_json::Error> for BinanceWebSocketError {
    open spec fn obeys_from_spec() -> bool {
        true
    }

    open spec fn from_spec(v: serde_json::Error) -> Self {
        BinanceWebSocketError::Serialization(v)
    }
}

} // verus!
