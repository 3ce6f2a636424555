use std::collections::HashMap;
use s9_websocket::{
    BlockingOptions, NonBlockingOptions, S9BlockingWebSocketClient, S9NonBlockingWebSocketClient,
    S9WebSocketError,
};
use vstd::prelude::*;
use crate::connection::{url_of, BinanceWebSocketConfig};
use crate::error::BinanceWebSocketError;
use crate::sequence::SequenceCounter;
use crate::subscription::{json_strings_of, subscription_envelope, subscription_request_json};

verus! {

/// Declares the blocking websocket client, which owns its socket.
#[verifier::external_type_specification]
#[verifier::external_body]
pub struct ExS9BlockingWebSocketClient(S9BlockingWebSocketClient);

/// Declares the non-blocking websocket client, which owns its socket.
#[verifier::external_type_specification]
#[verifier::external_body]
pub struct ExS9NonBlockingWebSocketClient(S9NonBlockingWebSocketClient);

/// Declares the blocking client's socket options.
#[verifier::external_type_specification]
#[verifier::external_body]
pub struct ExBlockingOptions(BlockingOptions);

/// Declares the non-blocking client's socket options.
#[verifier::external_type_specification]
#[verifier::external_body]
pub struct ExNonBlockingOptions(NonBlockingOptions);

/// Relies on S9BlockingWebSocketClient::connect_with_headers: the handshake
/// over the network, whose outcome nothing here can foresee.
pub assume_specification[ S9BlockingWebSocketClient::connect_with_headers ](
    uri: &str,
    headers: &HashMap<String, String>,
    options: BlockingOptions,
) -> Result<S9BlockingWebSocketClient, S9WebSocketError>;

/// Relies on S9NonBlockingWebSocketClient::connect_with_headers: the handshake
/// over the network, whose outcome nothing here can foresee.
pub assume_specification[ S9NonBlockingWebSocketClient::connect_with_headers ](
    uri: &str,
    headers: &HashMap<String, String>,
    options: NonBlockingOptions,
) -> Result<S9NonBlockingWebSocketClient, S9WebSocketError>;

/// Relies on S9BlockingWebSocketClient::send_text_message: one text frame
/// written and flushed, or the socket's error.
pub assume_specification[ S9BlockingWebSocketClient::send_text_message ](
    client: &mut S9BlockingWebSocketClient,
    text: &str,
) -> Result<(), S9WebSocketError>;

/// Relies on S9NonBlockingWebSocketClient::send_text_message: one text frame
/// written and flushed, or the socket's error.
pub assume_specification[ S9NonBlockingWebSocketClient::send_text_message ](
    client: &mut S9NonBlockingWebSocketClient,
    text: &str,
) -> Result<(), S9WebSocketError>;

/// The payload of the subscription request with id `id` over `streams`.
pub open spec fn subscription_text(id: nat, streams: Seq<String>) -> Seq<char> {
    subscription_envelope(id, json_strings_of(streams))
}

/// A feed connection whose run loop the caller drives with blocking reads.
pub struct BinanceBlockingWebSocket {
    pub s9_websocket_client: S9BlockingWebSocketClient,
    sequence: SequenceCounter,
    /// The texts this value sent, in the order they were handed to the socket.
    sent: Ghost<Seq<Seq<char>>>,
    /// The URL and headers the handshake was made with.
    handshake: Ghost<(Seq<char>, HashMap<String, String>)>,
}

impl BinanceBlockingWebSocket {
    /// The id of the next subscription request.
    pub closed spec fn next_id(&self) -> nat {
        self.sequence@
    }

    /// The texts sent so far, oldest first.
    pub closed spec fn sent_texts(&self) -> Seq<Seq<char>> {
        self.sent@
    }

    /// The URL handed to the handshake.
    pub closed spec fn handshake_url(&self) -> Seq<char> {
        self.handshake@.0
    }

    /// The headers handed to the handshake.
    pub closed spec fn handshake_headers(&self) -> HashMap<String, String> {
        self.handshake@.1
    }

    /// Connects to the URL of `config` with its headers. A new connection has
    /// sent nothing, and its first request id is zero.
    pub fn connect(config: BinanceWebSocketConfig, options: BlockingOptions) -> (r: Result<Self, BinanceWebSocketError>)
        ensures
            r matches Ok(ws) ==> ws.next_id() == 0 && ws.sent_texts() == Seq::<Seq<char>>::empty()
                && ws.handshake_url() == url_of(config.connection.protocol@, config.connection.host@,
                config.connection.port as nat, config.connection.path@)
                && ws.handshake_headers() == config.connection.headers,
            r matches Err(e) ==> e is WebSocket,
    {
        let url = config.connection.to_url_string();
        match S9BlockingWebSocketClient::connect_with_headers(url.as_str(), &config.connection.headers, options) {
            Ok(client) => Ok(BinanceBlockingWebSocket {
                s9_websocket_client: client,
                sequence: SequenceCounter::new(),
                sent: Ghost(Seq::empty()),
                handshake: Ghost((url@, config.connection.headers)),
            }),
            Err(e) => Err(BinanceWebSocketError::WebSocket(e)),
        }
    }

    /// Whether another subscription request id is left.
    pub fn can_subscribe(&self) -> (r: bool)
        ensures
            r == (self.next_id() < u64::MAX),
    {
        self.sequence.can_advance()
    }

    /// Sends a subscription request for `streams` with the next request id.
    /// On success the text was sent after all earlier ones and the id moves on
    /// by one; on failure nothing was sent and the id stays.
    pub fn subscribe_to_streams_blocking(&mut self, streams: Vec<String>) -> (r: Result<(), BinanceWebSocketError>)
        requires
            old(self).next_id() < u64::MAX,
        ensures
            r is Ok ==> final(self).next_id() == old(self).next_id() + 1 && final(self).sent_texts()
                == old(self).sent_texts().push(subscription_text(old(self).next_id(), streams@)),
            r is Err ==> final(self).next_id() == old(self).next_id() && final(self).sent_texts()
                == old(self).sent_texts(),
            r matches Err(e) ==> e is WebSocket,
    {
        let id = self.sequence.current();
        let json = match subscription_request_json(id, &streams) {
            Ok(j) => j,
            Err(e) => {
                return Err(BinanceWebSocketError::Serialization(e));
            },
        };
        match self.s9_websocket_client.send_text_message(json.as_str()) {
            Ok(()) => {
                self.sent = Ghost(self.sent@.push(json@));
                self.sequence.advance();
                Ok(())
            },
            Err(e) => Err(BinanceWebSocketError::WebSocket(e)),
        }
    }
}

/// A feed connection whose run loop polls a non-blocking socket.
pub struct BinanceNonBlockingWebSocket {
    pub s9_websocket_client: S9NonBlockingWebSocketClient,
    sequence: SequenceCounter,
    /// The texts this value sent, in the order they were handed to the socket.
    sent: Ghost<Seq<Seq<char>>>,
    /// The URL and headers the handshake was made with.
    handshake: Ghost<(Seq<char>, HashMap<String, String>)>,
}

impl BinanceNonBlockingWebSocket {
    /// The id of the next subscription request.
    pub closed spec fn next_id(&self) -> nat {
        self.sequence@
    }

    /// The texts sent so far, oldest first.
    pub closed spec fn sent_texts(&self) -> Seq<Seq<char>> {
        self.sent@
    }

    /// The URL handed to the handshake.
    pub closed spec fn handshake_url(&self) -> Seq<char> {
        self.handshake@.0
    }

    /// The headers handed to the handshake.
    pub closed spec fn handshake_headers(&self) -> HashMap<String, String> {
        self.handshake@.1
    }

    /// Connects to the URL of `config` with its headers. A new connection has
    /// sent nothing, and its first request id is zero.
    pub fn connect(config: BinanceWebSocketConfig, options: NonBlockingOptions) -> (r: Result<Self, BinanceWebSocketError>)
        ensures
            r matches Ok(ws) ==> ws.next_id() == 0 && ws.sent_texts() == Seq::<Seq<char>>::empty()
                && ws.handshake_url() == url_of(config.connection.protocol@, config.connection.host@,
                config.connection.port as nat, config.connection.path@)
                && ws.handshake_headers() == config.connection.headers,
            r matches Err(e) ==> e is WebSocket,
    {
        let url = config.connection.to_url_string();
        match S9NonBlockingWebSocketClient::connect_with_headers(url.as_str(), &config.connection.headers, options) {
            Ok(client) => Ok(BinanceNonBlockingWebSocket {
                s9_websocket_client: client,
                sequence: SequenceCounter::new(),
                sent: Ghost(Seq::empty()),
                handshake: Ghost((url@, config.connection.headers)),
            }),
            Err(e) => Err(BinanceWebSocketError::WebSocket(e)),
        }
    }

    /// Whether another subscription request id is left.
    pub fn can_subscribe(&self) -> (r: bool)
        ensures
            r == (self.next_id() < u64::MAX),
    {
        self.sequence.can_advance()
    }

    /// Sends a subscription request for `streams` with the next request id.
    /// On success the text was sent after all earlier ones and the id moves on
    /// by one; on failure nothing was sent and the id stays.
    pub fn subscribe_to_streams_non_blocking(&mut self, streams: Vec<String>) -> (r: Result<(), BinanceWebSocketError>)
        requires
            old(self).next_id() < u64::MAX,
        ensures
            r is Ok ==> final(self).next_id() == old(self).next_id() + 1 && final(self).sent_texts()
                == old(self).sent_texts().push(subscription_text(old(self).next_id(), streams@)),
            r is Err ==> final(self).next_id() == old(self).next_id() && final(self).sent_texts()
                == old(self).sent_texts(),
            r matches Err(e) ==> e is WebSocket,
    {
        let id = self.sequence.current();
        let json = match subscription_request_json(id, &streams) {
            Ok(j) => j,
            Err(e) => {
                return Err(BinanceWebSocketError::Serialization(e));
            },
        };
        match self.s9_websocket_client.send_text_message(json.as_str()) {
            Ok(()) => {
                self.sent = Ghost(self.sent@.push(json@));
                self.sequence.advance();
                Ok(())
            },
            Err(e) => Err(BinanceWebSocketError::WebSocket(e)),
        }
    }
}

/// The texts of successive subscription requests over `lists`, the first
/// with id `n`.
pub open spec fn subscription_texts(n: nat, lists: Seq<Vec<String>>) -> Seq<Seq<char>> {
    Seq::new(lists.len(), |i: int| subscription_text(n + i as nat, lists[i]@))
}

/// Successive successful subscriptions, whose logs and ids are `logs[i]`,
/// `ids[i]` before call `i` with stream list `lists[i]`, put their texts on the
/// wire in call order, after everything sent before, with ids `n`, `n + 1`, ...
pub proof fn lemma_subscriptions_sent_in_order(logs: Seq<Seq<Seq<char>>>, ids: Seq<nat>, lists: Seq<Vec<String>>)
    requires
        logs.len() == lists.len() + 1,
        ids.len() == lists.len() + 1,
        forall|i: int| 0 <= i < lists.len() ==> #[trigger] ids[i + 1] == ids[i] + 1 && logs[i + 1]
            == logs[i].push(subscription_text(ids[i], lists[i]@)),
    ensures
        logs.last() == logs[0] + subscription_texts(ids[0], lists),
        ids.last() == ids[0] + lists.len(),
    decreases lists.len(),
{
    if lists.len() > 0 {
        let k = lists.len() - 1;
        lemma_subscriptions_sent_in_order(logs.drop_last(), ids.drop_last(), lists.drop_last());
        assert(ids[k + 1] == ids[k] + 1);
        assert(logs.drop_last().last() == logs[k]);
        assert(logs.last() =~= logs[0] + subscription_texts(ids[0], lists));
    } else {
        assert(logs.last() =~= logs[0] + subscription_texts(ids[0], lists));
    }
}

} // verus!
