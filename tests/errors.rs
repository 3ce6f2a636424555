use std::collections::HashMap;
use binance_ws::{
    BinanceBlockingWebSocket, BinanceNonBlockingWebSocket, BinanceWebSocketConfig, BinanceWebSocketConnection,
    BinanceWebSocketError,
};
use s9_websocket::{BlockingOptions, NonBlockingOptions, S9WebSocketError};

fn bad_config() -> BinanceWebSocketConfig {
    BinanceWebSocketConfig {
        connection: BinanceWebSocketConnection {
            protocol: "ws".to_string(),
            host: "".to_string(),
            port: 0,
            path: "".to_string(),
            headers: HashMap::new(),
        },
    }
}

#[test]
fn websocket_error_message_names_the_layer() {
    let e = BinanceWebSocketError::WebSocket(S9WebSocketError::InvalidUri("nope".to_string()));
    assert!(e.message().starts_with("WebSocket error: "));
    assert!(e.message().len() > "WebSocket error: ".len());
}

#[test]
fn serialization_error_message_names_the_layer() {
    let cause = serde_json::from_str::<u8>("x").unwrap_err();
    let e = BinanceWebSocketError::Serialization(cause);
    assert!(e.message().starts_with("Serialization error: "));
}

#[test]
fn blocking_connect_to_invalid_url_is_a_websocket_error() {
    let r = BinanceBlockingWebSocket::connect(bad_config(), BlockingOptions::new());
    assert!(matches!(r, Err(BinanceWebSocketError::WebSocket(_))));
}

#[test]
fn non_blocking_connect_to_invalid_url_is_a_websocket_error() {
    let r = BinanceNonBlockingWebSocket::connect(bad_config(), NonBlockingOptions::new());
    assert!(matches!(r, Err(BinanceWebSocketError::WebSocket(_))));
}

#[test]
fn from_wraps_each_cause() {
    let e: BinanceWebSocketError = S9WebSocketError::SocketUnavailable.into();
    assert!(matches!(e, BinanceWebSocketError::WebSocket(S9WebSocketError::SocketUnavailable)));
    let e: BinanceWebSocketError = serde_json::from_str::<u8>("x").unwrap_err().into();
    assert!(matches!(e, BinanceWebSocketError::Serialization(_)));
}

#[test]
fn websocket_error_message_is_prefix_and_cause() {
    let cause = S9WebSocketError::InvalidUri("nope".to_string());
    let text = cause.to_string();
    let e = BinanceWebSocketError::WebSocket(cause);
    assert_eq!(e.message(), format!("WebSocket error: {}", text));
}
