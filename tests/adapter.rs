use std::collections::HashMap;
use binance_ws::sequence::SequenceCounter;
use binance_ws::subscription::{subscription_payload, subscription_request_json};
use binance_ws::BinanceWebSocketConnection;

fn connection(protocol: &str, host: &str, port: u16, path: &str) -> BinanceWebSocketConnection {
    BinanceWebSocketConnection {
        protocol: protocol.to_string(),
        host: host.to_string(),
        port,
        path: path.to_string(),
        headers: HashMap::new(),
    }
}

#[test]
fn url_has_scheme_host_port_path_and_time_unit() {
    let c = connection("wss", "stream.binance.com", 9443, "/ws");
    assert_eq!(c.to_url_string(), "wss://stream.binance.com:9443/ws?timeUnit=MICROSECOND");
}

#[test]
fn url_port_zero_and_largest() {
    assert_eq!(connection("ws", "h", 0, "").to_url_string(), "ws://h:0?timeUnit=MICROSECOND");
    assert_eq!(connection("ws", "h", 65535, "/p").to_url_string(), "ws://h:65535/p?timeUnit=MICROSECOND");
}

#[test]
fn url_keeps_headers_out() {
    let mut c = connection("ws", "localhost", 8080, "/stream");
    c.headers.insert("X-MBX-APIKEY".to_string(), "k".to_string());
    assert_eq!(c.to_url_string(), "ws://localhost:8080/stream?timeUnit=MICROSECOND");
}

#[test]
fn payload_from_quoted_params() {
    let quoted = vec!["\"btcusdt@trade\"".to_string(), "\"ethusdt@depth\"".to_string()];
    assert_eq!(
        subscription_payload(7, &quoted),
        "{\"method\":\"SUBSCRIBE\",\"params\":[\"btcusdt@trade\",\"ethusdt@depth\"],\"id\":7}"
    );
}

#[test]
fn payload_with_no_streams() {
    assert_eq!(subscription_payload(0, &Vec::new()), "{\"method\":\"SUBSCRIBE\",\"params\":[],\"id\":0}");
}

#[test]
fn request_json_quotes_stream_names() {
    let streams = vec!["btcusdt@aggTrade".to_string()];
    let json = subscription_request_json(12, &streams).unwrap();
    assert_eq!(json, "{\"method\":\"SUBSCRIBE\",\"params\":[\"btcusdt@aggTrade\"],\"id\":12}");
}

#[test]
fn request_json_escapes_quotes() {
    let streams = vec!["a\"b".to_string(), "c".to_string()];
    let json = subscription_request_json(u64::MAX, &streams).unwrap();
    assert_eq!(json, "{\"method\":\"SUBSCRIBE\",\"params\":[\"a\\\"b\",\"c\"],\"id\":18446744073709551615}");
}

#[test]
fn sequence_counter_strictly_increases() {
    let mut s = SequenceCounter::new();
    assert_eq!(s.current(), 0);
    s.advance();
    s.advance();
    assert_eq!(s.current(), 2);
    assert!(s.can_advance());
}

#[test]
fn request_json_escapes_control_characters() {
    let streams = vec!["a\u{1}\n\\".to_string()];
    let json = subscription_request_json(3, &streams).unwrap();
    assert_eq!(json, "{\"method\":\"SUBSCRIBE\",\"params\":[\"a\\u0001\\n\\\\\"],\"id\":3}");
}
