//! A verified client layer for exchange market-data websocket feeds.
//!
//! - `connection`, `subscription`, `sequence`: the connection URL, the
//!   subscription payload and its strictly increasing request id.
//! - `client`: the blocking and non-blocking feed clients over `s9_websocket`.
//! - `codec`, `assembler`: websocket frames to and from bytes, and fragments
//!   joined into messages.
//! - `run_loop`, `laws`: the run loop's decisions as a state machine, and what
//!   holds of every run of it.
//! - `channel`, `driver`: the bounded control and event queues with their
//!   backpressure policy, and the run loop's side of them.
mod text;
pub mod connection;
pub mod error;
pub mod sequence;
pub mod subscription;
pub mod client;
pub mod channel;
pub mod run_loop;
pub mod laws;
pub mod driver;
pub mod codec;
pub mod assembler;

pub use client::{BinanceBlockingWebSocket, BinanceNonBlockingWebSocket};
pub use connection::{BinanceWebSocketConfig, BinanceWebSocketConnection};
pub use error::{BinanceResult, BinanceWebSocketError};
