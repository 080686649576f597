//! Client-side transport core of a cache benchmarking tool.
//!
//! Many concurrent logical get/set operations are multiplexed over one
//! persistent full-duplex binary connection. A single connection actor owns
//! the transport, assigns strictly increasing correlation ids, keeps an
//! ordered ledger of outstanding requests, and matches replies that may
//! arrive out of order. Every submitted request resolves exactly once, even
//! when the connection fails.
//!
//! The wire schema (one envelope per frame) lives in [`websocket`] and its
//! nested payload modules; its binary encoding in [`varint`] and [`codec`],
//! with the encode/decode round-trip laws in [`roundtrip`]. The ledger is
//! [`ledger`], the actor's decision logic [`actor`], the caller-facing
//! submission model [`intake`], and the two workload commands [`commands`].

pub mod actor;
pub mod cache_request;
pub mod cache_response;
pub mod codec;
pub mod commands;
pub mod error;
pub mod get_response;
pub mod intake;
pub mod ledger;
pub mod protocol;
pub mod roundtrip;
pub mod socket_request;
pub mod socket_response;
pub mod varint;
pub mod websocket;
