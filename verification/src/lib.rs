//! A stream multiplexer, and the decisions of a client that tunnels traffic through one.
//!
//! Many streams share one connection. Each end cuts what is written to a stream into frames
//! ([`frame`]), sends as many as the other end has room for ([`pump`], [`window`]), and hands the
//! frames that it reads to the streams that they belong to ([`session`]). Pings tell whether the
//! other end is alive ([`liveness`]). What two such ends achieve together is stated and proved in
//! [`transfer`] and [`flow`].
//!
//! Around the multiplexer stand a SOCKS5 client and its key agreement ([`client`]) and the routing
//! rules of a tunnel ([`vpn`], [`script`]).
//!
//! Everything here decides and computes; it neither reads nor writes. Whoever drives it performs
//! what it asks for and reports how that went.

pub mod buffer;
pub mod client;
pub mod crypto;
pub mod error;
pub mod flow;
pub mod frame;
pub mod liveness;
pub mod mux;
pub mod pump;
pub mod script;
pub mod session;
pub mod tables;
pub mod text;
pub mod time;
pub mod transfer;
pub mod vpn;
pub mod window;

pub use liveness::LivenessConfig;
pub use mux::{PicoMux, Stream};
