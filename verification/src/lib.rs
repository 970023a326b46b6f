//! Protocol logic of a reverse SOCKS5 tunnel: a public server hands the connections of SOCKS5
//! and HTTP proxy clients to agents that sit behind firewalls.
//!
//! The modules decide; sockets, clocks, files and randomness stay with the caller, who hands
//! in bytes, times and random draws as plain values.
pub mod address_text;
pub mod android;
pub mod base64_codec;
pub mod cache;
pub mod http_proxy;
pub mod json;
pub mod net;
pub mod progress;
pub mod registry;
pub mod security;
pub mod session;
pub mod socks5;
pub mod text;
pub mod text_map;
pub mod tls;
pub mod tunnel;
pub mod tunnel_common;
pub mod udp;
