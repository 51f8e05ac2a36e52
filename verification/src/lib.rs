//! Core of a peer-to-peer connectivity layer.
//!
//! The library presents a single virtual UDP socket to an upper QUIC
//! transport while routing datagrams to each remote peer through the best
//! currently available path: a relayed path through a DERP relay server,
//! or a direct UDP path learned through the disco discovery protocol.
//!
//! All mutable state is owned by a single coordinator and mutated only
//! through its state-transition functions.  I/O itself (sockets, timers,
//! crypto) is performed by the embedding code, which feeds events in and
//! carries the returned actions out.

pub mod actor;
pub mod addr;
pub mod buf;
pub mod cfg;
pub mod conn;
pub mod disco;
pub mod endpoint;
pub mod endpoints;
pub mod key;
pub mod latch;
pub mod netinfo;
pub mod netmap;
pub mod peer_map;
pub mod render;
pub mod rng;
pub mod split;
pub mod transmit;
