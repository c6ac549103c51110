#![verifier::loop_isolation(false)]
//! A peer-to-peer overlay VPN core: longest-prefix-match routing over
//! gossip-learned peers, an IP packet view, and a compact tagged wire codec.
//!
//! The crate holds the control- and data-plane logic only; device and socket
//! I/O live with the binary that drives the event loop.

pub mod addr;
pub mod codec;
pub mod config;
pub mod message;
pub mod package;
pub mod peer;
pub mod router;
pub mod table;
pub mod utils;

pub use addr::{IpAddress, SocketAddress};
pub use config::{Config, Server, Type};
pub use message::{Message, Node};
pub use package::{Buffer, Package, Version};
pub use peer::{Host, Peer};
pub use router::Router;
pub use table::{LikeRouter, Table};
pub use utils::{Reader, Writer};
