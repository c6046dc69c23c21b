//! A metadata-private gossip layer.
//!
//! Every node of the network sends frames of one size on a schedule that does
//! not depend on what it has to say. On every tick it takes the next frame (a
//! message of the application, else a frame of another peer that is to be sent
//! on, else freshly made cover) and sends it to a few peers. Someone who watches
//! the wire sees the same traffic whether or not anything is being said.
//!
//! - [`node`]: a peer of the network. It publishes messages and decides what
//!   becomes of the frames that come in.
//! - [`lanes`]: the frames that wait to be sent.
//! - [`gossip`]: the memory of identifiers by which duplicates are told.
//! - [`cover`], [`selection`] and [`chance`]: what happens on a tick, which peers
//!   it sends to, and what decides among them.
//! - [`codec`]: frames on the wire.
//! - [`config`], [`error`], [`addr`], [`buffer`], [`text`]: the plain values
//!   that the others work with.
//!
//! Connections, timers and background tasks belong to the program around this
//! library.

pub mod addr;
pub mod buffer;
pub mod chance;
pub mod codec;
pub mod config;
pub mod cover;
pub mod error;
pub mod gossip;
pub mod lanes;
pub mod node;
pub mod selection;
pub mod text;

pub use crate::config::{CoverStrategy, NodeConfig};
pub use crate::error::Error;
pub use crate::gossip::ID_SIZE;
pub use crate::node::Node;
