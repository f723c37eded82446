//! Peer-node logic for a small cooperative network: a plain-text message
//! protocol, sibling bookkeeping, gossip exchange, backoff and chaos simulation.

pub mod backoff;
pub mod clock;
pub mod discovery;
pub mod error;
pub mod ip;
pub mod node;
pub mod simulation;
pub mod text;
pub mod transport;
