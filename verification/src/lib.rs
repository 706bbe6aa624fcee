//! A node of a gossiping cluster: envelopes and reply correlation, and the
//! broadcast node's reaction to messages and timer signals.

pub mod broadcast;
pub mod cluster;
pub mod gossip;
pub mod knowledge;
pub mod laws;
pub mod message;
pub mod names;
pub mod node;
pub mod protocol;
pub mod topology;

pub use broadcast::{BroadcastNode, Payload};
pub use knowledge::KnowledgeMap;
pub use message::{answer_init, Body, Event, HandshakeError, Init, InitPayload, Message};
pub use node::{Node, NodeError};
pub use protocol::SignalPayload;
pub use topology::Topology;
