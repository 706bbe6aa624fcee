//! What the event loop asks of a node.

use crate::message::{Event, Init, Message};
use vstd::prelude::*;

verus! {

/// Why a node gave up. Each of these ends the node: none is recovered from.
#[derive(Debug, Clone, Copy, PartialEq, Eq, Structural)]
pub enum NodeError {
    /// A topology arrived that has no entry for this node.
    NoTopologyForNode,
    /// Gossip arrived from a node that is no member of the cluster.
    GossipFromStranger,
    /// A neighbour of this node is no member of the cluster.
    NeighbourIsStranger,
    /// The node has no request ids left for the messages it would send.
    RequestIdsExhausted,
}

/// A node that the event loop can drive: made from the bootstrap request, then
/// fed one event at a time.
///
/// `step` hands back the messages that the event made the node send, in the
/// order in which they are to be written out.
pub trait Node<S, Payload, SignalPayload = ()>: Sized {
    /// Makes the node from its initial state and what the bootstrap request
    /// told it.
    fn from_init(state: S, init: Init) -> Result<Self, NodeError>;

    /// Takes the next event and says what to send.
    fn step(&mut self, input: Event<Payload, SignalPayload>) -> Result<
        Vec<Message<Payload>>,
        NodeError,
    >;
}

} // verus!
