//! The broadcast protocol as a transition system over plain values.
//!
//! A node's state and the events it meets are described here without any
//! executable type: sets, maps and sequences. For each state and event the
//! functions below say whether the node refuses the event, what state it is in
//! afterwards, and which outgoing messages are right.

use crate::gossip::may_notify;
use crate::message::Envelope;
use crate::node::NodeError;
use vstd::prelude::*;

verus! {

/// A payload of the broadcast protocol as plain values.
#[verifier::ext_equal]
pub enum PayloadView {
    /// A client asks the node to take a value into the set.
    Broadcast { message: usize },
    /// The node has taken the value.
    BroadcastOk,
    /// A client asks for the values the node holds.
    Read,
    /// The values the node held when it was asked.
    ReadOk { messages: Set<usize> },
    /// The operator tells the node the neighbour graph.
    Topology { topology: Map<Seq<char>, Seq<Seq<char>>> },
    /// The node has taken the graph.
    TopologyOk,
    /// A node tells another which values it holds.
    Gossip { seen: Set<usize> },
}

/// The one signal that the node's timer produces.
#[derive(Debug, Clone, Copy, PartialEq, Eq, Structural)]
pub enum SignalPayload {
    /// It is time for a round of gossip.
    Gossip,
}

/// An event as plain values.
#[verifier::ext_equal]
pub enum Incoming {
    /// A message arrived.
    Message(Envelope<PayloadView>),
    /// The timer fired.
    Signal(SignalPayload),
    /// The input is exhausted.
    EOF,
}

/// All that a broadcast node remembers.
#[verifier::ext_equal]
pub struct NodeState {
    /// The node's own name.
    pub node: Seq<char>,
    /// The id that the next message of the node's own will carry.
    pub next_id: nat,
    /// The values the node holds.
    pub messages: Set<usize>,
    /// For each member of the cluster, the values it has shown it holds.
    pub known: Map<Seq<char>, Set<usize>>,
    /// The node's neighbours, in the order the graph gave them.
    pub neighborhood: Seq<Seq<char>>,
    /// The rest of the graph: the entries of the other nodes.
    pub topology: Map<Seq<char>, Seq<Seq<char>>>,
}

/// The state of a node that was just made for `node` in a cluster with the
/// given knowledge table.
pub open spec fn fresh(node: Seq<char>, known: Map<Seq<char>, Set<usize>>) -> NodeState {
    NodeState {
        node,
        next_id: 1,
        messages: Set::empty(),
        known,
        neighborhood: Seq::empty(),
        topology: Map::empty(),
    }
}

/// Whether some neighbour of the node is no member of the cluster.
pub open spec fn has_strange_neighbour(s: NodeState) -> bool {
    exists|i: int| 0 <= i < s.neighborhood.len() && !s.known.contains_key(#[trigger] s.neighborhood[i])
}

/// What a request's payload is answered with, where it is answered at all.
pub open spec fn reply_payload(s: NodeState, request: PayloadView) -> Option<PayloadView> {
    match request {
        PayloadView::Broadcast { .. } => Some(PayloadView::BroadcastOk),
        PayloadView::Read => Some(PayloadView::ReadOk { messages: s.messages }),
        PayloadView::Topology { .. } => Some(PayloadView::TopologyOk),
        _ => None,
    }
}

/// How many messages of its own the event makes the node send.
pub open spec fn originated(s: NodeState, e: Incoming) -> nat {
    match e {
        Incoming::Message(m) => if reply_payload(s, m.payload).is_some() {
            1
        } else {
            0
        },
        Incoming::Signal(_) => s.neighborhood.len(),
        Incoming::EOF => 0,
    }
}

/// The rule of the protocol that the event breaks, if it breaks one.
pub open spec fn violation(s: NodeState, e: Incoming) -> Option<NodeError> {
    match e {
        Incoming::Message(m) => match m.payload {
            PayloadView::Topology { topology } => if topology.contains_key(s.node) {
                None
            } else {
                Some(NodeError::NoTopologyForNode)
            },
            PayloadView::Gossip { .. } => if s.known.contains_key(m.src) {
                None
            } else {
                Some(NodeError::GossipFromStranger)
            },
            _ => None,
        },
        Incoming::Signal(_) => if has_strange_neighbour(s) {
            Some(NodeError::NeighbourIsStranger)
        } else {
            None
        },
        Incoming::EOF => None,
    }
}

/// Why the node refuses the event, if it does: for a broken rule first, else
/// for want of request ids.
pub open spec fn refusal(s: NodeState, e: Incoming) -> Option<NodeError> {
    match violation(s, e) {
        Some(error) => Some(error),
        None => if s.next_id + originated(s, e) > usize::MAX {
            Some(NodeError::RequestIdsExhausted)
        } else {
            None
        },
    }
}

/// The state after an event that the node did not refuse.
pub open spec fn next_state(s: NodeState, e: Incoming) -> NodeState {
    let drawn = NodeState { next_id: s.next_id + originated(s, e), ..s };
    match e {
        Incoming::Message(m) => match m.payload {
            PayloadView::Broadcast { message } => NodeState {
                messages: s.messages.insert(message),
                ..drawn
            },
            PayloadView::Topology { topology } => NodeState {
                neighborhood: topology[s.node],
                topology: topology.remove(s.node),
                ..drawn
            },
            PayloadView::Gossip { seen } => NodeState {
                messages: s.messages.union(seen),
                known: s.known.insert(m.src, s.known[m.src].union(seen)),
                ..drawn
            },
            _ => drawn,
        },
        _ => drawn,
    }
}

/// The state after an event, refused or not: a refused event changes nothing.
pub open spec fn after(s: NodeState, e: Incoming) -> NodeState {
    if refusal(s, e).is_some() {
        s
    } else {
        next_state(s, e)
    }
}

/// Whether `reply` is the right answer to `request` in state `s`: addressed
/// back to the sender, with the next id of the node as its own, the request's
/// id echoed, and the payload that answers the request's.
pub open spec fn is_answer(
    s: NodeState,
    request: Envelope<PayloadView>,
    reply: Envelope<PayloadView>,
) -> bool {
    &&& reply.src == request.dst
    &&& reply.dst == request.src
    &&& reply.id == Some(s.next_id as usize)
    &&& reply.in_reply_to == request.id
    &&& Some(reply.payload) == reply_payload(s, request.payload)
}

/// Whether `push` is a right gossip message to the neighbour at place `i`:
/// from this node to that neighbour, with the `i`-th id from the node's next
/// one, answering nothing, and telling what a round may tell that neighbour.
pub open spec fn is_push(s: NodeState, i: int, push: Envelope<PayloadView>) -> bool {
    &&& push.src == s.node
    &&& push.dst == s.neighborhood[i]
    &&& push.id == Some((s.next_id + i) as usize)
    &&& push.in_reply_to.is_none()
    &&& push.payload matches PayloadView::Gossip { seen }
    &&& may_notify(s.messages, s.known[s.neighborhood[i]], seen)
}

/// Whether `out` is what the node is to send for an event it did not refuse:
/// the one answer to a request, one gossip message to each neighbour in order
/// for a timer signal, and else nothing.
pub open spec fn answers(s: NodeState, e: Incoming, out: Seq<Envelope<PayloadView>>) -> bool {
    match e {
        Incoming::Message(m) => if reply_payload(s, m.payload).is_some() {
            out.len() == 1 && is_answer(s, m, out[0])
        } else {
            out.len() == 0
        },
        Incoming::Signal(_) => {
            &&& out.len() == s.neighborhood.len()
            &&& forall|i: int| 0 <= i < out.len() ==> is_push(s, i, #[trigger] out[i])
        },
        Incoming::EOF => out.len() == 0,
    }
}

} // verus!
