//! The broadcast node: a grow-only set of values that spreads by gossip.

use crate::gossip::{gossip_to, merge, snapshot};
use crate::knowledge::{blank, KnowledgeMap};
use crate::message::{envelopes, Body, Event, Init, Message, FIRST_REQUEST_ID};
use crate::names::spelled;
use crate::node::{Node, NodeError};
use crate::protocol::{
    answers, fresh, has_strange_neighbour, is_push, next_state, refusal, Incoming, NodeState,
    PayloadView, SignalPayload,
};
use crate::topology::Topology;
use std::collections::HashSet;
use vstd::prelude::*;

verus! {

broadcast use vstd::std_specs::hash::group_hash_axioms;

/// The time between two rounds of gossip, in milliseconds.
pub const GOSSIP_INTERVAL_MILLIS: u64 = 300;

/// What the messages of the broadcast protocol carry.
#[derive(Debug)]
pub enum Payload {
    /// A client asks the node to take a value into the set.
    Broadcast { message: usize },
    /// The node has taken the value.
    BroadcastOk,
    /// A client asks for the values the node holds.
    Read,
    /// The values the node held when it was asked.
    ReadOk { messages: HashSet<usize> },
    /// The operator tells the node the neighbour graph.
    Topology { topology: Topology },
    /// The node has taken the graph.
    TopologyOk,
    /// A node tells another which values it holds.
    Gossip { seen: HashSet<usize> },
}

impl View for Payload {
    type V = PayloadView;

    open spec fn view(&self) -> PayloadView {
        match self {
            Payload::Broadcast { message } => PayloadView::Broadcast { message: *message },
            Payload::BroadcastOk => PayloadView::BroadcastOk,
            Payload::Read => PayloadView::Read,
            Payload::ReadOk { messages } => PayloadView::ReadOk { messages: messages@ },
            Payload::Topology { topology } => PayloadView::Topology { topology: topology@ },
            Payload::TopologyOk => PayloadView::TopologyOk,
            Payload::Gossip { seen } => PayloadView::Gossip { seen: seen@ },
        }
    }
}

impl Clone for Payload {
    fn clone(&self) -> (copy: Self)
        ensures
            copy@ == self@,
    {
        match self {
            Payload::Broadcast { message } => Payload::Broadcast { message: *message },
            Payload::BroadcastOk => Payload::BroadcastOk,
            Payload::Read => Payload::Read,
            Payload::ReadOk { messages } => Payload::ReadOk { messages: snapshot(messages) },
            Payload::Topology { topology } => Payload::Topology { topology: topology.copy() },
            Payload::TopologyOk => Payload::TopologyOk,
            Payload::Gossip { seen } => Payload::Gossip { seen: snapshot(seen) },
        }
    }
}

/// An event of the broadcast protocol as plain values.
pub open spec fn incoming(event: Event<Payload, SignalPayload>) -> Incoming {
    match event {
        Event::Message(message) => Incoming::Message(message@),
        Event::Signal(signal) => Incoming::Signal(signal),
        Event::EOF => Incoming::EOF,
    }
}

/// A node of the broadcast protocol.
pub struct BroadcastNode {
    node: String,
    id: usize,
    messages: HashSet<usize>,
    topology: Topology,
    known: KnowledgeMap,
    neighborhood: Vec<String>,
}

impl View for BroadcastNode {
    type V = NodeState;

    closed spec fn view(&self) -> NodeState {
        NodeState {
            node: self.node@,
            next_id: self.id as nat,
            messages: self.messages@,
            known: self.known@,
            neighborhood: spelled(self.neighborhood@),
            topology: self.topology@,
        }
    }
}

impl BroadcastNode {
    /// The node that the bootstrap request describes: it holds no value, has no
    /// neighbour yet, believes that no member has seen anything, and will give
    /// its first message the id one.
    pub fn new(init: Init) -> (node: Self)
        ensures
            node@ == fresh(init.node_id@, blank(init.node_ids@)),
    {
        BroadcastNode::numbering_from(init, FIRST_REQUEST_ID)
    }

    /// The node that the bootstrap request describes, but one that gives its
    /// first message the id `first_id`.
    pub fn numbering_from(init: Init, first_id: usize) -> (node: Self)
        ensures
            node@ == (NodeState {
                next_id: first_id as nat,
                ..fresh(init.node_id@, blank(init.node_ids@))
            }),
    {
        let known = KnowledgeMap::new(&init.node_ids);
        let node = BroadcastNode {
            node: init.node_id,
            id: first_id,
            messages: HashSet::new(),
            topology: Topology::new(),
            known,
            neighborhood: Vec::new(),
        };
        assert(node@ =~= NodeState {
            next_id: first_id as nat,
            ..fresh(init.node_id@, blank(init.node_ids@))
        });
        node
    }

    /// The node's own name.
    pub fn node_id(&self) -> (name: &String)
        ensures
            name@ == self@.node,
    {
        &self.node
    }

    /// The id that the next message of the node's own will carry.
    pub fn next_id(&self) -> (id: usize)
        ensures
            id == self@.next_id,
    {
        self.id
    }

    /// The values the node holds.
    pub fn messages(&self) -> (set: &HashSet<usize>)
        ensures
            set@ == self@.messages,
    {
        &self.messages
    }

    /// What the node believes each member has seen.
    pub fn known(&self) -> (table: &KnowledgeMap)
        ensures
            table@ == self@.known,
    {
        &self.known
    }

    /// The node's neighbours.
    pub fn neighborhood(&self) -> (list: &Vec<String>)
        ensures
            spelled(list@) == self@.neighborhood,
    {
        &self.neighborhood
    }

    /// The entries of the graph that belong to other nodes.
    pub fn topology(&self) -> (graph: &Topology)
        ensures
            graph@ == self@.topology,
    {
        &self.topology
    }

    /// Reacts to one event.
    ///
    /// An event that [`refusal`] refuses yields its error and leaves the node as
    /// it was. Any other event takes the node to [`next_state`] and yields the
    /// messages to send, which are [`answers`] to the event.
    pub fn react(&mut self, input: Event<Payload, SignalPayload>) -> (out: Result<
        Vec<Message<Payload>>,
        NodeError,
    >)
        ensures
            match refusal(old(self)@, incoming(input)) {
                Some(error) => out == Err::<Vec<Message<Payload>>, _>(error) && final(self)@ == old(
                    self,
                )@,
                None => {
                    &&& out matches Ok(sent)
                    &&& final(self)@ == next_state(old(self)@, incoming(input))
                    &&& answers(old(self)@, incoming(input), envelopes(sent@))
                },
            },
    {
        match input {
            Event::EOF => {
                assert(self@ =~= next_state(self@, Incoming::EOF));
                Ok(Vec::new())
            },
            Event::Signal(signal) => self.gossip(signal),
            Event::Message(request) => self.handle(request),
        }
    }

    /// Reacts to a message from the network.
    pub fn handle(&mut self, request: Message<Payload>) -> (out: Result<
        Vec<Message<Payload>>,
        NodeError,
    >)
        ensures
            match refusal(old(self)@, Incoming::Message(request@)) {
                Some(error) => out == Err::<Vec<Message<Payload>>, _>(error) && final(self)@ == old(
                    self,
                )@,
                None => {
                    &&& out matches Ok(sent)
                    &&& final(self)@ == next_state(old(self)@, Incoming::Message(request@))
                    &&& answers(old(self)@, Incoming::Message(request@), envelopes(sent@))
                },
            },
    {
        let ghost event = Incoming::Message(request@);
        let ghost before = self@;
        let Message { src, dst, body } = request;
        let Body { id, in_reply_to, payload } = body;
        match payload {
            Payload::Gossip { seen } => {
                if !self.known.contains(&src) {
                    return Err(NodeError::GossipFromStranger);
                }
                self.known.record(&src, &seen);
                merge(&mut self.messages, &seen);
                assert(self@ =~= next_state(before, event));
                Ok(Vec::new())
            },
            Payload::Broadcast { message } => {
                if self.id == usize::MAX {
                    return Err(NodeError::RequestIdsExhausted);
                }
                self.messages.insert(message);
                let reply = Message {
                    src,
                    dst,
                    body: Body { id, in_reply_to, payload: Payload::BroadcastOk },
                }.into_reply(Some(&mut self.id));
                assert(self@ =~= next_state(before, event));
                let sent = vec![reply];
                assert(envelopes(sent@)[0] == reply@);
                Ok(sent)
            },
            Payload::Read => {
                if self.id == usize::MAX {
                    return Err(NodeError::RequestIdsExhausted);
                }
                let reply = Message {
                    src,
                    dst,
                    body: Body {
                        id,
                        in_reply_to,
                        payload: Payload::ReadOk { messages: snapshot(&self.messages) },
                    },
                }.into_reply(Some(&mut self.id));
                assert(self@ =~= next_state(before, event));
                let sent = vec![reply];
                assert(envelopes(sent@)[0] == reply@);
                Ok(sent)
            },
            Payload::Topology { topology } => {
                let mut rest = topology;
                let own = match rest.remove(&self.node) {
                    Some(own) => own,
                    None => {
                        return Err(NodeError::NoTopologyForNode);
                    },
                };
                if self.id == usize::MAX {
                    return Err(NodeError::RequestIdsExhausted);
                }
                self.neighborhood = own;
                self.topology = rest;
                let reply = Message {
                    src,
                    dst,
                    body: Body { id, in_reply_to, payload: Payload::TopologyOk },
                }.into_reply(Some(&mut self.id));
                assert(self@ =~= next_state(before, event));
                let sent = vec![reply];
                assert(envelopes(sent@)[0] == reply@);
                Ok(sent)
            },
            Payload::BroadcastOk | Payload::ReadOk { .. } | Payload::TopologyOk => {
                assert(self@ =~= next_state(before, event));
                Ok(Vec::new())
            },
        }
    }

    /// Whether every neighbour is a member of the cluster.
    pub fn knows_neighbours(&self) -> (all: bool)
        ensures
            all == !has_strange_neighbour(self@),
    {
        let mut i: usize = 0;
        while i < self.neighborhood.len()
            invariant
                i <= self.neighborhood.len(),
                forall|k: int|
                    0 <= k < i ==> self@.known.contains_key(#[trigger] self@.neighborhood[k]),
            decreases self.neighborhood.len() - i,
        {
            if !self.known.contains(&self.neighborhood[i]) {
                assert(!self@.known.contains_key(self@.neighborhood[i as int]));
                return false;
            }
            i += 1;
        }
        true
    }

    /// Reacts to the timer: one round of gossip, a message to each neighbour.
    pub fn gossip(&mut self, signal: SignalPayload) -> (out: Result<
        Vec<Message<Payload>>,
        NodeError,
    >)
        ensures
            match refusal(old(self)@, Incoming::Signal(signal)) {
                Some(error) => out == Err::<Vec<Message<Payload>>, _>(error) && final(self)@ == old(
                    self,
                )@,
                None => {
                    &&& out matches Ok(sent)
                    &&& final(self)@ == next_state(old(self)@, Incoming::Signal(signal))
                    &&& answers(old(self)@, Incoming::Signal(signal), envelopes(sent@))
                },
            },
    {
        let ghost before = self@;
        if !self.knows_neighbours() {
            return Err(NodeError::NeighbourIsStranger);
        }
        let count = self.neighborhood.len();
        if count > usize::MAX - self.id {
            return Err(NodeError::RequestIdsExhausted);
        }
        let mut sent: Vec<Message<Payload>> = Vec::new();
        let mut i: usize = 0;
        while i < count
            invariant
                i <= count,
                count == self.neighborhood.len(),
                self@ == before,
                before.next_id + count <= usize::MAX,
                !has_strange_neighbour(before),
                sent.len() == i,
                forall|k: int| 0 <= k < i ==> is_push(before, k, (#[trigger] sent[k])@),
            decreases count - i,
        {
            let name = &self.neighborhood[i];
            assert(before.known.contains_key(before.neighborhood[i as int]));
            let seen = match self.known.get(name) {
                Some(known) => gossip_to(&self.messages, known),
                None => {
                    return Err(NodeError::NeighbourIsStranger);
                },
            };
            let push = Message {
                src: self.node.clone(),
                dst: name.clone(),
                body: Body { id: Some(self.id + i), in_reply_to: None, payload: Payload::Gossip { seen } },
            };
            assert(is_push(before, i as int, push@));
            sent.push(push);
            i += 1;
        }
        self.id = self.id + count;
        assert(self@ =~= next_state(before, Incoming::Signal(signal)));
        assert forall|k: int| 0 <= k < sent.len() implies is_push(
            before,
            k,
            #[trigger] envelopes(sent@)[k],
        ) by {
            assert(envelopes(sent@)[k] == sent[k]@);
        }
        Ok(sent)
    }
}

impl Node<(), Payload, SignalPayload> for BroadcastNode {
    /// Makes the node as [`BroadcastNode::new`] does; this never fails.
    fn from_init(state: (), init: Init) -> (made: Result<Self, NodeError>)
        ensures
            made matches Ok(node) && node@ == fresh(init.node_id@, blank(init.node_ids@)),
    {
        Ok(BroadcastNode::new(init))
    }

    /// Reacts to one event as [`BroadcastNode::react`] does.
    fn step(&mut self, input: Event<Payload, SignalPayload>) -> (out: Result<
        Vec<Message<Payload>>,
        NodeError,
    >)
        ensures
            match refusal(old(self)@, incoming(input)) {
                Some(error) => out == Err::<Vec<Message<Payload>>, _>(error) && final(self)@ == old(
                    self,
                )@,
                None => {
                    &&& out matches Ok(sent)
                    &&& final(self)@ == next_state(old(self)@, incoming(input))
                    &&& answers(old(self)@, incoming(input), envelopes(sent@))
                },
            },
    {
        self.react(input)
    }
}

} // verus!
