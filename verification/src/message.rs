//! The message envelope, reply correlation and the bootstrap handshake.
//!
//! Every record on the wire is a [`Message`]: a sender, a receiver and a
//! [`Body`] that carries the two correlation ids next to the payload. A reply
//! is made from its request by [`Message::into_reply`], which swaps the two
//! ends, echoes the request's id and draws the reply's own id from the node's
//! counter.

use vstd::prelude::*;

verus! {

/// What travels inside an envelope: the correlation ids and the payload.
#[derive(Debug, Clone, PartialEq, Eq)]
pub struct Body<Payload> {
    /// The id that the sender gave this message, if it gave one.
    pub id: Option<usize>,
    /// The id of the request that this message answers, if it answers one.
    pub in_reply_to: Option<usize>,
    /// The typed content.
    pub payload: Payload,
}

/// One envelope: who sent it, who is to receive it, and its body.
#[derive(Debug, Clone, PartialEq, Eq)]
pub struct Message<Payload> {
    /// The sending node.
    pub src: String,
    /// The receiving node.
    pub dst: String,
    /// Ids and payload.
    pub body: Body<Payload>,
}

/// An envelope as plain values: the names spelled out, the payload by its view.
pub struct Envelope<P> {
    /// The sending node.
    pub src: Seq<char>,
    /// The receiving node.
    pub dst: Seq<char>,
    /// The message's own id.
    pub id: Option<usize>,
    /// The id of the request it answers.
    pub in_reply_to: Option<usize>,
    /// The payload's view.
    pub payload: P,
}

impl<Payload: View> View for Message<Payload> {
    type V = Envelope<Payload::V>;

    open spec fn view(&self) -> Envelope<Payload::V> {
        Envelope {
            src: self.src@,
            dst: self.dst@,
            id: self.body.id,
            in_reply_to: self.body.in_reply_to,
            payload: self.body.payload@,
        }
    }
}

/// The envelopes of a list of messages, in their order.
pub open spec fn envelopes<Payload: View>(list: Seq<Message<Payload>>) -> Seq<Envelope<Payload::V>> {
    Seq::new(list.len(), |i: int| list[i]@)
}

/// What the event loop hands to a node, one at a time.
#[derive(Debug, PartialEq, Eq)]
pub enum Event<Payload, SignalPayload = ()> {
    /// A message that arrived from the network.
    Message(Message<Payload>),
    /// A signal that the node's own timer produced.
    Signal(SignalPayload),
    /// The input is exhausted.
    EOF,
}

/// What the bootstrap request tells a node about itself and its cluster.
#[derive(Debug, Clone, PartialEq, Eq)]
pub struct Init {
    /// The name given to this node.
    pub node_id: String,
    /// The names of all members of the cluster, this node included.
    pub node_ids: Vec<String>,
}

/// The two payloads of the bootstrap handshake.
#[derive(Debug, Clone, PartialEq, Eq)]
pub enum InitPayload {
    /// The request that opens the handshake.
    Init(Init),
    /// The acknowledgement that closes it.
    InitOk,
}

/// Why a handshake could not be answered.
#[derive(Debug, Clone, Copy, PartialEq, Eq)]
pub enum HandshakeError {
    /// The first message was not a bootstrap request.
    NotInit,
}

/// The id that the acknowledgement of the bootstrap request carries.
pub const INIT_OK_ID: usize = 0;

/// The first id that a node gives to a message of its own.
pub const FIRST_REQUEST_ID: usize = 1;

/// Where a counter stands after one id was drawn from it.
pub open spec fn advanced(counter: usize) -> int {
    counter + 1
}

impl<Payload> Message<Payload> {
    /// Whether `self` is the reply to `request` that carries `id` as its own id:
    /// the two ends are swapped, the request's id is echoed in `in_reply_to`, and
    /// the payload is the request's.
    pub open spec fn is_reply_to(self, request: Self, id: Option<usize>) -> bool {
        &&& self.src == request.dst
        &&& self.dst == request.src
        &&& self.body.id == id
        &&& self.body.in_reply_to == request.body.id
        &&& self.body.payload == request.body.payload
    }

    /// Turns a request into the envelope of its reply.
    ///
    /// The ends are swapped and the request's id becomes `in_reply_to`. With a
    /// counter, the reply's id is the counter's value and the counter advances by
    /// one; without, the reply has no id. The payload is carried over for the
    /// caller to replace.
    pub fn into_reply(self, id: Option<&mut usize>) -> (reply: Self)
        requires
            id matches Some(counter) ==> *counter < usize::MAX,
        ensures
            match id {
                Some(counter) => {
                    &&& reply.is_reply_to(self, Some(*counter))
                    &&& *final(counter) == advanced(*counter)
                },
                None => reply.is_reply_to(self, None),
            },
    {
        let fresh = match id {
            Some(counter) => {
                let mid: usize = *counter;
                *counter = mid + 1;
                Some(mid)
            },
            None => None,
        };
        Message {
            src: self.dst,
            dst: self.src,
            body: Body { id: fresh, in_reply_to: self.body.id, payload: self.body.payload },
        }
    }
}

/// What the handshake owes for a first message: the acknowledgement, addressed
/// back to the sender, with id [`INIT_OK_ID`] and the request's id echoed.
pub open spec fn is_init_ok_for(reply: Message<InitPayload>, request: Message<InitPayload>) -> bool {
    &&& reply.src == request.dst
    &&& reply.dst == request.src
    &&& reply.body.id == Some(INIT_OK_ID)
    &&& reply.body.in_reply_to == request.body.id
    &&& reply.body.payload == InitPayload::InitOk
}

/// Answers the first message of a session.
///
/// A bootstrap request yields what it says of the node together with the
/// acknowledgement to send back; anything else is refused.
pub fn answer_init(first: Message<InitPayload>) -> (out: Result<
    (Init, Message<InitPayload>),
    HandshakeError,
>)
    ensures
        match first.body.payload {
            InitPayload::Init(init) => {
                &&& out matches Ok((told, reply))
                &&& told == init
                &&& is_init_ok_for(reply, first)
            },
            InitPayload::InitOk => out == Err::<(Init, Message<InitPayload>), _>(
                HandshakeError::NotInit,
            ),
        },
{
    let Message { src, dst, body } = first;
    match body.payload {
        InitPayload::Init(init) => {
            let reply = Message {
                src: dst,
                dst: src,
                body: Body {
                    id: Some(INIT_OK_ID),
                    in_reply_to: body.id,
                    payload: InitPayload::InitOk,
                },
            };
            Ok((init, reply))
        },
        InitPayload::InitOk => Err(HandshakeError::NotInit),
    }
}

} // verus!
