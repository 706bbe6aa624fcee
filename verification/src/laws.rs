//! What holds of a broadcast node whatever it meets.
//!
//! The laws speak of the protocol's transition system: of one event, or of any
//! run of events from any state. A refused event ends a node, so in a run it
//! counts as changing nothing.

use crate::gossip::{may_notify, unknown};
use crate::message::Envelope;
use crate::protocol::{
    after, answers, fresh, is_push, next_state, originated, refusal, reply_payload, Incoming,
    NodeState, PayloadView,
};
use vstd::prelude::*;

verus! {

/// The state after a run of events, from first to last.
pub open spec fn after_all(s: NodeState, events: Seq<Incoming>) -> NodeState
    decreases events.len(),
{
    if events.len() == 0 {
        s
    } else {
        after(after_all(s, events.drop_last()), events.last())
    }
}

/// The state in which the event at place `i` of a run finds the node.
pub open spec fn state_at(s: NodeState, events: Seq<Incoming>, i: int) -> NodeState {
    after_all(s, events.take(i))
}

/// Whether every entry of `earlier` is an entry of `later` that holds no less.
pub open spec fn no_less_known(
    earlier: Map<Seq<char>, Set<usize>>,
    later: Map<Seq<char>, Set<usize>>,
) -> bool {
    forall|name: Seq<char>| #[trigger]
        earlier.contains_key(name) ==> later.contains_key(name) && earlier[name].subset_of(
            later[name],
        )
}

/// The values that an event brings to a node.
pub open spec fn carried(e: Incoming) -> Set<usize> {
    match e {
        Incoming::Message(m) => match m.payload {
            PayloadView::Broadcast { message } => set![message],
            PayloadView::Gossip { seen } => seen,
            _ => Set::empty(),
        },
        _ => Set::empty(),
    }
}

/// Whether the event is a message that asks the node to take in `value`.
pub open spec fn is_broadcast_of(e: Incoming, value: usize) -> bool {
    e matches Incoming::Message(m) && m.payload == (PayloadView::Broadcast { message: value })
}

/// The values that the events of a run bring to a node, those of refused events
/// left out.
pub open spec fn taken_in(s: NodeState, events: Seq<Incoming>) -> Set<usize>
    decreases events.len(),
{
    if events.len() == 0 {
        Set::empty()
    } else {
        let before = after_all(s, events.drop_last());
        let earlier = taken_in(s, events.drop_last());
        if refusal(before, events.last()).is_some() {
            earlier
        } else {
            earlier.union(carried(events.last()))
        }
    }
}

/// Whether `outs` holds, for each event of a run, messages that the node may
/// send for it: nothing for a refused event, and answers to any other.
pub open spec fn is_trace(
    s: NodeState,
    events: Seq<Incoming>,
    outs: Seq<Seq<Envelope<PayloadView>>>,
) -> bool {
    &&& outs.len() == events.len()
    &&& forall|i: int|
        0 <= i < events.len() ==> if refusal(state_at(s, events, i), events[i]).is_some() {
            (#[trigger] outs[i]).len() == 0
        } else {
            answers(state_at(s, events, i), events[i], outs[i])
        }
}

/// Gossip merged twice is gossip merged once: a second message from the same
/// sender with the same values leaves the node as the first left it.
pub proof fn law_gossip_is_idempotent(
    s: NodeState,
    first: Envelope<PayloadView>,
    again: Envelope<PayloadView>,
)
    requires
        first.payload is Gossip,
        again.payload == first.payload,
        again.src == first.src,
    ensures
        after(after(s, Incoming::Message(first)), Incoming::Message(again)) == after(
            s,
            Incoming::Message(first),
        ),
{
    let once = after(s, Incoming::Message(first));
    let twice = after(once, Incoming::Message(again));
    if refusal(s, Incoming::Message(first)).is_none() {
        let seen = first.payload->seen;
        assert(once.known.contains_key(first.src));
        assert(refusal(once, Incoming::Message(again)).is_none());
        assert(once.messages.union(seen) =~= once.messages);
        assert(once.known[first.src].union(seen) =~= once.known[first.src]);
        assert(twice.known =~= once.known);
    }
    assert(twice =~= once);
}

/// No event takes anything away: the values a node holds, and what it believes
/// of each member, are after the event what they were or more.
pub proof fn law_event_only_adds(s: NodeState, e: Incoming)
    ensures
        s.messages.subset_of(after(s, e).messages),
        no_less_known(s.known, after(s, e).known),
        after(s, e).known.dom() == s.known.dom(),
        s.next_id <= after(s, e).next_id,
{
    assert(after(s, e).known.dom() =~= s.known.dom());
}

/// No run of events takes anything away.
pub proof fn law_run_only_adds(s: NodeState, events: Seq<Incoming>)
    ensures
        s.messages.subset_of(after_all(s, events).messages),
        no_less_known(s.known, after_all(s, events).known),
        after_all(s, events).known.dom() == s.known.dom(),
        s.next_id <= after_all(s, events).next_id,
    decreases events.len(),
{
    if events.len() > 0 {
        law_run_only_adds(s, events.drop_last());
        law_event_only_adds(after_all(s, events.drop_last()), events.last());
    }
}

/// Between two places of a run nothing is taken away either.
pub proof fn law_later_state_holds_no_less(s: NodeState, events: Seq<Incoming>, i: int, j: int)
    requires
        0 <= i <= j <= events.len(),
    ensures
        state_at(s, events, i).messages.subset_of(state_at(s, events, j).messages),
        no_less_known(state_at(s, events, i).known, state_at(s, events, j).known),
        state_at(s, events, i).next_id <= state_at(s, events, j).next_id,
    decreases j - i,
{
    if i < j {
        law_later_state_holds_no_less(s, events, i, j - 1);
        assert(events.take(j).drop_last() =~= events.take(j - 1));
        law_event_only_adds(state_at(s, events, j - 1), events[j - 1]);
    }
}

/// After a run, a node holds what it held before and what the run brought:
/// nothing is missing and nothing else is there.
pub proof fn law_run_collects(s: NodeState, events: Seq<Incoming>)
    ensures
        after_all(s, events).messages == s.messages.union(taken_in(s, events)),
    decreases events.len(),
{
    if events.len() > 0 {
        law_run_collects(s, events.drop_last());
    }
    assert(after_all(s, events).messages =~= s.messages.union(taken_in(s, events)));
}

/// A read after a run is answered with exactly the values held before the run
/// and those the run brought, whatever the order of broadcasts and gossip in
/// it.
pub proof fn law_read_returns_what_came(
    s: NodeState,
    events: Seq<Incoming>,
    read: Envelope<PayloadView>,
    out: Seq<Envelope<PayloadView>>,
)
    requires
        read.payload is Read,
        answers(after_all(s, events), Incoming::Message(read), out),
    ensures
        out.len() == 1,
        out[0].payload == (PayloadView::ReadOk { messages: s.messages.union(taken_in(s, events)) }),
{
    law_run_collects(s, events);
}

/// A fresh node that met only clients' broadcasts, none refused, answers a read
/// with exactly the values broadcast.
pub proof fn law_read_returns_the_broadcasts(
    node: Seq<char>,
    known: Map<Seq<char>, Set<usize>>,
    events: Seq<Incoming>,
    values: Seq<usize>,
    read: Envelope<PayloadView>,
    out: Seq<Envelope<PayloadView>>,
)
    requires
        values.len() == events.len(),
        forall|i: int|
            0 <= i < events.len() ==> is_broadcast_of(#[trigger] events[i], values[i]),
        forall|i: int|
            0 <= i < events.len() ==> refusal(
                state_at(fresh(node, known), events, i),
                #[trigger] events[i],
            ).is_none(),
        read.payload is Read,
        answers(after_all(fresh(node, known), events), Incoming::Message(read), out),
    ensures
        out.len() == 1,
        out[0].payload == (PayloadView::ReadOk { messages: values.to_set() }),
{
    let s = fresh(node, known);
    lemma_broadcasts_bring_their_values(s, events, values);
    law_read_returns_what_came(s, events, read, out);
    assert(s.messages.union(taken_in(s, events)) =~= values.to_set());
}

proof fn lemma_broadcasts_bring_their_values(s: NodeState, events: Seq<Incoming>, values: Seq<usize>)
    requires
        values.len() == events.len(),
        forall|i: int|
            0 <= i < events.len() ==> is_broadcast_of(#[trigger] events[i], values[i]),
        forall|i: int|
            0 <= i < events.len() ==> refusal(state_at(s, events, i), #[trigger] events[i]).is_none(),
    ensures
        taken_in(s, events) == values.to_set(),
    decreases events.len(),
{
    if events.len() == 0 {
        assert(taken_in(s, events) =~= values.to_set());
    } else {
        let shorter = events.drop_last();
        let fewer = values.drop_last();
        assert forall|i: int| 0 <= i < shorter.len() implies refusal(
            state_at(s, shorter, i),
            #[trigger] shorter[i],
        ).is_none() by {
            assert(shorter.take(i) =~= events.take(i));
            assert(shorter[i] == events[i]);
        }
        assert forall|i: int| 0 <= i < shorter.len() implies is_broadcast_of(
            #[trigger] shorter[i],
            fewer[i],
        ) by {
            assert(shorter[i] == events[i]);
        }
        lemma_broadcasts_bring_their_values(s, shorter, fewer);
        let last = events.len() - 1;
        assert(events.take(last) =~= shorter);
        assert(refusal(state_at(s, events, last), events[last]).is_none());
        assert(carried(events.last()) == set![values[last]]);
        assert forall|v: usize| values.to_set().contains(v) <==> (fewer.to_set().contains(v) || v
            == values[last]) by {
            if values.to_set().contains(v) {
                let at = choose|at: int| 0 <= at < values.len() && values[at] == v;
                if at < last {
                    assert(fewer[at] == v);
                }
            }
            if fewer.to_set().contains(v) {
                let at = choose|at: int| 0 <= at < fewer.len() && fewer[at] == v;
                assert(values[at] == v);
            }
        }
        assert(taken_in(s, events) =~= values.to_set());
    }
}

/// Every request that is answered gets one answer, which echoes the request's
/// id and carries the node's next id as its own.
pub proof fn law_reply_echoes_request(
    s: NodeState,
    request: Envelope<PayloadView>,
    out: Seq<Envelope<PayloadView>>,
)
    requires
        reply_payload(s, request.payload).is_some(),
        refusal(s, Incoming::Message(request)).is_none(),
        answers(s, Incoming::Message(request), out),
    ensures
        out.len() == 1,
        out[0].in_reply_to == request.id,
        out[0].id == Some(s.next_id as usize),
        out[0].src == request.dst,
        out[0].dst == request.src,
        next_state(s, Incoming::Message(request)).next_id == s.next_id + 1,
{
}

/// The messages sent for one event carry consecutive ids from the node's next
/// one, and the node's next id moves past them.
pub proof fn law_ids_are_drawn_in_order(
    s: NodeState,
    e: Incoming,
    out: Seq<Envelope<PayloadView>>,
    j: int,
)
    requires
        refusal(s, e).is_none(),
        answers(s, e, out),
        0 <= j < out.len(),
    ensures
        out.len() == originated(s, e),
        s.next_id + j < usize::MAX,
        out[j].id == Some((s.next_id + j) as usize),
        after(s, e).next_id == s.next_id + out.len(),
{
    match e {
        Incoming::Signal(_) => {
            assert(is_push(s, j, out[j]));
        },
        _ => {},
    }
}

/// The ids of a node's own messages rise strictly over a run: of two messages
/// sent, the one sent earlier has the smaller id.
pub proof fn law_ids_rise(
    s: NodeState,
    events: Seq<Incoming>,
    outs: Seq<Seq<Envelope<PayloadView>>>,
    i: int,
    j: int,
    i2: int,
    j2: int,
)
    requires
        is_trace(s, events, outs),
        0 <= i <= i2 < events.len(),
        0 <= j < outs[i].len(),
        0 <= j2 < outs[i2].len(),
        i < i2 || j < j2,
    ensures
        outs[i][j].id matches Some(earlier) && outs[i2][j2].id matches Some(later) && earlier
            < later,
        outs[i][j].id == Some((state_at(s, events, i).next_id + j) as usize),
{
    let here = state_at(s, events, i);
    let there = state_at(s, events, i2);
    assert(refusal(here, events[i]).is_none());
    assert(refusal(there, events[i2]).is_none());
    law_ids_are_drawn_in_order(here, events[i], outs[i], j);
    law_ids_are_drawn_in_order(there, events[i2], outs[i2], j2);
    if i < i2 {
        assert(events.take(i + 1).drop_last() =~= events.take(i));
        assert(state_at(s, events, i + 1) == after(here, events[i]));
        law_later_state_holds_no_less(s, events, i + 1, i2);
    }
}

/// The first message that a fresh node sends carries the id one.
pub proof fn law_first_id_is_one(
    node: Seq<char>,
    known: Map<Seq<char>, Set<usize>>,
    e: Incoming,
    out: Seq<Envelope<PayloadView>>,
)
    requires
        refusal(fresh(node, known), e).is_none(),
        answers(fresh(node, known), e, out),
        out.len() > 0,
    ensures
        out[0].id == Some(1usize),
{
    law_ids_are_drawn_in_order(fresh(node, known), e, out, 0);
}

/// A topology without an entry for the node is refused, and the node keeps the
/// neighbours it had.
pub proof fn law_topology_needs_own_entry(s: NodeState, request: Envelope<PayloadView>)
    requires
        request.payload matches PayloadView::Topology { topology } && !topology.contains_key(s.node),
    ensures
        refusal(s, Incoming::Message(request)).is_some(),
        after(s, Incoming::Message(request)) == s,
{
}

/// One delivered round closes the gap: where a node's belief about a neighbour
/// is no more than the neighbour holds, the neighbour holds after the node's
/// gossip message all that the node held when it sent it.
pub proof fn law_delivered_gossip_closes_the_gap(
    sender: NodeState,
    i: int,
    push: Envelope<PayloadView>,
    receiver: NodeState,
)
    requires
        0 <= i < sender.neighborhood.len(),
        is_push(sender, i, push),
        sender.known[sender.neighborhood[i]].subset_of(receiver.messages),
        refusal(receiver, Incoming::Message(push)).is_none(),
    ensures
        sender.messages.subset_of(after(receiver, Incoming::Message(push)).messages),
{
    let believed = sender.known[sender.neighborhood[i]];
    let seen = push.payload->seen;
    assert(may_notify(sender.messages, believed, seen));
    assert forall|v: usize| sender.messages.contains(v) implies after(
        receiver,
        Incoming::Message(push),
    ).messages.contains(v) by {
        if !believed.contains(v) {
            assert(unknown(sender.messages, believed).contains(v));
        }
    }
}

/// A belief stays a lower bound: where what a node believes of a member is no
/// more than the member holds, and the member's gossip message tells only
/// values it holds, the belief after that message is still no more than the
/// member holds.
pub proof fn law_belief_stays_a_lower_bound(
    s: NodeState,
    push: Envelope<PayloadView>,
    held: Set<usize>,
)
    requires
        push.payload matches PayloadView::Gossip { seen } && seen.subset_of(held),
        s.known.contains_key(push.src),
        s.known[push.src].subset_of(held),
    ensures
        after(s, Incoming::Message(push)).known[push.src].subset_of(held),
{
}

} // verus!
