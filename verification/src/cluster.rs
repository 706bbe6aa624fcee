//! Many broadcast nodes and the wire between them.
//!
//! The wire is the set of gossip messages that were ever sent: any of them may
//! arrive, once, many times or never, and in any order. Clients and timers act
//! on the nodes from outside. What is shown here is why gossip over such a wire
//! does its work: a node's belief about another never exceeds what the other
//! holds, so a gossip message that arrives, however late, brings its receiver
//! level with what the sender held; and a cluster in which no arrival could
//! bring anything more is one in which linked nodes agree.

use crate::gossip::{may_notify, unknown};
use crate::laws::is_broadcast_of;
use crate::message::Envelope;
use crate::protocol::{
    after, answers, is_push, next_state, refusal, Incoming, NodeState, PayloadView,
};
use vstd::prelude::*;

verus! {

/// The nodes of a cluster by name, and the gossip messages sent so far.
#[verifier::ext_equal]
pub struct Cluster {
    /// The state of each node.
    pub nodes: Map<Seq<char>, NodeState>,
    /// Every gossip message that a node has sent.
    pub wire: Set<Envelope<PayloadView>>,
}

/// One thing that happens in a cluster.
pub enum Move {
    /// The node `at` meets an event from outside the cluster, a client's
    /// request or a signal of its timer, and sends `out`.
    Local { at: Seq<char>, event: Incoming, out: Seq<Envelope<PayloadView>> },
    /// A gossip message from the wire arrives at the node it is addressed to.
    Arrival { push: Envelope<PayloadView> },
}

/// Whether the event is a gossip message.
pub open spec fn is_gossip(event: Incoming) -> bool {
    event matches Incoming::Message(m) && m.payload is Gossip
}

/// The gossip messages among `out`.
pub open spec fn gossip_among(out: Seq<Envelope<PayloadView>>) -> Set<Envelope<PayloadView>> {
    Set::new(|e: Envelope<PayloadView>| out.contains(e) && e.payload is Gossip)
}

/// Whether the move takes the cluster `c` to the cluster `d`.
///
/// Gossip reaches a node only from the wire. A node that refuses an event
/// stays as it is. What a node sends in gossip is added to the wire, where it
/// stays.
pub open spec fn moves(c: Cluster, m: Move, d: Cluster) -> bool {
    match m {
        Move::Local { at, event, out } => {
            &&& c.nodes.contains_key(at)
            &&& !is_gossip(event)
            &&& if refusal(c.nodes[at], event).is_some() {
                d == c
            } else {
                &&& answers(c.nodes[at], event, out)
                &&& d.nodes == c.nodes.insert(at, next_state(c.nodes[at], event))
                &&& d.wire == c.wire.union(gossip_among(out))
            }
        },
        Move::Arrival { push } => {
            &&& c.wire.contains(push)
            &&& c.nodes.contains_key(push.dst)
            &&& d.nodes == c.nodes.insert(
                push.dst,
                after(c.nodes[push.dst], Incoming::Message(push)),
            )
            &&& d.wire == c.wire
        },
    }
}

/// Whether `states` are the clusters that `steps` lead through, one after the
/// other.
pub open spec fn is_run(states: Seq<Cluster>, steps: Seq<Move>) -> bool {
    &&& states.len() == steps.len() + 1
    &&& forall|k: int| 0 <= k < steps.len() ==> moves(states[k], #[trigger] steps[k], states[k + 1])
}

/// Whether what `a` believes of `b` is no more than `b` holds.
pub open spec fn belief_is_sound(c: Cluster, a: Seq<char>, b: Seq<char>) -> bool {
    c.nodes.contains_key(a) && c.nodes.contains_key(b) && c.nodes[a].known.contains_key(b)
        ==> c.nodes[a].known[b].subset_of(c.nodes[b].messages)
}

/// Whether a message on the wire is gossip of a node of the cluster that tells
/// only values which that node holds.
pub open spec fn push_is_sound(c: Cluster, push: Envelope<PayloadView>) -> bool {
    c.wire.contains(push) ==> {
        &&& push.payload matches PayloadView::Gossip { seen }
        &&& c.nodes.contains_key(push.src)
        &&& seen.subset_of(c.nodes[push.src].messages)
    }
}

/// Whether the cluster is in order: each node is filed under its own name,
/// every belief is sound, and so is every message on the wire.
pub open spec fn sound(c: Cluster) -> bool {
    &&& forall|n: Seq<char>| #[trigger] c.nodes.contains_key(n) ==> c.nodes[n].node == n
    &&& forall|a: Seq<char>, b: Seq<char>| #[trigger] belief_is_sound(c, a, b)
    &&& forall|push: Envelope<PayloadView>| #[trigger] push_is_sound(c, push)
}

/// Whether `b` is a neighbour of `a`, both nodes of the cluster.
pub open spec fn is_link(c: Cluster, a: Seq<char>, b: Seq<char>) -> bool {
    &&& c.nodes.contains_key(a)
    &&& c.nodes.contains_key(b)
    &&& c.nodes[a].neighborhood.contains(b)
}

/// Whether the node at place `k + 1` of `path` is a neighbour of the one at
/// place `k`.
pub open spec fn is_link_at(c: Cluster, path: Seq<Seq<char>>, k: int) -> bool {
    is_link(c, path[k], path[k + 1])
}

/// Whether each node of `path` is a neighbour of the one before it.
pub open spec fn is_path(c: Cluster, path: Seq<Seq<char>>) -> bool {
    &&& path.len() > 0
    &&& c.nodes.contains_key(path[0])
    &&& forall|k: int| 0 <= k < path.len() - 1 ==> #[trigger] is_link_at(c, path, k)
}

/// Whether gossip has nothing left to bring: every node's neighbours hold all
/// that the node holds.
pub open spec fn settled(c: Cluster) -> bool {
    forall|a: Seq<char>, b: Seq<char>| #[trigger]
        is_link(c, a, b) ==> c.nodes[a].messages.subset_of(c.nodes[b].messages)
}

/// Whether every node can be reached from every other along links.
pub open spec fn connected(c: Cluster) -> bool {
    forall|a: Seq<char>, b: Seq<char>|
        c.nodes.contains_key(a) && c.nodes.contains_key(b) ==> exists|path: Seq<Seq<char>>|
            #[trigger] is_path(c, path) && path.first() == a && path.last() == b
}

/// Whether the cluster is new: each node is filed under its own name, holds
/// nothing and believes nothing of anyone, and nothing is on the wire.
pub open spec fn is_new(c: Cluster) -> bool {
    &&& forall|n: Seq<char>| #[trigger]
        c.nodes.contains_key(n) ==> c.nodes[n].node == n && c.nodes[n].messages == Set::<
            usize,
        >::empty()
    &&& forall|n: Seq<char>, b: Seq<char>|
        c.nodes.contains_key(n) && #[trigger] c.nodes[n].known.contains_key(b)
            ==> c.nodes[n].known[b] == Set::<usize>::empty()
    &&& c.wire == Set::<Envelope<PayloadView>>::empty()
}

/// A new cluster is in order.
pub proof fn law_new_cluster_is_sound(c: Cluster)
    requires
        is_new(c),
    ensures
        sound(c),
{
    assert forall|a: Seq<char>, b: Seq<char>| #[trigger] belief_is_sound(c, a, b) by {
        if c.nodes.contains_key(a) && c.nodes[a].known.contains_key(b) {
            assert(c.nodes[a].known[b] == Set::<usize>::empty());
        }
    }
}

/// No move takes a value from a node, a node from the cluster or a message
/// from the wire.
pub proof fn law_move_only_adds(c: Cluster, m: Move, d: Cluster, n: Seq<char>)
    requires
        moves(c, m, d),
    ensures
        d.nodes.dom() == c.nodes.dom(),
        c.wire.subset_of(d.wire),
        c.nodes.contains_key(n) ==> c.nodes[n].messages.subset_of(d.nodes[n].messages),
        c.nodes.contains_key(n) ==> d.nodes[n].node == c.nodes[n].node,
{
    match m {
        Move::Local { at, event, out } => {
            assert(d.nodes.dom() =~= c.nodes.dom());
        },
        Move::Arrival { push } => {
            assert(d.nodes.dom() =~= c.nodes.dom());
        },
    }
}

/// A move leaves a cluster that is in order in order.
pub proof fn law_move_keeps_sound(c: Cluster, m: Move, d: Cluster)
    requires
        sound(c),
        moves(c, m, d),
    ensures
        sound(d),
{
    assert forall|n: Seq<char>| #[trigger] d.nodes.contains_key(n) implies d.nodes[n].node == n by {
        law_move_only_adds(c, m, d, n);
    }
    match m {
        Move::Local { at, event, out } => {
            let s = c.nodes[at];
            if refusal(s, event).is_none() {
                assert(next_state(s, event).known == s.known);
                assert forall|a: Seq<char>, b: Seq<char>| #[trigger] belief_is_sound(d, a, b) by {
                    assert(belief_is_sound(c, a, b));
                    law_move_only_adds(c, m, d, b);
                }
                assert forall|push: Envelope<PayloadView>| #[trigger] push_is_sound(d, push) by {
                    assert(push_is_sound(c, push));
                    if d.wire.contains(push) {
                        if c.wire.contains(push) {
                            law_move_only_adds(c, m, d, push.src);
                        } else {
                            assert(gossip_among(out).contains(push));
                            let k = choose|k: int| 0 <= k < out.len() && out[k] == push;
                            match event {
                                Incoming::Signal(_) => {
                                    assert(is_push(s, k, out[k]));
                                    assert(push.src == at);
                                    law_move_only_adds(c, m, d, at);
                                },
                                _ => {},
                            }
                        }
                    }
                }
            }
        },
        Move::Arrival { push } => {
            let to = push.dst;
            let s = c.nodes[to];
            assert(push_is_sound(c, push));
            let seen = push.payload->seen;
            assert forall|a: Seq<char>, b: Seq<char>| #[trigger] belief_is_sound(d, a, b) by {
                assert(belief_is_sound(c, a, b));
                assert(belief_is_sound(c, to, push.src));
                law_move_only_adds(c, m, d, b);
                law_move_only_adds(c, m, d, push.src);
            }
            assert forall|other: Envelope<PayloadView>| #[trigger] push_is_sound(d, other) by {
                assert(push_is_sound(c, other));
                law_move_only_adds(c, m, d, other.src);
            }
        },
    }
}

/// Every cluster of a run that starts in order is in order.
pub proof fn law_run_keeps_sound(states: Seq<Cluster>, steps: Seq<Move>, k: int)
    requires
        is_run(states, steps),
        sound(states[0]),
        0 <= k < states.len(),
    ensures
        sound(states[k]),
    decreases k,
{
    if k > 0 {
        law_run_keeps_sound(states, steps, k - 1);
        assert(moves(states[k - 1], steps[k - 1], states[k]));
        law_move_keeps_sound(states[k - 1], steps[k - 1], states[k]);
    }
}

/// What a node holds at one point of a run it holds at every later point.
pub proof fn law_cluster_only_grows(
    states: Seq<Cluster>,
    steps: Seq<Move>,
    from: int,
    to: int,
    n: Seq<char>,
)
    requires
        is_run(states, steps),
        0 <= from <= to < states.len(),
        states[from].nodes.contains_key(n),
    ensures
        states[to].nodes.contains_key(n),
        states[from].nodes[n].messages.subset_of(states[to].nodes[n].messages),
        states[from].wire.subset_of(states[to].wire),
    decreases to - from,
{
    if from < to {
        law_cluster_only_grows(states, steps, from, to - 1, n);
        assert(moves(states[to - 1], steps[to - 1], states[to]));
        law_move_only_adds(states[to - 1], steps[to - 1], states[to], n);
    }
}

/// Gossip that arrives closes the gap, however late it arrives: in a run that
/// starts in order, once the message that a node sent to a neighbour in a
/// round has arrived and been taken, the neighbour holds all that the node held
/// at that round.
pub proof fn law_arrival_closes_the_gap(
    states: Seq<Cluster>,
    steps: Seq<Move>,
    sent: int,
    arrived: int,
    i: int,
)
    requires
        is_run(states, steps),
        sound(states[0]),
        0 <= sent < arrived < steps.len(),
        steps[sent] matches Move::Local { at, event, out } && event is Signal && refusal(
            states[sent].nodes[at],
            event,
        ).is_none() && 0 <= i < out.len() && steps[arrived] == (Move::Arrival { push: out[i] }),
        refusal(
            states[arrived].nodes[steps[arrived]->push.dst],
            Incoming::Message(steps[arrived]->push),
        ).is_none(),
    ensures
        states[sent].nodes[steps[sent]->at].messages.subset_of(
            states[arrived + 1].nodes[steps[arrived]->push.dst].messages,
        ),
{
    let a = steps[sent]->at;
    let out = steps[sent]->out;
    let push = out[i];
    let b = push.dst;
    let sender = states[sent].nodes[a];
    law_run_keeps_sound(states, steps, sent);
    assert(moves(states[sent], steps[sent], states[sent + 1]));
    assert(moves(states[arrived], steps[arrived], states[arrived + 1]));
    assert(is_push(sender, i, push));
    assert(b == sender.neighborhood[i]);
    law_cluster_only_grows(states, steps, sent, arrived, a);
    assert(states[arrived].nodes.contains_key(b));
    lemma_run_keeps_nodes(states, steps, sent, arrived, b);
    let believed = sender.known[b];
    let receiver = states[arrived].nodes[b];
    let seen = push.payload->seen;
    assert(may_notify(sender.messages, believed, seen));
    law_run_keeps_sound(states, steps, arrived);
    assert(states[arrived].nodes[b].node == b);
    if sender.known.contains_key(b) {
        assert(belief_is_sound(states[sent], a, b));
        law_cluster_only_grows(states, steps, sent, arrived, b);
    } else {
        // The round was not refused, so every neighbour is a member.
        assert(sender.known.contains_key(sender.neighborhood[i]));
    }
    assert forall|v: usize| sender.messages.contains(v) implies states[arrived + 1].nodes[b].messages.contains(
        v,
    ) by {
        if !believed.contains(v) {
            assert(unknown(sender.messages, believed).contains(v));
        }
    }
}

proof fn lemma_run_keeps_nodes(
    states: Seq<Cluster>,
    steps: Seq<Move>,
    from: int,
    to: int,
    n: Seq<char>,
)
    requires
        is_run(states, steps),
        0 <= from <= to < states.len(),
        states[to].nodes.contains_key(n),
    ensures
        states[from].nodes.contains_key(n),
    decreases to - from,
{
    if from < to {
        assert(moves(states[to - 1], steps[to - 1], states[to]));
        law_move_only_adds(states[to - 1], steps[to - 1], states[to], n);
        lemma_run_keeps_nodes(states, steps, from, to - 1, n);
    }
}

/// In a settled cluster, what the first node of a path holds the last holds
/// too.
pub proof fn law_settled_along_a_path(c: Cluster, path: Seq<Seq<char>>)
    requires
        settled(c),
        is_path(c, path),
    ensures
        c.nodes.contains_key(path.last()),
        c.nodes[path.first()].messages.subset_of(c.nodes[path.last()].messages),
    decreases path.len(),
{
    if path.len() > 1 {
        let shorter = path.drop_last();
        assert forall|k: int| 0 <= k < shorter.len() - 1 implies #[trigger] is_link_at(
            c,
            shorter,
            k,
        ) by {
            assert(is_link_at(c, path, k));
        }
        law_settled_along_a_path(c, shorter);
        let last = path.len() - 1;
        assert(is_link_at(c, path, last - 1));
        assert(shorter.last() == path[last - 1]);
    }
}

/// A settled cluster that is connected has converged: all its nodes hold the
/// same values, so each holds every value that any of them holds.
pub proof fn law_settled_cluster_agrees(c: Cluster, a: Seq<char>, b: Seq<char>)
    requires
        settled(c),
        connected(c),
        c.nodes.contains_key(a),
        c.nodes.contains_key(b),
    ensures
        c.nodes[a].messages == c.nodes[b].messages,
{
    let there = choose|path: Seq<Seq<char>>|
        #[trigger] is_path(c, path) && path.first() == a && path.last() == b;
    let back = choose|path: Seq<Seq<char>>|
        #[trigger] is_path(c, path) && path.first() == b && path.last() == a;
    law_settled_along_a_path(c, there);
    law_settled_along_a_path(c, back);
    assert(c.nodes[a].messages =~= c.nodes[b].messages);
}

/// Whether the move is a client's broadcast of `value` that its node took.
pub open spec fn takes_broadcast(c: Cluster, m: Move, value: usize) -> bool {
    &&& m matches Move::Local { at, event, .. }
    &&& is_broadcast_of(event, value)
    &&& refusal(c.nodes[at], event).is_none()
}

/// The values that clients' broadcasts brought into the cluster in the first
/// `upto` steps of a run.
pub open spec fn broadcast_before(states: Seq<Cluster>, steps: Seq<Move>, upto: int) -> Set<usize> {
    Set::new(
        |value: usize|
            exists|k: int|
                0 <= k < upto && k < steps.len() && #[trigger] takes_broadcast(
                    states[k],
                    steps[k],
                    value,
                ),
    )
}

/// A value that a node took from a client stays with that node.
pub proof fn law_broadcast_is_kept(
    states: Seq<Cluster>,
    steps: Seq<Move>,
    k: int,
    later: int,
    value: usize,
)
    requires
        is_run(states, steps),
        0 <= k < later < states.len(),
        takes_broadcast(states[k], steps[k], value),
    ensures
        states[later].nodes.contains_key(steps[k]->at),
        states[later].nodes[steps[k]->at].messages.contains(value),
{
    let at = steps[k]->at;
    assert(moves(states[k], steps[k], states[k + 1]));
    assert(states[k + 1].nodes[at].messages.contains(value));
    law_cluster_only_grows(states, steps, k + 1, later, at);
}

/// Nothing is invented: in a run from a new cluster, a node holds only values
/// that some client's broadcast brought into the cluster before.
pub proof fn law_nothing_is_invented(
    states: Seq<Cluster>,
    steps: Seq<Move>,
    j: int,
    n: Seq<char>,
)
    requires
        is_run(states, steps),
        is_new(states[0]),
        0 <= j < states.len(),
        states[j].nodes.contains_key(n),
    ensures
        states[j].nodes[n].messages.subset_of(broadcast_before(states, steps, j)),
    decreases j,
{
    if j > 0 {
        let c = states[j - 1];
        let m = steps[j - 1];
        let d = states[j];
        assert(moves(c, m, d));
        law_move_only_adds(c, m, d, n);
        law_nothing_is_invented(states, steps, j - 1, n);
        assert forall|v: usize| broadcast_before(states, steps, j - 1).contains(
            v,
        ) implies broadcast_before(states, steps, j).contains(v) by {
            let k = choose|k: int|
                0 <= k < j - 1 && k < steps.len() && #[trigger] takes_broadcast(
                    states[k],
                    steps[k],
                    v,
                );
            assert(takes_broadcast(states[k], steps[k], v));
        }
        assert forall|v: usize| d.nodes[n].messages.contains(v) implies broadcast_before(
            states,
            steps,
            j,
        ).contains(v) by {
            if !c.nodes[n].messages.contains(v) {
                match m {
                    Move::Local { at, event, out } => {
                        assert(takes_broadcast(states[j - 1], steps[j - 1], v));
                    },
                    Move::Arrival { push } => {
                        law_new_cluster_is_sound(states[0]);
                        law_run_keeps_sound(states, steps, j - 1);
                        assert(push_is_sound(c, push));
                        law_nothing_is_invented(states, steps, j - 1, push.src);
                    },
                }
            }
        }
    }
}

/// Where gossip has nothing left to bring, it has brought everything: when a
/// run from a new cluster ends in a settled and connected cluster, each node
/// holds exactly the values that clients broadcast anywhere in the cluster.
pub proof fn law_settled_run_has_converged(states: Seq<Cluster>, steps: Seq<Move>, n: Seq<char>)
    requires
        is_run(states, steps),
        is_new(states[0]),
        settled(states.last()),
        connected(states.last()),
        states.last().nodes.contains_key(n),
    ensures
        states.last().nodes[n].messages == broadcast_before(states, steps, steps.len() as int),
{
    let end = steps.len() as int;
    let all = broadcast_before(states, steps, end);
    law_nothing_is_invented(states, steps, end, n);
    assert forall|v: usize| all.contains(v) implies states[end].nodes[n].messages.contains(v) by {
        let k = choose|k: int|
            0 <= k < end && k < steps.len() && #[trigger] takes_broadcast(states[k], steps[k], v);
        law_broadcast_is_kept(states, steps, k, end, v);
        law_settled_cluster_agrees(states[end], steps[k]->at, n);
    }
    assert(states[end].nodes[n].messages =~= all);
}

/// Whether the run holds a relay from `a` to `b`: at step `sent` the node `a`
/// makes a round of gossip, and at the later step `arrived` a message of that
/// round arrives at `b` and is taken.
pub open spec fn relays(
    states: Seq<Cluster>,
    steps: Seq<Move>,
    a: Seq<char>,
    b: Seq<char>,
    sent: int,
    arrived: int,
) -> bool {
    &&& 0 <= sent < arrived < steps.len()
    &&& steps[sent] matches Move::Local { at, event, out }
    &&& at == a
    &&& event is Signal
    &&& refusal(states[sent].nodes[a], event).is_none()
    &&& steps[arrived] matches Move::Arrival { push }
    &&& out.contains(push)
    &&& push.dst == b
    &&& refusal(states[arrived].nodes[b], Incoming::Message(push)).is_none()
}

/// Whether the run holds the relay of the `k`-th hop of `path`.
pub open spec fn relays_at(
    states: Seq<Cluster>,
    steps: Seq<Move>,
    path: Seq<Seq<char>>,
    sent: Seq<int>,
    arrived: Seq<int>,
    k: int,
) -> bool {
    relays(states, steps, path[k], path[k + 1], sent[k], arrived[k])
}

/// Whether the run relays along `path`, hop after hop: the relay from the
/// `k`-th node to the next is sent at `sent[k]` and arrives at `arrived[k]`,
/// before the next hop's relay is sent.
pub open spec fn relays_along(
    states: Seq<Cluster>,
    steps: Seq<Move>,
    path: Seq<Seq<char>>,
    sent: Seq<int>,
    arrived: Seq<int>,
) -> bool {
    &&& sent.len() > 0
    &&& path.len() == sent.len() + 1
    &&& arrived.len() == sent.len()
    &&& forall|k: int|
        0 <= k < sent.len() ==> #[trigger] relays_at(states, steps, path, sent, arrived, k)
    &&& forall|k: int| 0 <= k < sent.len() - 1 ==> (#[trigger] arrived[k]) < sent[k + 1]
}

/// A relay brings the receiver level with the sender.
pub proof fn law_relay_closes_the_gap(
    states: Seq<Cluster>,
    steps: Seq<Move>,
    a: Seq<char>,
    b: Seq<char>,
    sent: int,
    arrived: int,
)
    requires
        is_run(states, steps),
        sound(states[0]),
        relays(states, steps, a, b, sent, arrived),
    ensures
        states[sent].nodes.contains_key(a),
        states[arrived + 1].nodes.contains_key(b),
        states[sent].nodes[a].messages.subset_of(states[arrived + 1].nodes[b].messages),
{
    let out = steps[sent]->out;
    let push = steps[arrived]->push;
    let i = choose|i: int| 0 <= i < out.len() && out[i] == push;
    assert(moves(states[sent], steps[sent], states[sent + 1]));
    assert(moves(states[arrived], steps[arrived], states[arrived + 1]));
    law_arrival_closes_the_gap(states, steps, sent, arrived, i);
    law_move_only_adds(states[arrived], steps[arrived], states[arrived + 1], b);
}

/// Values travel: when a run that starts in order relays along a path, the last
/// node of the path holds in the end all that the first held when it sent.
pub proof fn law_values_travel_a_path(
    states: Seq<Cluster>,
    steps: Seq<Move>,
    path: Seq<Seq<char>>,
    sent: Seq<int>,
    arrived: Seq<int>,
)
    requires
        is_run(states, steps),
        sound(states[0]),
        relays_along(states, steps, path, sent, arrived),
    ensures
        states[sent.first()].nodes.contains_key(path.first()),
        states[arrived.last() + 1].nodes.contains_key(path.last()),
        states[sent.first()].nodes[path.first()].messages.subset_of(
            states[arrived.last() + 1].nodes[path.last()].messages,
        ),
    decreases sent.len(),
{
    let hops = sent.len() as int;
    let from = sent[hops - 1];
    let to = arrived[hops - 1];
    assert(relays_at(states, steps, path, sent, arrived, hops - 1));
    law_relay_closes_the_gap(states, steps, path[hops - 1], path[hops], from, to);
    if hops > 1 {
        let shorter = path.drop_last();
        let earlier_sent = sent.drop_last();
        let earlier_arrived = arrived.drop_last();
        assert forall|k: int| 0 <= k < earlier_sent.len() implies #[trigger] relays_at(
            states,
            steps,
            shorter,
            earlier_sent,
            earlier_arrived,
            k,
        ) by {
            assert(relays_at(states, steps, path, sent, arrived, k));
        }
        assert forall|k: int| 0 <= k < earlier_sent.len() - 1 implies (#[trigger] earlier_arrived[k])
            < earlier_sent[k + 1] by {
            assert(arrived[k] < sent[k + 1]);
        }
        law_values_travel_a_path(states, steps, shorter, earlier_sent, earlier_arrived);
        assert(arrived[hops - 2] < sent[hops - 2 + 1]);
        assert(relays_at(states, steps, path, sent, arrived, hops - 2));
        law_cluster_only_grows(states, steps, arrived[hops - 2] + 1, from, path[hops - 1]);
    }
}

} // verus!
