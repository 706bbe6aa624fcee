use mjollnir::{Body, BroadcastNode, Event, Init, Message, Payload, SignalPayload, Topology};
use std::collections::HashSet;

fn name(text: &str) -> String {
    text.to_string()
}

/// A cluster whose nodes are joined as `links` says, each link in both
/// directions.
fn cluster(size: usize, links: &[(usize, usize)]) -> Vec<BroadcastNode> {
    let members: Vec<String> = (0..size).map(|i| format!("n{}", i)).collect();
    let mut nodes = Vec::new();
    for i in 0..size {
        let mut node =
            BroadcastNode::new(Init { node_id: members[i].clone(), node_ids: members.clone() });
        let mut topology = Topology::new();
        for j in 0..size {
            let neighbours: Vec<String> = links
                .iter()
                .filter_map(|&(a, b)| {
                    if a == j {
                        Some(members[b].clone())
                    } else if b == j {
                        Some(members[a].clone())
                    } else {
                        None
                    }
                })
                .collect();
            topology.insert(members[j].clone(), neighbours);
        }
        node.react(Event::Message(Message {
            src: name("c0"),
            dst: members[i].clone(),
            body: Body { id: Some(1), in_reply_to: None, payload: Payload::Topology { topology } },
        }))
        .unwrap();
        nodes.push(node);
    }
    nodes
}

fn broadcast(node: &mut BroadcastNode, value: usize) {
    let own = node.node_id().clone();
    node.react(Event::Message(Message {
        src: name("c0"),
        dst: own,
        body: Body { id: None, in_reply_to: None, payload: Payload::Broadcast { message: value } },
    }))
    .unwrap();
}

/// One timer round at every node; `delivers(round, nth)` says whether the
/// `nth` message of the round arrives.
fn round(nodes: &mut Vec<BroadcastNode>, delivers: &dyn Fn(usize) -> bool) {
    let mut in_flight = Vec::new();
    for node in nodes.iter_mut() {
        in_flight.extend(node.react(Event::Signal(SignalPayload::Gossip)).unwrap());
    }
    for (nth, push) in in_flight.into_iter().enumerate() {
        if delivers(nth) {
            let at: usize = push.dst[1..].parse().unwrap();
            assert!(nodes[at].react(Event::Message(push)).unwrap().is_empty());
        }
    }
}

fn converged(nodes: &[BroadcastNode], all: &HashSet<usize>) -> bool {
    nodes.iter().all(|node| node.messages() == all)
}

#[test]
fn line_converges_in_as_many_rounds_as_hops() {
    let mut nodes = cluster(5, &[(0, 1), (1, 2), (2, 3), (3, 4)]);
    broadcast(&mut nodes[0], 7);
    let all: HashSet<usize> = [7].into_iter().collect();
    for hop in 1..5 {
        round(&mut nodes, &|_| true);
        assert!(nodes[hop].messages().contains(&7));
        if hop < 4 {
            assert!(!nodes[hop + 1].messages().contains(&7));
        }
    }
    assert!(converged(&nodes, &all));
}

#[test]
fn ring_converges_with_values_from_everywhere() {
    let mut nodes = cluster(6, &[(0, 1), (1, 2), (2, 3), (3, 4), (4, 5), (5, 0)]);
    let mut all = HashSet::new();
    for at in 0..6 {
        for k in 0..20 {
            broadcast(&mut nodes[at], at * 100 + k);
            all.insert(at * 100 + k);
        }
    }
    for _ in 0..3 {
        round(&mut nodes, &|_| true);
    }
    assert!(converged(&nodes, &all));
    for _ in 0..5 {
        round(&mut nodes, &|_| true);
        assert!(converged(&nodes, &all));
    }
}

#[test]
fn lossy_links_converge_once_they_deliver() {
    let mut nodes = cluster(5, &[(0, 1), (1, 2), (1, 3), (3, 4)]);
    let mut all = HashSet::new();
    for at in 0..5 {
        broadcast(&mut nodes[at], at + 1);
        all.insert(at + 1);
    }
    for number in 0..6 {
        round(&mut nodes, &move |nth| (nth + number) % 3 == 0);
    }
    for number in 0..40 {
        round(&mut nodes, &move |nth| (nth + number) % 2 == 0);
    }
    assert!(converged(&nodes, &all));
}

#[test]
fn late_broadcast_still_spreads() {
    let mut nodes = cluster(4, &[(0, 1), (1, 2), (2, 3)]);
    broadcast(&mut nodes[3], 1);
    for _ in 0..3 {
        round(&mut nodes, &|_| true);
    }
    broadcast(&mut nodes[0], 2);
    for number in 0..30 {
        round(&mut nodes, &move |nth| (nth + number) % 2 == 1);
    }
    let all: HashSet<usize> = [1, 2].into_iter().collect();
    assert!(converged(&nodes, &all));
}

#[test]
fn parted_graph_does_not_converge() {
    let mut nodes = cluster(4, &[(0, 1), (2, 3)]);
    broadcast(&mut nodes[0], 5);
    for _ in 0..10 {
        round(&mut nodes, &|_| true);
    }
    assert!(nodes[1].messages().contains(&5));
    assert!(nodes[2].messages().is_empty());
    assert!(nodes[3].messages().is_empty());
}
