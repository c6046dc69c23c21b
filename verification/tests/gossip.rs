//! Nodes that hand frames to each other, one tick at a time.

use std::time::Duration;

use bytes::BytesMut;
use peashape::ShapeConfig;

use peasub::addr::PeerAddr;
use peasub::cover::CoverScheduler;
use peasub::gossip::GossipState;
use peasub::lanes::Lanes;
use peasub::node::Forwarding;
use peasub::{CoverStrategy, Node, NodeConfig};

fn every_50_ms() -> CoverStrategy {
    CoverStrategy::Constant { interval: Duration::from_millis(50) }
}

/// A configuration with small messages, a fast schedule and a tiny relay outbox.
fn test_config(name: &str, cover: CoverStrategy, fanout: usize) -> NodeConfig {
    NodeConfig {
        name: Some(name.into()),
        cover,
        fanout,
        message_size: 128,
        app_outbox_capacity: 16,
        relay_outbox_capacity: 4,
        dedup_capacity: 4096,
        max_connections: 32,
        max_connections_per_ip: 8,
        ..Default::default()
    }
}

/// A node with its scheduler, its memory and the frames it has delivered.
struct Peer {
    node: Node,
    scheduler: CoverScheduler,
    gossip: GossipState,
    lanes: Lanes,
    delivered: Vec<BytesMut>,
}

impl Peer {
    fn new(name: &str, fanout: usize) -> Peer {
        let (node, lanes) =
            Node::new(test_config(name, every_50_ms(), fanout), ShapeConfig::default());
        Peer {
            scheduler: CoverScheduler::new(node.clone(), every_50_ms()),
            gossip: node.fresh_memory(),
            lanes,
            node,
            delivered: Vec::new(),
        }
    }

    fn receive(&mut self, frame: &BytesMut) {
        if let Forwarding::Novel { relayed } = self.node.forward(&mut self.lanes.inbox, &mut self.gossip, frame) {
            assert!(relayed.is_ok());
            self.delivered.push(frame.clone());
        }
    }

    fn publish(&mut self, payload: &[u8]) -> Result<[u8; peasub::ID_SIZE], peasub::Error> {
        self.node.publish(&mut self.lanes.desk, payload)
    }

    fn sightings(&self, marker: &[u8]) -> usize {
        self.delivered.iter().filter(|frame| contains_payload(frame, marker)).count()
    }
}

/// Peers of which each is connected to every other one.
struct Mesh {
    peers: Vec<Peer>,
    draw: usize,
}

impl Mesh {
    fn new(n: usize, fanout: usize) -> Mesh {
        let peers = (0..n).map(|i| Peer::new(&format!("node-{i}"), fanout)).collect();
        Mesh { peers, draw: 1 }
    }

    fn addr(i: usize) -> PeerAddr {
        PeerAddr::V4 { ipv4: 0x7f00_0001, port: i as u16 }
    }

    /// Lets every peer tick once.
    fn round(&mut self) {
        for i in 0..self.peers.len() {
            let others: Vec<PeerAddr> =
                (0..self.peers.len()).filter(|j| *j != i).map(Mesh::addr).collect();
            let fanout = self.peers[i].node.config().fanout;
            let draws: Vec<usize> = (0..fanout)
                .map(|_| {
                    self.draw = (self.draw * 75 + 74) % 65537;
                    self.draw
                })
                .collect();
            let peer = &mut self.peers[i];
            let payload = peer.node.next_outbound(&mut peer.lanes.outbox);
            assert_eq!(payload.len(), 128);
            let targets = self.peers[i].scheduler.pick_targets_with(&others, &draws);
            assert_eq!(targets.len(), fanout.min(others.len()));
            for target in targets {
                let to = (0..self.peers.len()).find(|j| Mesh::addr(*j) == target).unwrap();
                self.peers[to].receive(&payload);
            }
        }
    }
}

fn contains_payload(haystack: &[u8], payload: &[u8]) -> bool {
    haystack.windows(payload.len()).any(|w| w == payload)
}

#[test]
fn real_message_directly_received_by_one_peer() {
    let mut alice = Peer::new("alice", 1);
    let mut bob = Peer::new("bob", 1);
    let marker = b"peasub-direct-marker".to_vec();
    let pub_id = alice.publish(&marker).expect("publish");

    let tick = alice.scheduler.send_one(&mut alice.lanes.outbox, &[Mesh::addr(1)]).unwrap();
    assert_eq!(tick.targets, vec![Mesh::addr(1)]);
    bob.receive(&tick.payload);
    assert_eq!(
        bob.sightings(&marker),
        1,
        "bob never saw the marker published by alice (id {:?})",
        pub_id
    );
    assert_eq!(bob.delivered[0][..peasub::ID_SIZE], pub_id);
}

#[test]
fn real_message_propagates_to_majority() {
    let mut mesh = Mesh::new(4, 1);
    let marker = b"peasub-marker-payload".to_vec();
    mesh.peers[0].publish(&marker).expect("publish");
    // Five seconds of ticks.
    for _ in 0..100 {
        mesh.round();
    }
    let reached: Vec<usize> = (0..4).filter(|i| mesh.peers[*i].sightings(&marker) > 0).collect();
    assert!(
        reached.len() >= 2,
        "marker only reached nodes {reached:?} (need at least 2, including the publisher)"
    );
}

#[test]
fn duplicate_messages_are_dropped() {
    let mut mesh = Mesh::new(3, 1);
    let marker = b"peasub-dedup-marker".to_vec();
    mesh.peers[0].publish(&marker).unwrap();
    // Three seconds of ticks.
    for _ in 0..60 {
        mesh.round();
    }
    let received: Vec<usize> = (0..3).filter(|i| mesh.peers[*i].sightings(&marker) > 0).collect();
    assert!(received.len() >= 2, "marker did not reach a majority of nodes: {received:?}");
    for i in received {
        let duplicates = mesh.peers[i].sightings(&marker) - 1;
        assert_eq!(
            duplicates, 0,
            "node {i} saw the marker {duplicates} times after the initial delivery",
        );
    }
}

#[test]
fn payload_too_large_is_rejected() {
    let mut node = Peer::new("node", 1);

    // 128-byte message size; 32-byte ID; so 96 bytes is the maximum user
    // payload.
    let too_big = vec![0u8; 97];
    let err = node.publish(&too_big).unwrap_err();
    let msg = err.to_string();
    assert!(msg.contains("payload too large"), "unexpected error: {msg}");
    assert_eq!(msg, "payload too large: 97 bytes, maximum is 96");
    assert!(node.publish(&too_big[..96]).is_ok());
}

#[test]
fn fanout_reaches_all_nodes() {
    let mut mesh = Mesh::new(5, 3);
    let marker = b"peasub-fanout-marker".to_vec();
    mesh.peers[0].publish(&marker).expect("publish");
    // Three seconds of ticks.
    for _ in 0..60 {
        mesh.round();
    }
    let missing: Vec<usize> = (1..5).filter(|i| mesh.peers[*i].sightings(&marker) == 0).collect();
    assert!(missing.is_empty(), "with fanout=3, marker did not reach nodes {missing:?}");
}
