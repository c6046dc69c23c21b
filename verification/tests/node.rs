//! A node on its own: what it takes, what it drops and what it sends next.

use std::time::Duration;

use bytes::BytesMut;
use peashape::ShapeConfig;

use peasub::addr::PeerAddr;
use peasub::config::{ShapingScope, ShapingStrategy};
use peasub::gossip::GossipState;
use peasub::lanes::{LaneError, Lanes, RelayError};
use peasub::node::{
    after_receive, leading_id, published, Forwarding, Received, RelayAction,
};
use peasub::{CoverStrategy, Error, Node, NodeConfig, ID_SIZE};

fn node(config: NodeConfig) -> (Node, Lanes) {
    assert!(config.is_consistent());
    Node::new(config, ShapeConfig::default())
}

fn small() -> NodeConfig {
    NodeConfig {
        message_size: 64,
        app_outbox_capacity: 2,
        relay_outbox_capacity: 2,
        dedup_capacity: 2,
        ..Default::default()
    }
}

/// A frame of 64 bytes under the identifier that consists of `id`.
fn frame(id: u8) -> BytesMut {
    let mut bytes = vec![id; ID_SIZE];
    bytes.extend_from_slice(&[id.wrapping_add(100); 32]);
    BytesMut::from(&bytes[..])
}

#[test]
fn identifiers_have_the_size_of_the_shaping_layer() {
    assert_eq!(ID_SIZE, peashape::ID_SIZE);
    assert_eq!(ID_SIZE, 32);
}

#[test]
fn defaults() {
    let config = NodeConfig::default();
    assert!(config.is_consistent());
    assert_eq!(config.name, None);
    assert_eq!(config.listener_addr, None);
    match config.cover {
        CoverStrategy::Constant { interval } => assert_eq!(interval, Duration::from_secs(1)),
        other => panic!("{other:?}"),
    }
    assert_eq!(config.fanout, 3);
    assert_eq!(config.message_size, 256);
    assert_eq!(config.app_outbox_capacity, 256);
    assert_eq!(config.relay_outbox_capacity, 1024);
    assert_eq!(config.dedup_capacity, 4096);
    assert_eq!(config.max_frame_size, 1024 * 1024);
    assert_eq!(config.max_connections, 64);
    assert_eq!(config.max_connections_per_ip, 8);
    assert!(!config.reuse_listener_port);
}

#[test]
fn inconsistent_configurations_are_told() {
    let inconsistent = vec![
        NodeConfig { dedup_capacity: 0, ..Default::default() },
        NodeConfig { dedup_capacity: usize::MAX, ..Default::default() },
        NodeConfig { message_size: 31, ..Default::default() },
        NodeConfig { message_size: 32, ..Default::default() },
        NodeConfig { message_size: 257, max_frame_size: 256, ..Default::default() },
        NodeConfig { fanout: 0, ..Default::default() },
        NodeConfig { app_outbox_capacity: 0, ..Default::default() },
        NodeConfig { relay_outbox_capacity: 0, ..Default::default() },
        NodeConfig { max_connections: 0, ..Default::default() },
        NodeConfig { max_connections_per_ip: 0, ..Default::default() },
    ];
    for config in inconsistent {
        assert!(!config.is_consistent(), "{config:?}");
    }
    assert!(NodeConfig { message_size: 33, max_frame_size: 33, ..Default::default() }.is_consistent());
}

#[test]
fn configuration_is_translated_field_by_field() {
    let config = NodeConfig {
        name: Some("alice".into()),
        listener_addr: Some(PeerAddr::V4 { ipv4: 0x7f00_0001, port: 4000 }),
        cover: CoverStrategy::Poisson { rate_bits: 25.0f64.to_bits() },
        fanout: 4,
        message_size: 128,
        app_outbox_capacity: 16,
        relay_outbox_capacity: 5,
        dedup_capacity: 7,
        max_frame_size: 512,
        max_connections: 32,
        max_connections_per_ip: 9,
        reuse_listener_port: true,
    };
    let shape = config.to_shape_config();
    assert_eq!(shape.name, Some("alice".to_string()));
    assert_eq!(shape.listener_addr, config.listener_addr);
    match shape.strategy {
        ShapingStrategy::Poisson { rate_bits } => assert_eq!(f64::from_bits(rate_bits), 25.0),
        other => panic!("{other:?}"),
    }
    assert_eq!(shape.scope, ShapingScope::Global);
    assert_eq!(shape.fanout, 4);
    assert_eq!(shape.frame_size, 128);
    assert_eq!(shape.high_lane_capacity, 16);
    assert_eq!(shape.low_lane_capacity, 5);
    assert_eq!(shape.max_frame_size, 512);
    assert_eq!(shape.max_connections, 32);
    assert_eq!(shape.max_connections_per_ip, 9);
    assert!(shape.reuse_listener_port);
}

#[test]
fn the_shaping_layer_goes_by_the_configuration() {
    let config = NodeConfig {
        name: Some("bob".into()),
        fanout: 2,
        message_size: 77,
        app_outbox_capacity: 3,
        relay_outbox_capacity: 4,
        max_frame_size: 99,
        max_connections: 11,
        max_connections_per_ip: 5,
        reuse_listener_port: true,
        ..Default::default()
    };
    let transport = ShapeConfig {
        name: Some("not bob".into()),
        listener_addr: Some("127.0.0.1:4001".parse().unwrap()),
        strategy: peashape::ShapingStrategy::Poisson { rate: 2.5 },
        fanout: 9,
        ..Default::default()
    };
    let (node, _lanes) = Node::new(config, transport);
    assert_eq!(node.config().message_size, 77);
    let shape = node.peashape().config();
    assert_eq!(shape.name, Some("bob".to_string()));
    assert_eq!(shape.listener_addr, Some("127.0.0.1:4001".parse().unwrap()));
    assert!(matches!(shape.strategy, peashape::ShapingStrategy::Poisson { rate } if rate == 2.5));
    assert_eq!(shape.scope, peashape::ShapingScope::Global);
    assert_eq!(shape.fanout, 2);
    assert_eq!(shape.frame_size, 77);
    assert_eq!(shape.high_lane_capacity, 3);
    assert_eq!(shape.low_lane_capacity, 4);
    assert_eq!(shape.max_frame_size, 99);
    assert_eq!(shape.max_connections, 11);
    assert_eq!(shape.max_connections_per_ip, 5);
    assert!(shape.reuse_listener_port);
    assert!(shape.cover_generator.is_none());
}

#[test]
fn a_published_message_travels_whole_under_its_identifier() {
    let (node, mut lanes) = node(small());
    let id = node.publish(&mut lanes.desk, b"hello").unwrap();
    let sent = node.next_outbound(&mut lanes.outbox);
    assert_eq!(sent.len(), 64);
    assert_eq!(sent[..ID_SIZE], id);
    assert_eq!(&sent[ID_SIZE..ID_SIZE + 5], b"hello");
}

#[test]
fn payloads_are_refused_exactly_when_they_do_not_fit() {
    let (node, mut lanes) = node(small());
    assert!(node.publish(&mut lanes.desk, &[1u8; 32]).is_ok());
    match node.publish(&mut lanes.desk, &[1u8; 33]) {
        Err(Error::PayloadTooLarge { size, max }) => assert_eq!((size, max), (33, 32)),
        other => panic!("{other:?}"),
    }
}

#[test]
fn messages_are_refused_when_the_outbox_is_full() {
    let (node, mut lanes) = node(small());
    assert!(node.publish(&mut lanes.desk, b"one").is_ok());
    assert!(node.publish(&mut lanes.desk, b"two").is_ok());
    assert!(matches!(node.publish(&mut lanes.desk, b"three"), Err(Error::AppOutboxFull)));
    node.next_outbound(&mut lanes.outbox);
    assert!(node.publish(&mut lanes.desk, b"three").is_ok());
}

#[test]
fn what_a_publisher_is_told() {
    assert_eq!(published(Ok([7; 32])).unwrap(), [7; 32]);
    assert!(matches!(
        published(Err(LaneError::PayloadTooLarge { size: 9, max: 8 })),
        Err(Error::PayloadTooLarge { size: 9, max: 8 })
    ));
    assert!(matches!(published(Err(LaneError::Full)), Err(Error::AppOutboxFull)));
    let error = published(Err(LaneError::Other(std::io::Error::other("lost")))).unwrap_err();
    assert_eq!(error.to_string(), "I/O error: lost");
}

#[test]
fn messages_go_before_relays_and_relays_before_cover() {
    let (node, mut lanes) = node(small());
    let mut gossip = GossipState::new(4);
    assert!(matches!(node.forward(&mut lanes.inbox, &mut gossip, &frame(1)), Forwarding::Novel { relayed: Ok(_) }));
    let id = node.publish(&mut lanes.desk, b"mine").unwrap();
    assert_eq!(node.next_outbound(&mut lanes.outbox)[..ID_SIZE], id);
    assert_eq!(node.next_outbound(&mut lanes.outbox), frame(1));
    let cover = node.next_outbound(&mut lanes.outbox);
    assert_eq!(cover.len(), 64);
    assert_ne!(cover, node.next_outbound(&mut lanes.outbox));
}

#[test]
fn the_latest_relay_goes_first_and_the_oldest_is_dropped() {
    let (node, mut lanes) = node(small());
    let mut gossip = GossipState::new(4);
    for id in 1..=3u8 {
        node.forward(&mut lanes.inbox, &mut gossip, &frame(id));
    }
    assert_eq!(node.next_outbound(&mut lanes.outbox), frame(3));
    assert_eq!(node.next_outbound(&mut lanes.outbox), frame(2));
    assert_ne!(node.next_outbound(&mut lanes.outbox), frame(1));
}

#[test]
fn a_waiting_frame_is_sent_as_it_is() {
    let (node, _lanes) = node(small());
    assert_eq!(node.waiting_or_cover(Some(frame(9))), frame(9));
    assert_eq!(node.waiting_or_cover(None).len(), 64);
}

#[test]
fn frames_come_through_once() {
    let (node, mut lanes) = node(small());
    let mut gossip = GossipState::new(4);
    assert!(matches!(node.forward(&mut lanes.inbox, &mut gossip, &frame(1)), Forwarding::Novel { relayed: Ok(_) }));
    assert!(matches!(node.forward(&mut lanes.inbox, &mut gossip, &frame(1)), Forwarding::Duplicate));
    assert!(matches!(node.forward(&mut lanes.inbox, &mut gossip, &frame(2)), Forwarding::Novel { .. }));
    assert!(matches!(node.forward(&mut lanes.inbox, &mut gossip, &frame(1)), Forwarding::Duplicate));
    // One relay per message.
    assert_eq!(node.peashape().shaper().queued(), 2);
}

#[test]
fn only_the_identifier_tells_duplicates() {
    let (node, mut lanes) = node(small());
    let mut gossip = GossipState::new(4);
    let mut other = frame(1);
    other[40] ^= 1;
    assert!(matches!(
        node.forward(&mut lanes.inbox, &mut gossip, &frame(1)),
        Forwarding::Novel { relayed: Ok(_) }
    ));
    assert!(matches!(node.forward(&mut lanes.inbox, &mut gossip, &other), Forwarding::Duplicate));
    assert_eq!(node.peashape().shaper().queued(), 1);
    assert_eq!(node.next_outbound(&mut lanes.outbox), frame(1));
}

#[test]
fn what_is_refused_is_not_queued() {
    let (node, mut lanes) = node(small());
    assert!(node.publish(&mut lanes.desk, &[1u8; 33]).is_err());
    assert_eq!(node.peashape().shaper().queued(), 0);
    for _ in 0..4 {
        let _ = node.publish(&mut lanes.desk, b"again");
    }
    assert_eq!(node.peashape().shaper().queued(), 2);
}

#[test]
fn frames_without_an_identifier_are_dropped() {
    let (node, mut lanes) = node(small());
    let mut gossip = GossipState::new(1);
    node.forward(&mut lanes.inbox, &mut gossip, &frame(1));
    let short = BytesMut::from(&[5u8; 31][..]);
    assert!(matches!(node.forward(&mut lanes.inbox, &mut gossip, &short), Forwarding::TooShort));
    // Nothing was recorded in its place.
    assert!(matches!(node.forward(&mut lanes.inbox, &mut gossip, &frame(1)), Forwarding::Duplicate));
}

#[test]
fn frames_of_another_size_are_new_but_not_sent_on() {
    let (node, mut lanes) = node(small());
    let mut gossip = GossipState::new(4);
    let odd = BytesMut::from(&[5u8; 32][..]);
    match node.forward(&mut lanes.inbox, &mut gossip, &odd) {
        Forwarding::Novel {
            relayed: Err(RelayError::FrameSizeMismatch { size, expected }),
        } => assert_eq!((size, expected), (32, 64)),
        _ => panic!("not new"),
    }
    assert!(matches!(node.forward(&mut lanes.inbox, &mut gossip, &odd), Forwarding::Duplicate));
    assert_eq!(node.peashape().shaper().queued(), 0);
}

#[test]
fn an_overrun_does_not_stop_the_handling_of_frames() {
    assert_eq!(after_receive(Received::Frame), RelayAction::Handle);
    assert_eq!(after_receive(Received::Lagged), RelayAction::GoOn);
    assert_eq!(after_receive(Received::Closed), RelayAction::Stop);
}

#[test]
fn a_draw_takes_one_frame() {
    let (node, mut lanes) = node(small());
    node.publish(&mut lanes.desk, b"one").unwrap();
    node.publish(&mut lanes.desk, b"two").unwrap();
    assert_eq!(node.peashape().shaper().queued(), 2);
    node.next_outbound(&mut lanes.outbox);
    assert_eq!(node.peashape().shaper().queued(), 1);
}

#[test]
fn identifiers_are_the_first_bytes() {
    let bytes: Vec<u8> = (0..40).collect();
    let id = leading_id(&bytes);
    assert_eq!(id[..], bytes[..32]);
}

#[test]
fn clones_share_their_lanes() {
    let (node, mut lanes) = node(small());
    let other = node.clone();
    let id = other.publish(&mut lanes.desk, b"shared").unwrap();
    assert_eq!(node.next_outbound(&mut lanes.outbox)[..ID_SIZE], id);
    assert_eq!(other.config().message_size, 64);
}

#[test]
fn memory_tells_what_it_has_seen() {
    let mut gossip = GossipState::new(2);
    assert!(gossip.check_and_record(&[1; 32]));
    assert!(!gossip.check_and_record(&[1; 32]));
    assert!(gossip.check_and_record(&[2; 32]));
    assert!(!gossip.check_and_record(&[2; 32]));
    assert!(!gossip.check_and_record(&[1; 32]));
}

#[test]
fn memory_forgets_the_least_recently_seen() {
    let mut gossip = GossipState::new(2);
    assert!(gossip.check_and_record(&[1; 32]));
    assert!(gossip.check_and_record(&[2; 32]));
    // Seen again, so 2 is now the one seen longest ago.
    assert!(!gossip.check_and_record(&[1; 32]));
    assert!(gossip.check_and_record(&[3; 32]));
    assert!(!gossip.check_and_record(&[1; 32]));
    assert!(gossip.check_and_record(&[2; 32]));
}

#[test]
fn memory_keeps_an_identifier_until_it_is_crowded_out() {
    let mut gossip = GossipState::new(3);
    assert!(gossip.check_and_record(&[1; 32]));
    for id in [2u8, 3, 2, 3, 3, 2] {
        gossip.check_and_record(&[id; 32]);
    }
    // Only two others came after it.
    assert!(!gossip.check_and_record(&[1; 32]));
    for id in [4u8, 5, 6] {
        gossip.check_and_record(&[id; 32]);
    }
    assert!(gossip.check_and_record(&[1; 32]));
}

#[test]
fn memory_of_one() {
    let mut gossip = GossipState::new(1);
    assert!(gossip.check_and_record(&[1; 32]));
    assert!(gossip.check_and_record(&[2; 32]));
    assert!(gossip.check_and_record(&[1; 32]));
    assert!(!gossip.check_and_record(&[1; 32]));
}

#[test]
fn errors_read_well() {
    assert_eq!(
        Error::PayloadTooLarge { size: 97, max: 96 }.to_string(),
        "payload too large: 97 bytes, maximum is 96"
    );
    assert_eq!(
        Error::AppOutboxFull.to_string(),
        "application outbox is full; the cover rate is too low for the current publish rate"
    );
    assert_eq!(Error::ShuttingDown.to_string(), "node is shutting down");
    assert_eq!(
        Error::NoListener.to_string(),
        "expected listener, but the node is not configured to listen"
    );
    let io = Error::from(std::io::Error::other("no route"));
    assert_eq!(io.to_string(), "I/O error: no route");
    assert_eq!(io.text_with_cause("a cause"), "I/O error: a cause");
}
