//! What happens on a tick.

use std::time::Duration;

use peashape::ShapeConfig;

use peasub::addr::PeerAddr;
use peasub::cover::{after_wait, Action, CoverScheduler, Wakeup};
use peasub::lanes::Lanes;
use peasub::{CoverStrategy, Node, NodeConfig, ID_SIZE};

fn scheduler(fanout: usize) -> (CoverScheduler, Lanes) {
    let config = NodeConfig { fanout, message_size: 64, ..Default::default() };
    let (node, lanes) = Node::new(config, ShapeConfig::default());
    let cover = CoverStrategy::Constant { interval: Duration::from_millis(5) };
    (CoverScheduler::new(node, cover), lanes)
}

fn peer(port: u16) -> PeerAddr {
    PeerAddr::V4 { ipv4: 0x7f00_0001, port }
}

fn peers(n: u16) -> Vec<PeerAddr> {
    (0..n).map(peer).collect()
}

#[test]
fn draws_and_cursor_say_who_is_picked() {
    let (mut scheduler, _lanes) = scheduler(3);
    let all = peers(4);
    assert_eq!(scheduler.pick_targets_with(&all, &[2, 0]), vec![peer(2), peer(1)]);
    // Now 0 and 3 are fresh, and the cursor stands at two.
    assert_eq!(scheduler.pick_targets_with(&all, &[0, 0, 0]), vec![peer(0), peer(3), peer(1)]);
    // Only 2 is fresh, and the cursor stands at five.
    assert_eq!(scheduler.pick_targets_with(&all, &[0, 1]), vec![peer(2), peer(1)]);
}

#[test]
fn picking_stops_when_nobody_is_left() {
    let (mut scheduler, _lanes) = scheduler(3);
    assert_eq!(scheduler.pick_targets_with(&peers(2), &[0, 0, 0, 0]), vec![peer(0), peer(1)]);
    assert_eq!(scheduler.pick_targets_with(&[], &[0]), vec![]);
    assert_eq!(scheduler.pick_targets_with(&peers(2), &[]), vec![]);
}

#[test]
fn equal_ports_on_other_hosts_are_other_peers() {
    let (mut scheduler, _lanes) = scheduler(1);
    let v6 = PeerAddr::V6 { ipv6: 1, port: 0, flowinfo: 0, scope_id: 0 };
    let scoped = PeerAddr::V6 { ipv6: 1, port: 0, flowinfo: 0, scope_id: 2 };
    assert_eq!(scheduler.pick_targets_with(&[v6, peer(0)], &[0]), vec![v6]);
    assert_eq!(scheduler.pick_targets_with(&[v6, scoped], &[0]), vec![scoped]);
}

#[test]
fn targets_are_distinct_and_as_many_as_wanted() {
    let (mut scheduler, _lanes) = scheduler(3);
    let all = peers(7);
    for fanout in 0..9usize {
        let targets = scheduler.pick_targets(&all, fanout);
        assert_eq!(targets.len(), fanout.min(7));
        for (i, target) in targets.iter().enumerate() {
            assert!(all.contains(target));
            assert!(!targets[..i].contains(target));
        }
    }
}

#[test]
fn peers_of_the_previous_tick_are_avoided() {
    let (mut scheduler, _lanes) = scheduler(3);
    let all = peers(6);
    let mut last = scheduler.pick_targets(&all, 3);
    for _ in 0..50 {
        let next = scheduler.pick_targets(&all, 3);
        assert!(next.iter().all(|target| !last.contains(target)));
        last = next;
    }
}

#[test]
fn every_fresh_peer_comes_before_a_used_one() {
    let (mut scheduler, _lanes) = scheduler(3);
    let all = peers(5);
    let last = scheduler.pick_targets(&all, 3);
    let next = scheduler.pick_targets(&all, 4);
    assert!(next[..2].iter().all(|target| !last.contains(target)));
    assert!(next[2..].iter().all(|target| last.contains(target)));
}

#[test]
fn the_cursor_rotates() {
    let (mut scheduler, _lanes) = scheduler(1);
    // Every time the peers are new, so that all four are fresh.
    for round in 0..8u16 {
        let all: Vec<PeerAddr> = (0..4).map(|i| peer(10 * round + i)).collect();
        let target = scheduler.pick_targets_with(&all, &[2])[0];
        assert_eq!(target, peer(10 * round + (round + 2) % 4));
    }
}

#[test]
fn everyone_is_reached_over_time() {
    let (mut scheduler, _lanes) = scheduler(1);
    let all = peers(5);
    let mut reached = vec![false; 5];
    for _ in 0..500 {
        for target in scheduler.pick_targets(&all, 1) {
            reached[all.iter().position(|p| *p == target).unwrap()] = true;
        }
    }
    assert_eq!(reached, vec![true; 5]);
}

#[test]
fn a_tick_without_peers_does_nothing() {
    let (mut scheduler, mut lanes) = scheduler(3);
    let id = scheduler.state().publish(&mut lanes.desk, b"kept").unwrap();
    assert!(scheduler.send_one(&mut lanes.outbox, &[]).is_none());
    assert_eq!(scheduler.state().peashape().shaper().queued(), 1);
    let tick = scheduler.send_one(&mut lanes.outbox, &peers(1)).unwrap();
    assert_eq!(tick.payload[..ID_SIZE], id);
}

#[test]
fn a_tick_takes_one_frame_whatever_the_fanout() {
    let (mut scheduler, mut lanes) = scheduler(3);
    scheduler.state().publish(&mut lanes.desk, b"one").unwrap();
    scheduler.state().publish(&mut lanes.desk, b"two").unwrap();
    assert_eq!(scheduler.send_one(&mut lanes.outbox, &peers(5)).unwrap().targets.len(), 3);
    assert_eq!(scheduler.state().peashape().shaper().queued(), 1);
}

#[test]
fn ticks_look_the_same_with_and_without_a_message() {
    let (mut scheduler, mut lanes) = scheduler(3);
    let cover = scheduler.send_one(&mut lanes.outbox, &peers(5)).unwrap();
    let id = scheduler.state().publish(&mut lanes.desk, b"a message").unwrap();
    let real = scheduler.send_one(&mut lanes.outbox, &peers(5)).unwrap();
    assert_eq!(real.payload[..ID_SIZE], id);
    assert_ne!(cover.payload, real.payload);
    assert_eq!(cover.payload.len(), 64);
    assert_eq!(real.payload.len(), 64);
    assert_eq!(cover.targets.len(), 3);
    assert_eq!(real.targets.len(), 3);
}

#[test]
fn the_fanout_is_clamped_to_the_peers() {
    let (mut scheduler, mut lanes) = scheduler(3);
    let mut targets = scheduler.send_one(&mut lanes.outbox, &peers(2)).unwrap().targets;
    if targets[0] == peer(1) {
        targets.swap(0, 1);
    }
    assert_eq!(targets, peers(2));
}

#[test]
fn when_the_scheduler_stops() {
    assert_eq!(after_wait(Wakeup::Due, false), Action::Send);
    assert_eq!(after_wait(Wakeup::Due, true), Action::Stop);
    assert_eq!(after_wait(Wakeup::Woken, false), Action::Stop);
    assert_eq!(after_wait(Wakeup::Woken, true), Action::Stop);
}

#[test]
fn the_schedule_is_kept() {
    match scheduler(3).0.strategy() {
        CoverStrategy::Constant { interval } => assert_eq!(interval, Duration::from_millis(5)),
        other => panic!("{other:?}"),
    }
}
