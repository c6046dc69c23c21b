//! The lanes of waiting frames, which the shaping layer keeps.
//!
//! The lanes are shared with the task that drains them, so what they hold at a
//! given time is not for the caller to know. What is known is what was done to
//! them: each of the three ends of the lanes ([`Desk`], [`Inbox`] and [`Outbox`])
//! keeps, for proofs only, a log of the calls that were made through it. The ends
//! are made together with the node and in no other way, so each of them is the
//! only one of its kind, and its log is complete.

use bytes::BytesMut;
use peashape::{
    Node as ShapedNode, ShapeConfig as TransportConfig, ShapingScope as TransportScope,
};
use vstd::multiset::Multiset;
use vstd::prelude::*;

use crate::buffer::bytes_of;
use crate::config::{ShapeSettings, ShapingScope};
use crate::gossip::ID_SIZE;

verus! {

/// `peashape::Node`, which owns the two lanes of waiting frames and the
/// connections that they go out on.
#[verifier::external_type_specification]
#[verifier::external_body]
pub struct ExShapedNode(ShapedNode);

/// `peashape::ShapeConfig`, the configuration of a `peashape::Node`.
#[verifier::external_type_specification]
#[verifier::external_body]
pub struct ExTransportConfig(TransportConfig);

/// `peashape::Node::clone`: another handle to the same node, with the same lanes
/// and connections.
pub assume_specification[ <ShapedNode as Clone>::clone ](node: &ShapedNode) -> (handle: ShapedNode)
    ensures
        handle == *node,
;

/// The limits that a shaping layer was made with.
pub struct Shape {
    /// The name, if one was given.
    pub name: Option<String>,
    /// Whom a tick serves.
    pub scope: ShapingScope,
    /// How many peers a tick sends to.
    pub fanout: usize,
    /// The size in bytes of every frame.
    pub frame_size: usize,
    /// How many frames wait in the lane that is drained first.
    pub high_lane_capacity: usize,
    /// How many frames wait in the lane that is drained last.
    pub low_lane_capacity: usize,
    /// The largest frame that the decoder accepts.
    pub max_frame_size: usize,
    /// How many connections may be open at once.
    pub max_connections: u16,
    /// How many connections may be open to one IP address.
    pub max_connections_per_ip: u16,
    /// Whether other sockets may bind the listening address too.
    pub reuse_listener_port: bool,
    /// Whether cover frames are random bytes.
    pub random_cover: bool,
    /// Where the listening address and the schedule were taken from.
    pub transport: TransportConfig,
}

/// The limits that a `peashape::Node` was made with, which never change.
pub uninterp spec fn shape_of(node: ShapedNode) -> Shape;

/// Makes a `peashape::Node` that is not yet running, and the ends of its lanes.
///
/// Calls `peashape::Node::new`, once, with every field of `shape` but the listening
/// address and the strategy, which come from `transport`, and with the defaults
/// of `peashape` for the rest. Trusted: the node keeps that configuration, and its
/// lanes are empty: nothing has been handed over or drawn at their ends. The
/// constructor panics on an inconsistent configuration and on lanes that cannot
/// be allocated; the preconditions leave those out.
#[verifier::external_body]
pub(crate) fn new_shaped_node(shape: ShapeSettings, transport: TransportConfig) -> (made: (
    ShapedNode,
    Lanes,
))
    requires
        ID_SIZE <= shape.frame_size <= shape.max_frame_size,
        shape.fanout > 0,
        0 < shape.high_lane_capacity <= isize::MAX / 128,
        0 < shape.low_lane_capacity <= isize::MAX / 128,
        shape.max_connections > 0,
        shape.max_connections_per_ip > 0,
    ensures
        shape_of(made.0) == shape_from(shape, transport),
        made.1.untouched(made.0),
{
    let ShapeSettings { name, fanout, frame_size, high_lane_capacity, low_lane_capacity,
        max_frame_size, max_connections, max_connections_per_ip, reuse_listener_port, .. } = shape;
    let node = ShapedNode::new(TransportConfig {
        scope: match shape.scope {
            ShapingScope::Global => TransportScope::Global,
            ShapingScope::PerConnection { randomize } => TransportScope::PerConnection { randomize },
        },
        listener_addr: transport.listener_addr, strategy: transport.strategy, name, fanout, frame_size,
        high_lane_capacity, low_lane_capacity, max_frame_size, max_connections,
        max_connections_per_ip, reuse_listener_port, ..TransportConfig::default()
    });
    let desk = Desk { node: node.clone(), asked: Ghost(Seq::empty()), queued: Ghost(Seq::empty()) };
    let inbox = Inbox { node: node.clone(), handed: Ghost(Seq::empty()) };
    (node.clone(), Lanes { desk, inbox, outbox: Outbox { node, drawn: Ghost(Seq::empty()) } })
}

/// Why the shaping layer does not take a message of the application.
pub enum LaneError {
    /// The payload does not fit into a frame.
    PayloadTooLarge {
        /// The size of the payload, in bytes.
        size: usize,
        /// The largest size that fits, in bytes.
        max: usize,
    },
    /// The lane has no room left.
    Full,
    /// Anything else.
    Other(std::io::Error),
}

/// Why the shaping layer does not take a frame to be sent on.
#[derive(Debug)]
pub enum RelayError {
    /// The frame does not have the one size that all frames have.
    FrameSizeMismatch {
        /// The size of the frame, in bytes.
        size: usize,
        /// The size of all frames, in bytes.
        expected: usize,
    },
    /// Anything else.
    Other(std::io::Error),
}

/// The two lanes of the shaping layer.
#[derive(Clone, Copy, Debug, PartialEq, Eq, Structural)]
pub enum Lane {
    /// The lane that is drained first, in the order in which it was filled.
    High,
    /// The lane that is drained last, the latest frame first.
    Low,
}

/// The frames that a node takes into its lanes in the course of its life, each
/// with the lane that takes it, and as often as it is taken.
pub uninterp spec fn frames_taken(node: ShapedNode) -> Multiset<(Lane, Seq<u8>)>;

/// The frames that one lane of `node` takes in the course of the node's life.
pub open spec fn taken_by(node: ShapedNode, lane: Lane) -> Multiset<(Lane, Seq<u8>)> {
    frames_taken(node).filter(|taken: (Lane, Seq<u8>)| taken.0 == lane)
}

/// Whether one of the lanes of `node` takes `frame` in the course of the node's
/// life.
pub open spec fn taken(node: ShapedNode, frame: Seq<u8>) -> bool {
    ||| frames_taken(node).contains((Lane::High, frame))
    ||| frames_taken(node).contains((Lane::Low, frame))
}

/// Whether nobody fills the lanes of `node` but those who hand over at its desk,
/// where the frames `queued` come from, and at its inbox, which were `handed` over
/// as they were. Code that works with the `peashape::Node` itself can fill the lanes
/// too.
pub open spec fn filled_only_by(
    node: ShapedNode,
    queued: Seq<Seq<u8>>,
    handed: Seq<Broadcast>,
) -> bool {
    forall|lane: Lane, frame: Seq<u8>| #[trigger]
        frames_taken(node).contains((lane, frame)) ==> {
            ||| lane == Lane::High && queued.contains(frame)
            ||| handed.contains(Broadcast { lane, frame })
        }
}

/// The cover frames that a node makes in the course of its life.
pub uninterp spec fn covers_made(node: ShapedNode) -> Set<Seq<u8>>;

/// Whether `frame` carries `payload` under the identifier `id`.
pub open spec fn carries(frame: Seq<u8>, id: Seq<u8>, payload: Seq<u8>) -> bool {
    &&& frame.len() >= ID_SIZE + payload.len()
    &&& frame.take(ID_SIZE as int) == id
    &&& frame.subrange(ID_SIZE as int, ID_SIZE + payload.len()) == payload
}

/// The end of the lanes at which messages of the application are handed over,
/// with a log of them.
pub struct Desk {
    node: ShapedNode,
    asked: Ghost<Seq<(Seq<u8>, Result<[u8; 32], LaneError>)>>,
    queued: Ghost<Seq<Seq<u8>>>,
}

impl Desk {
    /// The node whose lanes are filled.
    pub closed spec fn node(&self) -> ShapedNode {
        self.node
    }

    /// The payloads that were handed over, in order, each with the answer.
    pub closed spec fn asked(&self) -> Seq<(Seq<u8>, Result<[u8; 32], LaneError>)> {
        self.asked@
    }

    /// The frames that were queued, in order.
    pub closed spec fn queued(&self) -> Seq<Seq<u8>> {
        self.queued@
    }
}

/// The end of the lanes at which frames of other peers are handed over, with a
/// log of them.
pub struct Inbox {
    node: ShapedNode,
    handed: Ghost<Seq<Broadcast>>,
}

/// A frame that was handed over to be sent to several peers.
pub struct Broadcast {
    /// The lane that it was meant for.
    pub lane: Lane,
    /// Its bytes.
    pub frame: Seq<u8>,
}

impl Inbox {
    /// The node whose lanes are filled.
    pub closed spec fn node(&self) -> ShapedNode {
        self.node
    }

    /// The frames that were handed over, in order.
    pub closed spec fn handed(&self) -> Seq<Broadcast> {
        self.handed@
    }
}

/// The three ends of the lanes of one node.
pub struct Lanes {
    /// Where messages of the application are handed over.
    pub desk: Desk,
    /// Where frames of other peers are handed over.
    pub inbox: Inbox,
    /// Where waiting frames are drawn.
    pub outbox: Outbox,
}

impl Lanes {
    /// Whether these are the ends of the lanes of `node`, and nothing has been
    /// done through them yet.
    pub open spec fn untouched(&self, node: ShapedNode) -> bool {
        &&& self.desk.node() == node
        &&& self.desk.asked() == Seq::<(Seq<u8>, Result<[u8; 32], LaneError>)>::empty()
        &&& self.desk.queued() == Seq::<Seq<u8>>::empty()
        &&& self.inbox.node() == node
        &&& self.inbox.handed() == Seq::<Broadcast>::empty()
        &&& self.outbox.node() == node
        &&& self.outbox.drawn() == Seq::<Option<Seq<u8>>>::empty()
    }
}

/// The shape of a node that is made from `settings` and `transport`.
pub open spec fn shape_from(settings: ShapeSettings, transport: TransportConfig) -> Shape {
    Shape {
        name: settings.name,
        scope: settings.scope,
        fanout: settings.fanout,
        frame_size: settings.frame_size,
        high_lane_capacity: settings.high_lane_capacity,
        low_lane_capacity: settings.low_lane_capacity,
        max_frame_size: settings.max_frame_size,
        max_connections: settings.max_connections,
        max_connections_per_ip: settings.max_connections_per_ip,
        reuse_listener_port: settings.reuse_listener_port,
        random_cover: true,
        transport,
    }
}

/// Every setting reaches the node as it is.
pub proof fn settings_are_kept(settings: ShapeSettings, transport: TransportConfig)
    ensures
        shape_from(settings, transport).name == settings.name,
        shape_from(settings, transport).scope == settings.scope,
        shape_from(settings, transport).fanout == settings.fanout,
        shape_from(settings, transport).frame_size == settings.frame_size,
        shape_from(settings, transport).high_lane_capacity == settings.high_lane_capacity,
        shape_from(settings, transport).low_lane_capacity == settings.low_lane_capacity,
        shape_from(settings, transport).max_frame_size == settings.max_frame_size,
        shape_from(settings, transport).max_connections == settings.max_connections,
        shape_from(settings, transport).max_connections_per_ip == settings.max_connections_per_ip,
        shape_from(settings, transport).reuse_listener_port == settings.reuse_listener_port,
        shape_from(settings, transport).random_cover,
        shape_from(settings, transport).transport == transport,
{
}

/// Puts a message of the application into the lane that is drained first.
///
/// Calls `peashape::Node::broadcast_shaped`, once. Trusted: a payload that does
/// not fit beside an identifier is refused with its size and the largest that
/// fits; any other is either refused because the lane is full or taken, in a frame
/// of the one size that starts with the returned identifier and goes on with the
/// payload. What is refused is not queued. The payload and the answer are added to
/// the log of the desk, and so is the frame. A lane is full only if it has taken as
/// many frames as it has places. Whether it is then is left open: it rests on what
/// other threads have put in and what the scheduler has taken out by then. The identifier and what fills up the frame are left to chance.
#[verifier::external_body]
pub(crate) fn broadcast_shaped(desk: &mut Desk, payload: &[u8]) -> (result: Result<
    [u8; 32],
    LaneError,
>)
    requires
        shape_of(old(desk).node()).scope == ShapingScope::Global,
        ID_SIZE <= shape_of(old(desk).node()).frame_size <= isize::MAX,
    ensures
        final(desk).node() == old(desk).node(),
        final(desk).asked() == old(desk).asked().push((payload@, result)),
        (match result {
            Ok(id) => {
                let frame = final(desk).queued().last();
                &&& payload@.len() <= shape_of(old(desk).node()).frame_size - ID_SIZE
                &&& final(desk).queued() == old(desk).queued().push(frame)
                &&& frame.len() == shape_of(old(desk).node()).frame_size
                &&& carries(frame, id@, payload@)
                &&& frames_taken(old(desk).node()).contains((Lane::High, frame))
            },
            Err(LaneError::PayloadTooLarge { size, max }) => {
                &&& payload@.len() > max
                &&& size == payload@.len()
                &&& max == shape_of(old(desk).node()).frame_size - ID_SIZE
                &&& final(desk).queued() == old(desk).queued()
            },
            Err(LaneError::Full) => {
                &&& payload@.len() <= shape_of(old(desk).node()).frame_size - ID_SIZE
                &&& final(desk).queued() == old(desk).queued()
                &&& taken_by(old(desk).node(), Lane::High).len() >= shape_of(
                    old(desk).node(),
                ).high_lane_capacity
            },
            Err(LaneError::Other(_)) => false,
        }),
{
    match desk.node.broadcast_shaped(payload) {
        Ok(id) => Ok(id),
        Err(peashape::Error::PayloadTooLarge { size, max }) => {
            Err(LaneError::PayloadTooLarge { size, max })
        },
        Err(peashape::Error::LaneFull) => Err(LaneError::Full),
        Err(other) => Err(LaneError::Other(std::io::Error::other(other))),
    }
}

/// Puts a frame, as it is, into a lane for sending to several peers.
///
/// Calls `peashape::Shaper::enqueue_raw` with `Target::Broadcast`, once. Trusted: a
/// frame of any but the one size is refused with its size and the expected one;
/// any other is taken, byte for byte, by the lane that is drained last, which
/// makes room by dropping its oldest frame; the other lane may refuse it. The frame
/// is added to the log of the inbox.
#[verifier::external_body]
pub(crate) fn enqueue_frame(inbox: &mut Inbox, lane: Lane, frame: &BytesMut) -> (result: Result<
    (),
    RelayError,
>)
    requires
        shape_of(old(inbox).node()).scope == ShapingScope::Global,
    ensures
        final(inbox).node() == old(inbox).node(),
        final(inbox).handed() == old(inbox).handed().push(
            Broadcast { lane, frame: bytes_of(*frame) },
        ),
        (match result {
            Ok(_) => {
                &&& bytes_of(*frame).len() == shape_of(old(inbox).node()).frame_size
                &&& frames_taken(old(inbox).node()).contains((lane, bytes_of(*frame)))
            },
            Err(RelayError::FrameSizeMismatch { size, expected }) => {
                &&& size != expected
                &&& size == bytes_of(*frame).len()
                &&& expected == shape_of(old(inbox).node()).frame_size
            },
            Err(RelayError::Other(_)) => {
                &&& lane == Lane::High
                &&& bytes_of(*frame).len() == shape_of(old(inbox).node()).frame_size
            },
        }),
{
    let into = match lane {
        Lane::High => peashape::Lane::High,
        Lane::Low => peashape::Lane::Low,
    };
    let shaper = inbox.node.shaper();
    match shaper.enqueue_raw(into, peashape::Target::Broadcast, frame.clone()) {
        Ok(()) => Ok(()),
        Err(peashape::Error::FrameSizeMismatch { size, expected }) => {
            Err(RelayError::FrameSizeMismatch { size, expected })
        },
        Err(other) => Err(RelayError::Other(std::io::Error::other(other))),
    }
}

/// The end of the lanes at which waiting frames are drawn, with a log of the
/// draws.
pub struct Outbox {
    node: ShapedNode,
    drawn: Ghost<Seq<Option<Seq<u8>>>>,
}

impl Outbox {
    /// The node whose lanes are drawn from.
    pub closed spec fn node(&self) -> ShapedNode {
        self.node
    }

    /// The outcomes of the draws so far, in order: the frame that came, or nothing.
    pub closed spec fn drawn(&self) -> Seq<Option<Seq<u8>>> {
        self.drawn@
    }
}

/// The bytes that a draw came to, if it came to a frame.
pub open spec fn outcome(frame: Option<BytesMut>) -> Option<Seq<u8>> {
    match frame {
        Some(frame) => Some(bytes_of(frame)),
        None => None,
    }
}

/// A draw that came to a frame is logged with all of its bytes, and one that came to
/// nothing as such.
pub proof fn draws_are_logged_as_they_are(frame: BytesMut)
    ensures
        outcome(Some(frame)) == Some(bytes_of(frame)),
        outcome(None) is None,
{
}

/// Draws the next waiting frame, if there is one.
///
/// Calls `peashape::Shaper::next_frame`, once. Trusted: what comes out of the
/// lanes is, byte for byte, a frame that one of them took, and has the one size of
/// all frames. The outcome is added to those of the outbox. Which frame comes, and
/// whether there is one, rests on what other threads have done. The target that is
/// stored with a frame is left behind: all frames of this library go to several
/// peers.
#[verifier::external_body]
pub(crate) fn next_waiting(outbox: &mut Outbox) -> (frame: Option<BytesMut>)
    ensures
        final(outbox).node() == old(outbox).node(),
        final(outbox).drawn() == old(outbox).drawn().push(outcome(frame)),
        (match frame {
            Some(frame) => {
                &&& bytes_of(frame).len() == shape_of(old(outbox).node()).frame_size
                &&& {
                    ||| frames_taken(old(outbox).node()).contains((Lane::High, bytes_of(frame)))
                    ||| frames_taken(old(outbox).node()).contains((Lane::Low, bytes_of(frame)))
                }
            },
            None => true,
        }),
{
    outbox.node.shaper().next_frame().map(|waiting| waiting.bytes)
}

/// Makes a cover frame.
///
/// Calls `peashape::Shaper::cover`. Trusted: the frame has the one size that
/// all frames have, where cover frames are random bytes, and is one of those that
/// the node makes. The bytes themselves are left to chance.
#[verifier::external_body]
pub(crate) fn cover_frame(node: &ShapedNode) -> (frame: BytesMut)
    requires
        shape_of(*node).random_cover,
        shape_of(*node).frame_size <= isize::MAX,
    ensures
        bytes_of(frame).len() == shape_of(*node).frame_size,
        covers_made(*node).contains(bytes_of(frame)),
{
    node.shaper().cover().bytes
}

} // verus!
