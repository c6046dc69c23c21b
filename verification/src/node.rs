//! A peer of the gossip network.

use bytes::BytesMut;
use peashape::{Node as ShapedNode, ShapeConfig as TransportConfig};
use vstd::prelude::*;

use crate::buffer::{as_bytes, bytes_of};
use crate::config::{NodeConfig, ShapeSettings, ShapingScope};
use crate::error::Error;
use crate::gossip::{
    more_sightings_more_identifiers, most_recent_first, nothing_is_forgotten_early,
    one_more_sighting, remembered, touched, GossipState, ID_SIZE,
};
use crate::lanes::{
    broadcast_shaped, carries, cover_frame, covers_made, enqueue_frame, filled_only_by,
    frames_taken, new_shaped_node, next_waiting, shape_from, shape_of, taken, taken_by, Broadcast,
    Desk, Inbox, Lane, LaneError, Lanes, Outbox, RelayError, Shape,
};

verus! {

/// The shape that `config` asks for, with the listening address and the
/// schedule of `transport`.
pub open spec fn shape_for(config: NodeConfig, transport: TransportConfig) -> Shape {
    Shape {
        name: config.name,
        scope: ShapingScope::Global,
        fanout: config.fanout,
        frame_size: config.message_size,
        high_lane_capacity: config.app_outbox_capacity,
        low_lane_capacity: config.relay_outbox_capacity,
        max_frame_size: config.max_frame_size,
        max_connections: config.max_connections,
        max_connections_per_ip: config.max_connections_per_ip,
        reuse_listener_port: config.reuse_listener_port,
        random_cover: true,
        transport,
    }
}

/// Makes a node that is not yet running, and the ends of its lanes.
pub(crate) fn new_node_with_lanes(settings: ShapeSettings, transport: TransportConfig) -> (made: (
    ShapedNode,
    Lanes,
))
    requires
        ID_SIZE <= settings.frame_size <= settings.max_frame_size,
        settings.fanout > 0,
        0 < settings.high_lane_capacity <= isize::MAX / 128,
        0 < settings.low_lane_capacity <= isize::MAX / 128,
        settings.max_connections > 0,
        settings.max_connections_per_ip > 0,
    ensures
        shape_of(made.0) == shape_from(settings, transport),
        made.1.untouched(made.0),
{
    new_shaped_node(settings, transport)
}

/// What a node remembers, and what it has handed on for sending to other peers.
pub struct Relay {
    /// The identifiers that are remembered, the most recently seen one first.
    pub seen: Seq<Seq<u8>>,
    /// The frames that were handed on, in order.
    pub handed: Seq<Broadcast>,
}

/// What a node that remembers up to `capacity` identifiers makes of one more
/// frame: one without an identifier changes nothing, any other is recorded, and
/// handed on if its identifier was not remembered.
pub open spec fn after_frame(relay: Relay, capacity: nat, frame: Seq<u8>) -> Relay {
    let id = frame.take(ID_SIZE as int);
    if frame.len() < ID_SIZE {
        relay
    } else {
        Relay {
            seen: touched(relay.seen, capacity, id),
            handed: if relay.seen.contains(id) {
                relay.handed
            } else {
                relay.handed.push(Broadcast { lane: Lane::Low, frame })
            },
        }
    }
}

/// What becomes of a frame that came in from a peer.
pub enum Forwarding {
    /// It is too short to hold an identifier and is dropped.
    TooShort,
    /// Its identifier has been seen lately, and it is dropped.
    Duplicate,
    /// It is new: it was handed on for sending to other peers, with this
    /// outcome, and is to be delivered to the application.
    Novel {
        /// Whether the frame was taken for sending on.
        relayed: Result<(), RelayError>,
    },
}

/// A single peer of the gossip network.
///
/// It pairs the configuration with the shaping layer, which sends one frame of
/// the one size on every tick: a message of the application if one waits, else a
/// frame to be sent on, else cover. What has been seen lately is kept in a
/// [`GossipState`] beside it.
pub struct Node {
    config: NodeConfig,
    peashape: ShapedNode,
}

impl Node {
    /// The configuration that the node was built from.
    pub closed spec fn spec_config(&self) -> NodeConfig {
        self.config
    }

    /// The shaping layer.
    pub closed spec fn spec_peashape(&self) -> ShapedNode {
        self.peashape
    }

    /// The configuration is consistent, and the shaping layer goes by it.
    pub open spec fn wf(&self) -> bool {
        &&& self.spec_config().consistent()
        &&& shape_of(self.spec_peashape()) == shape_for(
            self.spec_config(),
            shape_of(self.spec_peashape()).transport,
        )
    }

    /// The largest payload that fits into a frame.
    pub open spec fn max_payload(&self) -> int {
        self.spec_config().message_size - ID_SIZE
    }

    /// Constructs a node that is not yet running, and the ends of its lanes: the
    /// only ones there will be. The listening address and the schedule are taken
    /// from `transport`, everything else from `config`.
    pub fn new(config: NodeConfig, transport: TransportConfig) -> (made: (Self, Lanes))
        requires
            config.consistent(),
        ensures
            made.0.wf(),
            made.0.spec_config() == config,
            shape_of(made.0.spec_peashape()) == shape_for(config, transport),
            made.1.untouched(made.0.spec_peashape()),
            // Every limit of the shaping layer is the one that was configured.
            shape_of(made.0.spec_peashape()).name == config.name,
            shape_of(made.0.spec_peashape()).scope == ShapingScope::Global,
            shape_of(made.0.spec_peashape()).fanout == config.fanout,
            shape_of(made.0.spec_peashape()).frame_size == config.message_size,
            shape_of(made.0.spec_peashape()).high_lane_capacity == config.app_outbox_capacity,
            shape_of(made.0.spec_peashape()).low_lane_capacity == config.relay_outbox_capacity,
            shape_of(made.0.spec_peashape()).max_frame_size == config.max_frame_size,
            shape_of(made.0.spec_peashape()).max_connections == config.max_connections,
            shape_of(made.0.spec_peashape()).max_connections_per_ip
                == config.max_connections_per_ip,
            shape_of(made.0.spec_peashape()).reuse_listener_port == config.reuse_listener_port,
            shape_of(made.0.spec_peashape()).random_cover,
            shape_of(made.0.spec_peashape()).transport == transport,
            // Nothing has been handed over, and nothing drawn.
            made.1.desk.node() == made.0.spec_peashape(),
            made.1.desk.asked().len() == 0,
            made.1.desk.queued().len() == 0,
            made.1.inbox.node() == made.0.spec_peashape(),
            made.1.inbox.handed().len() == 0,
            made.1.outbox.node() == made.0.spec_peashape(),
            made.1.outbox.drawn().len() == 0,
    {
        let (peashape, lanes) = new_node_with_lanes(config.to_shape_config(), transport);
        (Node { config, peashape }, lanes)
    }

    /// Makes the empty memory of identifiers that the configuration asks for.
    pub fn fresh_memory(&self) -> (gossip: GossipState)
        requires
            self.wf(),
        ensures
            gossip.wf(),
            gossip.seen() == Seq::<Seq<u8>>::empty(),
            gossip.capacity() == self.spec_config().dedup_capacity,
    {
        GossipState::new(self.config.dedup_capacity)
    }

    /// Submits a message of the application to be gossiped through the network,
    /// and returns the random identifier under which it travels.
    ///
    /// The next tick sends the message, so the time at which it appears on the
    /// wire is the schedule's, not the caller's.
    pub fn publish(&self, desk: &mut Desk, payload: &[u8]) -> (result: Result<
        [u8; ID_SIZE],
        Error,
    >)
        requires
            self.wf(),
            old(desk).node() == self.spec_peashape(),
        ensures
            final(desk).node() == old(desk).node(),
            // The payload is handed over once, as it is, and the answer passed on.
            final(desk).asked().len() == old(desk).asked().len() + 1,
            final(desk).asked().drop_last() == old(desk).asked(),
            final(desk).asked().last().0 == payload@,
            result == told(final(desk).asked().last().1),
            // A payload that does not fit is refused, and only such a one.
            payload@.len() > self.max_payload() <==> result matches Err(
                Error::PayloadTooLarge { .. },
            ),
            payload@.len() + ID_SIZE > self.spec_config().message_size <==> result matches Err(
                Error::PayloadTooLarge { .. },
            ),
            result matches Err(Error::PayloadTooLarge { size, max }) ==> {
                &&& size == payload@.len()
                &&& max + ID_SIZE == self.spec_config().message_size
            },
            payload@.len() + ID_SIZE <= self.spec_config().message_size ==> {
                ||| result is Ok
                ||| result matches Err(Error::AppOutboxFull)
            },
            // The outbox is full only after it has taken as many messages as it has places.
            result matches Err(Error::AppOutboxFull) ==> taken_by(
                self.spec_peashape(),
                Lane::High,
            ).len() >= self.spec_config().app_outbox_capacity,
            // What is queued starts with the identifier and goes on with the payload.
            result matches Ok(id) ==> {
                let frame = final(desk).queued().last();
                &&& final(desk).queued().len() == old(desk).queued().len() + 1
                &&& forall|i: int| 0 <= i < ID_SIZE ==> #[trigger] frame[i] == id@[i]
                &&& forall|i: int|
                    0 <= i < payload@.len() ==> frame[ID_SIZE + i] == #[trigger] payload@[i]
            },
            match result {
                Ok(id) => {
                    let frame = final(desk).queued().last();
                    &&& final(desk).queued() == old(desk).queued().push(frame)
                    &&& frame.len() == self.spec_config().message_size
                    &&& carries(frame, id@, payload@)
                    &&& frames_taken(self.spec_peashape()).contains((Lane::High, frame))
                },
                Err(error) => {
                    &&& final(desk).queued() == old(desk).queued()
                    &&& error == if payload@.len() > self.max_payload() {
                        Error::PayloadTooLarge {
                            size: payload@.len() as usize,
                            max: self.max_payload() as usize,
                        }
                    } else {
                        Error::AppOutboxFull
                    }
                },
            },
    {
        let outcome = broadcast_shaped(desk, payload);
        proof {
            if let Ok(id) = outcome {
                payloads_are_read_back(desk.queued().last(), id@, payload@);
            }
        }
        published(outcome)
    }

    /// Decides what becomes of a frame that came in from a peer, and hands it on
    /// for sending to other peers if it is new, once; any other frame is not handed
    /// on.
    pub fn forward(&self, inbox: &mut Inbox, gossip: &mut GossipState, frame: &BytesMut) -> (outcome:
        Forwarding)
        requires
            self.wf(),
            old(inbox).node() == self.spec_peashape(),
            old(gossip).wf(),
        ensures
            final(gossip).wf(),
            final(inbox).node() == old(inbox).node(),
            (Relay { seen: final(gossip).seen(), handed: final(inbox).handed() }) == after_frame(
                Relay { seen: old(gossip).seen(), handed: old(inbox).handed() },
                old(gossip).capacity(),
                bytes_of(*frame),
            ),
            final(inbox).handed() == if outcome is Novel {
                old(inbox).handed().push(Broadcast { lane: Lane::Low, frame: bytes_of(*frame) })
            } else {
                old(inbox).handed()
            },
            final(gossip).capacity() == old(gossip).capacity(),
            ({
                let bytes = bytes_of(*frame);
                let id = bytes.take(ID_SIZE as int);
                if bytes.len() < ID_SIZE {
                    &&& outcome is TooShort
                    &&& final(gossip).seen() == old(gossip).seen()
                } else {
                    &&& final(gossip).seen() == touched(
                        old(gossip).seen(),
                        old(gossip).capacity(),
                        id,
                    )
                    &&& if old(gossip).seen().contains(id) {
                        outcome is Duplicate
                    } else if bytes.len() == self.spec_config().message_size {
                        &&& outcome matches Forwarding::Novel { relayed: Ok(_) }
                        &&& frames_taken(self.spec_peashape()).contains((Lane::Low, bytes))
                    } else {
                        &&& outcome matches Forwarding::Novel {
                            relayed: Err(RelayError::FrameSizeMismatch { size, expected }),
                        }
                        &&& size == bytes.len()
                        &&& expected == self.spec_config().message_size
                    }
                }
            }),
    {
        let bytes = as_bytes(frame);
        if bytes.len() < ID_SIZE {
            return Forwarding::TooShort;
        }
        let id = leading_id(bytes);
        if gossip.check_and_record(&id) {
            Forwarding::Novel { relayed: enqueue_frame(inbox, Lane::Low, frame) }
        } else {
            Forwarding::Duplicate
        }
    }

    /// Whether a node sends `frame`: it has the one size of all frames, and it is
    /// a message of the application, a frame of another peer, or cover.
    pub open spec fn sends(&self, frame: Seq<u8>) -> bool {
        &&& frame.len() == self.spec_config().message_size
        &&& {
            ||| frames_taken(self.spec_peashape()).contains((Lane::High, frame))
            ||| frames_taken(self.spec_peashape()).contains((Lane::Low, frame))
            ||| covers_made(self.spec_peashape()).contains(frame)
        }
    }

    /// Whether `frame` is what the node sends after a draw with the given outcome:
    /// the frame that was drawn, or cover if none was waiting.
    pub open spec fn follows(&self, drawn: Option<Seq<u8>>, frame: Seq<u8>) -> bool {
        match drawn {
            Some(waiting) => frame == waiting,
            None => covers_made(self.spec_peashape()).contains(frame),
        }
    }

    /// Returns the frame to send next: the next one that waits, or, if none does,
    /// a fresh cover frame. Either way it has the one size of all frames. Exactly
    /// one draw is made.
    pub fn next_outbound(&self, outbox: &mut Outbox) -> (frame: BytesMut)
        requires
            self.wf(),
            old(outbox).node() == self.spec_peashape(),
        ensures
            self.sends(bytes_of(frame)),
            final(outbox).node() == old(outbox).node(),
            final(outbox).drawn().len() == old(outbox).drawn().len() + 1,
            final(outbox).drawn().drop_last() == old(outbox).drawn(),
            self.follows(final(outbox).drawn().last(), bytes_of(frame)),
            bytes_of(frame).len() == self.spec_config().message_size,
            match final(outbox).drawn().last() {
                Some(waiting) => {
                    &&& bytes_of(frame) == waiting
                    &&& taken(self.spec_peashape(), waiting)
                },
                None => covers_made(self.spec_peashape()).contains(bytes_of(frame)),
            },
    {
        let waiting = next_waiting(outbox);
        self.waiting_or_cover(waiting)
    }

    /// Returns the waiting frame if there is one, and else a fresh cover frame.
    pub fn waiting_or_cover(&self, waiting: Option<BytesMut>) -> (frame: BytesMut)
        requires
            self.wf(),
        ensures
            waiting matches Some(bytes) ==> frame == bytes,
            waiting is None ==> {
                &&& bytes_of(frame).len() == self.spec_config().message_size
                &&& covers_made(self.spec_peashape()).contains(bytes_of(frame))
            },
    {
        match waiting {
            Some(frame) => frame,
            None => cover_frame(&self.peashape),
        }
    }

    /// Returns the shaping layer.
    pub fn peashape(&self) -> (peashape: &ShapedNode)
        ensures
            *peashape == self.spec_peashape(),
    {
        &self.peashape
    }

    /// Returns the configuration that the node was built from.
    pub fn config(&self) -> (config: &NodeConfig)
        ensures
            *config == self.spec_config(),
    {
        &self.config
    }
}

impl Clone for Node {
    fn clone(&self) -> (node: Self)
        ensures
            node == *self,
    {
        Node { config: self.config.clone(), peashape: self.peashape.clone() }
    }
}

/// What came of waiting for a frame from a peer.
#[derive(Clone, Copy, Debug, PartialEq, Eq, Structural)]
pub enum Received {
    /// A frame.
    Frame,
    /// Frames came in faster than they were handled, and some were lost.
    Lagged,
    /// No frame will ever come again.
    Closed,
}

/// What the task that handles incoming frames does next.
#[derive(Clone, Copy, Debug, PartialEq, Eq, Structural)]
pub enum RelayAction {
    /// Handle the frame and wait again.
    Handle,
    /// Wait again.
    GoOn,
    /// Return.
    Stop,
}

/// What the task that handles incoming frames does next: frames that were lost
/// to an overrun do not keep it from handling those that come after.
pub fn after_receive(event: Received) -> (action: RelayAction)
    ensures
        action == match event {
            Received::Frame => RelayAction::Handle,
            Received::Lagged => RelayAction::GoOn,
            Received::Closed => RelayAction::Stop,
        },
{
    match event {
        Received::Frame => RelayAction::Handle,
        Received::Lagged => RelayAction::GoOn,
        Received::Closed => RelayAction::Stop,
    }
}

/// What a publisher is told, given what the shaping layer says.
pub open spec fn told(outcome: Result<[u8; 32], LaneError>) -> Result<[u8; ID_SIZE], Error> {
    match outcome {
        Ok(id) => Ok(id),
        Err(LaneError::PayloadTooLarge { size, max }) => Err(Error::PayloadTooLarge { size, max }),
        Err(LaneError::Full) => Err(Error::AppOutboxFull),
        Err(LaneError::Other(error)) => Err(Error::Io(error)),
    }
}

/// What a publisher is told, given what the shaping layer says.
pub fn published(outcome: Result<[u8; 32], LaneError>) -> (result: Result<[u8; ID_SIZE], Error>)
    ensures
        result == told(outcome),
        match outcome {
            Ok(id) => result == Ok::<[u8; ID_SIZE], Error>(id),
            Err(LaneError::PayloadTooLarge { size, max }) => result == Err::<[u8; ID_SIZE], Error>(
                Error::PayloadTooLarge { size, max },
            ),
            Err(LaneError::Full) => result == Err::<[u8; ID_SIZE], Error>(Error::AppOutboxFull),
            Err(LaneError::Other(error)) => result == Err::<[u8; ID_SIZE], Error>(Error::Io(error)),
        },
{
    match outcome {
        Ok(id) => Ok(id),
        Err(LaneError::PayloadTooLarge { size, max }) => Err(Error::PayloadTooLarge { size, max }),
        Err(LaneError::Full) => Err(Error::AppOutboxFull),
        Err(LaneError::Other(error)) => Err(Error::Io(error)),
    }
}

/// An identifier, or an error, reaches the publisher as the shaping layer gave it;
/// that the lane is full, and only that, is told as a full outbox.
pub proof fn publishers_are_told_the_truth(outcome: Result<[u8; 32], LaneError>)
    ensures
        match told(outcome) {
            Ok(id) => outcome == Ok::<[u8; 32], LaneError>(id),
            Err(Error::PayloadTooLarge { size, max }) => outcome == Err::<[u8; 32], LaneError>(
                LaneError::PayloadTooLarge { size, max },
            ),
            Err(Error::AppOutboxFull) => outcome == Err::<[u8; 32], LaneError>(LaneError::Full),
            Err(Error::Io(error)) => outcome == Err::<[u8; 32], LaneError>(LaneError::Other(error)),
            Err(_) => false,
        },
{
}

/// Whatever the size of a node's lanes, its fanout, the size of its frames and its
/// limits on connections: they are those of its configuration.
pub proof fn limits_are_those_configured(node: Node)
    requires
        node.wf(),
    ensures
        shape_of(node.spec_peashape()).name == node.spec_config().name,
        shape_of(node.spec_peashape()).scope == ShapingScope::Global,
        shape_of(node.spec_peashape()).fanout == node.spec_config().fanout,
        shape_of(node.spec_peashape()).frame_size == node.spec_config().message_size,
        shape_of(node.spec_peashape()).high_lane_capacity == node.spec_config().app_outbox_capacity,
        shape_of(node.spec_peashape()).low_lane_capacity == node.spec_config().relay_outbox_capacity,
        shape_of(node.spec_peashape()).max_frame_size == node.spec_config().max_frame_size,
        shape_of(node.spec_peashape()).max_connections == node.spec_config().max_connections,
        shape_of(node.spec_peashape()).max_connections_per_ip
            == node.spec_config().max_connections_per_ip,
        shape_of(node.spec_peashape()).reuse_listener_port == node.spec_config().reuse_listener_port,
        shape_of(node.spec_peashape()).random_cover,
{
}

/// One more place in the configured outbox is one more place in the lane, and
/// nothing else about the shaping layer changes; likewise for the frames of other
/// peers.
pub proof fn each_place_counts(config: NodeConfig, transport: TransportConfig, app: usize, relay: usize)
    ensures
        shape_for(
            NodeConfig { app_outbox_capacity: app, relay_outbox_capacity: relay, ..config },
            transport,
        ) == (Shape {
            high_lane_capacity: app,
            low_lane_capacity: relay,
            ..shape_for(config, transport)
        }),
{
}

/// Where nobody fills the first lane of a node but those who publish at its desk, and
/// fewer messages are queued there than the outbox has places, the lane never holds
/// as many as would make [`Node::publish`] answer that it is full.
pub proof fn no_outbox_is_full_early(node: Node, queued: Seq<Seq<u8>>)
    requires
        node.wf(),
        taken_by(node.spec_peashape(), Lane::High) == queued.map_values(|frame: Seq<u8>| (Lane::High, frame)).to_multiset(),
    ensures
        taken_by(node.spec_peashape(), Lane::High).len() == queued.len(),
        queued.len() < node.spec_config().app_outbox_capacity ==> taken_by(
            node.spec_peashape(),
            Lane::High,
        ).len() < shape_of(node.spec_peashape()).high_lane_capacity,
{
    queued.map_values(|frame: Seq<u8>| (Lane::High, frame)).to_multiset_ensures();
}

/// What a frame carries can be read off it: the identifier first, then the payload,
/// byte for byte. So a frame carries one identifier, and one payload of each length.
pub proof fn payloads_are_read_back(frame: Seq<u8>, id: Seq<u8>, payload: Seq<u8>)
    requires
        carries(frame, id, payload),
    ensures
        id.len() == ID_SIZE,
        frame.len() >= ID_SIZE + payload.len(),
        forall|i: int| 0 <= i < ID_SIZE ==> #[trigger] frame[i] == id[i],
        forall|i: int| 0 <= i < payload.len() ==> frame[ID_SIZE + i] == #[trigger] payload[i],
{
    assert forall|i: int| 0 <= i < ID_SIZE implies #[trigger] frame[i] == id[i] by {
        assert(frame.take(ID_SIZE as int)[i] == frame[i]);
    }
    assert forall|i: int| 0 <= i < payload.len() implies frame[ID_SIZE + i]
        == #[trigger] payload[i] by {
        assert(frame.subrange(ID_SIZE as int, ID_SIZE + payload.len())[i] == frame[ID_SIZE + i]);
    }
}

/// Whatever fills up a frame, it carries the payload that follows its identifier.
pub proof fn padding_plays_no_part(id: Seq<u8>, payload: Seq<u8>, padding: Seq<u8>)
    requires
        id.len() == ID_SIZE,
    ensures
        carries(id + payload + padding, id, payload),
{
    let frame = id + payload + padding;
    assert(frame.take(ID_SIZE as int) =~= id);
    assert(frame.subrange(ID_SIZE as int, ID_SIZE + payload.len()) =~= payload);
}

/// A frame that was waiting is sent as it is, and never replaced by cover; cover is
/// sent only after a draw that came to nothing.
pub proof fn cover_never_replaces_a_frame(node: Node, drawn: Option<Seq<u8>>, frame: Seq<u8>)
    requires
        node.follows(drawn, frame),
    ensures
        drawn is Some ==> drawn == Some(frame),
        drawn is None ==> covers_made(node.spec_peashape()).contains(frame),
{
}

/// Whatever a node sends has the size that is configured, and was handed over to it
/// or made by it.
pub proof fn sent_frames_have_one_size(node: Node, frame: Seq<u8>)
    requires
        node.sends(frame),
    ensures
        frame.len() == node.spec_config().message_size,
        taken(node.spec_peashape(), frame) || covers_made(node.spec_peashape()).contains(frame),
{
}

/// Where the lanes of a node are filled at its own desk and inbox only, every frame
/// that a draw comes to was handed over there.
pub proof fn only_what_was_handed_over_comes_out(
    node: ShapedNode,
    queued: Seq<Seq<u8>>,
    handed: Seq<Broadcast>,
    drawn: Seq<u8>,
)
    requires
        filled_only_by(node, queued, handed),
        taken(node, drawn),
    ensures
        queued.contains(drawn) || exists|i: int|
            0 <= i < handed.len() && (#[trigger] handed[i]).frame == drawn,
{
    let lane = if frames_taken(node).contains((Lane::High, drawn)) { Lane::High } else { Lane::Low };
    assert(frames_taken(node).contains((lane, drawn)));
    if handed.contains(Broadcast { lane, frame: drawn }) {
        let i = handed.index_of(Broadcast { lane, frame: drawn });
        assert(handed[i].frame == drawn);
    }
}

/// Where the lanes of a node are filled at its own desk and inbox only, a draw comes
/// to nothing as long as nothing was handed over there.
pub proof fn nothing_comes_out_unasked(node: ShapedNode, drawn: Option<Seq<u8>>)
    requires
        filled_only_by(node, Seq::empty(), Seq::empty()),
        drawn matches Some(frame) ==> taken(node, frame),
    ensures
        drawn is None,
{
    if let Some(frame) = drawn {
        only_what_was_handed_over_comes_out(node, Seq::empty(), Seq::empty(), frame);
    }
}

/// Where the lanes of a node are filled at its own desk and inbox only, and the one
/// thing that was handed over is one message, every frame that a draw comes to is
/// the frame of that message.
pub proof fn only_the_one_message_comes_out(node: ShapedNode, queued: Seq<u8>, drawn: Option<Seq<u8>>)
    requires
        filled_only_by(node, seq![queued], Seq::empty()),
        drawn matches Some(frame) ==> taken(node, frame),
    ensures
        drawn matches Some(frame) ==> frame == queued,
{
    if let Some(frame) = drawn {
        only_what_was_handed_over_comes_out(node, seq![queued], Seq::empty(), frame);
    }
}

/// The identifier at the front of a frame.
pub fn leading_id(frame: &[u8]) -> (id: [u8; ID_SIZE])
    requires
        frame@.len() >= ID_SIZE,
    ensures
        id@ == frame@.take(ID_SIZE as int),
{
    let mut id: [u8; ID_SIZE] = [0u8; ID_SIZE];
    let mut i: usize = 0;
    while i < ID_SIZE
        invariant
            i <= ID_SIZE,
            frame@.len() >= ID_SIZE,
            forall|j: int| 0 <= j < i ==> id@[j] == frame@[j],
        decreases ID_SIZE - i,
    {
        id[i] = frame[i];
        i += 1;
    }
    assert(id@ =~= frame@.take(ID_SIZE as int));
    id
}

/// The identifiers of the frames that are long enough to hold one, in order.
pub open spec fn ids_of(frames: Seq<Seq<u8>>) -> Seq<Seq<u8>>
    decreases frames.len(),
{
    if frames.len() == 0 {
        Seq::empty()
    } else if frames.last().len() < ID_SIZE {
        ids_of(frames.drop_last())
    } else {
        ids_of(frames.drop_last()).push(frames.last().take(ID_SIZE as int))
    }
}

/// Whether two frames travel under the same identifier.
pub open spec fn same_id(a: Seq<u8>, b: Seq<u8>) -> bool {
    &&& a.len() >= ID_SIZE
    &&& b.len() >= ID_SIZE
    &&& a.take(ID_SIZE as int) == b.take(ID_SIZE as int)
}

/// Whether a node that remembers `capacity` identifiers, and has had `frames`
/// come in before, takes `frame` for new.
pub open spec fn passes_as_new(frames: Seq<Seq<u8>>, capacity: nat, frame: Seq<u8>) -> bool {
    &&& frame.len() >= ID_SIZE
    &&& !remembered(ids_of(frames), capacity).contains(frame.take(ID_SIZE as int))
}

proof fn lemma_ids_of(frames: Seq<Seq<u8>>, frame: Seq<u8>)
    requires
        frame.len() >= ID_SIZE,
    ensures
        ids_of(frames).contains(frame.take(ID_SIZE as int)) <==> exists|i: int|
            0 <= i < frames.len() && same_id(#[trigger] frames[i], frame),
    decreases frames.len(),
{
    let id = frame.take(ID_SIZE as int);
    if frames.len() > 0 {
        let before = frames.drop_last();
        lemma_ids_of(before, frame);
        let all = ids_of(frames);
        let earlier = ids_of(before);
        if all.contains(id) {
            let k = all.index_of(id);
            if k < earlier.len() {
                assert(earlier[k] == id);
                let i = choose|i: int| 0 <= i < before.len() && same_id(#[trigger] before[i], frame);
                assert(same_id(frames[i], frame));
            } else {
                assert(same_id(frames[frames.len() - 1], frame));
            }
        }
        if exists|i: int| 0 <= i < frames.len() && same_id(#[trigger] frames[i], frame) {
            let i = choose|i: int| 0 <= i < frames.len() && same_id(#[trigger] frames[i], frame);
            if i < before.len() {
                assert(same_id(before[i], frame));
                assert(all[earlier.index_of(id)] == id);
            } else {
                assert(all[all.len() - 1] == id);
            }
        }
    }
}

/// While no more distinct identifiers have come in than are remembered, a frame
/// is taken for new exactly if no frame with its identifier has come in before.
pub proof fn each_message_passes_once(frames: Seq<Seq<u8>>, capacity: nat, frame: Seq<u8>)
    requires
        capacity > 0,
        frame.len() >= ID_SIZE,
        most_recent_first(ids_of(frames)).len() <= capacity,
    ensures
        passes_as_new(frames, capacity, frame) <==> forall|i: int|
            0 <= i < frames.len() ==> !same_id(#[trigger] frames[i], frame),
{
    lemma_ids_of(frames, frame);
    nothing_is_forgotten_early(ids_of(frames), capacity, frame.take(ID_SIZE as int));
}

/// A memory that reflects the frames that came in before reflects one more frame
/// after [`Node::forward`] has handled it: a frame that is too short leaves the
/// memory alone, any other is recorded.
pub proof fn memory_follows_the_frames(frames: Seq<Seq<u8>>, capacity: nat, frame: Seq<u8>)
    ensures
        remembered(ids_of(frames.push(frame)), capacity) == if frame.len() < ID_SIZE {
            remembered(ids_of(frames), capacity)
        } else {
            touched(
                remembered(ids_of(frames), capacity),
                capacity,
                frame.take(ID_SIZE as int),
            )
        },
{
    assert(frames.push(frame).drop_last() =~= frames);
    if frame.len() >= ID_SIZE {
        one_more_sighting(ids_of(frames), capacity, frame.take(ID_SIZE as int));
    }
}

/// What a node that starts with an empty memory makes of `frames`, one after the
/// other.
pub open spec fn after_frames(frames: Seq<Seq<u8>>, capacity: nat) -> Relay
    decreases frames.len(),
{
    if frames.len() == 0 {
        Relay { seen: Seq::empty(), handed: Seq::empty() }
    } else {
        after_frame(after_frames(frames.drop_last(), capacity), capacity, frames.last())
    }
}

/// Of `frames`, those that pass as new, in order.
pub open spec fn new_frames(frames: Seq<Seq<u8>>, capacity: nat) -> Seq<Seq<u8>>
    decreases frames.len(),
{
    if frames.len() == 0 {
        Seq::empty()
    } else if passes_as_new(frames.drop_last(), capacity, frames.last()) {
        new_frames(frames.drop_last(), capacity).push(frames.last())
    } else {
        new_frames(frames.drop_last(), capacity)
    }
}

/// Of `frames`, the first one under each identifier, in order.
pub open spec fn first_of_each(frames: Seq<Seq<u8>>) -> Seq<Seq<u8>>
    decreases frames.len(),
{
    if frames.len() == 0 {
        Seq::empty()
    } else {
        let before = frames.drop_last();
        if frames.last().len() >= ID_SIZE && (forall|i: int|
            0 <= i < before.len() ==> !same_id(#[trigger] before[i], frames.last())) {
            first_of_each(before).push(frames.last())
        } else {
            first_of_each(before)
        }
    }
}

/// `frames`, each meant for the lane that is drained last.
pub open spec fn relays_of(frames: Seq<Seq<u8>>) -> Seq<Broadcast> {
    Seq::new(frames.len(), |i: int| Broadcast { lane: Lane::Low, frame: frames[i] })
}

/// What is handed on is exactly the frames that pass as new, in order, byte for
/// byte, once each; and what is remembered is what the identifiers of all frames
/// leave behind.
pub proof fn new_frames_are_handed_on(frames: Seq<Seq<u8>>, capacity: nat)
    ensures
        after_frames(frames, capacity).handed == relays_of(new_frames(frames, capacity)),
        after_frames(frames, capacity).seen == remembered(ids_of(frames), capacity),
    decreases frames.len(),
{
    if frames.len() > 0 {
        let before = frames.drop_last();
        new_frames_are_handed_on(before, capacity);
        memory_follows_the_frames(before, capacity, frames.last());
        assert(before.push(frames.last()) =~= frames);
        assert(relays_of(new_frames(before, capacity).push(frames.last())) =~= relays_of(
            new_frames(before, capacity),
        ).push(Broadcast { lane: Lane::Low, frame: frames.last() }));
    } else {
        assert(relays_of(new_frames(frames, capacity)) =~= Seq::empty());
    }
}

/// While no more distinct identifiers come in than are remembered, what is handed
/// on is exactly the first frame under each identifier, in order, once each. What
/// follows the identifier in a frame plays no part.
pub proof fn each_message_is_handed_on_once(frames: Seq<Seq<u8>>, capacity: nat)
    requires
        capacity > 0,
        most_recent_first(ids_of(frames)).len() <= capacity,
    ensures
        after_frames(frames, capacity).handed == relays_of(first_of_each(frames)),
{
    new_frames_are_handed_on(frames, capacity);
    lemma_new_frames_are_first(frames, capacity);
}

proof fn lemma_new_frames_are_first(frames: Seq<Seq<u8>>, capacity: nat)
    requires
        capacity > 0,
        most_recent_first(ids_of(frames)).len() <= capacity,
    ensures
        new_frames(frames, capacity) == first_of_each(frames),
    decreases frames.len(),
{
    if frames.len() > 0 {
        let before = frames.drop_last();
        let frame = frames.last();
        if frame.len() >= ID_SIZE {
            let id = frame.take(ID_SIZE as int);
            assert(ids_of(frames).drop_last() =~= ids_of(before));
            more_sightings_more_identifiers(ids_of(before), id);
            lemma_new_frames_are_first(before, capacity);
            each_message_passes_once(before, capacity, frame);
        } else {
            lemma_new_frames_are_first(before, capacity);
        }
    }
}

} // verus!
