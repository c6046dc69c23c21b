//! Configuration of a node.

use std::time::Duration;
use vstd::prelude::*;

use crate::addr::PeerAddr;
use crate::gossip::ID_SIZE;

verus! {

/// How long a span of time is, in nanoseconds.
pub uninterp spec fn nanos(span: Duration) -> nat;

/// `Duration::from_secs`: a span of the given number of whole seconds.
pub assume_specification[ Duration::from_secs ](secs: u64) -> (span: Duration)
    ensures
        nanos(span) == secs * 1_000_000_000,
;

/// How a node schedules its outbound traffic.
///
/// The two strategies differ only in the time between two ticks.
#[derive(Clone, Copy, Debug)]
#[non_exhaustive]
pub enum CoverStrategy {
    /// One tick exactly every `interval`.
    Constant {
        /// The fixed delay between two ticks.
        interval: Duration,
    },
    /// Ticks whose distances in time are drawn from an exponential
    /// distribution, so that they form a Poisson process.
    Poisson {
        /// The rate of the process in ticks per second, as the bits of an IEEE
        /// 754 double.
        rate_bits: u64,
    },
}

/// The parameters that govern a node.
#[derive(Debug)]
pub struct NodeConfig {
    /// A friendly name for the node; without one it gets a number.
    pub name: Option<String>,
    /// The address to listen on; without one the node accepts no inbound
    /// connections.
    pub listener_addr: Option<PeerAddr>,
    /// The schedule of outbound traffic.
    pub cover: CoverStrategy,
    /// How many distinct peers a frame is sent to on every tick. On a tick with
    /// fewer connected peers the frame goes to all of them.
    pub fanout: usize,
    /// The size in bytes of every frame. The first [`ID_SIZE`] bytes of a frame
    /// are its identifier, the rest is payload and padding.
    pub message_size: usize,
    /// How many messages of the application may wait to be sent.
    pub app_outbox_capacity: usize,
    /// How many frames of other peers may wait to be sent on.
    pub relay_outbox_capacity: usize,
    /// How many identifiers are remembered in order to tell duplicates.
    pub dedup_capacity: usize,
    /// The largest frame that the decoder accepts.
    pub max_frame_size: usize,
    /// How many connections may be open at once.
    pub max_connections: u16,
    /// How many connections may be open to one IP address.
    pub max_connections_per_ip: u16,
    /// Whether other sockets may bind the listening address too.
    pub reuse_listener_port: bool,
}

impl NodeConfig {
    /// Whether a node can be built from this configuration.
    ///
    /// A frame has room for more than its identifier and passes the decoder, something
    /// can be sent, queued, remembered and connected, and no size exceeds what
    /// memory can address.
    pub open spec fn consistent(&self) -> bool {
        &&& 0 < self.dedup_capacity <= isize::MAX / 64
        &&& ID_SIZE < self.message_size <= self.max_frame_size
        &&& self.message_size <= isize::MAX
        &&& self.fanout > 0
        &&& 0 < self.app_outbox_capacity <= isize::MAX / 128
        &&& 0 < self.relay_outbox_capacity <= isize::MAX / 128
        &&& self.max_connections > 0
        &&& self.max_connections_per_ip > 0
    }

    /// Whether a node can be built from this configuration.
    pub fn is_consistent(&self) -> (yes: bool)
        ensures
            yes == self.consistent(),
            yes <==> {
                &&& ID_SIZE < self.message_size <= self.max_frame_size
                &&& self.message_size <= isize::MAX
                &&& self.fanout != 0
                &&& self.app_outbox_capacity != 0
                &&& self.app_outbox_capacity <= isize::MAX / 128
                &&& self.relay_outbox_capacity != 0
                &&& self.relay_outbox_capacity <= isize::MAX / 128
                &&& self.dedup_capacity != 0
                &&& self.dedup_capacity <= isize::MAX / 64
                &&& self.max_connections != 0
                &&& self.max_connections_per_ip != 0
            },
    {
        let most: usize = isize::MAX as usize;
        self.dedup_capacity > 0 && self.dedup_capacity <= most / 64 && self.message_size > ID_SIZE
            && self.message_size <= self.max_frame_size && self.message_size <= most && self.fanout
            > 0 && self.app_outbox_capacity > 0 && self.app_outbox_capacity <= most / 128
            && self.relay_outbox_capacity > 0 && self.relay_outbox_capacity <= most / 128
            && self.max_connections > 0 && self.max_connections_per_ip > 0
    }

    /// Translates this configuration into that of the shaping layer.
    pub fn to_shape_config(&self) -> (shape: ShapeSettings)
        ensures
            shape == (ShapeSettings {
                name: self.name,
                listener_addr: self.listener_addr,
                strategy: match self.cover {
                    CoverStrategy::Constant { interval } => ShapingStrategy::Constant { interval },
                    CoverStrategy::Poisson { rate_bits } => ShapingStrategy::Poisson { rate_bits },
                },
                scope: ShapingScope::Global,
                fanout: self.fanout,
                frame_size: self.message_size,
                high_lane_capacity: self.app_outbox_capacity,
                low_lane_capacity: self.relay_outbox_capacity,
                max_frame_size: self.max_frame_size,
                max_connections: self.max_connections,
                max_connections_per_ip: self.max_connections_per_ip,
                reuse_listener_port: self.reuse_listener_port,
            }),
    {
        ShapeSettings {
            name: self.name.clone(),
            listener_addr: self.listener_addr,
            strategy: match self.cover {
                CoverStrategy::Constant { interval } => ShapingStrategy::Constant { interval },
                CoverStrategy::Poisson { rate_bits } => ShapingStrategy::Poisson { rate_bits },
            },
            scope: ShapingScope::Global,
            fanout: self.fanout,
            frame_size: self.message_size,
            high_lane_capacity: self.app_outbox_capacity,
            low_lane_capacity: self.relay_outbox_capacity,
            max_frame_size: self.max_frame_size,
            max_connections: self.max_connections,
            max_connections_per_ip: self.max_connections_per_ip,
            reuse_listener_port: self.reuse_listener_port,
        }
    }
}

/// Every configuration is accepted whose frames have room for more than an
/// identifier and pass the decoder, whose counts are all non-zero, and whose sizes
/// memory can address; and no other is.
pub proof fn sound_configurations_are_accepted(config: NodeConfig)
    ensures
        config.consistent() <==> {
            &&& ID_SIZE < config.message_size <= config.max_frame_size
            &&& config.message_size <= isize::MAX
            &&& config.fanout != 0
            &&& config.app_outbox_capacity != 0
            &&& config.app_outbox_capacity <= isize::MAX / 128
            &&& config.relay_outbox_capacity != 0
            &&& config.relay_outbox_capacity <= isize::MAX / 128
            &&& config.dedup_capacity != 0
            &&& config.dedup_capacity <= isize::MAX / 64
            &&& config.max_connections != 0
            &&& config.max_connections_per_ip != 0
        },
{
}

/// The fanout is free: with any other one that is not zero, a configuration is as
/// consistent as it was.
pub proof fn any_fanout_will_do(config: NodeConfig, fanout: usize)
    requires
        config.consistent(),
    ensures
        (NodeConfig { fanout, ..config }).consistent() <==> fanout != 0,
{
}

/// The limits on connections are free: with any others that are not zero, a
/// configuration is as consistent as it was.
pub proof fn any_connection_limits_will_do(
    config: NodeConfig,
    max_connections: u16,
    max_connections_per_ip: u16,
)
    requires
        config.consistent(),
    ensures
        (NodeConfig { max_connections, max_connections_per_ip, ..config }).consistent()
            <==> max_connections != 0 && max_connections_per_ip != 0,
{
}

/// A smaller memory or smaller lanes do no harm as long as they are not empty.
pub proof fn smaller_capacities_will_do(
    config: NodeConfig,
    app_outbox_capacity: usize,
    relay_outbox_capacity: usize,
    dedup_capacity: usize,
)
    requires
        config.consistent(),
        app_outbox_capacity <= config.app_outbox_capacity,
        relay_outbox_capacity <= config.relay_outbox_capacity,
        dedup_capacity <= config.dedup_capacity,
    ensures
        (NodeConfig {
            app_outbox_capacity,
            relay_outbox_capacity,
            dedup_capacity,
            ..config
        }).consistent() <==> app_outbox_capacity != 0 && relay_outbox_capacity != 0
            && dedup_capacity != 0,
{
}

/// Any size of a frame between that of an identifier, exclusively, and that of one
/// that is in use will do.
pub proof fn smaller_frames_will_do(config: NodeConfig, message_size: usize)
    requires
        config.consistent(),
        message_size <= config.message_size,
    ensures
        (NodeConfig { message_size, ..config }).consistent() <==> message_size > ID_SIZE,
{
}

/// The decoder may accept any frames as long as it accepts those of the node.
pub proof fn any_larger_frame_may_pass(config: NodeConfig, max_frame_size: usize)
    requires
        config.consistent(),
    ensures
        (NodeConfig { max_frame_size, ..config }).consistent() <==> max_frame_size
            >= config.message_size,
{
}

/// Name, listening address, schedule and the sharing of the port play no part in
/// whether a configuration is consistent.
pub proof fn the_rest_plays_no_part(
    config: NodeConfig,
    name: Option<String>,
    listener_addr: Option<PeerAddr>,
    cover: CoverStrategy,
    reuse_listener_port: bool,
)
    ensures
        (NodeConfig {
            name,
            listener_addr,
            cover,
            reuse_listener_port,
            ..config
        }).consistent() == config.consistent(),
{
}

impl Clone for NodeConfig {
    fn clone(&self) -> (config: Self)
        ensures
            config == *self,
    {
        NodeConfig {
            name: self.name.clone(),
            listener_addr: self.listener_addr,
            cover: self.cover,
            fanout: self.fanout,
            message_size: self.message_size,
            app_outbox_capacity: self.app_outbox_capacity,
            relay_outbox_capacity: self.relay_outbox_capacity,
            dedup_capacity: self.dedup_capacity,
            max_frame_size: self.max_frame_size,
            max_connections: self.max_connections,
            max_connections_per_ip: self.max_connections_per_ip,
            reuse_listener_port: self.reuse_listener_port,
        }
    }
}

impl Default for NodeConfig {
    fn default() -> (config: Self)
        ensures
            config.consistent(),
            config.cover matches CoverStrategy::Constant { interval } && nanos(interval)
                == 1_000_000_000,
            config == (NodeConfig {
                name: None,
                listener_addr: None,
                cover: config.cover,
                fanout: 3,
                message_size: 256,
                app_outbox_capacity: 256,
                relay_outbox_capacity: 1024,
                dedup_capacity: 4096,
                max_frame_size: 0x10_0000,
                max_connections: 64,
                max_connections_per_ip: 8,
                reuse_listener_port: false,
            }),
    {
        NodeConfig {
            name: None,
            listener_addr: None,
            // One tick per second is the most conservative default.
            cover: CoverStrategy::Constant { interval: Duration::from_secs(1) },
            // Enough for a message to reach everyone in few hops, yet cheap.
            fanout: 3,
            // An identifier of 32 bytes and 224 bytes of payload.
            message_size: 256,
            app_outbox_capacity: 256,
            relay_outbox_capacity: 1024,
            dedup_capacity: 4096,
            max_frame_size: 1024 * 1024,
            max_connections: 64,
            max_connections_per_ip: 8,
            reuse_listener_port: false,
        }
    }
}

/// How the shaping layer schedules its ticks.
#[derive(Clone, Copy, Debug)]
pub enum ShapingStrategy {
    /// One tick exactly every `interval`.
    Constant {
        /// The fixed delay between two ticks.
        interval: Duration,
    },
    /// Ticks that form a Poisson process.
    Poisson {
        /// The rate in ticks per second, as the bits of an IEEE 754 double.
        rate_bits: u64,
    },
}

/// Whether the shaping layer ticks for the whole node or for one peer at a
/// time.
#[derive(Clone, Copy, Debug, PartialEq, Eq, Structural)]
pub enum ShapingScope {
    /// Every tick sends the next frame to several peers.
    Global,
    /// Every tick serves one peer.
    PerConnection {
        /// Whether the turn of a peer is mixed with chance.
        randomize: bool,
    },
}

/// The configuration of the shaping layer.
#[derive(Debug)]
pub struct ShapeSettings {
    /// A friendly name for the node.
    pub name: Option<String>,
    /// The address to listen on.
    pub listener_addr: Option<PeerAddr>,
    /// When ticks happen.
    pub strategy: ShapingStrategy,
    /// Whom a tick serves.
    pub scope: ShapingScope,
    /// How many peers a tick sends to.
    pub fanout: usize,
    /// The size in bytes of every frame.
    pub frame_size: usize,
    /// How many frames wait in the lane that is drained first.
    pub high_lane_capacity: usize,
    /// How many frames wait in the lane that is drained last.
    pub low_lane_capacity: usize,
    /// The largest frame that the decoder accepts.
    pub max_frame_size: usize,
    /// How many connections may be open at once.
    pub max_connections: u16,
    /// How many connections may be open to one IP address.
    pub max_connections_per_ip: u16,
    /// Whether other sockets may bind the listening address too.
    pub reuse_listener_port: bool,
}

} // verus!
