//! Configuration of a connection.

use vstd::prelude::*;

use crate::flexicast::congestion::config::default_exp3_conf;
use crate::flexicast::congestion::config::EXP3Conf;
use crate::flexicast::congestion::config::FcCongestionHeuristic;
use crate::time::Duration;

verus! {

/// Congestion control algorithms of the unicast path.
#[derive(Clone, Copy, Debug, PartialEq, Eq, Structural)]
pub enum CongestionControlAlgorithm {
    /// CUBIC.
    CUBIC,
    /// No congestion control.
    DISABLED,
}

/// Application protocols that are negotiated.
#[derive(Clone, Copy, Debug, PartialEq, Eq, Structural)]
pub enum ApplicationProtocol {
    /// HTTP/3.
    H3,
}

/// Configuration of a connection. What is `None` is left to the transport.
#[derive(Clone, Copy, Debug, PartialEq, Eq, Structural)]
pub struct Config {
    /// Application protocol.
    pub application_protos: Option<ApplicationProtocol>,
    /// Whether the certificate of the peer is verified.
    pub verify_peer: Option<bool>,
    /// Milliseconds without traffic after which the connection is closed.
    pub max_idle_timeout: Option<u64>,
    /// Largest UDP payload that is accepted.
    pub max_recv_udp_payload_size: Option<usize>,
    /// Largest UDP payload that is sent.
    pub max_send_udp_payload_size: Option<usize>,
    /// Flow control limit of the connection.
    pub initial_max_data: Option<u64>,
    /// Flow control limit of each bidirectional stream that this endpoint opens.
    pub initial_max_stream_data_bidi_local: Option<u64>,
    /// Flow control limit of each bidirectional stream that the peer opens.
    pub initial_max_stream_data_bidi_remote: Option<u64>,
    /// Flow control limit of each unidirectional stream.
    pub initial_max_stream_data_uni: Option<u64>,
    /// How many bidirectional streams the peer may open.
    pub initial_max_streams_bidi: Option<u64>,
    /// How many unidirectional streams the peer may open.
    pub initial_max_streams_uni: Option<u64>,
    /// Whether the peer may not change its address.
    pub disable_active_migration: Option<bool>,
    /// How many connection identifiers the peer may use at once.
    pub active_connection_id_limit: Option<u64>,
    /// Whether data may be sent before the handshake is done.
    pub early_data: Option<bool>,
    /// Congestion control algorithm.
    pub cc_algorithm: Option<CongestionControlAlgorithm>,
    /// Whether packets are paced.
    pub pacing: Option<bool>,
    /// Whether the flexicast extension is enabled.
    pub enable_flexicast: Option<bool>,
    /// Largest identifier of a path.
    pub initial_max_path_id: Option<u64>,
    /// Length of the receive queue of datagrams, where datagrams are enabled.
    pub dgram_recv_queue: Option<usize>,
    /// Length of the send queue of datagrams, where datagrams are enabled.
    pub dgram_send_queue: Option<usize>,
    /// Delay between two pieces of congestion information.
    pub fc_congestion_info_delay: Duration,
    /// Heuristic for the choice of a channel.
    pub fc_congestion_heuristic: FcCongestionHeuristic,
    /// Length of the throughput window.
    pub fc_throughput_window: Duration,
    /// Configuration of the EXP3 heuristic.
    pub fc_exp3_conf: EXP3Conf,
}

/// A configuration that leaves everything to the transport.
pub open spec fn new_config() -> Config {
    Config {
        application_protos: None,
        verify_peer: None,
        max_idle_timeout: None,
        max_recv_udp_payload_size: None,
        max_send_udp_payload_size: None,
        initial_max_data: None,
        initial_max_stream_data_bidi_local: None,
        initial_max_stream_data_bidi_remote: None,
        initial_max_stream_data_uni: None,
        initial_max_streams_bidi: None,
        initial_max_streams_uni: None,
        disable_active_migration: None,
        active_connection_id_limit: None,
        early_data: None,
        cc_algorithm: None,
        pacing: None,
        enable_flexicast: None,
        initial_max_path_id: None,
        dgram_recv_queue: None,
        dgram_send_queue: None,
        fc_congestion_info_delay: Duration { nanos: 100_000_000 },
        fc_congestion_heuristic: FcCongestionHeuristic::EXP3,
        fc_throughput_window: Duration { nanos: 5_000_000_000 },
        fc_exp3_conf: default_exp3_conf(),
    }
}

impl Config {
    /// A configuration that leaves everything to the transport.
    pub fn new() -> (c: Config)
        ensures
            c == new_config(),
    {
        Config {
            application_protos: None,
            verify_peer: None,
            max_idle_timeout: None,
            max_recv_udp_payload_size: None,
            max_send_udp_payload_size: None,
            initial_max_data: None,
            initial_max_stream_data_bidi_local: None,
            initial_max_stream_data_bidi_remote: None,
            initial_max_stream_data_uni: None,
            initial_max_streams_bidi: None,
            initial_max_streams_uni: None,
            disable_active_migration: None,
            active_connection_id_limit: None,
            early_data: None,
            cc_algorithm: None,
            pacing: None,
            enable_flexicast: None,
            initial_max_path_id: None,
            dgram_recv_queue: None,
            dgram_send_queue: None,
            fc_congestion_info_delay: Duration::from_millis(100),
            fc_congestion_heuristic: FcCongestionHeuristic::EXP3,
            fc_throughput_window: Duration::from_secs(5),
            fc_exp3_conf: EXP3Conf::default(),
        }
    }
}

/// A new configuration sets nothing of the transport. Congestion information is due every 100
/// milliseconds, throughput is measured over five seconds, and EXP3 decides.
pub proof fn new_configurations_leave_the_transport()
    ensures
        ({
            let c = new_config();
            &&& c.application_protos is None && c.verify_peer is None && c.max_idle_timeout is None
            &&& c.max_recv_udp_payload_size is None && c.max_send_udp_payload_size is None
            &&& c.initial_max_data is None && c.initial_max_stream_data_bidi_local is None
            &&& c.initial_max_stream_data_bidi_remote is None && c.initial_max_stream_data_uni is None
            &&& c.initial_max_streams_bidi is None && c.initial_max_streams_uni is None
            &&& c.disable_active_migration is None && c.active_connection_id_limit is None
            &&& c.early_data is None && c.cc_algorithm is None && c.pacing is None
            &&& c.enable_flexicast is None && c.initial_max_path_id is None
            &&& c.dgram_recv_queue is None && c.dgram_send_queue is None
            &&& c.fc_congestion_info_delay.nanos == 100_000_000
            &&& c.fc_throughput_window.nanos == 5_000_000_000
            &&& c.fc_congestion_heuristic == FcCongestionHeuristic::EXP3
            &&& c.fc_exp3_conf == default_exp3_conf()
        }),
{
}

} // verus!
