//! A connection with the flexicast extension.

use vstd::prelude::*;

use crate::flexicast::FlexicastAttributes;
use crate::flexicast::FlexicastModel;
use crate::path::PathMap;
use crate::path::PathsModel;
use crate::stream::StreamMap;
use crate::stream::StreamsModel;

verus! {

/// A connection.
#[derive(Debug)]
pub struct Connection {
    /// State of the flexicast extension, where it is enabled.
    pub flexicast: Option<FlexicastAttributes>,
    /// Network paths.
    pub paths: PathMap,
    /// Streams.
    pub streams: StreamMap,
    /// Number of packets that were declared lost.
    pub lost_count: usize,
    /// Bytes that were declared lost.
    pub lost_bytes: u64,
    /// Bytes that were acknowledged.
    pub acked_bytes: u64,
    /// Bytes of stream data that wait to be sent or acknowledged.
    pub tx_buffered: usize,
    /// Congestion window of the flexicast flow for this receiver.
    pub fc_flow_cwnd: Option<usize>,
}

/// What a [`Connection`] stands for.
#[verifier::ext_equal]
pub struct ConnectionModel {
    /// State of the flexicast extension, where it is enabled.
    pub flexicast: Option<FlexicastModel>,
    /// Network paths.
    pub paths: PathsModel,
    /// Streams.
    pub streams: StreamsModel,
    /// Number of packets that were declared lost.
    pub lost_count: usize,
    /// Bytes that were declared lost.
    pub lost_bytes: u64,
    /// Bytes that were acknowledged.
    pub acked_bytes: u64,
    /// Bytes of stream data that wait to be sent or acknowledged.
    pub tx_buffered: usize,
    /// Congestion window of the flexicast flow for this receiver.
    pub fc_flow_cwnd: Option<usize>,
}

impl View for Connection {
    type V = ConnectionModel;

    open spec fn view(&self) -> ConnectionModel {
        ConnectionModel {
            flexicast: match self.flexicast {
                Some(f) => Some(f@),
                None => None,
            },
            paths: self.paths@,
            streams: self.streams@,
            lost_count: self.lost_count,
            lost_bytes: self.lost_bytes,
            acked_bytes: self.acked_bytes,
            tx_buffered: self.tx_buffered,
            fc_flow_cwnd: self.fc_flow_cwnd,
        }
    }
}

impl Connection {
    /// All the parts of the connection are well formed.
    pub open spec fn wf(&self) -> bool {
        &&& self.flexicast matches Some(f) ==> f.wf()
        &&& self.paths.wf()
        &&& self.streams.wf()
    }

    /// A connection on which nothing happened.
    pub fn new(paths: PathMap, streams: StreamMap) -> (c: Connection)
        requires
            paths.wf(),
            streams.wf(),
        ensures
            c.wf(),
            c@ == (ConnectionModel {
                flexicast: None,
                paths: paths@,
                streams: streams@,
                lost_count: 0,
                lost_bytes: 0,
                acked_bytes: 0,
                tx_buffered: 0,
                fc_flow_cwnd: None,
            }),
    {
        Connection {
            flexicast: None,
            paths,
            streams,
            lost_count: 0,
            lost_bytes: 0,
            acked_bytes: 0,
            tx_buffered: 0,
            fc_flow_cwnd: None,
        }
    }
}

} // verus!
