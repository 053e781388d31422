//! Logic of the flexicast programs.

pub mod channels;
pub mod file_transfer;
pub mod pacer;
pub mod recv_statistics;
pub mod rtp;
pub mod rtp_async;
