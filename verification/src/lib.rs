//! Flexicast extension of QUIC.

pub mod ancillaries;
pub mod bytes;
pub mod config;
pub mod connection;
pub mod error;
pub mod fc_app;
pub mod flexicast;
pub mod net;
pub mod path;
pub mod ranges;
pub mod rate;
pub mod receiver;
pub mod recovery;
pub mod source;
pub mod stream;
pub mod text;
pub mod time;
