//! A client library for the Music Player Daemon protocol: the wire codec,
//! typed response conversion and the idle/command state machine that
//! multiplexes change notifications and commands over one connection.

pub mod errors;
pub mod values;
pub mod frame;
pub mod responses;
pub mod response;
pub mod state_changes;
pub mod command;
pub mod codec;
pub mod multiplexer;
