//! Wire-format codecs and the value types they exchange with the sockets.

pub mod dns;
pub mod icmpv4;
pub mod ip;
