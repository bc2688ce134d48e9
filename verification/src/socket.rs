//! The socket layer: the poll context handed into every socket call, the
//! scheduling hint sockets report back, and the DNS socket itself.

use vstd::prelude::*;

use crate::rand::Rand;
use crate::time::Instant;
use crate::wire::ip::IpAddress;

pub mod dns;

verus! {

/// The capabilities the enclosing stack hands to a socket on every call:
/// the monotonic clock, the random source, and the source address its
/// routing would pick for an outgoing datagram (`None` when the stack has
/// no route). Keeping them as plain injected values keeps every socket
/// deterministic under test.
#[derive(Debug, Clone, Copy, PartialEq, Eq, Structural)]
pub struct Context {
    pub now: Instant,
    pub rand: Rand,
    pub source_address: Option<IpAddress>,
}

impl Context {
    /// The current instant on the monotonic clock.
    pub fn now(&self) -> (r: Instant)
        ensures
            r == self.now,
    {
        self.now
    }

    /// The source address the stack's routing picks for `dst`, or `None`
    /// when it has no suitable interface address.
    pub fn get_source_address(&self, dst: &IpAddress) -> (r: Option<IpAddress>)
        ensures
            r == self.source_address,
    {
        let _ = dst;
        self.source_address
    }
}

/// When the scheduler should next call back into a socket.
#[derive(Debug, Clone, Copy, PartialEq, Eq, Structural)]
pub enum PollAt {
    /// Call again no later than this instant.
    Time(Instant),
    /// Nothing is due on a timer; call again on ingress only.
    Ingress,
    /// Nothing will become due.
    Never,
}

} // verus!
