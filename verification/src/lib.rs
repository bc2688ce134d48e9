//! An embeddable DNS client socket for a polled, bounded-memory TCP/IP stack.
//!
//! The crate centres on [`socket::dns::DnsSocket`]: a table of independent
//! query slots, each a small state machine (`Pending` to `Completed` or
//! `Failure`), driven from outside through `process` (ingress), `dispatch`
//! (egress) and `poll_at` (scheduling hint). The wire module holds the DNS
//! message codec (header, question, records, label compression) and a small
//! ICMPv4 frame codec in the same style.

use vstd::prelude::*;

pub mod rand;
pub mod socket;
pub mod time;
pub mod wire;

verus! {

/// The error taxonomy shared by the socket and the wire codecs.
#[derive(Debug, Clone, Copy, PartialEq, Eq, Structural)]
pub enum Error {
    /// An operation was attempted on an invalid handle, or an input
    /// (such as a host name) was ill-formed.
    Illegal,
    /// A bounded resource ran out: no free query slot, or a result was
    /// requested before the query finished.
    Exhausted,
    /// A buffer was too small: a packet ended mid-field, or a name did not
    /// fit the bounded name buffer.
    Truncated,
    /// A packet violated a protocol invariant.
    Malformed,
    /// The name could not be resolved, or no source address was available.
    Unaddressable,
    /// A frame was well-formed but of a kind the codec does not model.
    Unrecognized,
}

} // verus!
