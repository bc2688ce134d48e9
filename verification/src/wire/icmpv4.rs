//! The ICMPv4 frame codec: a byte-level view over a packet buffer and a
//! high-level representation of the echo message kinds.

use vstd::prelude::*;
use vstd::pervasive::VecAdditionalExecFns;

use crate::Error;
use crate::wire::ip::{rfc1071_checksum, spec_rfc1071_checksum};

verus! {

/// Internet protocol control message type.
#[derive(Debug, Clone, Copy, PartialEq, Eq, Structural)]
pub enum Type {
    /// Echo reply
    EchoReply,
    /// Destination unreachable
    DstUnreachable,
    /// Message redirect
    Redirect,
    /// Echo request
    EchoRequest,
    /// Router advertisement
    RouterAdvert,
    /// Router solicitation
    RouterSolicit,
    /// Time exceeded
    TimeExceeded,
    /// Parameter problem
    ParamProblem,
    /// Timestamp
    Timestamp,
    /// Timestamp reply
    TimestampReply,
    /// Any other type value
    Unknown(u8),
}

pub open spec fn spec_type_from(v: u8) -> Type {
    if v == 0 {
        Type::EchoReply
    } else if v == 1 {
        Type::DstUnreachable
    } else if v == 5 {
        Type::Redirect
    } else if v == 8 {
        Type::EchoRequest
    } else if v == 9 {
        Type::RouterAdvert
    } else if v == 10 {
        Type::RouterSolicit
    } else if v == 11 {
        Type::TimeExceeded
    } else if v == 12 {
        Type::ParamProblem
    } else if v == 13 {
        Type::Timestamp
    } else if v == 14 {
        Type::TimestampReply
    } else {
        Type::Unknown(v)
    }
}

pub open spec fn spec_type_to(t: Type) -> u8 {
    match t {
        Type::EchoReply => 0,
        Type::DstUnreachable => 1,
        Type::Redirect => 5,
        Type::EchoRequest => 8,
        Type::RouterAdvert => 9,
        Type::RouterSolicit => 10,
        Type::TimeExceeded => 11,
        Type::ParamProblem => 12,
        Type::Timestamp => 13,
        Type::TimestampReply => 14,
        Type::Unknown(v) => v,
    }
}

impl Type {
    /// Decode a type octet.
    pub fn from_u8(v: u8) -> (r: Type)
        ensures
            r == spec_type_from(v),
    {
        if v == 0 {
            Type::EchoReply
        } else if v == 1 {
            Type::DstUnreachable
        } else if v == 5 {
            Type::Redirect
        } else if v == 8 {
            Type::EchoRequest
        } else if v == 9 {
            Type::RouterAdvert
        } else if v == 10 {
            Type::RouterSolicit
        } else if v == 11 {
            Type::TimeExceeded
        } else if v == 12 {
            Type::ParamProblem
        } else if v == 13 {
            Type::Timestamp
        } else if v == 14 {
            Type::TimestampReply
        } else {
            Type::Unknown(v)
        }
    }

    /// Encode to the type octet.
    pub fn to_u8(&self) -> (r: u8)
        ensures
            r == spec_type_to(*self),
    {
        match self {
            Type::EchoReply => 0,
            Type::DstUnreachable => 1,
            Type::Redirect => 5,
            Type::EchoRequest => 8,
            Type::RouterAdvert => 9,
            Type::RouterSolicit => 10,
            Type::TimeExceeded => 11,
            Type::ParamProblem => 12,
            Type::Timestamp => 13,
            Type::TimestampReply => 14,
            Type::Unknown(v) => *v,
        }
    }
}

/// Message subtype for type "Destination Unreachable".
#[derive(Debug, Clone, Copy, PartialEq, Eq, Structural)]
pub enum DstUnreachable {
    NetUnreachable,
    HostUnreachable,
    ProtoUnreachable,
    PortUnreachable,
    FragRequired,
    SrcRouteFailed,
    DstNetUnknown,
    DstHostUnknown,
    SrcHostIsolated,
    NetProhibited,
    HostProhibited,
    NetUnreachToS,
    HostUnreachToS,
    CommProhibited,
    HostPrecedViol,
    PrecedCutoff,
    Unknown(u8),
}

/// Message subtype for type "Redirect Message".
#[derive(Debug, Clone, Copy, PartialEq, Eq, Structural)]
pub enum Redirect {
    Net,
    Host,
    NetToS,
    HostToS,
    Unknown(u8),
}

/// Message subtype for type "Time Exceeded".
#[derive(Debug, Clone, Copy, PartialEq, Eq, Structural)]
pub enum TimeExceeded {
    TtlExpired,
    FragExpired,
    Unknown(u8),
}

/// Message subtype for type "Parameter Problem".
#[derive(Debug, Clone, Copy, PartialEq, Eq, Structural)]
pub enum ParamProblem {
    AtPointer,
    MissingOption,
    BadLength,
    Unknown(u8),
}

/// The header length implied by the leading type octet: echo messages carry
/// an identifier and a sequence number; for every other kind the codec makes
/// the conservative assumption of a bare four-octet header.
pub open spec fn spec_header_len(b: Seq<u8>) -> int {
    if b.len() >= 1 && (b[0] == 0 || b[0] == 8) {
        8
    } else {
        4
    }
}

/// A read/write wrapper around an ICMPv4 packet buffer.
#[derive(Debug)]
pub struct Packet {
    pub buffer: Vec<u8>,
}

impl Packet {
    /// A buffer long enough for the header its own type octet implies.
    pub open spec fn wf(&self) -> bool {
        self.buffer@.len() >= 4 && self.buffer@.len() >= spec_header_len(self.buffer@)
    }

    /// Wrap a buffer as an ICMPv4 packet; a buffer too small to hold the
    /// header is rejected.
    pub fn new(buffer: Vec<u8>) -> (r: Result<Packet, Error>)
        ensures
            match r {
                Ok(p) => p.buffer@ == buffer@ && p.wf(),
                Err(e) => e == Error::Truncated && !(buffer@.len() >= 4 && buffer@.len()
                    >= spec_header_len(buffer@)),
            },
    {
        let len = buffer.len();
        if len < 4 {
            Err(Error::Truncated)
        } else {
            let packet = Packet { buffer };
            if len < packet.header_len() {
                Err(Error::Truncated)
            } else {
                Ok(packet)
            }
        }
    }

    /// Consumes the packet, returning the underlying buffer.
    pub fn into_inner(self) -> (r: Vec<u8>)
        ensures
            r@ == self.buffer@,
    {
        self.buffer
    }

    /// Return the message type field.
    pub fn msg_type(&self) -> (r: Type)
        requires
            self.buffer@.len() >= 1,
        ensures
            r == spec_type_from(self.buffer@[0]),
    {
        Type::from_u8(self.buffer[0])
    }

    /// Return the message code field.
    pub fn msg_code(&self) -> (r: u8)
        requires
            self.buffer@.len() >= 2,
        ensures
            r == self.buffer@[1],
    {
        self.buffer[1]
    }

    /// Return the checksum field.
    pub fn checksum(&self) -> (r: u16)
        requires
            self.buffer@.len() >= 4,
        ensures
            r == self.buffer@[2] * 256 + self.buffer@[3],
    {
        (self.buffer[2] as u16) * 256 + (self.buffer[3] as u16)
    }

    /// Return the identifier field of an echo request or reply packet.
    pub fn echo_ident(&self) -> (r: u16)
        requires
            self.buffer@.len() >= 6,
        ensures
            r == self.buffer@[4] * 256 + self.buffer@[5],
    {
        (self.buffer[4] as u16) * 256 + (self.buffer[5] as u16)
    }

    /// Return the sequence number field of an echo request or reply packet.
    pub fn echo_seq_no(&self) -> (r: u16)
        requires
            self.buffer@.len() >= 8,
        ensures
            r == self.buffer@[6] * 256 + self.buffer@[7],
    {
        (self.buffer[6] as u16) * 256 + (self.buffer[7] as u16)
    }

    /// Return the header length; it depends on the message type field.
    pub fn header_len(&self) -> (r: usize)
        requires
            self.buffer@.len() >= 1,
        ensures
            r == spec_header_len(self.buffer@),
    {
        let t = self.buffer[0];
        if t == 0 || t == 8 {
            8
        } else {
            4
        }
    }

    /// Return the type-specific data after the header.
    pub fn data(&self) -> (r: &[u8])
        requires
            self.wf(),
        ensures
            r@ == self.buffer@.subrange(spec_header_len(self.buffer@), self.buffer@.len() as int),
    {
        let h = self.header_len();
        let n = self.buffer.len();
        &self.buffer.as_slice()[h..n]
    }

    /// Validate the header checksum.
    pub fn verify_checksum(&self) -> (r: bool)
        requires
            self.wf(),
            self.buffer@.len() <= 65536,
        ensures
            r == (self.buffer@[2] * 256 + self.buffer@[3] == spec_rfc1071_checksum(
                2,
                self.buffer@.subrange(0, spec_header_len(self.buffer@)),
            )),
    {
        let h = self.header_len();
        let header = &self.buffer.as_slice()[0..h];
        let computed = rfc1071_checksum(2, header);
        self.checksum() == computed
    }

    /// Set the message type field. Turning a packet into an echo message
    /// asks for a buffer that holds the echo header.
    pub fn set_msg_type(&mut self, value: Type)
        requires
            old(self).wf(),
            (spec_type_to(value) == 0 || spec_type_to(value) == 8) ==> old(self).buffer@.len()
                >= 8,
        ensures
            final(self).buffer@ == old(self).buffer@.update(0, spec_type_to(value)),
            final(self).wf(),
    {
        let v = value.to_u8();
        self.buffer.set(0, v);
    }

    /// Set the message code field.
    pub fn set_msg_code(&mut self, value: u8)
        requires
            old(self).wf(),
        ensures
            final(self).buffer@ == old(self).buffer@.update(1, value),
            final(self).wf(),
    {
        self.buffer.set(1, value);
    }

    /// Set the checksum field.
    pub fn set_checksum(&mut self, value: u16)
        requires
            old(self).wf(),
        ensures
            final(self).buffer@ == old(self).buffer@.update(2, (value / 256) as u8).update(
                3,
                (value % 256) as u8,
            ),
            final(self).wf(),
    {
        self.buffer.set(2, (value / 256) as u8);
        self.buffer.set(3, (value % 256) as u8);
    }

    /// Set the identifier field of an echo request or reply packet.
    pub fn set_echo_ident(&mut self, value: u16)
        requires
            old(self).wf(),
            old(self).buffer@.len() >= 6,
        ensures
            final(self).buffer@ == old(self).buffer@.update(4, (value / 256) as u8).update(
                5,
                (value % 256) as u8,
            ),
            final(self).wf(),
    {
        self.buffer.set(4, (value / 256) as u8);
        self.buffer.set(5, (value % 256) as u8);
    }

    /// Set the sequence number field of an echo request or reply packet.
    pub fn set_echo_seq_no(&mut self, value: u16)
        requires
            old(self).wf(),
            old(self).buffer@.len() >= 8,
        ensures
            final(self).buffer@ == old(self).buffer@.update(6, (value / 256) as u8).update(
                7,
                (value % 256) as u8,
            ),
            final(self).wf(),
    {
        self.buffer.set(6, (value / 256) as u8);
        self.buffer.set(7, (value % 256) as u8);
    }

    /// Overwrite the type-specific data region with `data`, as far as both
    /// the region and `data` reach.
    pub fn copy_into_data(&mut self, data: &[u8])
        requires
            old(self).wf(),
        ensures
            final(self).wf(),
            final(self).buffer@.len() == old(self).buffer@.len(),
            ({
                let h = spec_header_len(old(self).buffer@);
                let n = if data@.len() <= old(self).buffer@.len() - h {
                    data@.len() as int
                } else {
                    old(self).buffer@.len() - h
                };
                final(self).buffer@ == old(self).buffer@.subrange(0, h) + data@.subrange(0, n)
                    + old(self).buffer@.subrange(h + n, old(self).buffer@.len() as int)
            }),
    {
        let h = self.header_len();
        let room = self.buffer.len() - h;
        let n = if data.len() <= room {
            data.len()
        } else {
            room
        };
        let ghost old_buf = self.buffer@;
        let mut i: usize = 0;
        while i < n
            invariant
                n <= data@.len(),
                h + n <= self.buffer@.len(),
                h + n <= usize::MAX,
                h == spec_header_len(old_buf),
                i <= n,
                self.buffer@.len() == old_buf.len(),
                forall|k: int|
                    0 <= k < old_buf.len() && !(h <= k < h + i) ==> self.buffer@[k] == old_buf[k],
                forall|k: int| h <= k < h + i ==> self.buffer@[k] == data@[k - h],
            decreases n - i,
        {
            self.buffer.set(h + i, data[i]);
            i = i + 1;
        }
        proof {
            assert(self.buffer@ =~= old_buf.subrange(0, h as int) + data@.subrange(0, n as int)
                + old_buf.subrange(h + n, old_buf.len() as int));
            assert(spec_header_len(self.buffer@) == spec_header_len(old_buf));
        }
    }

    /// What the buffer holds after an echo header is written into it:
    /// code zero, the type octet, identifier and sequence number
    /// big-endian, `data` copied into the payload region as far as both
    /// reach, and the header checksum filled in last.
    pub open spec fn spec_echo_emit(
        buf: Seq<u8>,
        t: u8,
        ident: u16,
        seq_no: u16,
        data: Seq<u8>,
    ) -> Seq<u8> {
        let hdr = buf.update(1, 0u8).update(0, t).update(4, (ident / 256) as u8).update(
            5,
            (ident % 256) as u8,
        ).update(6, (seq_no / 256) as u8).update(7, (seq_no % 256) as u8);
        let nlen = if data.len() <= buf.len() - 8 {
            data.len() as int
        } else {
            buf.len() - 8
        };
        let with_data = hdr.subrange(0, 8) + data.subrange(0, nlen) + hdr.subrange(
            8 + nlen,
            buf.len() as int,
        );
        let ck = spec_rfc1071_checksum(2, with_data.subrange(0, 8));
        with_data.update(2, (ck / 256) as u8).update(3, (ck % 256) as u8)
    }

    /// Compute and fill in the header checksum.
    pub fn fill_checksum(&mut self)
        requires
            old(self).wf(),
            old(self).buffer@.len() <= 65536,
        ensures
            final(self).wf(),
            ({
                let ck = spec_rfc1071_checksum(
                    2,
                    old(self).buffer@.subrange(0, spec_header_len(old(self).buffer@)),
                );
                final(self).buffer@ == old(self).buffer@.update(2, (ck / 256) as u8).update(
                    3,
                    (ck % 256) as u8,
                )
            }),
    {
        let h = self.header_len();
        let header = &self.buffer.as_slice()[0..h];
        let checksum = rfc1071_checksum(2, header);
        self.set_checksum(checksum);
    }
}


/// A high-level representation of the echo kinds of ICMPv4 packet.
#[derive(Debug, Clone, PartialEq, Eq)]
pub enum Repr {
    EchoRequest { ident: u16, seq_no: u16, data: Vec<u8> },
    EchoReply { ident: u16, seq_no: u16, data: Vec<u8> },
}

impl Repr {
    /// Parse an ICMPv4 packet into its high-level representation; a packet
    /// of any kind but an echo request or reply with code zero is not
    /// recognized.
    pub fn parse(packet: &Packet) -> (r: Result<Repr, Error>)
        requires
            packet.wf(),
        ensures
            match r {
                Ok(repr) => match repr {
                    Repr::EchoRequest { ident, seq_no, data } => {
                        &&& packet.buffer@[0] == 8
                        &&& packet.buffer@[1] == 0
                        &&& ident == packet.buffer@[4] * 256 + packet.buffer@[5]
                        &&& seq_no == packet.buffer@[6] * 256 + packet.buffer@[7]
                        &&& data@ == packet.buffer@.subrange(8, packet.buffer@.len() as int)
                    },
                    Repr::EchoReply { ident, seq_no, data } => {
                        &&& packet.buffer@[0] == 0
                        &&& packet.buffer@[1] == 0
                        &&& ident == packet.buffer@[4] * 256 + packet.buffer@[5]
                        &&& seq_no == packet.buffer@[6] * 256 + packet.buffer@[7]
                        &&& data@ == packet.buffer@.subrange(8, packet.buffer@.len() as int)
                    },
                },
                Err(e) => e == Error::Unrecognized && !((packet.buffer@[0] == 0
                    || packet.buffer@[0] == 8) && packet.buffer@[1] == 0),
            },
    {
        match (packet.msg_type(), packet.msg_code()) {
            (Type::EchoRequest, 0) => Ok(
                Repr::EchoRequest {
                    ident: packet.echo_ident(),
                    seq_no: packet.echo_seq_no(),
                    data: vstd::slice::slice_to_vec(packet.data()),
                },
            ),
            (Type::EchoReply, 0) => Ok(
                Repr::EchoReply {
                    ident: packet.echo_ident(),
                    seq_no: packet.echo_seq_no(),
                    data: vstd::slice::slice_to_vec(packet.data()),
                },
            ),
            _ => Err(Error::Unrecognized),
        }
    }

    /// The length of a packet emitted from this representation.
    pub fn len(&self) -> (r: usize)
        requires
            (match self {
                Repr::EchoRequest { data, .. } => data@.len(),
                Repr::EchoReply { data, .. } => data@.len(),
            }) + 8 <= usize::MAX,
        ensures
            r == 8 + match self {
                Repr::EchoRequest { data, .. } => data@.len(),
                Repr::EchoReply { data, .. } => data@.len(),
            },
    {
        match self {
            Repr::EchoRequest { data, .. } => 8 + data.len(),
            Repr::EchoReply { data, .. } => 8 + data.len(),
        }
    }

    /// Emit this representation into a packet buffer that holds at least
    /// the echo header.
    pub fn emit(&self, packet: &mut Packet)
        requires
            old(packet).wf(),
            old(packet).buffer@.len() >= 8,
            old(packet).buffer@.len() <= 65536,
        ensures
            final(packet).buffer@.len() == old(packet).buffer@.len(),
            match self {
                Repr::EchoRequest { ident, seq_no, data } => final(packet).buffer@
                    == Packet::spec_echo_emit(old(packet).buffer@, 8, *ident, *seq_no, data@),
                Repr::EchoReply { ident, seq_no, data } => final(packet).buffer@
                    == Packet::spec_echo_emit(old(packet).buffer@, 0, *ident, *seq_no, data@),
            },
    {
        packet.set_msg_code(0);
        match self {
            Repr::EchoRequest { ident, seq_no, data } => {
                packet.set_msg_type(Type::EchoRequest);
                packet.set_echo_ident(*ident);
                packet.set_echo_seq_no(*seq_no);
                packet.copy_into_data(data.as_slice());
            },
            Repr::EchoReply { ident, seq_no, data } => {
                packet.set_msg_type(Type::EchoReply);
                packet.set_echo_ident(*ident);
                packet.set_echo_seq_no(*seq_no);
                packet.copy_into_data(data.as_slice());
            },
        }
        packet.fill_checksum();
    }
}

} // verus!
