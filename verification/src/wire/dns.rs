//! The DNS message codec: header fields, questions, resource records, and
//! wire-format names with RFC 1035 pointer compression.
//!
//! A wire-format name is a run of labels, each a length octet (1..=191)
//! followed by that many octets, ended by a zero octet. Inside a packet a
//! length octet with both high bits set is instead a compression pointer: a
//! 14-bit offset from the start of the packet where the rest of the name
//! continues. The parser expands names fully, so every name handed onward is
//! uncompressed and at most 255 octets.

use vstd::prelude::*;

use crate::Error;
use crate::wire::ip::{Ipv4Address, Ipv6Address};

verus! {

/// Question and record class: the Internet.
pub const CLASS_IN: u16 = 1;

/// Longest wire-format name the codec will expand or store, in octets.
pub const MAX_NAME_LEN: usize = 255;

/// The fixed DNS header length.
pub const HEADER_LEN: usize = 12;

/// Flag word bit: this message is a response.
pub const FLAG_RESPONSE: u16 = 0x8000;

/// Flag word bit: recursion desired.
pub const FLAG_RECURSION_DESIRED: u16 = 0x0100;

/// The big-endian word formed by two octets.
pub open spec fn spec_be16(a: u8, b: u8) -> u16 {
    (a * 256 + b) as u16
}

/// The opcode held in bits 11..15 of the flag word.
pub open spec fn opcode_of(flags: u16) -> u16 {
    (flags >> 11) & 0xf
}

/// The response code held in the low four bits of the flag word.
pub open spec fn rcode_of(flags: u16) -> u16 {
    flags & 0xf
}

/// Opcode value: a standard query.
pub const OPCODE_QUERY: u16 = 0;

/// Response code value: the name does not exist.
pub const RCODE_NXDOMAIN: u16 = 3;

/// A question or record type.
#[derive(Debug, Clone, Copy, PartialEq, Eq, Structural)]
pub enum Type {
    A,
    Cname,
    Aaaa,
    Unknown(u16),
}

pub open spec fn spec_type_from(v: u16) -> Type {
    if v == 1 {
        Type::A
    } else if v == 5 {
        Type::Cname
    } else if v == 28 {
        Type::Aaaa
    } else {
        Type::Unknown(v)
    }
}

/// Decode a record type code.
pub fn type_from(v: u16) -> (r: Type)
    ensures
        r == spec_type_from(v),
{
    if v == 1 {
        Type::A
    } else if v == 5 {
        Type::Cname
    } else if v == 28 {
        Type::Aaaa
    } else {
        Type::Unknown(v)
    }
}

/// The fixed header of a DNS message. Only the counts the client reads are
/// kept; nscount and arcount are parsed past but not stored.
#[derive(Debug, Clone, Copy, PartialEq, Eq, Structural)]
pub struct Header {
    pub transaction_id: u16,
    pub flags: u16,
    pub question_count: u16,
    pub answer_record_count: u16,
}

pub open spec fn spec_parse_header(p: Seq<u8>) -> Result<Header, Error> {
    if p.len() < 12 {
        Err(Error::Malformed)
    } else {
        Ok(
            Header {
                transaction_id: spec_be16(p[0], p[1]),
                flags: spec_be16(p[2], p[3]),
                question_count: spec_be16(p[4], p[5]),
                answer_record_count: spec_be16(p[6], p[7]),
            },
        )
    }
}

/// Read the big-endian word at `i`.
pub fn read_be16(p: &[u8], i: usize) -> (r: u16)
    requires
        i + 2 <= p@.len(),
    ensures
        r == spec_be16(p@[i as int], p@[i + 1]),
{
    (p[i] as u16) * 256 + (p[i + 1] as u16)
}

/// Parse the fixed header. A payload shorter than the header is malformed.
pub fn parse_header(p: &[u8]) -> (r: Result<Header, Error>)
    ensures
        r == spec_parse_header(p@),
{
    if p.len() < HEADER_LEN {
        return Err(Error::Malformed);
    }
    Ok(
        Header {
            transaction_id: read_be16(p, 0),
            flags: read_be16(p, 2),
            question_count: read_be16(p, 4),
            answer_record_count: read_be16(p, 6),
        },
    )
}

impl Header {
    /// The opcode carried in the flag word.
    pub fn opcode(&self) -> (r: u16)
        ensures
            r == opcode_of(self.flags),
    {
        (self.flags >> 11) & 0xf
    }

    /// The response code carried in the flag word.
    pub fn rcode(&self) -> (r: u16)
        ensures
            r == rcode_of(self.flags),
    {
        self.flags & 0xf
    }

    /// Whether the response bit is set.
    pub fn is_response(&self) -> (r: bool)
        ensures
            r == (self.flags & FLAG_RESPONSE == FLAG_RESPONSE),
    {
        self.flags & FLAG_RESPONSE == FLAG_RESPONSE
    }
}

/// A name is valid in isolation when it is a run of plain labels ending in
/// the terminator, with nothing after it: the canonical, uncompressed form
/// that query slots store and the emitter writes.
pub open spec fn valid_name_from(s: Seq<u8>, i: int) -> bool
    decreases s.len() - i,
{
    0 <= i < s.len() && (if s[i] == 0 {
        i == s.len() - 1
    } else {
        s[i] < 192 && i + 1 + s[i] < s.len() && valid_name_from(s, i + 1 + s[i])
    })
}

/// A canonical stored name: uncompressed, terminated, within the bound.
pub open spec fn valid_wire_name(s: Seq<u8>) -> bool {
    s.len() <= 255 && valid_name_from(s, 0)
}

/// The labels of a valid uncompressed name, in order, without their length
/// octets: the decoded form of the name.
pub open spec fn name_labels(s: Seq<u8>, i: int) -> Seq<Seq<u8>>
    decreases s.len() - i when valid_name_from(s, i)
{
    if s[i] == 0 {
        Seq::empty()
    } else {
        seq![s.subrange(i + 1, i + 1 + s[i])] + name_labels(s, i + 1 + s[i])
    }
}

/// The wire encoding of a label sequence: each label length-prefixed, then
/// the terminator.
pub open spec fn encode_name(labels: Seq<Seq<u8>>) -> Seq<u8>
    decreases labels.len(),
{
    if labels.len() == 0 {
        seq![0u8]
    } else {
        seq![labels[0].len() as u8] + labels[0] + encode_name(labels.skip(1))
    }
}

/// A parsed question: its owner name (expanded) and its type.
#[derive(Debug, Clone)]
pub struct Question {
    pub name: Vec<u8>,
    pub type_: Type,
}

/// What parsing the question at `off` yields: the expanded question name,
/// the question type, and the offset just past the question. The class
/// octets are skipped without being checked.
pub open spec fn spec_parse_question(p: Seq<u8>, off: int) -> Result<(Seq<u8>, Type, int), Error> {
    match spec_parse_name_at(p, off) {
        Err(e) => Err(e),
        Ok((name, end)) => if end + 4 <= p.len() {
            Ok((name, spec_type_from(spec_be16(p[end], p[end + 1])), end + 4))
        } else {
            Err(Error::Truncated)
        },
    }
}

/// Parse the question at `off`.
pub fn parse_question(packet: &[u8], off: usize) -> (r: Result<(Question, usize), Error>)
    ensures
        match r {
            Ok((q, end)) => spec_parse_question(packet@, off as int) == Ok::<_, Error>(
                (q.name@, q.type_, end as int),
            ) && valid_wire_name(q.name@),
            Err(e) => spec_parse_question(packet@, off as int) == Err::<(Seq<u8>, Type, int), _>(
                e,
            ),
        },
{
    let (name, end) = match parse_name(packet, off) {
        Ok(v) => v,
        Err(e) => {
            return Err(e);
        },
    };
    if packet.len() < 4 || end > packet.len() - 4 {
        return Err(Error::Truncated);
    }
    let type_ = type_from(read_be16(packet, end));
    Ok((Question { name, type_ }, end + 4))
}

/// A parsed record's payload, reduced to what the client reads.
#[derive(Debug, Clone)]
pub enum RecordData {
    /// An IPv4 host address.
    A(Ipv4Address),
    /// An IPv6 host address.
    Aaaa(Ipv6Address),
    /// An alias: the canonical name, expanded.
    Cname(Vec<u8>),
    /// Any other record type, identified by its type code.
    Other(u16),
}

/// The ghost mirror of [`RecordData`].
pub enum SpecRecordData {
    A(Ipv4Address),
    Aaaa(Ipv6Address),
    Cname(Seq<u8>),
    Other(u16),
}

impl RecordData {
    pub open spec fn view(&self) -> SpecRecordData {
        match self {
            RecordData::A(a) => SpecRecordData::A(*a),
            RecordData::Aaaa(a) => SpecRecordData::Aaaa(*a),
            RecordData::Cname(n) => SpecRecordData::Cname(n@),
            RecordData::Other(t) => SpecRecordData::Other(*t),
        }
    }
}

/// A parsed resource record: its owner name (expanded) and its payload.
#[derive(Debug, Clone)]
pub struct Record {
    pub name: Vec<u8>,
    pub data: RecordData,
}

/// The big-endian 64-bit word at `j`.
pub open spec fn spec_be64(s: Seq<u8>, j: int) -> u64 {
    (s[j] * 0x100000000000000 + s[j + 1] * 0x1000000000000 + s[j + 2] * 0x10000000000 + s[j + 3]
        * 0x100000000 + s[j + 4] * 0x1000000 + s[j + 5] * 0x10000 + s[j + 6] * 0x100 + s[j
        + 7]) as u64
}

/// Read the big-endian 64-bit word at `j`.
pub fn read_be64(p: &[u8], j: usize) -> (r: u64)
    requires
        j + 8 <= p@.len(),
    ensures
        r == spec_be64(p@, j as int),
{
    (p[j] as u64) * 0x100000000000000 + (p[j + 1] as u64) * 0x1000000000000 + (p[j + 2] as u64)
        * 0x10000000000 + (p[j + 3] as u64) * 0x100000000 + (p[j + 4] as u64) * 0x1000000 + (p[j
        + 5] as u64) * 0x10000 + (p[j + 6] as u64) * 0x100 + (p[j + 7] as u64)
}

/// What parsing the record at `off` yields: its expanded owner name, its
/// payload, and the offset just past the record. An address record whose
/// data length does not fit its type is malformed; unknown types are kept
/// only as their type code.
pub open spec fn spec_parse_record(p: Seq<u8>, off: int) -> Result<
    (Seq<u8>, SpecRecordData, int),
    Error,
> {
    match spec_parse_name_at(p, off) {
        Err(e) => Err(e),
        Ok((name, end)) => if end + 10 > p.len() {
            Err(Error::Truncated)
        } else {
            let ty = spec_be16(p[end], p[end + 1]);
            let rdlen = spec_be16(p[end + 8], p[end + 9]);
            let rstart = end + 10;
            if rstart + rdlen > p.len() {
                Err(Error::Truncated)
            } else if ty == 1 {
                if rdlen == 4 {
                    Ok(
                        (
                            name,
                            SpecRecordData::A(
                                Ipv4Address(p[rstart], p[rstart + 1], p[rstart + 2], p[rstart + 3]),
                            ),
                            rstart + 4,
                        ),
                    )
                } else {
                    Err(Error::Malformed)
                }
            } else if ty == 28 {
                if rdlen == 16 {
                    Ok(
                        (
                            name,
                            SpecRecordData::Aaaa(
                                Ipv6Address {
                                    hi: spec_be64(p, rstart),
                                    lo: spec_be64(p, rstart + 8),
                                },
                            ),
                            rstart + 16,
                        ),
                    )
                } else {
                    Err(Error::Malformed)
                }
            } else if ty == 5 {
                match spec_parse_name_at(p, rstart) {
                    Err(e) => Err(e),
                    Ok((cname, _)) => Ok((name, SpecRecordData::Cname(cname), rstart + rdlen)),
                }
            } else {
                Ok((name, SpecRecordData::Other(ty), rstart + rdlen))
            }
        },
    }
}

/// Parse the resource record at `off`.
pub fn parse_record(packet: &[u8], off: usize) -> (r: Result<(Record, usize), Error>)
    ensures
        match r {
            Ok((rec, end)) => spec_parse_record(packet@, off as int) == Ok::<_, Error>(
                (rec.name@, rec.data@, end as int),
            ) && valid_wire_name(rec.name@) && (rec.data@ matches SpecRecordData::Cname(n)
                ==> valid_wire_name(n)),
            Err(e) => spec_parse_record(packet@, off as int) == Err::<
                (Seq<u8>, SpecRecordData, int),
                _,
            >(e),
        },
{
    let (name, end) = match parse_name(packet, off) {
        Ok(v) => v,
        Err(e) => {
            return Err(e);
        },
    };
    if packet.len() < 10 || end > packet.len() - 10 {
        return Err(Error::Truncated);
    }
    let ty = read_be16(packet, end);
    let rdlen = read_be16(packet, end + 8) as usize;
    let rstart = end + 10;
    if rdlen > packet.len() - rstart {
        return Err(Error::Truncated);
    }
    if ty == 1 {
        if rdlen == 4 {
            let a = Ipv4Address(
                packet[rstart],
                packet[rstart + 1],
                packet[rstart + 2],
                packet[rstart + 3],
            );
            Ok((Record { name, data: RecordData::A(a) }, rstart + 4))
        } else {
            Err(Error::Malformed)
        }
    } else if ty == 28 {
        if rdlen == 16 {
            let a = Ipv6Address { hi: read_be64(packet, rstart), lo: read_be64(packet, rstart + 8) };
            Ok((Record { name, data: RecordData::Aaaa(a) }, rstart + 16))
        } else {
            Err(Error::Malformed)
        }
    } else if ty == 5 {
        let (cname, _) = match parse_name(packet, rstart) {
            Ok(v) => v,
            Err(e) => {
                return Err(e);
            },
        };
        Ok((Record { name, data: RecordData::Cname(cname) }, rstart + rdlen))
    } else {
        Ok((Record { name, data: RecordData::Other(ty) }, rstart + rdlen))
    }
}

/// The bytes of a query datagram: a header with a fresh transaction id, the
/// recursion-desired flag and one question, then the question itself, of
/// type A, class IN.
pub open spec fn spec_query_bytes(txid: u16, name: Seq<u8>) -> Seq<u8> {
    seq![
        (txid / 256) as u8,
        (txid % 256) as u8,
        1u8,
        0u8,
        0u8,
        1u8,
        0u8,
        0u8,
        0u8,
        0u8,
        0u8,
        0u8,
    ] + name + seq![0u8, 1u8, 0u8, 1u8]
}

/// Serialize a query for `name` with transaction id `txid`.
pub fn emit_query(txid: u16, name: &[u8]) -> (r: Vec<u8>)
    requires
        name@.len() <= MAX_NAME_LEN,
    ensures
        r@ == spec_query_bytes(txid, name@),
        r@.len() == name@.len() + 16,
{
    let mut out: Vec<u8> = Vec::new();
    out.push((txid / 256) as u8);
    out.push((txid % 256) as u8);
    out.push(1);
    out.push(0);
    out.push(0);
    out.push(1);
    out.push(0);
    out.push(0);
    out.push(0);
    out.push(0);
    out.push(0);
    out.push(0);
    out.extend_from_slice(name);
    out.push(0);
    out.push(1);
    out.push(0);
    out.push(1);
    proof {
        assert(out@ =~= spec_query_bytes(txid, name@));
    }
    out
}

proof fn lemma_parse_valid_name(s: Seq<u8>, seg: int, i: int, budget: int)
    requires
        0 <= seg <= i,
        valid_name_from(s, i),
        s.len() - i <= budget,
    ensures
        spec_name_from(s, seg, i, budget) == Ok::<Seq<u8>, Error>(s.subrange(i, s.len() as int)),
    decreases s.len() - i,
{
    if s[i] == 0 {
        assert(seq![0u8] =~= s.subrange(i, s.len() as int));
    } else {
        let j = i + 1 + s[i];
        lemma_parse_valid_name(s, seg, j, budget - 1 - s[i]);
        assert(seq![s[i]] + s.subrange(i + 1, j) + s.subrange(j, s.len() as int) =~= s.subrange(
            i,
            s.len() as int,
        ));
    }
}

proof fn lemma_name_end_valid(s: Seq<u8>, i: int)
    requires
        0 <= i,
        valid_name_from(s, i),
    ensures
        spec_name_end(s, i) == Ok::<int, Error>(s.len() as int),
    decreases s.len() - i,
{
    if s[i] != 0 {
        lemma_name_end_valid(s, i + 1 + s[i]);
    }
}

/// Parsing a valid uncompressed wire name hands the very same octets back
/// and consumes the name whole: the parser inverts the stored encoding.
pub proof fn lemma_parse_round_trip(s: Seq<u8>)
    requires
        valid_wire_name(s),
    ensures
        spec_parse_name_at(s, 0) == Ok::<(Seq<u8>, int), Error>((s, s.len() as int)),
{
    lemma_parse_valid_name(s, 0, 0, 255);
    lemma_name_end_valid(s, 0);
    assert(s.subrange(0, s.len() as int) =~= s);
}

/// Encoding a valid name's labels yields the name again: the codec's
/// round-trip law for every valid uncompressed wire name.
pub proof fn lemma_name_round_trip(s: Seq<u8>)
    requires
        valid_wire_name(s),
    ensures
        encode_name(name_labels(s, 0)) == s,
{
    lemma_name_round_trip_from(s, 0);
    assert(encode_name(name_labels(s, 0)) =~= s);
}

/// The expansion of the name starting at `i` in packet `p`, reading labels
/// forward and following compression pointers, where `seg` is the position
/// the current segment started at (pointers must aim strictly before it, so
/// the walk terminates) and `budget` is how many octets of expanded name may
/// still be produced. `Ok` is the full uncompressed name, terminator
/// included.
pub open spec fn spec_name_from(p: Seq<u8>, seg: int, i: int, budget: int) -> Result<Seq<u8>, Error>
    decreases seg, p.len() - i,
        when 0 <= seg <= i
{
    if i >= p.len() {
        Err(Error::Truncated)
    } else if p[i] == 0 {
        if budget >= 1 {
            Ok(seq![0u8])
        } else {
            Err(Error::Truncated)
        }
    } else if p[i] >= 192 {
        if i + 1 >= p.len() {
            Err(Error::Truncated)
        } else {
            let t = (p[i] - 192) * 256 + p[i + 1];
            if t < seg {
                spec_name_from(p, t, t, budget)
            } else {
                Err(Error::Malformed)
            }
        }
    } else if i + 1 + p[i] > p.len() {
        Err(Error::Truncated)
    } else if 1 + p[i] > budget {
        Err(Error::Truncated)
    } else {
        match spec_name_from(p, seg, i + 1 + p[i], budget - 1 - p[i]) {
            Ok(rest) => Ok(seq![p[i]] + p.subrange(i + 1, i + 1 + p[i]) + rest),
            Err(e) => Err(e),
        }
    }
}

/// The offset just past the name starting at `i`, in place: a name ends at
/// its terminator or two octets into its first compression pointer.
pub open spec fn spec_name_end(p: Seq<u8>, i: int) -> Result<int, Error>
    decreases p.len() - i,
        when 0 <= i
{
    if i >= p.len() {
        Err(Error::Truncated)
    } else if p[i] == 0 {
        Ok(i + 1)
    } else if p[i] >= 192 {
        if i + 1 >= p.len() {
            Err(Error::Truncated)
        } else {
            Ok(i + 2)
        }
    } else if i + 1 + p[i] > p.len() {
        Err(Error::Truncated)
    } else {
        spec_name_end(p, i + 1 + p[i])
    }
}

/// What parsing the name at `i` yields: the expanded name (at most
/// MAX_NAME_LEN octets) and the in-place end offset.
pub open spec fn spec_parse_name_at(p: Seq<u8>, i: int) -> Result<(Seq<u8>, int), Error> {
    match spec_name_from(p, i, i, 255) {
        Ok(n) => match spec_name_end(p, i) {
            Ok(e) => Ok((n, e)),
            Err(err) => Err(err),
        },
        Err(e) => Err(e),
    }
}

/// Validity is blind to where a suffix sits: a name is valid from `j` in
/// `t` exactly when it is valid at the same distance into the suffix of `t`
/// that starts at `k`.
proof fn lemma_valid_suffix(t: Seq<u8>, k: int, j: int)
    requires
        0 <= k <= j,
        k <= t.len(),
    ensures
        valid_name_from(t, j) == valid_name_from(t.subrange(k, t.len() as int), j - k),
    decreases t.len() - j,
{
    let s = t.subrange(k, t.len() as int);
    if j >= t.len() {
    } else if t[j] == 0 {
    } else if t[j] < 192 && j + 1 + t[j] < t.len() {
        lemma_valid_suffix(t, k, j + 1 + t[j]);
    }
}

/// A successful expansion is a valid uncompressed wire name no longer than
/// its budget.
proof fn lemma_name_from_valid(p: Seq<u8>, seg: int, i: int, budget: int)
    requires
        0 <= seg <= i,
        spec_name_from(p, seg, i, budget) is Ok,
    ensures
        ({
            let n = spec_name_from(p, seg, i, budget).unwrap();
            1 <= n.len() <= budget && valid_name_from(n, 0)
        }),
    decreases seg, p.len() - i,
{
    let n = spec_name_from(p, seg, i, budget).unwrap();
    if p[i] == 0 {
    } else if p[i] >= 192 {
        let t = (p[i] - 192) * 256 + p[i + 1];
        lemma_name_from_valid(p, t, t, budget);
    } else {
        let rest = spec_name_from(p, seg, i + 1 + p[i], budget - 1 - p[i]).unwrap();
        lemma_name_from_valid(p, seg, i + 1 + p[i], budget - 1 - p[i]);
        assert(n =~= seq![p[i]] + p.subrange(i + 1, i + 1 + p[i]) + rest);
        assert(n.subrange(1 + p[i], n.len() as int) =~= rest);
        lemma_valid_suffix(n, 1 + p[i], 1 + p[i]);
        assert(valid_name_from(n, 1 + p[i]));
        assert(n[0] == p[i] && n[0] < 192);
        assert(0 + 1 + n[0] < n.len());
    }
}

/// Parse the possibly compressed name at `offset`, expanding it fully.
/// Returns the canonical uncompressed name and the offset just past the
/// name's in-place bytes.
pub fn parse_name(packet: &[u8], offset: usize) -> (r: Result<(Vec<u8>, usize), Error>)
    ensures
        match r {
            Ok((name, end)) => spec_parse_name_at(packet@, offset as int) == Ok::<_, Error>(
                (name@, end as int),
            ) && valid_wire_name(name@),
            Err(e) => spec_parse_name_at(packet@, offset as int) == Err::<(Seq<u8>, int), _>(e),
        },
{
    let n = packet.len();
    if offset >= n {
        return Err(Error::Truncated);
    }
    let mut acc: Vec<u8> = Vec::new();
    let mut i: usize = offset;
    let mut seg: usize = offset;
    let mut end: usize = 0;
    let mut jumped: bool = false;
    loop
        invariant
            n == packet@.len(),
            seg <= i <= n + 1,
            acc@.len() <= 255,
            (match spec_name_from(packet@, seg as int, i as int, 255 - acc@.len()) {
                Ok(rest) => spec_name_from(packet@, offset as int, offset as int, 255)
                    == Ok::<_, Error>(acc@ + rest),
                Err(e) => spec_name_from(packet@, offset as int, offset as int, 255)
                    == Err::<Seq<u8>, _>(e),
            }),
            (if jumped {
                spec_name_end(packet@, offset as int) == Ok::<int, Error>(end as int)
            } else {
                i >= offset && spec_name_end(packet@, offset as int) == spec_name_end(
                    packet@,
                    i as int,
                )
            }),
        decreases seg, n + 1 - i,
    {
        if i >= n {
            return Err(Error::Truncated);
        }
        let b = packet[i];
        if b == 0 {
            if acc.len() + 1 > 255 {
                return Err(Error::Truncated);
            }
            let ghost acc_pre = acc@;
            acc.push(0);
            let close = if jumped {
                end
            } else {
                i + 1
            };
            proof {
                assert(acc@ =~= acc_pre + seq![0u8]);
                assert(spec_name_from(packet@, offset as int, offset as int, 255)
                    == Ok::<_, Error>(acc@));
                lemma_name_from_valid(packet@, offset as int, offset as int, 255);
            }
            return Ok((acc, close));
        } else if b >= 192 {
            if i + 1 >= n {
                return Err(Error::Truncated);
            }
            let t = ((b - 192) as usize) * 256 + (packet[i + 1] as usize);
            if t >= seg {
                return Err(Error::Malformed);
            }
            if !jumped {
                jumped = true;
                end = i + 2;
            }
            seg = t;
            i = t;
        } else {
            let label_len = b as usize;
            if label_len > n - i - 1 {
                return Err(Error::Truncated);
            }
            if 1 + label_len > 255 - acc.len() {
                return Err(Error::Truncated);
            }
            let ghost acc_before = acc@;
            acc.push(b);
            let lab = &packet[i + 1..i + 1 + label_len];
            acc.extend_from_slice(lab);
            proof {
                assert(acc@ =~= acc_before + seq![b] + packet@.subrange(
                    i + 1,
                    i + 1 + label_len,
                ));
                let rest = spec_name_from(
                    packet@,
                    seg as int,
                    i + 1 + label_len,
                    255 - acc@.len(),
                );
                if rest is Ok {
                    assert(acc@ + rest.unwrap() =~= acc_before + (seq![b] + packet@.subrange(
                        i + 1,
                        i + 1 + label_len,
                    ) + rest.unwrap()));
                }
            }
            i = i + 1 + label_len;
        }
    }
}

proof fn lemma_name_round_trip_from(s: Seq<u8>, i: int)
    requires
        valid_name_from(s, i),
    ensures
        encode_name(name_labels(s, i)) =~= s.subrange(i, s.len() as int),
    decreases s.len() - i,
{
    if s[i] == 0 {
        assert(encode_name(name_labels(s, i)) =~= s.subrange(i, s.len() as int));
    } else {
        let j = i + 1 + s[i];
        lemma_name_round_trip_from(s, j);
        assert(name_labels(s, i).skip(1) =~= name_labels(s, j));
        assert(encode_name(name_labels(s, i)) =~= seq![s[i]] + s.subrange(i + 1, j) + s.subrange(
            j,
            s.len() as int,
        ));
        assert(seq![s[i]] + s.subrange(i + 1, j) + s.subrange(j, s.len() as int) =~= s.subrange(
            i,
            s.len() as int,
        ));
    }
}

} // verus!
