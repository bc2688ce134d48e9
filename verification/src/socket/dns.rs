//! The DNS client socket: a bounded table of query slots, each an
//! independent state machine from `Pending` to `Completed` or `Failure`,
//! driven by the stack through `process` (ingress), `dispatch` (egress) and
//! `poll_at` (scheduling hint).

use vstd::prelude::*;
use vstd::pervasive::unreached;
use vstd::pervasive::VecAdditionalExecFns;
use vstd::slice::slice_to_vec;
use vstd::string::StringSliceAdditionalSpecFns;

use crate::Error;
use crate::socket::{Context, PollAt};
use crate::time::{Duration, Instant};
use crate::wire::dns::{
    emit_query, opcode_of, parse_header, parse_question, parse_record, rcode_of,
    spec_parse_header, spec_parse_question, spec_parse_record, spec_query_bytes, valid_name_from,
    valid_wire_name, Header, RecordData, SpecRecordData, Type, FLAG_RESPONSE, HEADER_LEN,
    OPCODE_QUERY, RCODE_NXDOMAIN,
};
use crate::wire::ip::{spec_is_unspecified, IpAddress, IpProtocol, IpRepr, UdpRepr};

verus! {

/// The well-known DNS server port.
pub const DNS_PORT: u16 = 53;

/// Longest stored wire-format name, in octets.
pub const MAX_NAME_LEN: usize = 255;

/// Most addresses a completed query reports.
pub const MAX_ADDRESS_COUNT: usize = 4;

/// Most resolvers the socket can be configured with.
pub const MAX_SERVER_COUNT: usize = 4;

/// First retransmit backoff, in milliseconds.
pub const RETRANSMIT_DELAY_MS: u64 = 1000;

/// Backoff cap, in milliseconds.
pub const MAX_RETRANSMIT_DELAY_MS: u64 = 10000;

/// Per-resolver deadline, in milliseconds; should generally be 2-10 secs.
pub const RETRANSMIT_TIMEOUT_MS: u64 = 10000;

/// The hop limit used when the socket has none configured.
pub const DEFAULT_HOP_LIMIT: u8 = 64;

/// A query that is still on the wire: its question, its correlators, and
/// its retransmit and failover timers.
#[derive(Debug)]
pub struct PendingQuery {
    /// The question name, as a stored uncompressed wire-format name.
    pub name: Vec<u8>,
    /// The question type sent on the wire.
    pub type_: Type,
    /// UDP port: source for the request, expected destination on replies.
    pub port: u16,
    /// Transaction id echoed by the resolver.
    pub txid: u16,
    /// Wall deadline for the current resolver; armed on first dispatch.
    pub timeout_at: Option<Instant>,
    /// Earliest time to retransmit; epoch zero forces an immediate send.
    pub retransmit_at: Instant,
    /// Current backoff; doubles per retransmit, capped.
    pub delay: Duration,
    /// Index into the resolver list of the server currently tried.
    pub server_idx: usize,
}

/// The addresses a finished query resolved to.
#[derive(Debug)]
pub struct CompletedQuery {
    pub addresses: Vec<IpAddress>,
}

/// The lifecycle of one query slot.
#[derive(Debug)]
pub enum State {
    Pending(PendingQuery),
    Completed(CompletedQuery),
    Failure,
}

/// State for an in-progress DNS query.
///
/// The only reason this struct is public is to allow the socket state to be
/// allocated externally.
#[derive(Debug)]
pub struct DnsQuery {
    pub state: State,
}

/// A handle to an in-progress DNS query.
#[derive(Debug, Clone, Copy, PartialEq, Eq, Structural)]
pub struct QueryHandle(pub usize);

/// The slot table's backing: either a caller-provided buffer that never
/// grows, or an owned one that grows on demand.
#[derive(Debug)]
pub enum SlotStorage {
    Fixed(Vec<Option<DnsQuery>>),
    Growable(Vec<Option<DnsQuery>>),
}

impl SlotStorage {
    /// The slots, whichever backing holds them.
    pub open spec fn slots(&self) -> Seq<Option<DnsQuery>> {
        match self {
            SlotStorage::Fixed(v) => v@,
            SlotStorage::Growable(v) => v@,
        }
    }

    /// How many slots the table has.
    pub fn len(&self) -> (r: usize)
        ensures
            r == self.slots().len(),
    {
        match self {
            SlotStorage::Fixed(v) => v.len(),
            SlotStorage::Growable(v) => v.len(),
        }
    }

    /// Read slot `i`.
    pub fn get(&self, i: usize) -> (r: &Option<DnsQuery>)
        requires
            i < self.slots().len(),
        ensures
            *r == self.slots()[i as int],
    {
        match self {
            SlotStorage::Fixed(v) => &v[i],
            SlotStorage::Growable(v) => &v[i],
        }
    }

    /// Overwrite slot `i`.
    pub fn put(&mut self, i: usize, v: Option<DnsQuery>)
        requires
            i < old(self).slots().len(),
        ensures
            final(self).slots() == old(self).slots().update(i as int, v),
            *final(self) is Fixed <==> *old(self) is Fixed,
    {
        match self {
            SlotStorage::Fixed(vec) => vec.set(i, v),
            SlotStorage::Growable(vec) => vec.set(i, v),
        }
    }

    /// Add one free slot at the end of a growable table.
    fn grow(&mut self) -> (r: usize)
        requires
            *old(self) is Growable,
        ensures
            final(self).slots() == old(self).slots().push(None),
            *final(self) is Growable,
            r == old(self).slots().len(),
    {
        match self {
            SlotStorage::Growable(vec) => {
                vec.push(None);
                vec.len() - 1
            },
            SlotStorage::Fixed(_) => unreached(),
        }
    }
}

/// The position of the next dot at or after `j`, or the end of the name.
pub open spec fn find_dot(b: Seq<u8>, j: int) -> int
    decreases b.len() - j,
{
    if j < 0 || j >= b.len() {
        b.len() as int
    } else if b[j] == 46 {
        j
    } else {
        find_dot(b, j + 1)
    }
}

/// The wire encoding of the labels of `b` from position `start` on: each
/// dot-separated label length-prefixed, the last followed by the
/// terminator. An empty label or one over 255 octets is illegal.
pub open spec fn encode_from(b: Seq<u8>, start: int) -> Result<Seq<u8>, Error>
    decreases b.len() - start,
        when 0 <= start
{
    let d = find_dot(b, start);
    let lab_len = d - start;
    if lab_len <= 0 {
        Err(Error::Illegal)
    } else if lab_len > 255 {
        Err(Error::Illegal)
    } else if d >= b.len() {
        Ok(seq![lab_len as u8] + b.subrange(start, d) + seq![0u8])
    } else {
        match encode_from(b, d + 1) {
            Ok(rest) => Ok(seq![lab_len as u8] + b.subrange(start, d) + rest),
            Err(e) => Err(e),
        }
    }
}

/// The name bytes with one trailing dot stripped, if present.
pub open spec fn stripped_name(bs: Seq<u8>) -> Seq<u8> {
    if bs.len() > 0 && bs[bs.len() - 1] == 46 {
        bs.subrange(0, bs.len() - 1)
    } else {
        bs
    }
}

/// The wire form of a human-readable name: reject the empty name, strip
/// one trailing dot, encode each dot-separated label, and refuse a result
/// over `MAX_NAME_LEN` octets with `Exhausted`.
pub open spec fn encode_dns_name(bs: Seq<u8>) -> Result<Seq<u8>, Error> {
    if bs.len() == 0 {
        Err(Error::Illegal)
    } else {
        match encode_from(stripped_name(bs), 0) {
            Ok(e) => if e.len() > MAX_NAME_LEN {
                Err(Error::Exhausted)
            } else {
                Ok(e)
            },
            Err(x) => Err(x),
        }
    }
}

/// A pending query's own invariant: a valid stored name and a backoff
/// within `[RETRANSMIT_DELAY_MS, MAX_RETRANSMIT_DELAY_MS]`.
pub open spec fn pending_wf(pq: PendingQuery) -> bool {
    &&& valid_wire_name(pq.name@)
    &&& RETRANSMIT_DELAY_MS <= pq.delay.millis <= MAX_RETRANSMIT_DELAY_MS
    &&& pq.server_idx <= MAX_SERVER_COUNT
}

/// A slot's invariant: pending queries are well-formed and completed ones
/// carry between one and `MAX_ADDRESS_COUNT` addresses.
pub open spec fn slot_wf(s: Option<DnsQuery>) -> bool {
    match s {
        None => true,
        Some(q) => match q.state {
            State::Pending(pq) => pending_wf(pq),
            State::Completed(c) => 1 <= c.addresses@.len() <= MAX_ADDRESS_COUNT,
            State::Failure => true,
        },
    }
}

/// Whether the slot holds a pending query.
pub open spec fn slot_is_pending(s: Option<DnsQuery>) -> bool {
    match s {
        Some(q) => q.state is Pending,
        None => false,
    }
}

/// Whether the slot holds a finished query (completed or failed).
pub open spec fn slot_is_finished(s: Option<DnsQuery>) -> bool {
    match s {
        Some(q) => !(q.state is Pending),
        None => false,
    }
}

/// Whether the slot holds a pending query that a response with destination
/// port `port` and transaction id `txid` correlates with.
pub open spec fn slot_matches(s: Option<DnsQuery>, port: u16, txid: u16) -> bool {
    match s {
        Some(q) => match q.state {
            State::Pending(pq) => pq.port == port && pq.txid == txid,
            _ => false,
        },
        None => false,
    }
}

/// The index of the first slot that correlates with `(port, txid)` at or
/// after `i`, or -1 when none does.
pub open spec fn first_match_from(
    slots: Seq<Option<DnsQuery>>,
    port: u16,
    txid: u16,
    i: int,
) -> int
    decreases slots.len() - i,
        when 0 <= i
{
    if i >= slots.len() {
        -1
    } else if slot_matches(slots[i], port, txid) {
        i
    } else {
        first_match_from(slots, port, txid, i + 1)
    }
}

/// Searching from the start and searching past a prefix with no match find
/// the same slot.
proof fn lemma_first_match_skip(slots: Seq<Option<DnsQuery>>, port: u16, txid: u16, i: int)
    requires
        0 <= i <= slots.len(),
        forall|j: int| 0 <= j < i ==> !slot_matches(#[trigger] slots[j], port, txid),
    ensures
        first_match_from(slots, port, txid, 0) == first_match_from(slots, port, txid, i),
    decreases i,
{
    if i > 0 {
        lemma_first_match_skip(slots, port, txid, i - 1);
    }
}

/// A search that found nothing means no slot at all correlates.
proof fn lemma_first_match_none(slots: Seq<Option<DnsQuery>>, port: u16, txid: u16, i: int)
    requires
        0 <= i,
        first_match_from(slots, port, txid, i) == -1,
    ensures
        forall|j: int| i <= j < slots.len() ==> !slot_matches(#[trigger] slots[j], port, txid),
    decreases slots.len() - i,
{
    if i < slots.len() {
        lemma_first_match_none(slots, port, txid, i + 1);
    }
}

/// The addresses a response's answer section resolves `name` to: walk `n`
/// records from `off`, skip records owned by another name, collect A and
/// AAAA addresses up to `MAX_ADDRESS_COUNT` (overflow is dropped in
/// silence), and follow a CNAME by retargeting `name` for the records after
/// it.
pub open spec fn spec_process_answers(
    p: Seq<u8>,
    off: int,
    n: int,
    name: Seq<u8>,
    addrs: Seq<IpAddress>,
) -> Result<Seq<IpAddress>, Error>
    decreases n,
{
    if n <= 0 {
        Ok(addrs)
    } else {
        match spec_parse_record(p, off) {
            Err(e) => Err(e),
            Ok((rname, data, end)) => {
                if rname != name {
                    spec_process_answers(p, end, n - 1, name, addrs)
                } else {
                    match data {
                        SpecRecordData::A(a) => spec_process_answers(
                            p,
                            end,
                            n - 1,
                            name,
                            if addrs.len() < MAX_ADDRESS_COUNT {
                                addrs.push(IpAddress::Ipv4(a))
                            } else {
                                addrs
                            },
                        ),
                        SpecRecordData::Aaaa(a) => spec_process_answers(
                            p,
                            end,
                            n - 1,
                            name,
                            if addrs.len() < MAX_ADDRESS_COUNT {
                                addrs.push(IpAddress::Ipv6(a))
                            } else {
                                addrs
                            },
                        ),
                        SpecRecordData::Cname(cn) => spec_process_answers(p, end, n - 1, cn, addrs),
                        SpecRecordData::Other(_) => spec_process_answers(p, end, n - 1, name, addrs),
                    }
                }
            },
        }
    }
}

/// A response's header is one `process` acts on: parseable, a query-opcode
/// response carrying exactly one question.
pub open spec fn good_header(p: Seq<u8>) -> bool {
    match spec_parse_header(p) {
        Ok(h) => opcode_of(h.flags) == OPCODE_QUERY && h.flags & FLAG_RESPONSE == FLAG_RESPONSE
            && h.question_count == 1,
        Err(_) => false,
    }
}

/// What `process` replies and leaves in the matched slot, given the packet
/// and the pending query it correlates with: a question that fails to
/// parse, or whose type or name differs from the query's, is malformed;
/// otherwise the answer walk decides.
pub open spec fn response_outcome(p: Seq<u8>, hdr: Header, pq: PendingQuery) -> Result<
    Seq<IpAddress>,
    Error,
> {
    match spec_parse_question(p, 12) {
        Err(e) => Err(e),
        Ok((qname, qtype, qend)) => {
            if qtype != pq.type_ {
                Err(Error::Malformed)
            } else if qname != pq.name@ {
                Err(Error::Malformed)
            } else {
                spec_process_answers(
                    p,
                    qend,
                    hdr.answer_record_count as int,
                    pq.name@,
                    Seq::empty(),
                )
            }
        },
    }
}

/// How one slot may change across a `process` call: it stays as it is, or
/// a pending query finishes. A finished slot never changes again; a query
/// leaves `Pending` at most once.
pub open spec fn process_transition(s_old: Option<DnsQuery>, s_new: Option<DnsQuery>) -> bool {
    ||| s_new == s_old
    ||| (slot_is_pending(s_old) && match s_new {
        Some(q1) => match q1.state {
            State::Failure => true,
            State::Completed(c) => 1 <= c.addresses@.len() <= MAX_ADDRESS_COUNT,
            State::Pending(_) => false,
        },
        None => false,
    })
}

/// Whether the pending query's per-resolver deadline has passed: the
/// current resolver is declared unresponsive and the next one is tried. An
/// unarmed deadline (`None`) has not fired.
pub open spec fn fired(pq: PendingQuery, now: u64) -> bool {
    match pq.timeout_at {
        Some(t) => t.millis < now,
        None => false,
    }
}

/// The resolver index a dispatch at `now` would use: the stored one, or
/// the next after a fired deadline.
pub open spec fn effective_idx(pq: PendingQuery, now: u64) -> int {
    if fired(pq, now) {
        pq.server_idx + 1
    } else {
        pq.server_idx as int
    }
}

/// Whether a dispatch at `now` would emit for this pending query: its
/// effective resolver exists and is specified, and the query is due (a
/// fired deadline resets the backoff, so it is due at once).
pub open spec fn actionable(pq: PendingQuery, now: u64, servers: Seq<IpAddress>) -> bool {
    &&& effective_idx(pq, now) < servers.len()
    &&& !spec_is_unspecified(servers[effective_idx(pq, now)])
    &&& (fired(pq, now) || pq.retransmit_at.millis <= now)
}

/// `actionable`, lifted to a slot.
pub open spec fn slot_actionable(s: Option<DnsQuery>, now: u64, servers: Seq<IpAddress>) -> bool {
    match s {
        Some(q) => match q.state {
            State::Pending(pq) => actionable(pq, now, servers),
            _ => false,
        },
        None => false,
    }
}

/// How a dispatch visit rewrites a pending query that stays pending: the
/// question and its correlators never change (the transaction id and port
/// are chosen once, at start); the deadline is armed; a fired deadline
/// advances to the next resolver with a fresh backoff.
pub open spec fn visited_pending(p0: PendingQuery, p1: PendingQuery, now: u64) -> bool {
    &&& p1.name@ == p0.name@
    &&& p1.type_ == p0.type_
    &&& p1.port == p0.port
    &&& p1.txid == p0.txid
    &&& p1.server_idx as int == effective_idx(p0, now)
    &&& armed_deadline(p0, p1, now)
    &&& (fired(p0, now) ==> p1.retransmit_at.millis == 0 && p1.delay.millis
        == RETRANSMIT_DELAY_MS)
    &&& (!fired(p0, now) ==> p1.retransmit_at == p0.retransmit_at && p1.delay == p0.delay)
}

/// The per-resolver deadline a dispatch visit leaves behind: a missing or
/// fired deadline is re-armed to `now + RETRANSMIT_TIMEOUT_MS`; a live one
/// stays as it was.
pub open spec fn armed_deadline(p0: PendingQuery, p1: PendingQuery, now: u64) -> bool {
    if fired(p0, now) || p0.timeout_at is None {
        p1.timeout_at matches Some(t1) && t1.millis == now + RETRANSMIT_TIMEOUT_MS
    } else {
        p1.timeout_at == p0.timeout_at
    }
}

/// How a dispatch visit rewrites the one pending query it emits for: on
/// top of the visit itself, the backoff advances. With `d` the backoff the
/// visit left (fresh after a failover, unchanged otherwise), the next
/// retransmit is due at `now + d` and the backoff doubles, capped at
/// `MAX_RETRANSMIT_DELAY_MS`.
pub open spec fn advanced_pending(p0: PendingQuery, p1: PendingQuery, now: u64) -> bool {
    let d = if fired(p0, now) {
        RETRANSMIT_DELAY_MS
    } else {
        p0.delay.millis
    };
    &&& p1.name@ == p0.name@
    &&& p1.type_ == p0.type_
    &&& p1.port == p0.port
    &&& p1.txid == p0.txid
    &&& p1.server_idx as int == effective_idx(p0, now)
    &&& armed_deadline(p0, p1, now)
    &&& p1.retransmit_at.millis == now + d
    &&& p1.delay.millis == (if 2 * d > MAX_RETRANSMIT_DELAY_MS {
        MAX_RETRANSMIT_DELAY_MS as int
    } else {
        2 * d
    })
}

/// How one slot may change across a `dispatch` call: it stays as it is, a
/// pending query fails (resolvers exhausted or unspecified), or it stays
/// pending, either merely visited (deadline armed, a fired deadline moving
/// it to the next resolver) or emitted with its backoff advanced. The
/// question and its correlators never change either way.
pub open spec fn dispatch_transition(
    s_old: Option<DnsQuery>,
    s_new: Option<DnsQuery>,
    now: u64,
) -> bool {
    ||| s_new == s_old
    ||| (slot_is_pending(s_old) && s_new == Some(DnsQuery { state: State::Failure }))
    ||| (match (s_old, s_new) {
        (Some(q0), Some(q1)) => match (q0.state, q1.state) {
            (State::Pending(p0), State::Pending(p1)) => visited_pending(p0, p1, now)
                || advanced_pending(p0, p1, now),
            _ => false,
        },
        _ => false,
    })
}

/// What a dispatch visit at `now` deterministically does to one slot it
/// scans past without emitting: empty and finished slots stay as they are;
/// a pending query whose effective resolver is missing or unspecified
/// fails; any other pending query is visited (deadline armed, a fired
/// deadline moving it to the next resolver with a fresh backoff).
pub open spec fn scan_slot(
    s_old: Option<DnsQuery>,
    s_new: Option<DnsQuery>,
    now: u64,
    servers: Seq<IpAddress>,
) -> bool {
    match s_old {
        None => s_new == s_old,
        Some(q0) => match q0.state {
            State::Pending(p0) => {
                if effective_idx(p0, now) >= servers.len() {
                    s_new == Some(DnsQuery { state: State::Failure })
                } else if spec_is_unspecified(servers[effective_idx(p0, now)]) {
                    s_new == Some(DnsQuery { state: State::Failure })
                } else {
                    match s_new {
                        Some(q1) => match q1.state {
                            State::Pending(p1) => visited_pending(p0, p1, now),
                            _ => false,
                        },
                        None => false,
                    }
                }
            },
            _ => s_new == s_old,
        },
    }
}

/// The index of the first slot a dispatch at `now` would emit for, at or
/// after `i`, or -1 when none is due.
pub open spec fn first_actionable_from(
    slots: Seq<Option<DnsQuery>>,
    now: u64,
    servers: Seq<IpAddress>,
    i: int,
) -> int
    decreases slots.len() - i,
        when 0 <= i
{
    if i >= slots.len() {
        -1
    } else if slot_actionable(slots[i], now, servers) {
        i
    } else {
        first_actionable_from(slots, now, servers, i + 1)
    }
}

/// Searching from the start and searching past a prefix with nothing due
/// find the same slot.
proof fn lemma_first_actionable_skip(
    slots: Seq<Option<DnsQuery>>,
    now: u64,
    servers: Seq<IpAddress>,
    i: int,
)
    requires
        0 <= i <= slots.len(),
        forall|j: int| 0 <= j < i ==> !slot_actionable(#[trigger] slots[j], now, servers),
    ensures
        first_actionable_from(slots, now, servers, 0) == first_actionable_from(
            slots,
            now,
            servers,
            i,
        ),
    decreases i,
{
    if i > 0 {
        lemma_first_actionable_skip(slots, now, servers, i - 1);
    }
}

/// The datagram a `dispatch` on socket `s` in context `cx` would emit for
/// the pending query in slot `m`: a well-formed query addressed from the
/// context's source address to the slot's effective resolver on the DNS
/// port, carrying the slot's transaction id and name, under the configured
/// hop limit.
pub open spec fn dispatch_emission_at(
    s: DnsSocket,
    cx: Context,
    m: int,
    args: (IpRepr, UdpRepr, &Vec<u8>),
) -> bool {
    0 <= m < s.slots().len() && match s.slots()[m] {
            Some(q) => match q.state {
                State::Pending(pq) => {
                    let idx = effective_idx(pq, cx.now.millis);
                    &&& actionable(pq, cx.now.millis, s.servers@)
                    &&& match cx.source_address {
                        Some(src) => args.0 == (IpRepr {
                            src_addr: src,
                            dst_addr: s.servers@[idx],
                            protocol: IpProtocol::Udp,
                            payload_len: (8 + pq.name@.len() + 16) as usize,
                            hop_limit: match s.hop_limit {
                                Some(h) => h,
                                None => DEFAULT_HOP_LIMIT,
                            },
                        }),
                        None => false,
                    }
                    &&& args.1 == (UdpRepr { src_port: pq.port, dst_port: DNS_PORT })
                    &&& args.2@ == spec_query_bytes(pq.txid, pq.name@)
                },
                _ => false,
            },
            None => false,
        }
}

/// The datagrams a `dispatch` may hand to its emit callback at all: a
/// query for one of the socket's actionable pending slots.
pub open spec fn dispatch_emission(s: DnsSocket, cx: Context, args: (IpRepr, UdpRepr, &Vec<u8>)) -> bool {
    exists|i: int| #[trigger] dispatch_emission_at(s, cx, i, args)
}

/// Every reachable pending query keeps its backoff within one to ten
/// seconds and its resolver index within the resolver list: the socket
/// invariant, spelled out. Every operation's contract carries `wf` (and,
/// short of a shrinking resolver update, `servers_in_range`) from state to
/// state, so this holds of every reachable state.
pub proof fn lemma_pending_bounds(s: DnsSocket, i: int)
    requires
        s.wf(),
        s.servers_in_range(),
        0 <= i < s.slots().len(),
    ensures
        match s.slots()[i] {
            Some(q) => match q.state {
                State::Pending(pq) => RETRANSMIT_DELAY_MS <= pq.delay.millis
                    <= MAX_RETRANSMIT_DELAY_MS && pq.server_idx <= s.servers@.len(),
                _ => true,
            },
            None => true,
        },
{
}

/// Once a slot is `Completed` or `Failure`, neither `process` nor
/// `dispatch` changes it again: a query leaves `Pending` at most once, and
/// after that only result retrieval or a cancel empties the slot.
pub proof fn lemma_finished_slots_are_final(
    s_old: Option<DnsQuery>,
    s_new: Option<DnsQuery>,
    now: u64,
)
    requires
        slot_is_finished(s_old),
        process_transition(s_old, s_new) || dispatch_transition(s_old, s_new, now),
    ensures
        s_new == s_old,
{
}

/// A Domain Name System socket.
#[derive(Debug)]
pub struct DnsSocket {
    /// The configured resolvers, tried in order.
    pub servers: Vec<IpAddress>,
    /// The bounded table of query slots.
    pub queries: SlotStorage,
    /// The time-to-live (IPv4) or hop limit (IPv6) for outgoing packets,
    /// or `None` for the default.
    pub hop_limit: Option<u8>,
}

impl DnsSocket {
    /// The slot table as a sequence.
    pub open spec fn slots(&self) -> Seq<Option<DnsQuery>> {
        self.queries.slots()
    }

    /// The socket invariant: at most `MAX_SERVER_COUNT` resolvers, a
    /// nonzero hop limit, and every slot well-formed.
    pub open spec fn wf(&self) -> bool {
        &&& self.servers@.len() <= MAX_SERVER_COUNT
        &&& self.hop_limit != Some(0u8)
        &&& forall|i: int| 0 <= i < self.slots().len() ==> slot_wf(#[trigger] self.slots()[i])
    }

    /// Every pending query's server index stays within the resolver list
    /// (it can step past it only transiently, inside one dispatch, right
    /// before the query fails). Replacing the resolver list with a shorter
    /// one is the one operation that may break this; such queries fail on
    /// their next dispatch.
    pub open spec fn servers_in_range(&self) -> bool {
        forall|i: int|
            0 <= i < self.slots().len() ==> match #[trigger] self.slots()[i] {
                Some(q) => match q.state {
                    State::Pending(pq) => pq.server_idx <= self.servers@.len(),
                    _ => true,
                },
                None => true,
            }
    }

    /// Create a DNS socket.
    pub fn new(servers: &[IpAddress], queries: SlotStorage) -> (r: DnsSocket)
        requires
            servers@.len() <= MAX_SERVER_COUNT,
            forall|i: int| 0 <= i < queries.slots().len() ==> slot_wf(#[trigger] queries.slots()[i]),
            forall|i: int|
                0 <= i < queries.slots().len() ==> match #[trigger] queries.slots()[i] {
                    Some(q) => match q.state {
                        State::Pending(pq) => pq.server_idx <= servers@.len(),
                        _ => true,
                    },
                    None => true,
                },
        ensures
            r.servers@ == servers@,
            r.queries.slots() == queries.slots(),
            r.hop_limit is None,
            r.wf(),
            r.servers_in_range(),
    {
        DnsSocket { servers: slice_to_vec(servers), queries, hop_limit: None }
    }

    /// Update the list of DNS servers, replacing all existing ones.
    /// Outstanding queries keep their server index; one now out of range
    /// makes its query fail on the next dispatch.
    pub fn update_servers(&mut self, servers: &[IpAddress])
        requires
            old(self).wf(),
            servers@.len() <= MAX_SERVER_COUNT,
        ensures
            final(self).servers@ == servers@,
            final(self).queries == old(self).queries,
            final(self).hop_limit == old(self).hop_limit,
            final(self).wf(),
            old(self).servers_in_range() && servers@.len() >= old(self).servers@.len() ==> final(self).servers_in_range(),
    {
        self.servers = slice_to_vec(servers);
        proof {
            assert(self.queries == old(self).queries);
            assert(self.slots() =~= old(self).slots());
            assert(forall|i: int|
                0 <= i < self.slots().len() ==> slot_wf(#[trigger] self.slots()[i]));
        }
    }

    /// Return the hop limit for outgoing packets, or `None` for the
    /// default.
    pub fn hop_limit(&self) -> (r: Option<u8>)
        ensures
            r == self.hop_limit,
    {
        self.hop_limit
    }

    /// Set the hop limit for outgoing packets. A host must never send a
    /// datagram with a hop limit of zero, so `Some(0)` is left out.
    pub fn set_hop_limit(&mut self, hop_limit: Option<u8>)
        requires
            old(self).wf(),
            hop_limit != Some(0u8),
        ensures
            final(self).hop_limit == hop_limit,
            final(self).servers@ == old(self).servers@,
            final(self).queries == old(self).queries,
            final(self).wf(),
            old(self).servers_in_range() ==> final(self).servers_in_range(),
    {
        self.hop_limit = hop_limit;
        proof {
            assert(self.slots() =~= old(self).slots());
            assert(forall|i: int|
                0 <= i < self.slots().len() ==> slot_wf(#[trigger] self.slots()[i]));
        }
    }

    /// Find a free slot, growing an owned table if every slot is taken.
    fn find_free_query(&mut self) -> (r: Result<QueryHandle, Error>)
        ensures
            final(self).servers@ == old(self).servers@,
            final(self).hop_limit == old(self).hop_limit,
            match r {
                Ok(h) => {
                    &&& h.0 < final(self).slots().len()
                    &&& final(self).slots()[h.0 as int] is None
                    &&& forall|j: int| 0 <= j < h.0 ==> !(#[trigger] old(self).slots()[j] is None)
                    &&& (final(self).slots() == old(self).slots() || (final(self).slots() == old(self).slots().push(None) && h.0 == old(self).slots().len()))
                    &&& (final(self).queries is Fixed <==> old(self).queries is Fixed)
                    &&& (old(self).queries is Fixed ==> final(self).slots() == old(self).slots())
                },
                Err(e) => {
                    &&& e == Error::Exhausted
                    &&& final(self).queries == old(self).queries
                    &&& final(self).queries is Fixed
                    &&& forall|i: int|
                        0 <= i < final(self).slots().len() ==> !(#[trigger] final(self).slots()[i] is None)
                },
            },
    {
        let n = self.queries.len();
        let mut i: usize = 0;
        while i < n
            invariant
                *self == *old(self),
                n == self.slots().len(),
                i <= n,
                forall|j: int| 0 <= j < i ==> !(#[trigger] self.slots()[j] is None),
            decreases n - i,
        {
            if self.queries.get(i).is_none() {
                return Ok(QueryHandle(i));
            }
            i = i + 1;
        }
        match &self.queries {
            SlotStorage::Fixed(_) => Err(Error::Exhausted),
            SlotStorage::Growable(_) => {
                let idx = self.queries.grow();
                Ok(QueryHandle(idx))
            },
        }
    }

    /// Every slot is taken and the table cannot grow: the next query
    /// cannot be started.
    pub open spec fn no_free_slot(&self) -> bool {
        self.queries is Fixed && forall|i: int|
            0 <= i < self.slots().len() ==> !(#[trigger] self.slots()[i] is None)
    }

    /// What a fresh query slot looks like: `s1`/`c1` are the socket and
    /// context after a start, `s0`/`c0` before, `h` the returned handle and
    /// `name` the stored wire-format name. The transaction id and source
    /// port are the next two draws of the context's random source; the
    /// retransmit deadline is epoch zero so the first dispatch sends at
    /// once.
    pub open spec fn query_started(
        s0: DnsSocket,
        s1: DnsSocket,
        c0: Context,
        c1: Context,
        h: QueryHandle,
        name: Seq<u8>,
    ) -> bool {
        &&& h.0 < s1.slots().len()
        &&& (h.0 < s0.slots().len() ==> s0.slots()[h.0 as int] is None)
        &&& forall|j: int| 0 <= j < h.0 ==> !(#[trigger] s0.slots()[j] is None)
        &&& (s1.slots().len() == s0.slots().len() || (s1.slots().len() == s0.slots().len() + 1
            && h.0 == s0.slots().len()))
        &&& (s1.queries is Fixed <==> s0.queries is Fixed)
        &&& (s0.queries is Fixed ==> s1.slots().len() == s0.slots().len())
        &&& forall|i: int|
            0 <= i < s0.slots().len() && i != h.0 ==> s1.slots()[i] == #[trigger] s0.slots()[i]
        &&& match s1.slots()[h.0 as int] {
            Some(q) => match q.state {
                State::Pending(pq) => {
                    &&& pq.name@ == name
                    &&& pq.type_ == Type::A
                    &&& pq.txid == (crate::rand::next_state(c0.rand.state) >> 48) as u16
                    &&& pq.port == 49152 + ((crate::rand::next_state(
                        crate::rand::next_state(c0.rand.state),
                    ) >> 48) as u16) % 16384
                    &&& 49152 <= pq.port <= 65535
                    &&& pq.timeout_at is None
                    &&& pq.retransmit_at.millis == 0
                    &&& pq.delay.millis == RETRANSMIT_DELAY_MS
                    &&& pq.server_idx == 0
                },
                _ => false,
            },
            None => false,
        }
        &&& c1.rand.state == crate::rand::next_state(crate::rand::next_state(c0.rand.state))
        &&& c1.now == c0.now
        &&& c1.source_address == c0.source_address
    }

    /// Start a query with a raw wire-format name such as
    /// `b"\x09rust-lang\x03org\x00"`. A name longer than `MAX_NAME_LEN`
    /// octets does not fit the bounded name buffer and fails with
    /// `Exhausted`, as does a slot table with every slot taken and no room
    /// to grow. A name that is not structurally a valid uncompressed wire
    /// name (a bad label length, a missing terminator) is refused as
    /// `Illegal`.
    pub fn start_query_raw(&mut self, cx: &mut Context, raw_name: &[u8]) -> (r: Result<
        QueryHandle,
        Error,
    >)
        requires
            old(self).wf(),
        ensures
            final(self).servers@ == old(self).servers@,
            final(self).hop_limit == old(self).hop_limit,
            final(self).wf(),
            old(self).servers_in_range() ==> final(self).servers_in_range(),
            match r {
                Ok(h) => valid_wire_name(raw_name@) && Self::query_started(
                    *old(self),
                    *final(self),
                    *old(cx),
                    *final(cx),
                    h,
                    raw_name@,
                ),
                Err(e) => {
                    &&& final(self).slots() == old(self).slots()
                    &&& final(self).queries is Fixed <==> old(self).queries is Fixed
                    &&& *final(cx) == *old(cx)
                    &&& (e == Error::Exhausted <==> raw_name@.len() > MAX_NAME_LEN || (
                    valid_wire_name(raw_name@) && old(self).no_free_slot()))
                    &&& (e == Error::Illegal <==> raw_name@.len() <= MAX_NAME_LEN
                        && !valid_wire_name(raw_name@))
                    &&& (e == Error::Illegal || e == Error::Exhausted)
                },
            },
    {
        if raw_name.len() > MAX_NAME_LEN {
            return Err(Error::Exhausted);
        }
        if !is_valid_name(raw_name) {
            return Err(Error::Illegal);
        }
        let handle = match self.find_free_query() {
            Ok(h) => h,
            Err(e) => {
                return Err(e);
            },
        };
        let txid = cx.rand.rand_u16();
        let port = cx.rand.rand_source_port();
        let query = DnsQuery {
            state: State::Pending(
                PendingQuery {
                    name: slice_to_vec(raw_name),
                    type_: Type::A,
                    txid,
                    port,
                    delay: Duration { millis: RETRANSMIT_DELAY_MS },
                    timeout_at: None,
                    retransmit_at: Instant { millis: 0 },
                    server_idx: 0,
                },
            ),
        };
        self.queries.put(handle.0, Some(query));
        proof {
            assert(forall|i: int|
                0 <= i < old(self).slots().len() && i != handle.0 ==> self.slots()[i]
                    == #[trigger] old(self).slots()[i]);
            assert(forall|i: int|
                0 <= i < self.slots().len() ==> slot_wf(#[trigger] self.slots()[i]));
        }
        Ok(handle)
    }

    /// Start a query.
    ///
    /// `name` is in human-friendly form, such as `"rust-lang.org"`, with or
    /// without a trailing dot. An empty name, an empty label or one over
    /// 255 octets is refused as `Illegal`; a name whose wire form exceeds
    /// `MAX_NAME_LEN` octets fails with `Exhausted`, as does a full slot
    /// table. A label of 192 octets or more cannot be told apart from a
    /// compression pointer on the wire, so such a name is refused as
    /// `Illegal` too.
    pub fn start_query(&mut self, cx: &mut Context, name: &str) -> (r: Result<QueryHandle, Error>)
        requires
            old(self).wf(),
        ensures
            final(self).servers@ == old(self).servers@,
            final(self).hop_limit == old(self).hop_limit,
            final(self).wf(),
            old(self).servers_in_range() ==> final(self).servers_in_range(),
            ({
                let enc = encode_dns_name(name.spec_bytes());
                match r {
                    Ok(h) => enc matches Ok(w) && valid_wire_name(w) && Self::query_started(
                        *old(self),
                        *final(self),
                        *old(cx),
                        *final(cx),
                        h,
                        w,
                    ),
                    Err(e) => {
                        &&& final(self).slots() == old(self).slots()
                        &&& final(self).queries is Fixed <==> old(self).queries is Fixed
                        &&& *final(cx) == *old(cx)
                        &&& (e == Error::Illegal <==> (enc == Err::<Seq<u8>, Error>(Error::Illegal)
                            || (enc matches Ok(w) && !valid_wire_name(w))))
                        &&& (e == Error::Exhausted <==> (enc == Err::<Seq<u8>, Error>(
                            Error::Exhausted,
                        ) || (enc matches Ok(w) && valid_wire_name(w) && old(self).no_free_slot())))
                        &&& (e == Error::Illegal || e == Error::Exhausted)
                    },
                }
            }),
    {
        let bytes_full = name.as_bytes();
        if bytes_full.len() == 0 {
            return Err(Error::Illegal);
        }
        let blen = if bytes_full[bytes_full.len() - 1] == 46 {
            bytes_full.len() - 1
        } else {
            bytes_full.len()
        };
        let b = &bytes_full[0..blen];
        proof {
            assert(b@ == stripped_name(name.spec_bytes()));
        }
        let mut raw: Vec<u8> = Vec::new();
        let mut start: usize = 0;
        proof {
            let r0 = encode_from(b@, 0);
            if r0 is Ok {
                assert(raw@ + r0.unwrap() =~= r0.unwrap());
            }
        }
        loop
            invariant_except_break
                *self == *old(self),
                *cx == *old(cx),
                old(self).wf(),
                b@ == stripped_name(name.spec_bytes()),
                name.spec_bytes().len() > 0,
                blen == b@.len(),
                0 <= start <= blen,
                (match encode_from(b@, start as int) {
                    Ok(rest) => encode_from(b@, 0) == Ok::<_, Error>(raw@ + rest),
                    Err(e) => encode_from(b@, 0) == Err::<Seq<u8>, _>(e),
                }),
            ensures
                *self == *old(self),
                *cx == *old(cx),
                old(self).wf(),
                b@ == stripped_name(name.spec_bytes()),
                name.spec_bytes().len() > 0,
                encode_from(b@, 0) == Ok::<_, Error>(raw@),
            decreases blen - start,
        {
            let mut j: usize = start;
            while j < blen && b[j] != 46
                invariant
                    *self == *old(self),
                    *cx == *old(cx),
                    old(self).wf(),
                    blen == b@.len(),
                    start <= j <= blen,
                    find_dot(b@, start as int) == find_dot(b@, j as int),
                decreases blen - j,
            {
                j = j + 1;
            }
            proof {
                assert(find_dot(b@, start as int) == j);
            }
            let lab_len = j - start;
            if lab_len == 0 {
                return Err(Error::Illegal);
            }
            if lab_len > 255 {
                return Err(Error::Illegal);
            }
            let ghost raw_pre = raw@;
            raw.push(lab_len as u8);
            raw.extend_from_slice(&b[start..j]);
            proof {
                assert(raw@ =~= raw_pre + seq![lab_len as u8] + b@.subrange(
                    start as int,
                    j as int,
                ));
            }
            if j >= blen {
                raw.push(0);
                proof {
                    assert(raw@ =~= raw_pre + (seq![lab_len as u8] + b@.subrange(
                        start as int,
                        j as int,
                    ) + seq![0u8]));
                }
                break;
            }
            proof {
                let rest = encode_from(b@, j + 1);
                if rest is Ok {
                    assert(raw@ + rest.unwrap() =~= raw_pre + (seq![lab_len as u8] + b@.subrange(
                        start as int,
                        j as int,
                    ) + rest.unwrap()));
                }
            }
            start = j + 1;
        }
        if raw.len() > MAX_NAME_LEN {
            return Err(Error::Exhausted);
        }
        self.start_query_raw(cx, raw.as_slice())
    }

    /// Look the query's slot up; an out-of-range or freed handle is
    /// invalid.
    pub open spec fn handle_valid(&self, handle: QueryHandle) -> bool {
        handle.0 < self.slots().len() && self.slots()[handle.0 as int] is Some
    }

    /// Return a finished query's addresses, freeing its slot: a completed
    /// query yields its addresses, a failed one `Unaddressable`. A query
    /// still pending yields `Exhausted` and keeps its slot; an invalid
    /// handle yields `Illegal`.
    pub fn get_query_result(&mut self, handle: QueryHandle) -> (r: Result<Vec<IpAddress>, Error>)
        requires
            old(self).wf(),
        ensures
            final(self).servers@ == old(self).servers@,
            final(self).hop_limit == old(self).hop_limit,
            final(self).queries is Fixed <==> old(self).queries is Fixed,
            final(self).wf(),
            old(self).servers_in_range() ==> final(self).servers_in_range(),
            match r {
                Ok(addrs) => {
                    &&& old(self).handle_valid(handle)
                    &&& match old(self).slots()[handle.0 as int] {
                        Some(q) => q.state matches State::Completed(c) && addrs@ == c.addresses@,
                        None => false,
                    }
                    &&& final(self).slots() == old(self).slots().update(handle.0 as int, None)
                },
                Err(e) => {
                    &&& (e == Error::Illegal <==> !old(self).handle_valid(handle))
                    &&& (e == Error::Exhausted <==> slot_is_pending(
                        old(self).slots()[handle.0 as int],
                    ) && old(self).handle_valid(handle))
                    &&& (e == Error::Illegal || e == Error::Exhausted ==> final(self).slots()
                        == old(self).slots())
                    &&& (e == Error::Unaddressable <==> old(self).handle_valid(handle) && match old(self).slots()[handle.0 as int] {
                        Some(q) => q.state is Failure,
                        None => false,
                    })
                    &&& (e == Error::Unaddressable ==> final(self).slots() == old(self).slots().update(handle.0 as int, None))
                    &&& (e == Error::Illegal || e == Error::Exhausted || e == Error::Unaddressable)
                },
            },
    {
        if handle.0 >= self.queries.len() {
            return Err(Error::Illegal);
        }
        let outcome: Result<Vec<IpAddress>, Error> = match self.queries.get(handle.0) {
            None => {
                return Err(Error::Illegal);
            },
            Some(q) => match &q.state {
                State::Pending(_) => {
                    return Err(Error::Exhausted);
                },
                State::Completed(c) => Ok(slice_to_vec(c.addresses.as_slice())),
                State::Failure => Err(Error::Unaddressable),
            },
        };
        self.queries.put(handle.0, None);
        outcome
    }

    /// Free the query's slot. A second cancel of the same handle finds the
    /// slot already free and is refused as `Illegal`: cancelling is
    /// idempotent past the free.
    pub fn cancel_query(&mut self, handle: QueryHandle) -> (r: Result<(), Error>)
        requires
            old(self).wf(),
        ensures
            final(self).servers@ == old(self).servers@,
            final(self).hop_limit == old(self).hop_limit,
            final(self).queries is Fixed <==> old(self).queries is Fixed,
            final(self).wf(),
            old(self).servers_in_range() ==> final(self).servers_in_range(),
            r == Ok::<(), Error>(()) <==> old(self).handle_valid(handle),
            r is Err ==> r == Err::<(), Error>(Error::Illegal) && final(self).slots() == old(self).slots(),
            r is Ok ==> final(self).slots() == old(self).slots().update(handle.0 as int, None),
    {
        if handle.0 >= self.queries.len() {
            return Err(Error::Illegal);
        }
        if self.queries.get(handle.0).is_none() {
            return Err(Error::Illegal);
        }
        self.queries.put(handle.0, None);
        Ok(())
    }

    /// Whether the socket accepts this ingress datagram: source port 53 and
    /// a source address that is one of the configured resolvers.
    pub open spec fn spec_accepts(&self, ip_repr: IpRepr, udp_repr: UdpRepr) -> bool {
        udp_repr.src_port == DNS_PORT && exists|j: int|
            0 <= j < self.servers@.len() && (#[trigger] self.servers@[j]) == ip_repr.src_addr
    }

    /// Decide whether an ingress datagram is for this socket.
    pub fn accepts(&self, ip_repr: &IpRepr, udp_repr: &UdpRepr) -> (r: bool)
        ensures
            r == self.spec_accepts(*ip_repr, *udp_repr),
    {
        if udp_repr.src_port != DNS_PORT {
            return false;
        }
        let n = self.servers.len();
        let mut j: usize = 0;
        while j < n
            invariant
                n == self.servers@.len(),
                j <= n,
                udp_repr.src_port == DNS_PORT,
                forall|k: int| 0 <= k < j ==> self.servers@[k] != ip_repr.src_addr,
            decreases n - j,
        {
            if self.servers[j] == ip_repr.src_addr() {
                proof {
                    assert(0 <= j < self.servers@.len() && self.servers@[j as int]
                        == ip_repr.src_addr);
                }
                return true;
            }
            j = j + 1;
        }
        false
    }

    /// Handle one ingress datagram that `accepts` let through.
    ///
    /// A packet whose header cannot be read, or that is not a single-question
    /// query-opcode response, is refused as `Malformed` and changes nothing.
    /// A packet that correlates with no pending slot by `(dst_port, txid)`
    /// is a stray and is dropped in silence: `Ok` with nothing changed. An
    /// NXDOMAIN response fails every slot it correlates with. Otherwise the
    /// first correlated slot is resolved against the packet's question and
    /// answers; a parse failure or question mismatch refuses the packet with
    /// nothing changed, and a completed walk finishes the query: `Completed`
    /// with the collected addresses, or `Failure` when there were none.
    pub fn process(
        &mut self,
        cx: &Context,
        ip_repr: &IpRepr,
        udp_repr: &UdpRepr,
        payload: &[u8],
    ) -> (r: Result<(), Error>)
        requires
            old(self).wf(),
            old(self).spec_accepts(*ip_repr, *udp_repr),
        ensures
            final(self).servers@ == old(self).servers@,
            final(self).hop_limit == old(self).hop_limit,
            final(self).slots().len() == old(self).slots().len(),
            final(self).queries is Fixed <==> old(self).queries is Fixed,
            final(self).wf(),
            old(self).servers_in_range() ==> final(self).servers_in_range(),
            forall|i: int|
                0 <= i < old(self).slots().len() ==> process_transition(
                    #[trigger] old(self).slots()[i],
                    final(self).slots()[i],
                ),
            !good_header(payload@) ==> r == Err::<(), Error>(Error::Malformed) && *final(self)
                == *old(self),
            ({
                let hdr = spec_parse_header(payload@);
                good_header(payload@) ==> match hdr {
                    Ok(h) => {
                        let m = first_match_from(
                            old(self).slots(),
                            udp_repr.dst_port,
                            h.transaction_id,
                            0,
                        );
                        &&& (m == -1 ==> r == Ok::<(), Error>(()) && *final(self) == *old(self))
                        &&& (rcode_of(h.flags) == RCODE_NXDOMAIN ==> r == Ok::<(), Error>(())
                            && forall|i: int|
                            0 <= i < old(self).slots().len() ==> final(self).slots()[i] == (
                            if slot_matches(
                                #[trigger] old(self).slots()[i],
                                udp_repr.dst_port,
                                h.transaction_id,
                            ) {
                                Some(DnsQuery { state: State::Failure })
                            } else {
                                old(self).slots()[i]
                            }))
                        &&& (m >= 0 && rcode_of(h.flags) != RCODE_NXDOMAIN ==> match old(self).slots()[m] {
                            Some(q0) => match q0.state {
                                State::Pending(pq) => match response_outcome(payload@, h, pq) {
                                    Err(e) => r == Err::<(), Error>(e) && *final(self) == *old(self),
                                    Ok(addrs) => {
                                        &&& r == Ok::<(), Error>(())
                                        &&& forall|i: int|
                                            0 <= i < old(self).slots().len() && i != m ==> final(self).slots()[i] == #[trigger] old(self).slots()[i]
                                        &&& (addrs.len() == 0 ==> final(self).slots()[m] == Some(
                                            DnsQuery { state: State::Failure },
                                        ))
                                        &&& (addrs.len() > 0 ==> match final(self).slots()[m] {
                                            Some(q1) => match q1.state {
                                                State::Completed(c) => c.addresses@ == addrs,
                                                _ => false,
                                            },
                                            None => false,
                                        })
                                    },
                                },
                                _ => false,
                            },
                            None => false,
                        })
                    },
                    Err(_) => false,
                }
            }),
    {
        let _ = cx;
        let header = match parse_header(payload) {
            Ok(h) => h,
            Err(e) => {
                return Err(e);
            },
        };
        if header.opcode() != OPCODE_QUERY {
            return Err(Error::Malformed);
        }
        if !header.is_response() {
            return Err(Error::Malformed);
        }
        if header.question_count != 1 {
            return Err(Error::Malformed);
        }
        let nx = header.rcode() == RCODE_NXDOMAIN;
        let n = self.queries.len();
        let mut i: usize = 0;
        while i < n
            invariant
                n == self.slots().len(),
                old(self).slots().len() == n,
                i <= n,
                old(self).wf(),
                self.wf(),
                self.servers@ == old(self).servers@,
                self.hop_limit == old(self).hop_limit,
                self.queries is Fixed <==> old(self).queries is Fixed,
                old(self).servers_in_range() ==> self.servers_in_range(),
                spec_parse_header(payload@) == Ok::<Header, Error>(header),
                good_header(payload@),
                nx == (rcode_of(header.flags) == RCODE_NXDOMAIN),
                (forall|j: int|
                    0 <= j < i ==> !slot_matches(
                        #[trigger] old(self).slots()[j],
                        udp_repr.dst_port,
                        header.transaction_id,
                    )) ==> *self == *old(self),
                forall|j: int|
                    i <= j < n ==> self.slots()[j] == #[trigger] old(self).slots()[j],
                forall|j: int|
                    0 <= j < i && !slot_matches(
                        #[trigger] old(self).slots()[j],
                        udp_repr.dst_port,
                        header.transaction_id,
                    ) ==> self.slots()[j] == old(self).slots()[j],
                nx ==> forall|j: int|
                    0 <= j < i && slot_matches(
                        #[trigger] old(self).slots()[j],
                        udp_repr.dst_port,
                        header.transaction_id,
                    ) ==> self.slots()[j] == Some(DnsQuery { state: State::Failure }),
                !nx ==> *self == *old(self) && forall|j: int|
                    0 <= j < i ==> !slot_matches(
                        #[trigger] old(self).slots()[j],
                        udp_repr.dst_port,
                        header.transaction_id,
                    ),
            decreases n - i,
        {
            let mut matched: Option<(Type, Vec<u8>)> = None;
            match self.queries.get(i) {
                Some(q) => match &q.state {
                    State::Pending(pq) => {
                        if udp_repr.dst_port == pq.port && header.transaction_id == pq.txid {
                            matched = Some((pq.type_, slice_to_vec(pq.name.as_slice())));
                        }
                    },
                    _ => {},
                },
                None => {},
            }
            match matched {
                None => {},
                Some((ptype, pname)) => {
                    let ghost pname0 = pname@;
                    if nx {
                        self.queries.put(i, Some(DnsQuery { state: State::Failure }));
                    } else {
                        proof {
                            lemma_first_match_skip(
                                old(self).slots(),
                                udp_repr.dst_port,
                                header.transaction_id,
                                i as int,
                            );
                            assert(first_match_from(
                                old(self).slots(),
                                udp_repr.dst_port,
                                header.transaction_id,
                                0,
                            ) == i);
                        }
                        let (question, qend) = match parse_question(payload, HEADER_LEN) {
                            Ok(v) => v,
                            Err(e) => {
                                return Err(e);
                            },
                        };
                        if question.type_ != ptype {
                            return Err(Error::Malformed);
                        }
                        if !eq_names(question.name.as_slice(), pname.as_slice()) {
                            return Err(Error::Malformed);
                        }
                        let ghost target = spec_process_answers(
                            payload@,
                            qend as int,
                            header.answer_record_count as int,
                            pname@,
                            Seq::empty(),
                        );
                        let mut addresses: Vec<IpAddress> = Vec::new();
                        let mut cur_name: Vec<u8> = pname;
                        let mut off: usize = qend;
                        let mut k: u16 = 0;
                        let ancount = header.answer_record_count;
                        while k < ancount
                            invariant
                                *self == *old(self),
                                old(self).wf(),
                                n == self.slots().len(),
                                i < n,
                                spec_parse_header(payload@) == Ok::<Header, Error>(header),
                                good_header(payload@),
                                rcode_of(header.flags) != RCODE_NXDOMAIN,
                                ancount == header.answer_record_count,
                                first_match_from(
                                    old(self).slots(),
                                    udp_repr.dst_port,
                                    header.transaction_id,
                                    0,
                                ) == i,
                                match old(self).slots()[i as int] {
                                    Some(q0) => match q0.state {
                                        State::Pending(pq) => pq.name@ == pname0
                                            && response_outcome(payload@, header, pq) == target,
                                        _ => false,
                                    },
                                    None => false,
                                },
                                k <= ancount,
                                addresses@.len() <= MAX_ADDRESS_COUNT,
                                target == spec_process_answers(
                                    payload@,
                                    off as int,
                                    (ancount - k) as int,
                                    cur_name@,
                                    addresses@,
                                ),
                            decreases ancount - k,
                        {
                            let (rec, off2) = match parse_record(payload, off) {
                                Ok(v) => v,
                                Err(e) => {
                                    return Err(e);
                                },
                            };
                            if eq_names(rec.name.as_slice(), cur_name.as_slice()) {
                                match rec.data {
                                    RecordData::A(a) => {
                                        if addresses.len() < MAX_ADDRESS_COUNT {
                                            addresses.push(IpAddress::Ipv4(a));
                                        }
                                    },
                                    RecordData::Aaaa(a) => {
                                        if addresses.len() < MAX_ADDRESS_COUNT {
                                            addresses.push(IpAddress::Ipv6(a));
                                        }
                                    },
                                    RecordData::Cname(n2) => {
                                        cur_name = n2;
                                    },
                                    RecordData::Other(_) => {},
                                }
                            }
                            off = off2;
                            k = k + 1;
                        }
                        let outcome = if addresses.len() == 0 {
                            State::Failure
                        } else {
                            State::Completed(CompletedQuery { addresses })
                        };
                        self.queries.put(i, Some(DnsQuery { state: outcome }));
                        proof {
                            assert(forall|j: int|
                                0 <= j < n && j != i ==> self.slots()[j] == #[trigger] old(self).slots()[j]);
                            assert(forall|j: int|
                                0 <= j < self.slots().len() ==> slot_wf(
                                    #[trigger] self.slots()[j],
                                ));
                        }
                        return Ok(());
                    }
                },
            }
            i = i + 1;
        }
        proof {
            if !nx {
                lemma_first_match_skip(
                    old(self).slots(),
                    udp_repr.dst_port,
                    header.transaction_id,
                    n as int,
                );
            }
            if first_match_from(old(self).slots(), udp_repr.dst_port, header.transaction_id, 0)
                == -1 {
                lemma_first_match_none(
                    old(self).slots(),
                    udp_repr.dst_port,
                    header.transaction_id,
                    0,
                );
            }
        }
        Ok(())
    }

    /// Emit at most one due query datagram.
    ///
    /// Slots are visited in order. Each pending slot visited has its
    /// per-resolver deadline armed if it was not; a fired deadline moves the
    /// query to the next resolver with a fresh backoff. A query whose
    /// resolvers are exhausted, or whose resolver address is unspecified,
    /// fails and the scan goes on. The first slot that is due is emitted:
    /// the callback is handed exactly one datagram (it is `FnOnce`, so more
    /// than one call is impossible by type), and only if it accepts does
    /// the backoff advance (`retransmit_at = now + delay`, delay doubled up
    /// to the cap) — on a callback error the same datagram is retried at
    /// the next poll. With no source address for the resolver the dispatch
    /// fails with `Unaddressable`; with no slot due at all, `Exhausted`.
    pub fn dispatch<F: FnOnce(IpRepr, UdpRepr, &Vec<u8>) -> Result<(), Error>>(
        &mut self,
        cx: &Context,
        emit: F,
    ) -> (r: Result<(), Error>)
        requires
            old(self).wf(),
            cx.now.millis + RETRANSMIT_TIMEOUT_MS <= u64::MAX,
            forall|args: (IpRepr, UdpRepr, &Vec<u8>)|
                dispatch_emission(*old(self), *cx, args) ==> #[trigger] call_requires(emit, args),
        ensures
            final(self).servers@ == old(self).servers@,
            final(self).hop_limit == old(self).hop_limit,
            final(self).slots().len() == old(self).slots().len(),
            final(self).wf(),
            old(self).servers_in_range() ==> final(self).servers_in_range(),
            forall|i: int|
                0 <= i < old(self).slots().len() ==> dispatch_transition(
                    #[trigger] old(self).slots()[i],
                    final(self).slots()[i],
                    cx.now.millis,
                ),
            (forall|i: int|
                0 <= i < old(self).slots().len() ==> !slot_actionable(
                    #[trigger] old(self).slots()[i],
                    cx.now.millis,
                    old(self).servers@,
                )) ==> r == Err::<(), Error>(Error::Exhausted),
            (exists|i: int|
                0 <= i < old(self).slots().len() && slot_actionable(
                    #[trigger] old(self).slots()[i],
                    cx.now.millis,
                    old(self).servers@,
                )) ==> ((cx.source_address is None ==> r == Err::<(), Error>(Error::Unaddressable))
                && (cx.source_address is Some ==> r == Ok::<(), Error>(()))),
            final(self).queries is Fixed <==> old(self).queries is Fixed,
            r == Err::<(), Error>(Error::Exhausted) ==> forall|j: int|
                0 <= j < old(self).slots().len() ==> scan_slot(
                    #[trigger] old(self).slots()[j],
                    final(self).slots()[j],
                    cx.now.millis,
                    old(self).servers@,
                ),
            ({
                let m = first_actionable_from(
                    old(self).slots(),
                    cx.now.millis,
                    old(self).servers@,
                    0,
                );
                (exists|i: int|
                    0 <= i < old(self).slots().len() && slot_actionable(
                        #[trigger] old(self).slots()[i],
                        cx.now.millis,
                        old(self).servers@,
                    )) ==> {
                    &&& 0 <= m < old(self).slots().len()
                    &&& forall|j: int|
                        0 <= j < m ==> scan_slot(
                            #[trigger] old(self).slots()[j],
                            final(self).slots()[j],
                            cx.now.millis,
                            old(self).servers@,
                        )
                    &&& forall|j: int|
                        m < j < old(self).slots().len() ==> final(self).slots()[j]
                            == #[trigger] old(self).slots()[j]
                    &&& match (old(self).slots()[m], final(self).slots()[m]) {
                        (Some(q0), Some(q1)) => match (q0.state, q1.state) {
                            (State::Pending(p0), State::Pending(p1)) => {
                                &&& actionable(p0, cx.now.millis, old(self).servers@)
                                &&& (r == Err::<(), Error>(Error::Unaddressable)
                                    ==> visited_pending(p0, p1, cx.now.millis))
                                &&& (r == Ok::<(), Error>(()) ==> exists|
                                    args: (IpRepr, UdpRepr, &Vec<u8>),
                                    ret: Result<(), Error>,
                                |
                                    {
                                        &&& #[trigger] call_ensures(emit, args, ret)
                                        &&& dispatch_emission_at(*old(self), *cx, m, args)
                                        &&& (ret is Ok ==> advanced_pending(
                                            p0,
                                            p1,
                                            cx.now.millis,
                                        ))
                                        &&& (ret is Err ==> visited_pending(
                                            p0,
                                            p1,
                                            cx.now.millis,
                                        ))
                                    })
                            },
                            _ => false,
                        },
                        _ => false,
                    }
                }
            }),
    {
        let hop_limit = match self.hop_limit {
            Some(h) => h,
            None => DEFAULT_HOP_LIMIT,
        };
        let now = cx.now().millis;
        let n = self.queries.len();
        let n_servers = self.servers.len();
        let mut sel: Option<usize> = None;
        let mut i: usize = 0;
        loop
            invariant_except_break
                sel is None,
                n == self.slots().len(),
                old(self).slots().len() == n,
                n_servers == self.servers@.len(),
                i <= n,
                now == cx.now.millis,
                now + RETRANSMIT_TIMEOUT_MS <= u64::MAX,
                old(self).wf(),
                self.wf(),
                self.servers@ == old(self).servers@,
                self.hop_limit == old(self).hop_limit,
                old(self).servers_in_range() ==> self.servers_in_range(),
                self.queries is Fixed <==> old(self).queries is Fixed,
                forall|j: int|
                    i <= j < n ==> self.slots()[j] == #[trigger] old(self).slots()[j],
                forall|j: int|
                    0 <= j < i ==> scan_slot(
                        #[trigger] old(self).slots()[j],
                        self.slots()[j],
                        now,
                        old(self).servers@,
                    ),
                forall|j: int|
                    0 <= j < n ==> dispatch_transition(
                        #[trigger] old(self).slots()[j],
                        self.slots()[j],
                        now,
                    ),
                forall|j: int|
                    0 <= j < i ==> !slot_actionable(
                        #[trigger] old(self).slots()[j],
                        now,
                        old(self).servers@,
                    ),
            ensures
                n == self.slots().len(),
                old(self).slots().len() == n,
                n_servers == self.servers@.len(),
                now == cx.now.millis,
                now + RETRANSMIT_TIMEOUT_MS <= u64::MAX,
                old(self).wf(),
                self.wf(),
                self.servers@ == old(self).servers@,
                self.hop_limit == old(self).hop_limit,
                old(self).servers_in_range() ==> self.servers_in_range(),
                self.queries is Fixed <==> old(self).queries is Fixed,
                forall|j: int|
                    0 <= j < n ==> dispatch_transition(
                        #[trigger] old(self).slots()[j],
                        self.slots()[j],
                        now,
                    ),
                match sel {
                    None => (forall|j: int|
                        0 <= j < n ==> !slot_actionable(
                            #[trigger] old(self).slots()[j],
                            now,
                            old(self).servers@,
                        )) && forall|j: int|
                        0 <= j < n ==> scan_slot(
                            #[trigger] old(self).slots()[j],
                            self.slots()[j],
                            now,
                            old(self).servers@,
                        ),
                    Some(si) => si < n && (forall|j: int|
                        0 <= j < si ==> !slot_actionable(
                            #[trigger] old(self).slots()[j],
                            now,
                            old(self).servers@,
                        )) && (forall|j: int|
                        0 <= j < si ==> scan_slot(
                            #[trigger] old(self).slots()[j],
                            self.slots()[j],
                            now,
                            old(self).servers@,
                        )) && (forall|j: int|
                        si < j < n ==> self.slots()[j] == #[trigger] old(self).slots()[j]) && match (
                        old(self).slots()[si as int],
                        self.slots()[si as int],
                    ) {
                        (Some(q0), Some(q1)) => match (q0.state, q1.state) {
                            (State::Pending(p0), State::Pending(p1)) => {
                                &&& actionable(p0, now, old(self).servers@)
                                &&& visited_pending(p0, p1, now)
                                &&& p1.retransmit_at.millis <= now
                                &&& (p1.server_idx as int) < old(self).servers@.len()
                                &&& !spec_is_unspecified(old(self).servers@[p1.server_idx as int])
                            },
                            _ => false,
                        },
                        _ => false,
                    },
                },
            decreases n - i,
        {
            if i >= n {
                break;
            }
            let mut visit: Option<PendingQuery> = None;
            match self.queries.get(i) {
                Some(q) => match &q.state {
                    State::Pending(pq) => {
                        let timeout_at = match pq.timeout_at {
                            Some(t) => t,
                            None => Instant { millis: now + RETRANSMIT_TIMEOUT_MS },
                        };
                        if timeout_at.millis < now {
                            visit = Some(
                                PendingQuery {
                                    name: slice_to_vec(pq.name.as_slice()),
                                    type_: pq.type_,
                                    port: pq.port,
                                    txid: pq.txid,
                                    timeout_at: Some(
                                        Instant { millis: now + RETRANSMIT_TIMEOUT_MS },
                                    ),
                                    retransmit_at: Instant { millis: 0 },
                                    delay: Duration { millis: RETRANSMIT_DELAY_MS },
                                    server_idx: pq.server_idx + 1,
                                },
                            );
                        } else {
                            visit = Some(
                                PendingQuery {
                                    name: slice_to_vec(pq.name.as_slice()),
                                    type_: pq.type_,
                                    port: pq.port,
                                    txid: pq.txid,
                                    timeout_at: Some(timeout_at),
                                    retransmit_at: pq.retransmit_at,
                                    delay: pq.delay,
                                    server_idx: pq.server_idx,
                                },
                            );
                        }
                    },
                    _ => {},
                },
                None => {},
            }
            match visit {
                None => {},
                Some(pq1) => {
                    if pq1.server_idx >= n_servers {
                        self.queries.put(i, Some(DnsQuery { state: State::Failure }));
                    } else if self.servers[pq1.server_idx].is_unspecified() {
                        self.queries.put(i, Some(DnsQuery { state: State::Failure }));
                    } else if pq1.retransmit_at.millis > now {
                        self.queries.put(i, Some(DnsQuery { state: State::Pending(pq1) }));
                    } else {
                        self.queries.put(i, Some(DnsQuery { state: State::Pending(pq1) }));
                        sel = Some(i);
                        break;
                    }
                },
            }
            i = i + 1;
        }
        let si = match sel {
            None => {
                return Err(Error::Exhausted);
            },
            Some(si) => si,
        };
        proof {
            lemma_first_actionable_skip(old(self).slots(), now, old(self).servers@, si as int);
            assert(first_actionable_from(old(self).slots(), now, old(self).servers@, 0)
                == si as int);
        }
        let (name, qtype, port, txid, delay, server_idx) = match self.queries.get(si) {
            Some(q) => match &q.state {
                State::Pending(pq) => (
                    slice_to_vec(pq.name.as_slice()),
                    pq.type_,
                    pq.port,
                    pq.txid,
                    pq.delay,
                    pq.server_idx,
                ),
                _ => unreached(),
            },
            None => unreached(),
        };
        let dst_addr = self.servers[server_idx];
        let src_addr = match cx.get_source_address(&dst_addr) {
            Some(a) => a,
            None => {
                return Err(Error::Unaddressable);
            },
        };
        let payload = emit_query(txid, name.as_slice());
        let udp_repr = UdpRepr { src_port: port, dst_port: DNS_PORT };
        let ip_repr = IpRepr::new(
            src_addr,
            dst_addr,
            IpProtocol::Udp,
            8 + payload.len(),
            hop_limit,
        );
        proof {
            assert(dispatch_emission_at(*old(self), *cx, si as int, (ip_repr, udp_repr, &payload)));
            assert(dispatch_emission(*old(self), *cx, (ip_repr, udp_repr, &payload)));
        }
        let eres = emit(ip_repr, udp_repr, &payload);
        proof {
            assert(call_ensures(emit, (ip_repr, udp_repr, &payload), eres));
        }
        if eres.is_err() {
            return Ok(());
        }
        let doubled: u64 = if 2 * delay.millis > MAX_RETRANSMIT_DELAY_MS {
            MAX_RETRANSMIT_DELAY_MS
        } else {
            2 * delay.millis
        };
        let advanced = PendingQuery {
            name,
            type_: qtype,
            port,
            txid,
            timeout_at: match self.queries.get(si) {
                Some(q) => match &q.state {
                    State::Pending(pq) => pq.timeout_at,
                    _ => unreached(),
                },
                None => unreached(),
            },
            retransmit_at: Instant { millis: now + delay.millis },
            delay: Duration { millis: doubled },
            server_idx,
        };
        self.queries.put(si, Some(DnsQuery { state: State::Pending(advanced) }));
        Ok(())
    }

    /// The earliest retransmit deadline across pending queries, or
    /// "ingress only" when none is pending.
    pub fn poll_at(&self, cx: &Context) -> (r: PollAt)
        ensures
            (forall|i: int|
                0 <= i < self.slots().len() ==> !slot_is_pending(#[trigger] self.slots()[i])) ==> r
                == PollAt::Ingress,
            (exists|i: int| 0 <= i < self.slots().len() && slot_is_pending(#[trigger] self.slots()[i]))
                ==> (match r {
                PollAt::Time(t) => (forall|i: int|
                    0 <= i < self.slots().len() ==> match #[trigger] self.slots()[i] {
                        Some(q) => match q.state {
                            State::Pending(pq) => t.millis <= pq.retransmit_at.millis,
                            _ => true,
                        },
                        None => true,
                    }) && exists|i: int|
                    0 <= i < self.slots().len() && match #[trigger] self.slots()[i] {
                        Some(q) => match q.state {
                            State::Pending(pq) => t == pq.retransmit_at,
                            _ => false,
                        },
                        None => false,
                    },
                _ => false,
            }),
    {
        let _ = cx;
        let n = self.queries.len();
        let mut best: Option<Instant> = None;
        let mut i: usize = 0;
        while i < n
            invariant
                n == self.slots().len(),
                i <= n,
                best is None ==> forall|j: int|
                    0 <= j < i ==> !slot_is_pending(#[trigger] self.slots()[j]),
                match best {
                    Some(t) => (forall|j: int|
                        0 <= j < i ==> match #[trigger] self.slots()[j] {
                            Some(q) => match q.state {
                                State::Pending(pq) => t.millis <= pq.retransmit_at.millis,
                                _ => true,
                            },
                            None => true,
                        }) && exists|j: int|
                        0 <= j < i && match #[trigger] self.slots()[j] {
                            Some(q) => match q.state {
                                State::Pending(pq) => t == pq.retransmit_at,
                                _ => false,
                            },
                            None => false,
                        },
                    None => true,
                },
            decreases n - i,
        {
            match self.queries.get(i) {
                Some(q) => match &q.state {
                    State::Pending(pq) => {
                        let t = pq.retransmit_at;
                        best = match best {
                            Some(b) => if t.millis < b.millis {
                                Some(t)
                            } else {
                                Some(b)
                            },
                            None => Some(t),
                        };
                    },
                    _ => {},
                },
                None => {},
            }
            i = i + 1;
        }
        match best {
            Some(t) => PollAt::Time(t),
            None => PollAt::Ingress,
        }
    }
}

/// Check that `name` is a valid uncompressed wire-format name: a run of
/// labels with length octets below 192, ended by the terminator as its very
/// last octet, at most `MAX_NAME_LEN` octets in all.
pub fn is_valid_name(name: &[u8]) -> (r: bool)
    ensures
        r == valid_wire_name(name@),
{
    let n = name.len();
    if n > MAX_NAME_LEN {
        return false;
    }
    let mut i: usize = 0;
    loop
        invariant
            n == name@.len() <= MAX_NAME_LEN,
            i < n || n == 0,
            valid_wire_name(name@) == (n <= MAX_NAME_LEN && valid_name_from(name@, i as int)),
        decreases n - i,
    {
        if n == 0 {
            return false;
        }
        let b = name[i];
        if b == 0 {
            return i == n - 1;
        }
        if b >= 192 {
            return false;
        }
        let next = i + 1 + (b as usize);
        if next >= n {
            return false;
        }
        i = next;
    }
}

/// Compare two stored uncompressed names. Stored names are canonical —
/// every parsed name is fully expanded before it is kept — so label-wise
/// equality coincides with byte equality, and the comparison is byte-exact:
/// no ASCII case folding is applied, following the wire octets as they are.
pub fn eq_names(a: &[u8], b: &[u8]) -> (r: bool)
    ensures
        r == (a@ == b@),
{
    if a.len() != b.len() {
        proof {
            assert(a@ != b@);
        }
        return false;
    }
    let n = a.len();
    let mut i: usize = 0;
    while i < n
        invariant
            n == a@.len() == b@.len(),
            i <= n,
            forall|j: int| 0 <= j < i ==> a@[j] == b@[j],
        decreases n - i,
    {
        if a[i] != b[i] {
            proof {
                assert(a@ != b@);
            }
            return false;
        }
        i = i + 1;
    }
    proof {
        assert(a@ =~= b@);
    }
    true
}

/// Overwrite `dest` with the name `name`, failing with `Truncated` when the
/// name does not fit the bounded name buffer.
pub fn copy_name(dest: &mut Vec<u8>, name: &[u8]) -> (r: Result<(), Error>)
    ensures
        match r {
            Ok(()) => name@.len() <= MAX_NAME_LEN && final(dest)@ == name@,
            Err(e) => e == Error::Truncated && name@.len() > MAX_NAME_LEN && final(dest)@.len()
                == 0,
        },
{
    dest.clear();
    if name.len() > MAX_NAME_LEN {
        return Err(Error::Truncated);
    }
    dest.extend_from_slice(name);
    proof {
        assert(final(dest)@ =~= name@);
    }
    Ok(())
}

} // verus!
