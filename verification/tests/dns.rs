use dns_socket::rand::Rand;
use dns_socket::socket::dns::{DnsSocket, SlotStorage, State};
use dns_socket::socket::{Context, PollAt};
use dns_socket::time::Instant;
use dns_socket::wire::ip::{IpAddress, IpRepr, Ipv4Address, UdpRepr};
use dns_socket::Error;

fn r1() -> IpAddress {
    IpAddress::Ipv4(Ipv4Address(10, 0, 0, 1))
}

fn r2() -> IpAddress {
    IpAddress::Ipv4(Ipv4Address(10, 0, 0, 2))
}

fn local() -> IpAddress {
    IpAddress::Ipv4(Ipv4Address(192, 168, 1, 1))
}

fn ctx(t: u64) -> Context {
    Context {
        now: Instant { millis: t },
        rand: Rand::new(0x1234_5678),
        source_address: Some(local()),
    }
}

fn fixed_slots(n: usize) -> SlotStorage {
    let mut v = Vec::new();
    for _ in 0..n {
        v.push(None);
    }
    SlotStorage::Fixed(v)
}

fn sock_with(servers: &[IpAddress], slots: usize) -> DnsSocket {
    DnsSocket::new(servers, fixed_slots(slots))
}

/// Run one dispatch, returning what it emitted, if anything.
fn dispatch_once(
    sock: &mut DnsSocket,
    cx: &Context,
) -> (Result<(), Error>, Option<(IpRepr, UdpRepr, Vec<u8>)>) {
    let mut sent: Option<(IpRepr, UdpRepr, Vec<u8>)> = None;
    let r = sock.dispatch(cx, |ip: IpRepr, udp: UdpRepr, p: &Vec<u8>| {
        sent = Some((ip, udp, p.clone()));
        Ok(())
    });
    (r, sent)
}

fn rust_lang_wire_name() -> Vec<u8> {
    b"\x09rust-lang\x03org\x00".to_vec()
}

fn www_rust_lang_wire_name() -> Vec<u8> {
    b"\x03www\x09rust-lang\x03org\x00".to_vec()
}

/// Build a response packet: header, the echoed question, and answers given
/// as (owner name, type, rdata) triples.
fn build_response(txid: u16, rcode: u8, qname: &[u8], answers: &[(Vec<u8>, u16, Vec<u8>)]) -> Vec<u8> {
    let mut p = Vec::new();
    p.push((txid >> 8) as u8);
    p.push((txid & 0xff) as u8);
    p.push(0x80); // response, opcode query
    p.push(rcode);
    p.push(0);
    p.push(1); // one question
    p.push(0);
    p.push(answers.len() as u8);
    p.extend_from_slice(&[0, 0, 0, 0]); // nscount, arcount
    p.extend_from_slice(qname);
    p.extend_from_slice(&[0, 1, 0, 1]); // type A, class IN
    for (name, ty, rdata) in answers {
        p.extend_from_slice(name);
        p.push((ty >> 8) as u8);
        p.push((ty & 0xff) as u8);
        p.extend_from_slice(&[0, 1]); // class IN
        p.extend_from_slice(&[0, 0, 0, 60]); // ttl
        p.push((rdata.len() >> 8) as u8);
        p.push((rdata.len() & 0xff) as u8);
        p.extend_from_slice(rdata);
    }
    p
}

fn from_server(port: u16) -> (IpRepr, UdpRepr) {
    (
        IpRepr::new(r1(), local(), dns_socket::wire::ip::IpProtocol::Udp, 0, 64),
        UdpRepr { src_port: 53, dst_port: port },
    )
}

#[test]
fn happy_path_a_record() {
    let mut sock = sock_with(&[r1()], 2);
    let mut c = ctx(0);
    let h = sock.start_query(&mut c, "rust-lang.org").unwrap();

    let (r, sent) = dispatch_once(&mut sock, &c);
    assert!(r.is_ok());
    let (ip, udp, payload) = sent.expect("a datagram must go out");
    assert_eq!(ip.dst_addr, r1());
    assert_eq!(ip.src_addr, local());
    assert_eq!(udp.dst_port, 53);
    let txid = ((payload[0] as u16) << 8) | payload[1] as u16;
    let port = udp.src_port;
    // Exact question bytes: header, then the name, then type A class IN.
    let mut expected = vec![
        payload[0], payload[1], 0x01, 0x00, 0, 1, 0, 0, 0, 0, 0, 0,
    ];
    expected.extend_from_slice(&rust_lang_wire_name());
    expected.extend_from_slice(&[0, 1, 0, 1]);
    assert_eq!(payload, expected);

    let resp = build_response(
        txid,
        0,
        &rust_lang_wire_name(),
        &[(rust_lang_wire_name(), 1, vec![1, 2, 3, 4])],
    );
    let (rip, rudp) = from_server(port);
    assert!(sock.accepts(&rip, &rudp));
    sock.process(&c, &rip, &rudp, &resp).unwrap();

    let addrs = sock.get_query_result(h).unwrap();
    assert_eq!(addrs, vec![IpAddress::Ipv4(Ipv4Address(1, 2, 3, 4))]);
    // The slot was freed.
    assert_eq!(sock.get_query_result(h).unwrap_err(), Error::Illegal);
}

#[test]
fn cname_chase_in_one_packet() {
    let mut sock = sock_with(&[r1()], 2);
    let mut c = ctx(0);
    let h = sock.start_query(&mut c, "rust-lang.org").unwrap();
    let (_, sent) = dispatch_once(&mut sock, &c);
    let (_, udp, payload) = sent.unwrap();
    let txid = ((payload[0] as u16) << 8) | payload[1] as u16;

    let resp = build_response(
        txid,
        0,
        &rust_lang_wire_name(),
        &[
            (rust_lang_wire_name(), 5, www_rust_lang_wire_name()),
            (www_rust_lang_wire_name(), 1, vec![5, 6, 7, 8]),
        ],
    );
    let (rip, rudp) = from_server(udp.src_port);
    sock.process(&c, &rip, &rudp, &resp).unwrap();
    let addrs = sock.get_query_result(h).unwrap();
    assert_eq!(addrs, vec![IpAddress::Ipv4(Ipv4Address(5, 6, 7, 8))]);
}

#[test]
fn nxdomain_gives_unaddressable() {
    let mut sock = sock_with(&[r1()], 2);
    let mut c = ctx(0);
    let h = sock.start_query(&mut c, "rust-lang.org").unwrap();
    let (_, sent) = dispatch_once(&mut sock, &c);
    let (_, udp, payload) = sent.unwrap();
    let txid = ((payload[0] as u16) << 8) | payload[1] as u16;

    let resp = build_response(txid, 3, &rust_lang_wire_name(), &[]);
    let (rip, rudp) = from_server(udp.src_port);
    sock.process(&c, &rip, &rudp, &resp).unwrap();
    assert_eq!(sock.get_query_result(h).unwrap_err(), Error::Unaddressable);
    // The failed slot was freed too.
    assert_eq!(sock.get_query_result(h).unwrap_err(), Error::Illegal);
}

#[test]
fn retransmit_and_failover() {
    let mut sock = sock_with(&[r1(), r2()], 2);
    let mut c = ctx(0);
    sock.start_query(&mut c, "rust-lang.org").unwrap();

    // First send goes out at once.
    let (r, sent) = dispatch_once(&mut sock, &c);
    assert!(r.is_ok());
    assert_eq!(sent.unwrap().0.dst_addr, r1());
    // Nothing more is due at the same instant.
    let (r, sent) = dispatch_once(&mut sock, &c);
    assert_eq!(r.unwrap_err(), Error::Exhausted);
    assert!(sent.is_none());
    // Backoff doubles: due at 1s, then 3s, then 7s.
    for t in [1000u64, 3000, 7000] {
        let c = ctx(t);
        let (r, sent) = dispatch_once(&mut sock, &c);
        assert!(r.is_ok(), "retransmit at t={}", t);
        assert_eq!(sent.unwrap().0.dst_addr, r1());
    }
    // Past the 10 s per-resolver deadline the next resolver is tried.
    let c = ctx(10001);
    let (r, sent) = dispatch_once(&mut sock, &c);
    assert!(r.is_ok());
    assert_eq!(sent.unwrap().0.dst_addr, r2());
}

#[test]
fn all_resolvers_tried_fails_query() {
    let mut sock = sock_with(&[r1()], 2);
    let mut c = ctx(0);
    let h = sock.start_query(&mut c, "rust-lang.org").unwrap();
    let (r, _) = dispatch_once(&mut sock, &c);
    assert!(r.is_ok());
    // Timeout fires with no second resolver: the query fails.
    let c = ctx(10001);
    let (r, sent) = dispatch_once(&mut sock, &c);
    assert_eq!(r.unwrap_err(), Error::Exhausted);
    assert!(sent.is_none());
    assert_eq!(sock.get_query_result(h).unwrap_err(), Error::Unaddressable);
}

#[test]
fn stray_response_ignored() {
    let mut sock = sock_with(&[r1()], 2);
    let mut c = ctx(0);
    let h = sock.start_query(&mut c, "rust-lang.org").unwrap();
    let (_, sent) = dispatch_once(&mut sock, &c);
    let (_, udp, payload) = sent.unwrap();
    let txid = ((payload[0] as u16) << 8) | payload[1] as u16;
    let port = udp.src_port;

    // Wrong transaction id: accepted silently, slot unchanged.
    let resp = build_response(
        txid.wrapping_add(1),
        0,
        &rust_lang_wire_name(),
        &[(rust_lang_wire_name(), 1, vec![1, 2, 3, 4])],
    );
    let (rip, rudp) = from_server(port);
    assert_eq!(sock.process(&c, &rip, &rudp, &resp), Ok(()));
    assert_eq!(sock.get_query_result(h).unwrap_err(), Error::Exhausted);

    // Wrong destination port: likewise.
    let resp = build_response(
        txid,
        0,
        &rust_lang_wire_name(),
        &[(rust_lang_wire_name(), 1, vec![1, 2, 3, 4])],
    );
    let (rip, rudp) = from_server(port.wrapping_add(1));
    assert_eq!(sock.process(&c, &rip, &rudp, &resp), Ok(()));
    assert_eq!(sock.get_query_result(h).unwrap_err(), Error::Exhausted);
}

#[test]
fn slot_exhaustion() {
    let mut sock = sock_with(&[r1()], 2);
    let mut c = ctx(0);
    sock.start_query(&mut c, "rust-lang.org").unwrap();
    sock.start_query(&mut c, "example.com").unwrap();
    assert_eq!(
        sock.start_query(&mut c, "example.org").unwrap_err(),
        Error::Exhausted
    );
}

#[test]
fn growable_storage_grows() {
    let mut sock = DnsSocket::new(&[r1()], SlotStorage::Growable(Vec::new()));
    let mut c = ctx(0);
    sock.start_query(&mut c, "rust-lang.org").unwrap();
    sock.start_query(&mut c, "example.com").unwrap();
    sock.start_query(&mut c, "example.org").unwrap();
}

#[test]
fn cancel_is_idempotent_past_the_free() {
    let mut sock = sock_with(&[r1()], 2);
    let mut c = ctx(0);
    let h = sock.start_query(&mut c, "rust-lang.org").unwrap();
    assert_eq!(sock.cancel_query(h), Ok(()));
    assert_eq!(sock.cancel_query(h).unwrap_err(), Error::Illegal);
    assert_eq!(sock.cancel_query(h).unwrap_err(), Error::Illegal);
}

#[test]
fn dispatch_emits_at_most_one_datagram() {
    let mut sock = sock_with(&[r1()], 2);
    let mut c = ctx(0);
    sock.start_query(&mut c, "rust-lang.org").unwrap();
    sock.start_query(&mut c, "example.com").unwrap();
    // Both queries are due, yet each dispatch hands out exactly one
    // datagram; the callback's type allows no second call.
    let mut count = 0;
    sock.dispatch(&c, |_ip: IpRepr, _udp: UdpRepr, _p: &Vec<u8>| {
        count += 1;
        Ok(())
    })
    .unwrap();
    assert_eq!(count, 1);
    let mut count = 0;
    sock.dispatch(&c, |_ip: IpRepr, _udp: UdpRepr, _p: &Vec<u8>| {
        count += 1;
        Ok(())
    })
    .unwrap();
    assert_eq!(count, 1);
    assert_eq!(
        sock.dispatch(&c, |_ip: IpRepr, _udp: UdpRepr, _p: &Vec<u8>| {
            panic!("nothing is due");
        })
        .unwrap_err(),
        Error::Exhausted
    );
}

#[test]
fn emit_error_keeps_backoff() {
    let mut sock = sock_with(&[r1()], 2);
    let mut c = ctx(0);
    sock.start_query(&mut c, "rust-lang.org").unwrap();
    // The callback refuses the datagram: dispatch reports Ok and the same
    // datagram is offered again on the next call.
    sock.dispatch(&c, |_ip: IpRepr, _udp: UdpRepr, _p: &Vec<u8>| {
        Err(Error::Exhausted)
    })
    .unwrap();
    let (r, sent) = dispatch_once(&mut sock, &c);
    assert!(r.is_ok());
    assert!(sent.is_some());
}

#[test]
fn no_source_address_is_unaddressable() {
    let mut sock = sock_with(&[r1()], 2);
    let mut c = ctx(0);
    sock.start_query(&mut c, "rust-lang.org").unwrap();
    c.source_address = None;
    let (r, sent) = dispatch_once(&mut sock, &c);
    assert_eq!(r.unwrap_err(), Error::Unaddressable);
    assert!(sent.is_none());
}

#[test]
fn unspecified_resolver_fails_query() {
    let mut sock = sock_with(&[IpAddress::Ipv4(Ipv4Address(0, 0, 0, 0))], 2);
    let mut c = ctx(0);
    let h = sock.start_query(&mut c, "rust-lang.org").unwrap();
    let (r, sent) = dispatch_once(&mut sock, &c);
    assert_eq!(r.unwrap_err(), Error::Exhausted);
    assert!(sent.is_none());
    assert_eq!(sock.get_query_result(h).unwrap_err(), Error::Unaddressable);
}

#[test]
fn bad_names_are_illegal() {
    let mut sock = sock_with(&[r1()], 2);
    let mut c = ctx(0);
    assert_eq!(sock.start_query(&mut c, "").unwrap_err(), Error::Illegal);
    assert_eq!(sock.start_query(&mut c, ".").unwrap_err(), Error::Illegal);
    assert_eq!(sock.start_query(&mut c, "a..b").unwrap_err(), Error::Illegal);
    // A trailing dot is fine and is stripped.
    assert!(sock.start_query(&mut c, "rust-lang.org.").is_ok());
}

#[test]
fn oversize_name_is_exhausted() {
    let mut sock = sock_with(&[r1()], 4);
    let mut c = ctx(0);
    // Five 63-octet labels encode to 5*64+1 = 321 octets, over the cap.
    let label = "a".repeat(63);
    let name = format!("{}.{}.{}.{}.{}", label, label, label, label, label);
    assert_eq!(sock.start_query(&mut c, &name).unwrap_err(), Error::Exhausted);
}

#[test]
fn raw_start_checks_the_wire_name() {
    let mut sock = sock_with(&[r1()], 2);
    let mut c = ctx(0);
    assert!(sock.start_query_raw(&mut c, b"\x09rust-lang\x03org\x00").is_ok());
    // Missing terminator.
    assert_eq!(
        sock.start_query_raw(&mut c, b"\x03org").unwrap_err(),
        Error::Illegal
    );
    // A length octet that looks like a compression pointer.
    assert_eq!(
        sock.start_query_raw(&mut c, b"\xc0\x01\x00").unwrap_err(),
        Error::Illegal
    );
}

#[test]
fn invalid_handle_is_illegal() {
    let mut sock = sock_with(&[r1()], 2);
    assert_eq!(
        sock.get_query_result(dns_socket::socket::dns::QueryHandle(7)).unwrap_err(),
        Error::Illegal
    );
    assert_eq!(
        sock.cancel_query(dns_socket::socket::dns::QueryHandle(0)).unwrap_err(),
        Error::Illegal
    );
}

#[test]
fn malformed_packets_are_refused() {
    let mut sock = sock_with(&[r1()], 2);
    let mut c = ctx(0);
    sock.start_query(&mut c, "rust-lang.org").unwrap();
    let (rip, rudp) = from_server(49999);
    // Too short for a header.
    assert_eq!(
        sock.process(&c, &rip, &rudp, &[0, 1, 2]).unwrap_err(),
        Error::Malformed
    );
    // Response bit missing.
    let p = vec![0, 1, 0x00, 0, 0, 1, 0, 0, 0, 0, 0, 0];
    assert_eq!(sock.process(&c, &rip, &rudp, &p).unwrap_err(), Error::Malformed);
    // Question count not one.
    let p = vec![0, 1, 0x80, 0, 0, 2, 0, 0, 0, 0, 0, 0];
    assert_eq!(sock.process(&c, &rip, &rudp, &p).unwrap_err(), Error::Malformed);
}

#[test]
fn accepts_only_configured_resolvers() {
    let sock = sock_with(&[r1()], 1);
    let (rip, rudp) = from_server(50000);
    assert!(sock.accepts(&rip, &rudp));
    let other = IpRepr::new(r2(), local(), dns_socket::wire::ip::IpProtocol::Udp, 0, 64);
    assert!(!sock.accepts(&other, &rudp));
    let wrong_port = UdpRepr { src_port: 54, dst_port: 50000 };
    assert!(!sock.accepts(&rip, &wrong_port));
}

#[test]
fn poll_at_reports_earliest_retransmit() {
    let mut sock = sock_with(&[r1()], 2);
    let c = ctx(0);
    assert_eq!(sock.poll_at(&c), PollAt::Ingress);
    let mut c2 = ctx(0);
    sock.start_query(&mut c2, "rust-lang.org").unwrap();
    // A fresh query is due at epoch zero.
    assert_eq!(sock.poll_at(&c), PollAt::Time(Instant { millis: 0 }));
    let (r, _) = dispatch_once(&mut sock, &c);
    assert!(r.is_ok());
    // After the first send the retransmit deadline is one second out.
    assert_eq!(sock.poll_at(&c), PollAt::Time(Instant { millis: 1000 }));
}

#[test]
fn hop_limit_is_used_on_egress() {
    let mut sock = sock_with(&[r1()], 2);
    assert_eq!(sock.hop_limit(), None);
    let mut c = ctx(0);
    sock.start_query(&mut c, "rust-lang.org").unwrap();
    let (_, sent) = dispatch_once(&mut sock, &c);
    assert_eq!(sent.unwrap().0.hop_limit, 64);
    sock.set_hop_limit(Some(32));
    assert_eq!(sock.hop_limit(), Some(32));
    let c = ctx(1000);
    let (_, sent) = dispatch_once(&mut sock, &c);
    assert_eq!(sent.unwrap().0.hop_limit, 32);
}

#[test]
fn update_servers_redirects_queries() {
    let mut sock = sock_with(&[r1()], 2);
    let mut c = ctx(0);
    sock.start_query(&mut c, "rust-lang.org").unwrap();
    sock.update_servers(&[r2()]);
    let (r, sent) = dispatch_once(&mut sock, &c);
    assert!(r.is_ok());
    assert_eq!(sent.unwrap().0.dst_addr, r2());
}

#[test]
fn completed_slot_never_changes_again() {
    let mut sock = sock_with(&[r1()], 2);
    let mut c = ctx(0);
    let h = sock.start_query(&mut c, "rust-lang.org").unwrap();
    let (_, sent) = dispatch_once(&mut sock, &c);
    let (_, udp, payload) = sent.unwrap();
    let txid = ((payload[0] as u16) << 8) | payload[1] as u16;
    let resp = build_response(
        txid,
        0,
        &rust_lang_wire_name(),
        &[(rust_lang_wire_name(), 1, vec![1, 2, 3, 4])],
    );
    let (rip, rudp) = from_server(udp.src_port);
    sock.process(&c, &rip, &rudp, &resp).unwrap();
    // A duplicate of the same response finds no pending slot to act on.
    let resp2 = build_response(
        txid,
        0,
        &rust_lang_wire_name(),
        &[(rust_lang_wire_name(), 1, vec![9, 9, 9, 9])],
    );
    assert_eq!(sock.process(&c, &rip, &rudp, &resp2), Ok(()));
    let addrs = sock.get_query_result(h).unwrap();
    assert_eq!(addrs, vec![IpAddress::Ipv4(Ipv4Address(1, 2, 3, 4))]);
}

#[test]
fn pending_timers_stay_in_bounds() {
    let mut sock = sock_with(&[r1(), r2()], 2);
    let mut c = ctx(0);
    sock.start_query(&mut c, "rust-lang.org").unwrap();
    for t in [0u64, 1000, 3000, 7000, 10001, 11001, 13001] {
        let c = ctx(t);
        let _ = dispatch_once(&mut sock, &c);
        let SlotStorage::Fixed(slots) = &sock.queries else { panic!() };
        for s in slots.iter().flatten() {
            if let State::Pending(pq) = &s.state {
                assert!(1000 <= pq.delay.millis && pq.delay.millis <= 10000);
                assert!(pq.server_idx <= 2);
            }
        }
    }
}

#[test]
fn too_many_addresses_are_dropped_silently() {
    let mut sock = sock_with(&[r1()], 2);
    let mut c = ctx(0);
    let h = sock.start_query(&mut c, "rust-lang.org").unwrap();
    let (_, sent) = dispatch_once(&mut sock, &c);
    let (_, udp, payload) = sent.unwrap();
    let txid = ((payload[0] as u16) << 8) | payload[1] as u16;
    let answers: Vec<(Vec<u8>, u16, Vec<u8>)> = (0..6)
        .map(|k| (rust_lang_wire_name(), 1u16, vec![1, 2, 3, k as u8]))
        .collect();
    let resp = build_response(txid, 0, &rust_lang_wire_name(), &answers);
    let (rip, rudp) = from_server(udp.src_port);
    sock.process(&c, &rip, &rudp, &resp).unwrap();
    let addrs = sock.get_query_result(h).unwrap();
    assert_eq!(addrs.len(), 4);
    assert_eq!(addrs[0], IpAddress::Ipv4(Ipv4Address(1, 2, 3, 0)));
    assert_eq!(addrs[3], IpAddress::Ipv4(Ipv4Address(1, 2, 3, 3)));
}

#[test]
fn rand_is_deterministic_and_ports_ephemeral() {
    let mut a = Rand::new(7);
    let mut b = Rand::new(7);
    for _ in 0..16 {
        assert_eq!(a.rand_u16(), b.rand_u16());
    }
    let mut r = Rand::new(99);
    for _ in 0..64 {
        let p = r.rand_source_port();
        assert!((49152..=65535).contains(&p));
    }
}

#[test]
fn aaaa_records_are_collected() {
    let mut sock = sock_with(&[r1()], 2);
    let mut c = ctx(0);
    let h = sock.start_query(&mut c, "rust-lang.org").unwrap();
    let (_, sent) = dispatch_once(&mut sock, &c);
    let (_, udp, payload) = sent.unwrap();
    let txid = ((payload[0] as u16) << 8) | payload[1] as u16;
    let mut rdata = vec![0u8; 16];
    rdata[0] = 0x20;
    rdata[1] = 0x01;
    rdata[15] = 0x42;
    let resp = build_response(
        txid,
        0,
        &rust_lang_wire_name(),
        &[(rust_lang_wire_name(), 28, rdata)],
    );
    let (rip, rudp) = from_server(udp.src_port);
    sock.process(&c, &rip, &rudp, &resp).unwrap();
    let addrs = sock.get_query_result(h).unwrap();
    assert_eq!(
        addrs,
        vec![IpAddress::Ipv6(dns_socket::wire::ip::Ipv6Address {
            hi: 0x2001_0000_0000_0000,
            lo: 0x0000_0000_0000_0042,
        })]
    );
}

#[test]
fn unknown_types_and_foreign_owners_are_skipped() {
    let mut sock = sock_with(&[r1()], 2);
    let mut c = ctx(0);
    let h = sock.start_query(&mut c, "rust-lang.org").unwrap();
    let (_, sent) = dispatch_once(&mut sock, &c);
    let (_, udp, payload) = sent.unwrap();
    let txid = ((payload[0] as u16) << 8) | payload[1] as u16;
    let resp = build_response(
        txid,
        0,
        &rust_lang_wire_name(),
        &[
            // A TXT record for the right owner: ignored.
            (rust_lang_wire_name(), 16, vec![3, b'h', b'e', b'y']),
            // An A record owned by another name: skipped, no error.
            (www_rust_lang_wire_name(), 1, vec![9, 9, 9, 9]),
            // The one that counts.
            (rust_lang_wire_name(), 1, vec![1, 2, 3, 4]),
        ],
    );
    let (rip, rudp) = from_server(udp.src_port);
    sock.process(&c, &rip, &rudp, &resp).unwrap();
    let addrs = sock.get_query_result(h).unwrap();
    assert_eq!(addrs, vec![IpAddress::Ipv4(Ipv4Address(1, 2, 3, 4))]);
}

#[test]
fn question_mismatch_is_malformed() {
    let mut sock = sock_with(&[r1()], 2);
    let mut c = ctx(0);
    let h = sock.start_query(&mut c, "rust-lang.org").unwrap();
    let (_, sent) = dispatch_once(&mut sock, &c);
    let (_, udp, payload) = sent.unwrap();
    let txid = ((payload[0] as u16) << 8) | payload[1] as u16;
    // The echoed question names somebody else entirely.
    let resp = build_response(
        txid,
        0,
        &www_rust_lang_wire_name(),
        &[(rust_lang_wire_name(), 1, vec![1, 2, 3, 4])],
    );
    let (rip, rudp) = from_server(udp.src_port);
    assert_eq!(
        sock.process(&c, &rip, &rudp, &resp).unwrap_err(),
        Error::Malformed
    );
    // The slot is untouched and still pending.
    assert_eq!(sock.get_query_result(h).unwrap_err(), Error::Exhausted);
}

#[test]
fn empty_answer_section_fails_the_query() {
    let mut sock = sock_with(&[r1()], 2);
    let mut c = ctx(0);
    let h = sock.start_query(&mut c, "rust-lang.org").unwrap();
    let (_, sent) = dispatch_once(&mut sock, &c);
    let (_, udp, payload) = sent.unwrap();
    let txid = ((payload[0] as u16) << 8) | payload[1] as u16;
    let resp = build_response(txid, 0, &rust_lang_wire_name(), &[]);
    let (rip, rudp) = from_server(udp.src_port);
    sock.process(&c, &rip, &rudp, &resp).unwrap();
    assert_eq!(sock.get_query_result(h).unwrap_err(), Error::Unaddressable);
}

#[test]
fn oversize_raw_name_is_exhausted() {
    let mut sock = sock_with(&[r1()], 2);
    let mut c = ctx(0);
    // A raw name over 255 octets cannot fit the bounded name buffer,
    // whatever its structure: the failure is exhaustion, not illegality.
    let long = vec![1u8; 300];
    assert_eq!(sock.start_query_raw(&mut c, &long).unwrap_err(), Error::Exhausted);
    // At and below the bound, structure decides.
    let mut ok_name = vec![63u8];
    ok_name.extend_from_slice(&[b'a'; 63]);
    ok_name.push(0);
    assert!(sock.start_query_raw(&mut c, &ok_name).is_ok());
}
