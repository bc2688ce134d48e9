use dns_socket::wire::icmpv4::{Packet, Repr, Type};

fn echo_packet_bytes() -> Vec<u8> {
    vec![
        0x08, 0x00, 0x39, 0xfe, 0x12, 0x34, 0xab, 0xcd, 0xaa, 0x00, 0x00, 0xff,
    ]
}

fn echo_data_bytes() -> Vec<u8> {
    vec![0xaa, 0x00, 0x00, 0xff]
}

fn echo_packet_repr() -> Repr {
    Repr::EchoRequest {
        ident: 0x1234,
        seq_no: 0xabcd,
        data: echo_data_bytes(),
    }
}

#[test]
fn test_echo_deconstruct() {
    let packet = Packet::new(echo_packet_bytes()).unwrap();
    assert_eq!(packet.msg_type(), Type::EchoRequest);
    assert_eq!(packet.msg_code(), 0);
    assert_eq!(packet.checksum(), 0x39fe);
    assert_eq!(packet.echo_ident(), 0x1234);
    assert_eq!(packet.echo_seq_no(), 0xabcd);
    assert_eq!(packet.verify_checksum(), true);
    assert_eq!(packet.data(), &echo_data_bytes()[..]);
}

#[test]
fn test_echo_construct() {
    let mut packet = Packet::new(vec![0; 12]).unwrap();
    packet.set_msg_type(Type::EchoRequest);
    packet.set_msg_code(0);
    packet.set_echo_ident(0x1234);
    packet.set_echo_seq_no(0xabcd);
    packet.fill_checksum();
    packet.copy_into_data(&echo_data_bytes()[..]);
    assert_eq!(&packet.into_inner()[..], &echo_packet_bytes()[..]);
}

#[test]
fn test_echo_parse() {
    let packet = Packet::new(echo_packet_bytes()).unwrap();
    let repr = Repr::parse(&packet).unwrap();
    assert_eq!(repr, echo_packet_repr());
}

#[test]
fn test_echo_emit() {
    let mut packet = Packet::new(vec![0; 12]).unwrap();
    echo_packet_repr().emit(&mut packet);
    assert_eq!(&packet.into_inner()[..], &echo_packet_bytes()[..]);
}

#[test]
fn test_short_buffer_refused() {
    assert_eq!(Packet::new(vec![0x08, 0x00]).unwrap_err(), dns_socket::Error::Truncated);
    // An echo type octet asks for the eight-octet header.
    assert_eq!(Packet::new(vec![0x08, 0x00, 0x00, 0x00]).unwrap_err(), dns_socket::Error::Truncated);
    // A non-echo type is content with four octets.
    assert!(Packet::new(vec![0x0b, 0x00, 0x00, 0x00]).is_ok());
}

#[test]
fn test_parse_unrecognized() {
    // Type 11 (time exceeded) is not an echo message.
    let packet = Packet::new(vec![0x0b, 0x00, 0x00, 0x00]).unwrap();
    assert_eq!(Repr::parse(&packet).unwrap_err(), dns_socket::Error::Unrecognized);
}

#[test]
fn test_repr_len() {
    assert_eq!(echo_packet_repr().len(), 12);
}
