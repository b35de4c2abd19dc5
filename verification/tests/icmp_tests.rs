use meowping::icmp::{build_echo_request, icmp_checksum, parse_echo_reply, IcmpError};

const PAYLOAD: [u8; 24] = [
    46, 46, 46, 109, 101, 111, 119, 46, 46, 46, 109, 101, 111, 119, 46, 46, 46, 109, 101, 111,
    119, 46, 46, 46,
];

fn reference_packet() -> Vec<u8> {
    let mut pkt = vec![8u8, 0, 0, 0, 0, 0, 0, 1];
    pkt.extend_from_slice(&PAYLOAD);
    pkt
}

#[test]
fn checksum_of_reference_packet() {
    let pkt = reference_packet();
    assert_eq!(icmp_checksum(&pkt), 0x4c53);
}

#[test]
fn checksum_of_filled_packet_is_zero_complement() {
    let mut pkt = reference_packet();
    pkt[2] = 0x4c;
    pkt[3] = 0x53;
    assert_eq!(icmp_checksum(&pkt), 0);
}

#[test]
fn checksum_changes_when_any_byte_is_corrupted() {
    let pkt = reference_packet();
    let reference = icmp_checksum(&pkt);
    for i in 0..pkt.len() {
        let mut corrupted = pkt.clone();
        corrupted[i] = corrupted[i].wrapping_add(1);
        assert_ne!(icmp_checksum(&corrupted), reference);
        let mut flipped = pkt.clone();
        flipped[i] ^= 0xff;
        assert_ne!(icmp_checksum(&flipped), reference);
    }
}

#[test]
fn checksum_of_odd_length_data() {
    assert_eq!(icmp_checksum(&[0xab]), !0xab00u16);
    assert_eq!(icmp_checksum(&[]), 0xffff);
}

#[test]
fn build_echo_request_lays_out_header_and_payload() {
    let pkt = build_echo_request(0, 1, &PAYLOAD);
    assert_eq!(pkt.len(), 32);
    assert_eq!(pkt[0], 8);
    assert_eq!(pkt[1], 0);
    assert_eq!(pkt[2], 0x4c);
    assert_eq!(pkt[3], 0x53);
    assert_eq!(&pkt[4..8], &[0, 0, 0, 1]);
    assert_eq!(&pkt[8..], &PAYLOAD);
}

#[test]
fn build_echo_request_encodes_identifier_and_sequence_big_endian() {
    let pkt = build_echo_request(0x1234, 0xabcd, &PAYLOAD);
    assert_eq!(pkt[4], 0x12);
    assert_eq!(pkt[5], 0x34);
    assert_eq!(pkt[6], 0xab);
    assert_eq!(pkt[7], 0xcd);
}

fn synthetic_reply(ident: u16, sequence: u16) -> Vec<u8> {
    let mut reply = build_echo_request(ident, sequence, &PAYLOAD);
    reply[0] = 0;
    reply
}

#[test]
fn matching_reply_is_accepted_strictly() {
    let reply = synthetic_reply(0x77, 0x42);
    assert_eq!(parse_echo_reply(&reply, true, 0x77, 0x42), Ok(32));
}

#[test]
fn mismatched_sequence_is_rejected_strictly() {
    let reply = synthetic_reply(0x77, 0x42);
    assert_eq!(
        parse_echo_reply(&reply, true, 0x77, 0x43),
        Err(IcmpError::ReplyMismatch)
    );
}

#[test]
fn mismatched_identifier_is_rejected_strictly() {
    let reply = synthetic_reply(0x77, 0x42);
    assert_eq!(
        parse_echo_reply(&reply, true, 0x78, 0x42),
        Err(IcmpError::ReplyMismatch)
    );
}

#[test]
fn lenient_validation_checks_type_and_code_only() {
    let reply = synthetic_reply(0x77, 0x42);
    assert_eq!(parse_echo_reply(&reply, false, 0x999, 0x888), Ok(32));
}

#[test]
fn wrong_type_is_rejected_even_leniently() {
    let mut reply = synthetic_reply(0x77, 0x42);
    reply[0] = 3;
    assert_eq!(
        parse_echo_reply(&reply, false, 0x77, 0x42),
        Err(IcmpError::ReplyMismatch)
    );
}

#[test]
fn leading_ipv4_header_is_skipped() {
    let mut datagram = vec![0u8; 20];
    datagram[0] = 0x45;
    datagram.extend_from_slice(&synthetic_reply(0x77, 0x42));
    assert_eq!(parse_echo_reply(&datagram, true, 0x77, 0x42), Ok(32));
}

#[test]
fn short_reply_is_malformed() {
    let reply = synthetic_reply(0x77, 0x42);
    assert_eq!(
        parse_echo_reply(&reply[..7], true, 0x77, 0x42),
        Err(IcmpError::MalformedReply)
    );
    assert_eq!(
        parse_echo_reply(&[], true, 0x77, 0x42),
        Err(IcmpError::MalformedReply)
    );
}
