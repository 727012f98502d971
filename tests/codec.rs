use dhcp_server::codec::{encode, DhcpHeader, DhcpOption, DhcpPacket, OPTIONS, OPTIONS_START};
use dhcp_server::icmp::{create_default_icmp_buffer, echo_request_with_checksum};
use dhcp_server::ipv4::{make_big_endian_vec_from_u32, u8_to_ipv4addr, Ipv4Net};

fn header() -> DhcpHeader {
    DhcpHeader {
        op: 1,
        htype: 1,
        hlen: 6,
        xid: 0xdeadbeef,
        secs: 3,
        flags: 0x8000,
        ciaddr: 0x0a000007,
        yiaddr: 0,
        siaddr: 0,
        giaddr: 0x0a0000fe,
        chaddr: 0x112233445566,
    }
}

fn opt(code: u8, value: &[u8]) -> DhcpOption {
    DhcpOption { code, value: value.to_vec() }
}

fn raw_with_options(options: &[u8]) -> Vec<u8> {
    let mut b = vec![0u8; OPTIONS];
    b.extend_from_slice(&[99, 130, 83, 99]);
    b.extend_from_slice(options);
    b
}

#[test]
fn decode_rejects_short_buffer() {
    assert!(DhcpPacket::new(vec![0u8; OPTIONS_START - 1]).is_none());
    assert!(DhcpPacket::new(Vec::new()).is_none());
    assert!(DhcpPacket::new(vec![0u8; OPTIONS_START]).is_some());
}

#[test]
fn encode_writes_fixed_fields() {
    let bytes = encode(&header(), &vec![opt(53, &[1])]);
    assert_eq!(bytes.len(), 300);
    assert_eq!(&bytes[0..4], &[1, 1, 6, 0]);
    assert_eq!(&bytes[4..8], &[0xde, 0xad, 0xbe, 0xef]);
    assert_eq!(&bytes[8..10], &[0, 3]);
    assert_eq!(&bytes[10..12], &[0x80, 0]);
    assert_eq!(&bytes[12..16], &[10, 0, 0, 7]);
    assert_eq!(&bytes[24..28], &[10, 0, 0, 254]);
    assert_eq!(&bytes[28..34], &[0x11, 0x22, 0x33, 0x44, 0x55, 0x66]);
    assert!(bytes[34..44].iter().all(|b| *b == 0));
    assert_eq!(&bytes[236..240], &[99, 130, 83, 99]);
    assert_eq!(&bytes[240..244], &[53, 1, 1, 255]);
    assert!(bytes[244..].iter().all(|b| *b == 0));
}

#[test]
fn decode_reads_header_fields() {
    let p = DhcpPacket::new(encode(&header(), &Vec::new())).unwrap();
    assert_eq!(p.get_op(), 1);
    assert_eq!(p.get_xid(), 0xdeadbeef);
    assert_eq!(p.get_flags(), 0x8000);
    assert_eq!(p.get_ciaddr(), 0x0a000007);
    assert_eq!(p.get_yiaddr(), 0);
    assert_eq!(p.get_giaddr(), 0x0a0000fe);
    assert_eq!(p.get_chaddr(), 0x112233445566);
    assert_eq!(p.get_buffer().len(), 300);
    assert_eq!(&p.get_options()[0..5], &[99, 130, 83, 99, 255]);
}

#[test]
fn get_option_returns_first_match() {
    let p = DhcpPacket::new(raw_with_options(&[53, 1, 3, 50, 4, 10, 0, 0, 9, 50, 4, 1, 2, 3, 4, 255]))
        .unwrap();
    assert_eq!(p.get_option(53), Some(vec![3]));
    assert_eq!(p.get_option(50), Some(vec![10, 0, 0, 9]));
    assert_eq!(p.get_option(54), None);
}

#[test]
fn decode_skips_padding() {
    let p = DhcpPacket::new(raw_with_options(&[0, 0, 53, 1, 7, 0, 54, 4, 10, 0, 0, 1, 255])).unwrap();
    assert_eq!(p.get_option(53), Some(vec![7]));
    assert_eq!(p.get_option(54), Some(vec![10, 0, 0, 1]));
}

#[test]
fn decode_stops_at_end_marker() {
    let p = DhcpPacket::new(raw_with_options(&[53, 1, 1, 255, 54, 4, 10, 0, 0, 1])).unwrap();
    assert_eq!(p.get_option(53), Some(vec![1]));
    assert_eq!(p.get_option(54), None);
}

#[test]
fn decode_without_end_marker_is_bounded() {
    let p = DhcpPacket::new(raw_with_options(&[53, 1, 1, 54, 9, 10, 0])).unwrap();
    assert_eq!(p.get_option(53), Some(vec![1]));
    assert_eq!(p.get_option(54), None);
    assert_eq!(p.get_option(61), None);
    let q = DhcpPacket::new(raw_with_options(&[53])).unwrap();
    assert_eq!(q.get_option(53), None);
}

#[test]
fn encode_then_decode_gives_options_back() {
    let options = vec![
        opt(53, &[2]),
        opt(51, &[0, 0, 0x0e, 0x10]),
        opt(54, &[10, 0, 0, 1]),
        opt(1, &[255, 255, 255, 0]),
        opt(3, &[10, 0, 0, 254]),
        opt(6, &[10, 0, 0, 2]),
    ];
    let p = DhcpPacket::new(encode(&header(), &options)).unwrap();
    assert_eq!(p.get_option(53), Some(vec![2]));
    assert_eq!(p.get_option(51), Some(vec![0, 0, 0x0e, 0x10]));
    assert_eq!(p.get_option(6), Some(vec![10, 0, 0, 2]));
}

#[test]
fn set_option_writes_at_cursor() {
    let mut p = DhcpPacket::new(vec![0u8; 260]).unwrap();
    let mut cursor: usize = OPTIONS_START;
    p.set_option(&mut cursor, 53, 1, Some(&[5]));
    assert_eq!(cursor, OPTIONS_START + 3);
    p.set_option(&mut cursor, 54, 4, Some(&[10, 0, 0, 1]));
    assert_eq!(cursor, OPTIONS_START + 9);
    p.set_option(&mut cursor, 255, 0, None);
    assert_eq!(cursor, OPTIONS_START + 9);
    assert_eq!(&p.get_buffer()[240..250], &[53, 1, 5, 54, 4, 10, 0, 0, 1, 255]);
    assert_eq!(p.get_option(53), Some(vec![5]));
    assert_eq!(p.get_option(54), Some(vec![10, 0, 0, 1]));
}

#[test]
fn set_giaddr_and_chaddr() {
    let mut p = DhcpPacket::new(encode(&header(), &vec![opt(53, &[1])])).unwrap();
    p.set_giaddr(0xc0a80101);
    p.set_chaddr(0xaabbccddeeff);
    assert_eq!(p.get_giaddr(), 0xc0a80101);
    assert_eq!(p.get_chaddr(), 0xaabbccddeeff);
    assert_eq!(&p.get_buffer()[24..28], &[192, 168, 1, 1]);
    assert!(p.get_buffer()[34..44].iter().all(|b| *b == 0));
    assert_eq!(p.get_option(53), Some(vec![1]));
}

#[test]
fn ipv4_from_bytes() {
    assert_eq!(u8_to_ipv4addr(&[10, 0, 0, 5]), Some(0x0a000005));
    assert_eq!(u8_to_ipv4addr(&[255, 255, 255, 255]), Some(0xffffffff));
    assert_eq!(u8_to_ipv4addr(&[10, 0, 0]), None);
    assert_eq!(u8_to_ipv4addr(&[10, 0, 0, 5, 1]), None);
}

#[test]
fn big_endian_bytes() {
    assert_eq!(make_big_endian_vec_from_u32(3600), vec![0, 0, 0x0e, 0x10]);
    assert_eq!(make_big_endian_vec_from_u32(0x01020304), vec![1, 2, 3, 4]);
}

#[test]
fn network_range() {
    let n = Ipv4Net::new(0x0a000000, 0x0a0000ff).unwrap();
    assert!(n.contains(0x0a000000));
    assert!(n.contains(0x0a000080));
    assert!(n.contains(0x0a0000ff));
    assert!(!n.contains(0x0a000100));
    assert!(Ipv4Net::new(5, 4).is_none());
}

#[test]
fn echo_request_checksum() {
    assert_eq!(create_default_icmp_buffer(), vec![8, 0, 0xf7, 0xff, 0, 0, 0, 0]);
    assert_eq!(echo_request_with_checksum(0x1234), vec![8, 0, 0x12, 0x34, 0, 0, 0, 0]);
}
