use goteira::codec::{encode_echo_request, internet_checksum, parse_datagram, parse_icmp, IcmpReply};

#[test]
fn checksum_of_known_ipv4_header() {
    let header = [
        0x45u8, 0x00, 0x00, 0x73, 0x00, 0x00, 0x40, 0x00, 0x40, 0x11, 0x00, 0x00, 0xc0, 0xa8,
        0x00, 0x01, 0xc0, 0xa8, 0x00, 0xc7,
    ];
    assert_eq!(internet_checksum(&header), 0xb861);
}

#[test]
fn checksum_of_empty_and_odd_inputs() {
    assert_eq!(internet_checksum(&[]), 0xffff);
    assert_eq!(internet_checksum(&[0x01]), 0xfeff);
    assert_eq!(internet_checksum(&[0x00, 0x01, 0xf2]), 0x0dfe);
}

#[test]
fn checksum_folds_carries() {
    // 0xffff + 0xffff = 0x1fffe, folded to 0xffff, complemented to 0.
    assert_eq!(internet_checksum(&[0xff, 0xff, 0xff, 0xff]), 0x0000);
    // 0xffff + 0x0002 = 0x10001, folded to 0x0002.
    assert_eq!(internet_checksum(&[0xff, 0xff, 0x00, 0x02]), 0xfffd);
}

#[test]
fn checksum_round_trip_on_arbitrary_packets() {
    let mut packet: Vec<u8> = (0..37u32).map(|i| (i * 37 + 11) as u8).collect();
    packet[2] = 0;
    packet[3] = 0;
    let c = internet_checksum(&packet);
    packet[2] = (c >> 8) as u8;
    packet[3] = (c & 0xff) as u8;
    assert_eq!(internet_checksum(&packet), 0);

    let mut zeros = vec![0u8; 8];
    let c = internet_checksum(&zeros);
    assert_eq!(c, 0xffff);
    zeros[2] = 0xff;
    zeros[3] = 0xff;
    assert_eq!(internet_checksum(&zeros), 0);
}

#[test]
fn echo_request_layout() {
    let r = encode_echo_request(0x1234, 0xabcd);
    assert_eq!(r.len(), 64);
    assert_eq!(r[0], 8);
    assert_eq!(r[1], 0);
    assert_eq!(&r[4..8], &[0x12, 0x34, 0xab, 0xcd]);
    assert!(r[8..].iter().all(|b| *b == 0));
    assert_eq!(internet_checksum(&r), 0);
    let mut zeroed = r.clone();
    zeroed[2] = 0;
    zeroed[3] = 0;
    let c = internet_checksum(&zeroed);
    assert_eq!(((r[2] as u16) << 8) | r[3] as u16, c);
    assert_eq!(c, !(0x0800u16 + 0x1234 + 0xabcd));
}

#[test]
fn parse_icmp_kinds() {
    let mut echo = encode_echo_request(7, 9);
    echo[0] = 0;
    assert_eq!(parse_icmp(&echo), IcmpReply::EchoReply { id: 7, seq: 9 });
    let exceeded = [11u8, 0, 0, 0, 0, 0, 0, 0];
    assert_eq!(parse_icmp(&exceeded), IcmpReply::TimeExceeded);
    let unreachable = [3u8, 1, 0, 0, 0, 0, 0, 0];
    assert_eq!(parse_icmp(&unreachable), IcmpReply::Other);
    let short = [0u8, 0, 0, 0];
    assert_eq!(parse_icmp(&short), IcmpReply::Other);
    let request = encode_echo_request(1, 1);
    assert_eq!(parse_icmp(&request), IcmpReply::Other);
}

#[test]
fn parse_datagram_skips_ip_header() {
    let mut d = vec![0u8; 20];
    d[0] = 0x45;
    d.extend_from_slice(&[0, 0, 0, 0, 0x01, 0x02, 0x00, 0x05]);
    assert_eq!(parse_datagram(&d), IcmpReply::EchoReply { id: 0x0102, seq: 5 });

    let mut with_options = vec![0u8; 24];
    with_options[0] = 0x46;
    with_options.extend_from_slice(&[11, 0, 0, 0, 0, 0, 0, 0]);
    assert_eq!(parse_datagram(&with_options), IcmpReply::TimeExceeded);

    assert_eq!(parse_datagram(&[0x45, 0, 0]), IcmpReply::Other);
    let mut bad_ihl = vec![0u8; 28];
    bad_ihl[0] = 0x44;
    assert_eq!(parse_datagram(&bad_ihl), IcmpReply::Other);
    let mut truncated = vec![0u8; 24];
    truncated[0] = 0x45;
    assert_eq!(parse_datagram(&truncated), IcmpReply::Other);
}
