use dnsmark::transport::xdp::frame::{
    arp_trigger_due, ipv4_checksum, lookup_arp, parse_mac, vlan_from_env, FrameHeader, ETH_HDR,
    IPV4_HDR, OUTER_HDR,
};
use dnsmark::transport::xdp::parse::parse_dns_from_frame;

#[test]
fn frame_checksum_valid() {
    let hdr = FrameHeader::new(
        [0x00, 0x11, 0x22, 0x33, 0x44, 0x55],
        [0xAA, 0xBB, 0xCC, 0xDD, 0xEE, 0xFF],
        [192, 168, 1, 1],
        [192, 168, 1, 2],
        12345,
        53,
        None,
    );
    let dns = b"hello dns payload";
    let mut buf = vec![0u8; OUTER_HDR + dns.len()];
    let n = hdr.write_frame(&mut buf, dns);
    assert_eq!(n, buf.len());
    assert_eq!(&buf[12..14], &[0x08, 0x00]);
    assert_eq!(buf[ETH_HDR] >> 4, 4);
    assert_eq!(buf[ETH_HDR] & 0xF, 5);
    assert_eq!(buf[ETH_HDR + 9], 17);
    assert_eq!(&buf[OUTER_HDR..], dns.as_slice());
    assert_eq!(ipv4_checksum(&buf[ETH_HDR..ETH_HDR + IPV4_HDR]), 0);
    // The ports and the length of the datagram.
    assert_eq!(&buf[34..40], &[0x30, 0x39, 0, 53, 0, 25]);
    // The lengths of the packet: 20 + 8 + 17.
    assert_eq!(u16::from_be_bytes([buf[16], buf[17]]), 45);
}

#[test]
fn parse_mac_ok() {
    assert_eq!(
        parse_mac("aa:bb:cc:dd:ee:ff").unwrap(),
        [0xAA, 0xBB, 0xCC, 0xDD, 0xEE, 0xFF]
    );
}

#[test]
fn vlan_frame_layout_matches_8021q_spec() {
    let dst = [0xAA, 0xBB, 0xCC, 0xDD, 0xEE, 0xFF];
    let src = [0x00, 0x11, 0x22, 0x33, 0x44, 0x55];
    let hdr = FrameHeader::new_with_vlan(
        src,
        dst,
        [10, 8, 0, 2],
        [10, 8, 0, 1],
        12345,
        53,
        Some(2126),
    );
    assert_eq!(hdr.outer(), 46, "tagged outer header = 14+4+20+8");
    let dns = b"q";
    let mut buf = vec![0u8; hdr.outer() + dns.len()];
    let n = hdr.write_frame(&mut buf, dns);
    assert_eq!(n, buf.len());
    assert_eq!(&buf[0..6], &dst, "dst MAC");
    assert_eq!(&buf[6..12], &src, "src MAC");
    assert_eq!(&buf[12..14], &[0x81, 0x00], "TPID 0x8100");
    assert_eq!(u16::from_be_bytes([buf[14], buf[15]]), 2126 & 0x0FFF, "VID");
    assert_eq!(&buf[16..18], &[0x08, 0x00], "inner EtherType IPv4");
    assert_eq!(buf[18] >> 4, 4, "IPv4 version");
    assert_eq!(buf[18] & 0xF, 5, "IHL=5");
    assert_eq!(buf[18 + 9], 17, "proto UDP");
    assert_eq!(ipv4_checksum(&buf[18..18 + IPV4_HDR]), 0, "IPv4 checksum");
    assert_eq!(&buf[46..], dns.as_slice(), "DNS payload at offset 46");
}

#[test]
fn vlan_only_shifts_by_four() {
    let dst = [0xAA, 0xBB, 0xCC, 0xDD, 0xEE, 0xFF];
    let src = [0x00, 0x11, 0x22, 0x33, 0x44, 0x55];
    let a = [10, 8, 0, 2];
    let b = [10, 8, 0, 1];
    let untag = FrameHeader::new_with_vlan(src, dst, a, b, 12345, 53, None);
    let tag = FrameHeader::new_with_vlan(src, dst, a, b, 12345, 53, Some(100));
    let dns = b"payload!";
    let mut bu = vec![0u8; 64];
    let mut bt = vec![0u8; 64];
    let nu = untag.write_frame(&mut bu, dns);
    let nt = tag.write_frame(&mut bt, dns);
    assert_eq!(untag.outer(), 42);
    assert_eq!(nt, nu + 4, "tagged frame is exactly 4 bytes longer");
    assert_eq!(
        &bu[14..14 + IPV4_HDR],
        &bt[18..18 + IPV4_HDR],
        "IPv4 header unchanged by tagging"
    );
}

#[test]
fn a_source_port_can_be_set_afterwards() {
    let hdr = FrameHeader::new_with_vlan([0; 6], [1; 6], [10, 0, 0, 1], [10, 0, 0, 2], 1, 53, None);
    let mut buf = vec![0u8; 60];
    let n = hdr.write_header(&mut buf, 12);
    assert_eq!(n, 54);
    hdr.set_src_port(&mut buf, 0x2711);
    assert_eq!(&buf[34..36], &[0x27, 0x11]);
    assert_eq!(ipv4_checksum(&buf[14..34]), 0);
}

#[test]
fn checksums_are_exact() {
    // The example of RFC 1071 turned into a header of zeros around it.
    assert_eq!(ipv4_checksum(&[0x00, 0x01, 0xf2, 0x03, 0xf4, 0xf5, 0xf6, 0xf7]), !0xddf2);
    assert_eq!(ipv4_checksum(&[]), 0xFFFF);
}

#[test]
fn macs_that_are_none() {
    assert_eq!(parse_mac("aa:bb:cc:dd:ee"), None);
    assert_eq!(parse_mac("aa:bb:cc:dd:ee:ff:00"), None);
    assert_eq!(parse_mac("aa:bb:cc:dd:ee:gg"), None);
    assert_eq!(parse_mac(""), None);
}

#[test]
fn a_neighbour_is_found_by_its_address() {
    let table = "IP address       HW type     Flags       HW address            Mask     Device\n\
                 10.0.0.1         0x1         0x2         00:11:22:33:44:55     *        eth0\n\
                 10.0.0.2         0x1         0x2         aa:bb:cc:dd:ee:ff     *        eth0\n\
                 10.0.0.3         0x1         0x0         00:00:00:00:00:00     *        eth0\n";
    assert_eq!(lookup_arp(table, "10.0.0.2"), Some([0xAA, 0xBB, 0xCC, 0xDD, 0xEE, 0xFF]));
    assert_eq!(lookup_arp(table, "10.0.0.3"), None);
    assert_eq!(lookup_arp(table, "10.0.0.9"), None);
    assert!(arp_trigger_due(0));
}

#[test]
fn a_tag_comes_from_the_environment() {
    assert_eq!(vlan_from_env(None), None);
    assert_eq!(vlan_from_env(Some("2126")), Some(2126));
    assert_eq!(vlan_from_env(Some("0")), None);
    assert_eq!(vlan_from_env(Some(" 4095 ")), Some(4095));
    assert_eq!(vlan_from_env(Some("65536")), None);
    assert_eq!(vlan_from_env(Some("x")), None);
}

#[test]
fn a_frame_carries_its_message_with_and_without_a_tag() {
    let dns = [0x12, 0x34, 0x81, 0x83, 0, 1, 0, 0, 0, 0, 0, 0];
    for vlan in [None, Some(7)] {
        let hdr =
            FrameHeader::new_with_vlan([0; 6], [1; 6], [10, 0, 0, 1], [10, 0, 0, 2], 53, 9, vlan);
        let mut buf = vec![0u8; hdr.outer() + dns.len()];
        let n = hdr.write_frame(&mut buf, &dns);
        assert_eq!(parse_dns_from_frame(&buf[..n]), Some((0x1234, 3)));
        // A query in the place of a response is none.
        buf[hdr.outer() + 2] = 0x01;
        assert_eq!(parse_dns_from_frame(&buf[..n]), None);
        assert_eq!(parse_dns_from_frame(&buf[..n - 1]), None);
    }
    assert_eq!(parse_dns_from_frame(&[]), None);
}
