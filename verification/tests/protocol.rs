use spectrum_tools::protocol::{
    is_multicast, read_be16, read_be32, read_ether_type, write_be16, write_be32, EtherFrame,
    Icmpv6Header, Icmpv6RouterAdvertisement, Ipv6Header, VlanTag, ETHER_TYPE_802_1Q,
    ETHER_TYPE_IPV6, ICMP6_TYPE_R_ADV, IP_PROTO_ICMP6,
};
use zerocopy::byteorder::network_endian::{U16, U32};

#[test]
fn constants_are_the_assigned_numbers() {
    assert_eq!(ETHER_TYPE_IPV6, 0x86dd);
    assert_eq!(ETHER_TYPE_802_1Q, 0x8100);
    assert_eq!(IP_PROTO_ICMP6, 58);
    assert_eq!(ICMP6_TYPE_R_ADV, 134);
}

#[test]
fn broadcast_address_is_multicast() {
    assert!(is_multicast(&[0xff, 0xff, 0xff, 0xff, 0xff, 0xff]));
}

#[test]
fn group_block_is_multicast() {
    assert!(is_multicast(&[0x01, 0x80, 0xc2, 0x00, 0x00, 0x0e]));
    assert!(is_multicast(&[0x01, 0x80, 0xc2, 0xff, 0x12, 0x34]));
}

#[test]
fn ipv6_multicast_block_is_multicast() {
    assert!(is_multicast(&[0x33, 0x33, 0x00, 0x00, 0x00, 0x01]));
    assert!(is_multicast(&[0x33, 0x33, 0xff, 0xab, 0xcd, 0xef]));
}

#[test]
fn station_addresses_are_not_multicast() {
    assert!(!is_multicast(&[0x02, 0x00, 0x00, 0x00, 0x00, 0x01]));
    assert!(!is_multicast(&[0x00, 0x00, 0x00, 0x00, 0x00, 0x00]));
    assert!(!is_multicast(&[0xff, 0xff, 0xff, 0xff, 0xff, 0xfe]));
    assert!(!is_multicast(&[0x01, 0x80, 0xc3, 0x00, 0x00, 0x00]));
    assert!(!is_multicast(&[0x01, 0x00, 0x5e, 0x00, 0x00, 0x01]));
    assert!(!is_multicast(&[0x33, 0x34, 0x00, 0x00, 0x00, 0x01]));
}

#[test]
fn sixteen_bit_values_in_network_order() {
    assert_eq!(read_be16(0x86, 0xdd), 0x86dd);
    assert_eq!(write_be16(0x8100), [0x81, 0x00]);
    assert_eq!(write_be16(0x0064), [0x00, 0x64]);
    assert_eq!(read_be16(0xff, 0xff), 0xffff);
    assert_eq!(read_be16(0, 0), 0);
}

#[test]
fn thirty_two_bit_values_in_network_order() {
    assert_eq!(read_be32(0x60, 0x01, 0x02, 0x03), 0x6001_0203);
    assert_eq!(write_be32(0x6001_0203), [0x60, 0x01, 0x02, 0x03]);
    assert_eq!(write_be32(u32::MAX), [0xff, 0xff, 0xff, 0xff]);
    assert_eq!(read_be32(0xff, 0xff, 0xff, 0xff), u32::MAX);
}

#[test]
fn byte_order_agrees_with_zerocopy() {
    let values16: [u16; 5] = [0, 1, 0x00ff, 0x8100, 0xffff];
    for v in values16 {
        assert_eq!(write_be16(v), U16::new(v).to_bytes());
        let b = write_be16(v);
        assert_eq!(read_be16(b[0], b[1]), U16::from_bytes(b).get());
    }
    let values32: [u32; 5] = [0, 1, 0x0000_ffff, 0x6000_0000, 0xffff_ffff];
    for v in values32 {
        assert_eq!(write_be32(v), U32::new(v).to_bytes());
        let b = write_be32(v);
        assert_eq!(read_be32(b[0], b[1], b[2], b[3]), U32::from_bytes(b).get());
    }
}

#[test]
fn ether_frame_is_read_from_a_prefix() {
    let bytes = [1u8, 2, 3, 4, 5, 6, 7, 8, 9, 10, 11, 12, 0x86, 0xdd];
    let (frame, rest) = EtherFrame::read_from_prefix(&bytes).unwrap();
    assert_eq!(frame.dst_addr, [1, 2, 3, 4, 5, 6]);
    assert_eq!(frame.src_addr, [7, 8, 9, 10, 11, 12]);
    assert_eq!(rest, &[0x86, 0xdd]);
    assert_eq!(frame.to_bytes(), [1, 2, 3, 4, 5, 6, 7, 8, 9, 10, 11, 12]);
}

#[test]
fn ether_frame_needs_twelve_bytes() {
    assert!(EtherFrame::read_from_prefix(&[0u8; 11]).is_none());
    assert!(EtherFrame::read_from_prefix(&[]).is_none());
    let (_, rest) = EtherFrame::read_from_prefix(&[0u8; 12]).unwrap();
    assert!(rest.is_empty());
}

#[test]
fn vlan_tag_is_read_from_a_prefix() {
    let bytes = [0x81u8, 0x00, 0xa0, 0x64, 0x86, 0xdd];
    let (tag, rest) = VlanTag::read_from_prefix(&bytes).unwrap();
    assert_eq!(tag.ether_type, 0x8100);
    assert_eq!(tag.tag_control_information, 0xa064);
    assert_eq!(tag.vlan_id(), 0x064);
    assert_eq!(rest, &[0x86, 0xdd]);
    assert_eq!(tag.to_bytes(), [0x81, 0x00, 0xa0, 0x64]);
    assert!(VlanTag::read_from_prefix(&bytes[..3]).is_none());
}

#[test]
fn vlan_id_is_the_low_twelve_bits() {
    let tag = |tci| VlanTag { ether_type: 0x8100, tag_control_information: tci };
    assert_eq!(tag(0x0fff).vlan_id(), 0x0fff);
    assert_eq!(tag(0xffff).vlan_id(), 0x0fff);
    assert_eq!(tag(0xf000).vlan_id(), 0);
    assert_eq!(tag(100).vlan_id(), 100);
}

#[test]
fn ether_type_is_read_from_a_prefix() {
    let (t, rest) = read_ether_type(&[0x86, 0xdd, 0x60]).unwrap();
    assert_eq!(t, 0x86dd);
    assert_eq!(rest, &[0x60]);
    assert!(read_ether_type(&[0x86]).is_none());
}

fn ipv6_bytes() -> Vec<u8> {
    let mut b = vec![0x60, 0x01, 0x02, 0x03, 0x00, 0x20, 0x3a, 0xff];
    b.extend_from_slice(&[0x20, 0x01, 0x0d, 0xb8, 0, 0, 0, 0, 0, 0, 0, 0, 0, 0, 0, 1]);
    b.extend_from_slice(&[0xff, 0x02, 0, 0, 0, 0, 0, 0, 0, 0, 0, 0, 0, 0, 0, 2]);
    b
}

#[test]
fn ipv6_header_is_read_from_a_prefix() {
    let mut bytes = ipv6_bytes();
    bytes.extend_from_slice(&[0xaa, 0xbb]);
    let (h, rest) = Ipv6Header::read_from_prefix(&bytes).unwrap();
    assert_eq!(h.version_traffic_class_flow_label, 0x6001_0203);
    assert_eq!(h.payload_length, 0x20);
    assert_eq!(h.next_header, 0x3a);
    assert_eq!(h.hop_limit, 0xff);
    assert_eq!(h.src_addr, [0x20, 0x01, 0x0d, 0xb8, 0, 0, 0, 0, 0, 0, 0, 0, 0, 0, 0, 1]);
    assert_eq!(h.dst_addr, [0xff, 0x02, 0, 0, 0, 0, 0, 0, 0, 0, 0, 0, 0, 0, 0, 2]);
    assert_eq!(rest, &[0xaa, 0xbb]);
    assert_eq!(h.to_bytes().to_vec(), ipv6_bytes());
}

#[test]
fn ipv6_header_needs_forty_bytes() {
    let bytes = ipv6_bytes();
    assert!(Ipv6Header::read_from_prefix(&bytes[..39]).is_none());
    assert!(Ipv6Header::read_from_prefix(&bytes).is_some());
}

#[test]
fn icmpv6_header_is_read_from_a_prefix() {
    let bytes = [134u8, 0, 0x12, 0x34, 64, 0];
    let (h, rest) = Icmpv6Header::read_from_prefix(&bytes).unwrap();
    assert_eq!(h, Icmpv6Header { msg_type: 134, code: 0, checksum: 0x1234 });
    assert_eq!(rest, &[64, 0]);
    assert_eq!(h.to_bytes(), [134, 0, 0x12, 0x34]);
    assert!(Icmpv6Header::read_from_prefix(&bytes[..3]).is_none());
}

fn r_adv_bytes() -> [u8; 12] {
    [64, 0x80, 0x02, 0x58, 0, 0, 0x75, 0x30, 0, 0, 0x03, 0xe8]
}

fn r_adv() -> Icmpv6RouterAdvertisement {
    Icmpv6RouterAdvertisement {
        hop_limit: 64,
        flags: 0x80,
        router_lifetime: 600,
        reachable_time: 30000,
        retrans_timer: 1000,
    }
}

#[test]
fn router_advertisement_is_read_from_a_prefix() {
    let mut bytes = r_adv_bytes().to_vec();
    bytes.push(0x01);
    let (h, rest) = Icmpv6RouterAdvertisement::read_from_prefix(&bytes).unwrap();
    assert_eq!(h, r_adv());
    assert_eq!(rest, &[0x01]);
    assert_eq!(h.to_bytes(), r_adv_bytes());
    assert!(Icmpv6RouterAdvertisement::read_from_prefix(&bytes[..11]).is_none());
}

#[test]
fn router_advertisement_is_read_across_two_pieces() {
    let bytes = r_adv_bytes();
    for split in 0..=12 {
        let h = Icmpv6RouterAdvertisement::read_from_parts(&bytes[..split], &bytes[split..]);
        assert_eq!(h, Some(r_adv()));
    }
    let longer = [&bytes[..], &[9, 9, 9][..]].concat();
    assert_eq!(Icmpv6RouterAdvertisement::read_from_parts(&longer[..2], &longer[2..]), Some(r_adv()));
    assert_eq!(Icmpv6RouterAdvertisement::read_from_parts(&longer, &[]), Some(r_adv()));
}

#[test]
fn router_advertisement_in_pieces_needs_twelve_bytes() {
    let bytes = r_adv_bytes();
    assert_eq!(Icmpv6RouterAdvertisement::read_from_parts(&bytes[..2], &bytes[2..11]), None);
    assert_eq!(Icmpv6RouterAdvertisement::read_from_parts(&[], &[]), None);
    assert_eq!(Icmpv6RouterAdvertisement::read_from_parts(&bytes[..11], &[]), None);
}
