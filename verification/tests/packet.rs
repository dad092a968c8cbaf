use spectrum_tools::packet::{HeaderError, OutgoingPacket, Packet, PacketData};
use spectrum_tools::protocol::VlanTag;
use std::io::{Cursor, Read};

type Payload = Cursor<Vec<u8>>;

const SRC: [u8; 16] = [0x20, 0x01, 0x0d, 0xb8, 0, 0, 0, 0, 0, 0, 0, 0, 0, 0, 0, 1];
const DST: [u8; 16] = [0x20, 0x01, 0x0d, 0xb8, 0, 0, 0, 0, 0, 0, 0, 0, 0, 0, 0, 2];

/// A packet as it arrives: the payload is handed over unread, then its head
/// is read with one call and noted.
fn peeked(frame: &[u8], decap_vlan: bool) -> Packet<Payload> {
    let mut packet = Packet::Incoming { decap_vlan, buf: Some(Cursor::new(frame.to_vec())) };
    let mut head = [0u8; 64];
    let n = match &mut packet {
        Packet::Incoming { buf, .. } => buf.as_mut().unwrap().read(&mut head).unwrap(),
        Packet::Peek { .. } => unreachable!(),
    };
    packet.peek(head, n);
    packet
}

/// The bytes that go out for a packet: its head, then all of its tail.
fn sent(out: OutgoingPacket<Payload>) -> Vec<u8> {
    let (head, tail) = out.into_parts();
    let mut bytes = head.to_vec();
    match tail {
        PacketData::Incoming(mut payload) => {
            payload.read_to_end(&mut bytes).unwrap();
        }
        PacketData::Bytes(rest) => bytes.extend_from_slice(&rest),
    }
    bytes
}

fn ipv6_frame(vlan: Option<u16>, payload: &[u8]) -> Vec<u8> {
    let mut f = vec![0x02, 0, 0, 0, 0, 0x02, 0x02, 0, 0, 0, 0, 0x01];
    if let Some(tci) = vlan {
        f.extend_from_slice(&[0x81, 0x00, (tci >> 8) as u8, tci as u8]);
    }
    f.extend_from_slice(&[0x86, 0xdd]);
    f.extend_from_slice(&[0x60, 0, 0, 0, 0, payload.len() as u8, 17, 64]);
    f.extend_from_slice(&SRC);
    f.extend_from_slice(&DST);
    f.extend_from_slice(payload);
    f
}

#[test]
fn peek_holds_at_most_64_bytes() {
    let frame = ipv6_frame(None, &[0xab; 100]);
    let packet = peeked(&frame, false);
    assert_eq!(packet.peek_slice(), &frame[..64]);
    assert!(packet.tail_bytes().is_none());
}

#[test]
fn peek_of_a_short_frame_is_the_frame() {
    let frame = ipv6_frame(None, b"hello");
    assert_eq!(frame.len(), 59);
    let packet = peeked(&frame, false);
    assert_eq!(packet.peek_slice(), &frame[..]);
}

#[test]
fn peek_keeps_what_one_read_gave() {
    let mut packet: Packet<Payload> =
        Packet::Incoming { decap_vlan: true, buf: Some(Cursor::new(vec![])) };
    let mut head = [0u8; 64];
    head[0] = 1;
    head[1] = 2;
    head[2] = 3;
    packet.peek(head, 2);
    assert_eq!(packet.peek_slice(), &[1, 2]);
    assert!(packet.decap_vlan());
    let mut full: Packet<Payload> =
        Packet::Incoming { decap_vlan: false, buf: Some(Cursor::new(vec![])) };
    full.peek(head, 1000);
    assert_eq!(full.peek_slice().len(), 64);
}

#[test]
fn peek_leaves_a_peeked_packet_alone() {
    let frame = ipv6_frame(None, b"hello");
    let mut packet = peeked(&frame, false);
    packet.peek([0xee; 64], 64);
    assert_eq!(packet.peek_slice(), &frame[..]);
}

#[test]
fn headers_of_a_plain_ipv6_frame() {
    let frame = ipv6_frame(None, b"hello");
    let packet = peeked(&frame, false);
    let h = packet.headers().unwrap();
    assert_eq!(h.ether_frame.dst_addr, [0x02, 0, 0, 0, 0, 0x02]);
    assert_eq!(h.ether_frame.src_addr, [0x02, 0, 0, 0, 0, 0x01]);
    assert_eq!(h.vlan_tag, None);
    assert_eq!(h.ether_type, 0x86dd);
    let ip = h.ipv6_hdr.unwrap();
    assert_eq!(ip.src_addr, SRC);
    assert_eq!(ip.dst_addr, DST);
    assert_eq!(ip.next_header, 17);
    assert_eq!(ip.hop_limit, 64);
    assert_eq!(ip.payload_length, 5);
    assert_eq!(h.peek_slice, b"hello");
}

#[test]
fn headers_take_the_vlan_tag_off_when_asked() {
    let frame = ipv6_frame(Some(0x2064), b"hello");
    let packet = peeked(&frame, true);
    let h = packet.headers().unwrap();
    assert_eq!(h.vlan_tag, Some(VlanTag { ether_type: 0x8100, tag_control_information: 0x2064 }));
    assert_eq!(h.vlan_tag.unwrap().vlan_id(), 100);
    assert_eq!(h.ether_type, 0x86dd);
    assert_eq!(h.ipv6_hdr.unwrap().dst_addr, DST);
    assert_eq!(h.peek_slice, b"hello");
}

#[test]
fn headers_leave_the_vlan_tag_when_not_asked() {
    let frame = ipv6_frame(Some(100), b"hello");
    let packet = peeked(&frame, false);
    let h = packet.headers().unwrap();
    assert_eq!(h.vlan_tag, None);
    assert_eq!(h.ether_type, 0x8100);
    assert!(h.ipv6_hdr.is_none());
    assert_eq!(h.peek_slice, &frame[14..]);
}

#[test]
fn headers_of_a_frame_that_is_not_ipv6() {
    let mut frame = vec![0xff; 6];
    frame.extend_from_slice(&[2, 0, 0, 0, 0, 1, 0x08, 0x06, 1, 2, 3]);
    let packet = peeked(&frame, true);
    let h = packet.headers().unwrap();
    assert_eq!(h.ether_type, 0x0806);
    assert!(h.vlan_tag.is_none());
    assert!(h.ipv6_hdr.is_none());
    assert_eq!(h.peek_slice, &[1, 2, 3]);
}

#[test]
fn headers_of_a_long_frame_end_with_the_peek() {
    let frame = ipv6_frame(Some(7), &[0x55; 200]);
    let packet = peeked(&frame, true);
    let h = packet.headers().unwrap();
    assert_eq!(h.peek_slice, &[0x55; 6]);
}

fn header_error(frame: &[u8], decap_vlan: bool) -> HeaderError {
    match peeked(frame, decap_vlan).headers() {
        Ok(_) => panic!("headers were read"),
        Err(e) => e,
    }
}

#[test]
fn short_frames_give_the_part_that_is_cut() {
    let tagged = ipv6_frame(Some(100), b"hello");
    let plain = ipv6_frame(None, b"hello");
    assert_eq!(header_error(&plain[..0], false), HeaderError::ShortEtherFrame);
    assert_eq!(header_error(&plain[..11], false), HeaderError::ShortEtherFrame);
    assert_eq!(header_error(&plain[..12], false), HeaderError::ShortEtherType);
    assert_eq!(header_error(&plain[..13], true), HeaderError::ShortEtherType);
    assert_eq!(header_error(&tagged[..14], true), HeaderError::ShortVlanTag);
    assert_eq!(header_error(&tagged[..15], true), HeaderError::ShortVlanTag);
    assert_eq!(header_error(&tagged[..16], true), HeaderError::ShortInnerEtherType);
    assert_eq!(header_error(&tagged[..17], true), HeaderError::ShortInnerEtherType);
    assert_eq!(header_error(&tagged[..18], true), HeaderError::ShortIpv6Header);
    assert_eq!(header_error(&tagged[..57], true), HeaderError::ShortIpv6Header);
    assert_eq!(header_error(&plain[..14], false), HeaderError::ShortIpv6Header);
    assert_eq!(header_error(&plain[..53], false), HeaderError::ShortIpv6Header);
    assert!(peeked(&plain[..54], false).headers().is_ok());
    assert!(peeked(&tagged[..58], true).headers().is_ok());
    assert!(peeked(&tagged[..14], false).headers().is_ok());
}

#[test]
fn header_errors_in_words() {
    assert_eq!(HeaderError::ShortEtherFrame.message(), "packet with <12 bytes");
    assert_eq!(HeaderError::ShortEtherType.message(), "packet with <14 bytes");
    assert_eq!(HeaderError::ShortVlanTag.message(), "packet with <16 bytes");
    assert_eq!(HeaderError::ShortInnerEtherType.message(), "packet with <18 bytes");
    assert_eq!(HeaderError::ShortIpv6Header.message(), "short ipv6 header");
}

#[test]
fn out_without_a_tag_gives_the_frame_back() {
    for len in [0usize, 5, 6, 10, 11, 100, 1500] {
        let payload: Vec<u8> = (0..len).map(|i| i as u8).collect();
        let frame = ipv6_frame(None, &payload);
        let out = peeked(&frame, false).out(None).unwrap();
        assert_eq!(sent(out), frame);
    }
}

#[test]
fn out_of_a_frame_that_is_not_ipv6_gives_it_back() {
    let mut frame = vec![0xff; 6];
    frame.extend_from_slice(&[2, 0, 0, 0, 0, 1, 0x08, 0x06]);
    frame.extend_from_slice(&[7; 90]);
    assert_eq!(sent(peeked(&frame, true).out(None).unwrap()), frame);
    assert_eq!(sent(peeked(&frame[..14], false).out(None).unwrap()), &frame[..14]);
}

#[test]
fn out_puts_the_tag_behind_the_addresses() {
    let frame = ipv6_frame(None, &[0x11; 80]);
    let tag = VlanTag { ether_type: 0x8100, tag_control_information: 100 };
    let out = peeked(&frame, false).out(Some(tag)).unwrap();
    assert_eq!(out.headers_out().len(), 68);
    let bytes = sent(out);
    assert_eq!(bytes.len(), frame.len() + 4);
    assert_eq!(bytes, ipv6_frame(Some(100), &[0x11; 80]));
}

#[test]
fn out_leaves_out_the_tag_taken_off() {
    let frame = ipv6_frame(Some(100), &[0x22; 80]);
    let out = peeked(&frame, true).out(None).unwrap();
    assert_eq!(out.headers_out().len(), 60);
    let bytes = sent(out);
    assert_eq!(bytes.len(), frame.len() - 4);
    assert_eq!(bytes, ipv6_frame(None, &[0x22; 80]));
}

#[test]
fn out_with_the_same_vlan_gives_the_frame_back() {
    for len in [0usize, 1, 6, 7, 300] {
        let frame = ipv6_frame(Some(100), &vec![0x33; len]);
        let packet = peeked(&frame, true);
        let id = packet.headers().unwrap().vlan_tag.unwrap().vlan_id();
        let tag = VlanTag { ether_type: 0x8100, tag_control_information: id };
        assert_eq!(sent(packet.out(Some(tag)).unwrap()), frame);
    }
}

#[test]
fn out_with_the_same_vlan_drops_the_priority_bits() {
    let frame = ipv6_frame(Some(0xe064), b"hello");
    let packet = peeked(&frame, true);
    let id = packet.headers().unwrap().vlan_tag.unwrap().vlan_id();
    assert_eq!(id, 100);
    let tag = VlanTag { ether_type: 0x8100, tag_control_information: id };
    assert_eq!(sent(packet.out(Some(tag)).unwrap()), ipv6_frame(Some(100), b"hello"));
}

#[test]
fn out_keeps_the_tail_as_it_is() {
    let payload: Vec<u8> = (0..500).map(|i| (i * 7) as u8).collect();
    let frame = ipv6_frame(None, &payload);
    let tag = VlanTag { ether_type: 0x8100, tag_control_information: 9 };
    let bytes = sent(peeked(&frame, false).out(Some(tag)).unwrap());
    assert_eq!(&bytes[68..], &frame[64..]);
}

#[test]
fn out_of_a_short_frame_is_an_error() {
    let frame = ipv6_frame(None, b"hello");
    assert_eq!(peeked(&frame[..30], false).out(None).err(), Some(HeaderError::ShortIpv6Header));
    assert_eq!(peeked(&frame[..3], false).out(None).err(), Some(HeaderError::ShortEtherFrame));
}

#[test]
fn set_dst_addr_writes_the_first_six_bytes() {
    let frame = ipv6_frame(None, b"hello");
    let mut packet = peeked(&frame, false);
    packet.set_dst_addr(&[0xaa, 0xbb, 0xcc, 0xdd, 0xee, 0xff]);
    let mut expected = frame.clone();
    expected[..6].copy_from_slice(&[0xaa, 0xbb, 0xcc, 0xdd, 0xee, 0xff]);
    assert_eq!(packet.peek_slice(), &expected[..]);
    assert_eq!(packet.headers().unwrap().ether_frame.dst_addr, [0xaa, 0xbb, 0xcc, 0xdd, 0xee, 0xff]);
    assert_eq!(sent(packet.out(None).unwrap()), expected);
}

#[test]
fn try_clone_needs_a_tail_that_was_read() {
    let frame = ipv6_frame(None, &[0x44; 100]);
    let mut packet = peeked(&frame, false);
    assert!(packet.try_clone().is_none());
    if let Packet::Peek { buf, .. } = &mut packet {
        assert!(buf.full_packet().is_none());
        let mut rest = Vec::new();
        if let PacketData::Incoming(payload) = buf {
            payload.read_to_end(&mut rest).unwrap();
        }
        buf.set_bytes(rest);
        assert_eq!(buf.full_packet(), Some(&frame[64..]));
    }
    assert_eq!(packet.tail_bytes(), Some(&frame[64..]));
    let copy = packet.try_clone().unwrap();
    assert_eq!(copy.peek_slice(), packet.peek_slice());
    assert_eq!(copy.tail_bytes(), packet.tail_bytes());
    assert_eq!(copy.decap_vlan(), packet.decap_vlan());
    assert_eq!(sent(copy.out(None).unwrap()), frame);
    assert_eq!(sent(packet.out(None).unwrap()), frame);
}

#[test]
fn try_clone_of_an_unread_packet_is_none() {
    let packet: Packet<Payload> =
        Packet::Incoming { decap_vlan: false, buf: Some(Cursor::new(vec![1, 2, 3])) };
    assert!(packet.try_clone().is_none());
    assert!(packet.tail_bytes().is_none());
    assert!(!packet.decap_vlan());
}

#[test]
fn a_packet_that_was_not_peeked_has_an_empty_peek() {
    let mut packet: Packet<Payload> =
        Packet::Incoming { decap_vlan: false, buf: Some(Cursor::new(ipv6_frame(None, b"hello"))) };
    assert!(packet.peek_slice().is_empty());
    assert_eq!(packet.headers().err(), Some(HeaderError::ShortEtherFrame));
    packet.set_dst_addr(&[1, 2, 3, 4, 5, 6]);
    assert!(packet.peek_slice().is_empty());
    assert_eq!(packet.out(None).err(), Some(HeaderError::ShortEtherFrame));
}

#[test]
fn set_dst_addr_leaves_a_peek_of_five_bytes_alone() {
    let mut packet = peeked(&[9, 8, 7, 6, 5], false);
    packet.set_dst_addr(&[1, 2, 3, 4, 5, 6]);
    assert_eq!(packet.peek_slice(), &[9, 8, 7, 6, 5]);
    let mut six = peeked(&[9, 8, 7, 6, 5, 4], false);
    six.set_dst_addr(&[1, 2, 3, 4, 5, 6]);
    assert_eq!(six.peek_slice(), &[1, 2, 3, 4, 5, 6]);
}
