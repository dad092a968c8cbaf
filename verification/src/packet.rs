//! A frame on its way through the router. Only its first bytes, the peek,
//! are ever held and looked at; the rest, the tail, is carried along unread.

use crate::buffer::{
    head_as_slice, head_bytes, head_new, head_try_extend, peek_as_mut_slice, peek_as_slice,
    peek_bytes, peek_clone, peek_from_array, peek_truncate,
};
use crate::protocol::{
    be16, be16_wire, lemma_be_write_of_read, lemma_header_write_of_read, read_ether_type,
    write_be16, EtherFrame, Ipv6Header, MacAddr, VlanTag, ETHER_FRAME_LEN, ETHER_TYPE_802_1Q,
    ETHER_TYPE_IPV6,
};
use arrayvec::ArrayVec;
use vstd::prelude::*;

verus! {

/// What follows the peek: either the payload as it came in, still to be
/// read, or the bytes that were read from it.
pub enum PacketData<R> {
    Incoming(R),
    Bytes(Vec<u8>),
}

impl<R> PacketData<R> {
    /// The bytes of the tail, once they have been read.
    pub open spec fn bytes(&self) -> Option<Seq<u8>> {
        match *self {
            PacketData::Incoming(_) => None,
            PacketData::Bytes(b) => Some(b@),
        }
    }

    /// The tail's bytes, where they have been read.
    pub fn full_packet(&self) -> (r: Option<&[u8]>)
        ensures
            match self.bytes() {
                None => r is None,
                Some(b) => r matches Some(s) && s@ == b,
            },
    {
        match self {
            PacketData::Incoming(_) => None,
            PacketData::Bytes(b) => Some(b.as_slice()),
        }
    }

    /// Puts the bytes read from the payload in the payload's place.
    pub fn set_bytes(&mut self, bytes: Vec<u8>)
        ensures
            *final(self) == PacketData::<R>::Bytes(bytes),
    {
        *self = PacketData::Bytes(bytes);
    }
}

/// A frame in one of two states: as it came in, its payload unread, or with
/// its first bytes read into the peek.
#[allow(inconsistent_fields)]
pub enum Packet<R> {
    /// The packet has not been looked at yet.
    Incoming { decap_vlan: bool, buf: Option<R> },
    /// The head of the packet has been read, to look at its headers.
    Peek { decap_vlan: bool, peek: ArrayVec<u8, 64>, buf: PacketData<R> },
}

/// Why the headers of a frame could not be read: the peek ends before the
/// named part does.
#[derive(Debug, Clone, Copy, PartialEq, Eq)]
pub enum HeaderError {
    ShortEtherFrame,
    ShortEtherType,
    ShortVlanTag,
    ShortInnerEtherType,
    ShortIpv6Header,
}

impl HeaderError {
    /// The error in words.
    pub open spec fn spec_message(&self) -> Seq<char> {
        match *self {
            HeaderError::ShortEtherFrame => "packet with <12 bytes"@,
            HeaderError::ShortEtherType => "packet with <14 bytes"@,
            HeaderError::ShortVlanTag => "packet with <16 bytes"@,
            HeaderError::ShortInnerEtherType => "packet with <18 bytes"@,
            HeaderError::ShortIpv6Header => "short ipv6 header"@,
        }
    }

    /// The error in words.
    pub fn message(&self) -> (s: &'static str)
        ensures
            s@ == self.spec_message(),
    {
        match self {
            HeaderError::ShortEtherFrame => "packet with <12 bytes",
            HeaderError::ShortEtherType => "packet with <14 bytes",
            HeaderError::ShortVlanTag => "packet with <16 bytes",
            HeaderError::ShortInnerEtherType => "packet with <18 bytes",
            HeaderError::ShortIpv6Header => "short ipv6 header",
        }
    }
}

/// The headers found in a peek, and the bytes of the peek behind them.
pub struct PacketHeaders<'a> {
    pub ether_frame: EtherFrame,
    pub vlan_tag: Option<VlanTag>,
    pub ether_type: u16,
    pub ipv6_hdr: Option<Ipv6Header>,
    pub peek_slice: &'a [u8],
}

/// `PacketHeaders` as a value: the same headers, and the rest of the peek as
/// a sequence.
pub struct HeadersView {
    pub ether_frame: EtherFrame,
    pub vlan_tag: Option<VlanTag>,
    pub ether_type: u16,
    pub ipv6_hdr: Option<Ipv6Header>,
    pub peek_slice: Seq<u8>,
}

impl<'a> View for PacketHeaders<'a> {
    type V = HeadersView;

    open spec fn view(&self) -> HeadersView {
        HeadersView {
            ether_frame: self.ether_frame,
            vlan_tag: self.vlan_tag,
            ether_type: self.ether_type,
            ipv6_hdr: self.ipv6_hdr,
            peek_slice: self.peek_slice@,
        }
    }
}

/// Whether an 802.1Q tag follows the addresses and is to be taken off.
pub open spec fn vlan_tagged(peek: Seq<u8>, decap_vlan: bool) -> bool {
    decap_vlan && peek.len() >= 14 && be16(peek[12], peek[13]) == ETHER_TYPE_802_1Q
}

/// Where in the peek the EtherType of what the frame carries stands.
pub open spec fn ether_type_at(peek: Seq<u8>, decap_vlan: bool) -> int {
    if vlan_tagged(peek, decap_vlan) {
        16
    } else {
        12
    }
}

/// The EtherType of what the frame carries.
pub open spec fn inner_ether_type(peek: Seq<u8>, decap_vlan: bool) -> u16 {
    let at = ether_type_at(peek, decap_vlan);
    be16(peek[at], peek[at + 1])
}

/// Where in the peek the bytes behind the headers begin.
pub open spec fn payload_at(peek: Seq<u8>, decap_vlan: bool) -> int {
    ether_type_at(peek, decap_vlan) + 2 + if inner_ether_type(peek, decap_vlan)
        == ETHER_TYPE_IPV6 {
        40int
    } else {
        0int
    }
}

/// What reading the headers of a peek gives: the first part that the peek is
/// too short for, or the headers.
pub open spec fn parse_headers(peek: Seq<u8>, decap_vlan: bool) -> Result<
    HeadersView,
    HeaderError,
> {
    let tagged = vlan_tagged(peek, decap_vlan);
    let at = ether_type_at(peek, decap_vlan);
    let ether_type = inner_ether_type(peek, decap_vlan);
    if peek.len() < 12 {
        Err(HeaderError::ShortEtherFrame)
    } else if peek.len() < 14 {
        Err(HeaderError::ShortEtherType)
    } else if tagged && peek.len() < 16 {
        Err(HeaderError::ShortVlanTag)
    } else if tagged && peek.len() < 18 {
        Err(HeaderError::ShortInnerEtherType)
    } else if ether_type == ETHER_TYPE_IPV6 && peek.len() < at + 42 {
        Err(HeaderError::ShortIpv6Header)
    } else {
        Ok(
            HeadersView {
                ether_frame: EtherFrame::from_wire(peek),
                vlan_tag: if tagged {
                    Some(VlanTag::from_wire(peek.skip(12)))
                } else {
                    None
                },
                ether_type,
                ipv6_hdr: if ether_type == ETHER_TYPE_IPV6 {
                    Some(Ipv6Header::from_wire(peek.skip(at + 2)))
                } else {
                    None
                },
                peek_slice: peek.skip(payload_at(peek, decap_vlan)),
            },
        )
    }
}

/// The bytes of an optional tag: its four bytes, or none.
pub open spec fn encap_wire(vlan_encap: Option<VlanTag>) -> Seq<u8> {
    match vlan_encap {
        Some(tag) => tag.wire(),
        None => Seq::<u8>::empty(),
    }
}

/// The head that is sent for a peek: the two addresses, the tag to put on
/// if there is one, and the peek from its inner EtherType on. A tag that was
/// taken off on the way in is thereby left out.
pub open spec fn out_head(peek: Seq<u8>, decap_vlan: bool, vlan_encap: Option<VlanTag>) -> Seq<
    u8,
> {
    peek.take(12) + encap_wire(vlan_encap) + peek.skip(ether_type_at(peek, decap_vlan))
}

impl HeadersView {
    /// The headers written out one after the other, with `vlan_encap` behind
    /// the addresses, and the rest of the peek behind them.
    pub open spec fn wire(self, vlan_encap: Option<VlanTag>) -> Seq<u8> {
        self.ether_frame.wire() + encap_wire(vlan_encap) + be16_wire(self.ether_type) + (
        match self.ipv6_hdr {
            Some(h) => h.wire(),
            None => Seq::<u8>::empty(),
        }) + self.peek_slice
    }
}

/// Writing out the headers read from a peek gives the peek again, but for
/// the tag taken off and the tag put on.
pub proof fn lemma_headers_wire(peek: Seq<u8>, decap_vlan: bool, vlan_encap: Option<VlanTag>)
    requires
        parse_headers(peek, decap_vlan) is Ok,
    ensures
        parse_headers(peek, decap_vlan)->Ok_0.wire(vlan_encap) == out_head(
            peek,
            decap_vlan,
            vlan_encap,
        ),
{
    let h = parse_headers(peek, decap_vlan)->Ok_0;
    let at = ether_type_at(peek, decap_vlan);
    lemma_header_write_of_read(peek);
    lemma_be_write_of_read(peek[at], peek[at + 1], 0, 0);
    if h.ipv6_hdr is Some {
        lemma_header_write_of_read(peek.skip(at + 2));
    }
    assert(h.wire(vlan_encap) =~= out_head(peek, decap_vlan, vlan_encap));
}

impl<R> Packet<R> {
    /// Whether the packet's head has been read.
    pub open spec fn is_peeked(&self) -> bool {
        self is Peek
    }

    /// Whether a VLAN tag in front of the EtherType is taken off on reading.
    pub open spec fn spec_decap_vlan(&self) -> bool {
        match *self {
            Packet::Incoming { decap_vlan, .. } => decap_vlan,
            Packet::Peek { decap_vlan, .. } => decap_vlan,
        }
    }

    /// The bytes of the peek; none before the head has been read.
    pub open spec fn head(&self) -> Seq<u8> {
        match *self {
            Packet::Incoming { .. } => Seq::<u8>::empty(),
            Packet::Peek { peek, .. } => peek_bytes(peek),
        }
    }

    /// Whether a VLAN tag in front of the EtherType is taken off on reading.
    #[verifier::when_used_as_spec(spec_decap_vlan)]
    pub fn decap_vlan(&self) -> (d: bool)
        ensures
            d == self.spec_decap_vlan(),
    {
        match self {
            Packet::Incoming { decap_vlan, .. } => *decap_vlan,
            Packet::Peek { decap_vlan, .. } => *decap_vlan,
        }
    }

    /// The bytes behind the peek, where they have been read.
    pub fn tail_bytes(&self) -> (r: Option<&[u8]>)
        ensures
            match *self {
                Packet::Incoming { .. } => r is None,
                Packet::Peek { buf, .. } => match buf.bytes() {
                    None => r is None,
                    Some(b) => r matches Some(s) && s@ == b,
                },
            },
    {
        match self {
            Packet::Incoming { .. } => None,
            Packet::Peek { buf, .. } => buf.full_packet(),
        }
    }

    /// The bytes of the peek.
    pub fn peek_slice(&self) -> (s: &[u8])
        ensures
            s@ == self.head(),
            s@.len() <= 64,
    {
        match self {
            Packet::Incoming { .. } => {
                let none: &[u8] = &[];
                assert(none@ =~= Seq::<u8>::empty());
                none
            },
            Packet::Peek { peek, .. } => peek_as_slice(peek),
        }
    }

    /// The headers in the peek. A packet whose head has not been read has
    /// none: for it the result is that of an empty peek.
    pub fn headers(&self) -> (r: Result<PacketHeaders<'_>, HeaderError>)
        ensures
            match parse_headers(self.head(), self.spec_decap_vlan()) {
                Ok(v) => r matches Ok(h) && h@ == v,
                Err(e) => r matches Err(f) && f == e,
            },
            self.head().len() <= 64,
    {
        let decap_vlan = self.decap_vlan();
        let bytes = self.peek_slice();
        let ghost peek = bytes@;
        let (ether_frame, rest) = match EtherFrame::read_from_prefix(bytes) {
            Some(x) => x,
            None => {
                return Err(HeaderError::ShortEtherFrame);
            },
        };
        let outer = match read_ether_type(rest) {
            Some(x) => x.0,
            None => {
                return Err(HeaderError::ShortEtherType);
            },
        };
        let tagged = decap_vlan && outer == ETHER_TYPE_802_1Q;
        assert(tagged == vlan_tagged(peek, decap_vlan));
        let (vlan_tag, rest) = if tagged {
            match VlanTag::read_from_prefix(rest) {
                Some(x) => (Some(x.0), x.1),
                None => {
                    return Err(HeaderError::ShortVlanTag);
                },
            }
        } else {
            (None, rest)
        };
        assert(rest@ =~= peek.skip(ether_type_at(peek, decap_vlan)));
        let (ether_type, rest) = match read_ether_type(rest) {
            Some(x) => x,
            None => {
                return Err(HeaderError::ShortInnerEtherType);
            },
        };
        assert(ether_type == inner_ether_type(peek, decap_vlan));
        assert(rest@ =~= peek.skip(ether_type_at(peek, decap_vlan) + 2));
        let (ipv6_hdr, rest) = if ether_type == ETHER_TYPE_IPV6 {
            match Ipv6Header::read_from_prefix(rest) {
                Some(x) => (Some(x.0), x.1),
                None => {
                    return Err(HeaderError::ShortIpv6Header);
                },
            }
        } else {
            (None, rest)
        };
        assert(rest@ =~= peek.skip(payload_at(peek, decap_vlan)));
        Ok(PacketHeaders { ether_frame, vlan_tag, ether_type, ipv6_hdr, peek_slice: rest })
    }
}


impl<R> Packet<R> {
    /// What follows the peek; defined once the head has been read.
    pub open spec fn tail(&self) -> PacketData<R> {
        match *self {
            Packet::Incoming { buf, .. } => PacketData::Incoming(buf->0),
            Packet::Peek { buf, .. } => buf,
        }
    }

    /// Takes note of the head of an incoming packet: `head` holds what one
    /// read of the payload gave, `n` says how many bytes that were. A packet
    /// whose head was read before stays as it is.
    pub fn peek(&mut self, head: [u8; 64], n: usize)
        requires
            *old(self) matches Packet::Incoming { buf, .. } ==> buf is Some,
        ensures
            final(self).is_peeked(),
            final(self).spec_decap_vlan() == old(self).spec_decap_vlan(),
            final(self).tail() == old(self).tail(),
            final(self).head() == if old(self).is_peeked() {
                old(self).head()
            } else if n < 64 {
                head@.take(n as int)
            } else {
                head@
            },
    {
        let taken = match self {
            Packet::Incoming { decap_vlan, buf } => Some((*decap_vlan, buf.take())),
            Packet::Peek { .. } => None,
        };
        match taken {
            Some((decap_vlan, Some(payload))) => {
                let mut peek = peek_from_array(head);
                peek_truncate(&mut peek, n);
                *self = Packet::Peek { decap_vlan, peek, buf: PacketData::Incoming(payload) };
            },
            _ => {},
        }
    }

    /// Writes `mac` over the destination address at the start of the peek.
    /// A peek that is too short to hold the address is left as it is.
    pub fn set_dst_addr(&mut self, mac: &MacAddr)
        ensures
            final(self).is_peeked() == old(self).is_peeked(),
            final(self).spec_decap_vlan() == old(self).spec_decap_vlan(),
            final(self).tail() == old(self).tail(),
            final(self).head() == if old(self).head().len() >= 6 {
                mac@ + old(self).head().skip(6)
            } else {
                old(self).head()
            },
    {
        match self {
            Packet::Incoming { .. } => {},
            Packet::Peek { peek, .. } => {
                let s = peek_as_mut_slice(peek);
                if s.len() >= 6 {
                    s[0] = mac[0];
                    s[1] = mac[1];
                    s[2] = mac[2];
                    s[3] = mac[3];
                    s[4] = mac[4];
                    s[5] = mac[5];
                    assert(s@ =~= mac@ + old(self).head().skip(6));
                }
            },
        }
    }

    /// A second packet with the same peek and tail, for a tail whose bytes
    /// have been read; `None` for any other packet.
    pub fn try_clone(&self) -> (r: Option<Packet<R>>)
        ensures
            r is Some <==> self.is_peeked() && self.tail() is Bytes,
            r matches Some(p) ==> p.is_peeked() && p.spec_decap_vlan() == self.spec_decap_vlan()
                && p.head() == self.head() && p.tail() is Bytes && p.tail()->Bytes_0@
                == self.tail()->Bytes_0@,
    {
        match self {
            Packet::Peek { decap_vlan, peek, buf: PacketData::Bytes(bytes) } => {
                let copy = bytes.clone();
                Some(
                    Packet::Peek {
                        decap_vlan: *decap_vlan,
                        peek: peek_clone(peek),
                        buf: PacketData::Bytes(copy),
                    },
                )
            },
            _ => None,
        }
    }

    /// Makes the packet ready to be sent: writes its headers out again, with
    /// `vlan_encap` behind the addresses where one is given, and hands the
    /// tail on untouched. A packet whose head has not been read is in error
    /// as one with an empty peek is.
    pub fn out(self, vlan_encap: Option<VlanTag>) -> (r: Result<OutgoingPacket<R>, HeaderError>)
        ensures
            match parse_headers(self.head(), self.spec_decap_vlan()) {
                Ok(_) => r matches Ok(o) && o.head() == out_head(
                    self.head(),
                    self.spec_decap_vlan(),
                    vlan_encap,
                ) && o.tail() == self.tail(),
                Err(e) => r matches Err(f) && f == e,
            },
    {
        let mut headers_out = head_new();
        let h = match self.headers() {
            Ok(h) => h,
            Err(e) => {
                return Err(e);
            },
        };
        proof {
            lemma_headers_wire(self.head(), self.spec_decap_vlan(), vlan_encap);
        }
        let ether = h.ether_frame.to_bytes();
        extend(&mut headers_out, ether.as_slice());
        match vlan_encap {
            Some(tag) => {
                let t = tag.to_bytes();
                extend(&mut headers_out, t.as_slice());
            },
            None => {},
        }
        let ether_type = write_be16(h.ether_type);
        extend(&mut headers_out, ether_type.as_slice());
        match h.ipv6_hdr {
            Some(ip) => {
                let i = ip.to_bytes();
                extend(&mut headers_out, i.as_slice());
            },
            None => {},
        }
        extend(&mut headers_out, h.peek_slice);
        assert(head_bytes(headers_out) =~= h@.wire(vlan_encap));
        match self {
            Packet::Incoming { .. } => {
                proof {
                    assert(false);
                }
                vstd::pervasive::unreached()
            },
            Packet::Peek { buf, .. } => Ok(OutgoingPacket { headers_out, buf }),
        }
    }
}

/// Appends to a head that has room for what is appended.
fn extend(head: &mut ArrayVec<u8, 128>, bytes: &[u8])
    requires
        head_bytes(*old(head)).len() + bytes@.len() <= 128,
    ensures
        head_bytes(*final(head)) == head_bytes(*old(head)) + bytes@,
{
    match head_try_extend(head, bytes) {
        Ok(_) => {},
        Err(_) => {
            proof {
                assert(false);
            }
        },
    }
}

/// A packet as it is sent: the head written by `Packet::out`, then the tail.
pub struct OutgoingPacket<R> {
    /// This has room for a VLAN tag put on in front of the peek's content.
    headers_out: ArrayVec<u8, 128>,
    buf: PacketData<R>,
}

impl<R> OutgoingPacket<R> {
    /// The bytes sent in front of the tail.
    pub closed spec fn head(&self) -> Seq<u8> {
        head_bytes(self.headers_out)
    }

    /// What is sent behind the head.
    pub closed spec fn tail(&self) -> PacketData<R> {
        self.buf
    }

    /// The bytes sent in front of the tail.
    pub fn headers_out(&self) -> (s: &[u8])
        ensures
            s@ == self.head(),
            s@.len() <= 128,
    {
        head_as_slice(&self.headers_out)
    }

    /// Takes the packet apart into its head and its tail, to be read one
    /// after the other.
    pub fn into_parts(self) -> (parts: (ArrayVec<u8, 128>, PacketData<R>))
        ensures
            head_bytes(parts.0) == self.head(),
            parts.1 == self.tail(),
    {
        (self.headers_out, self.buf)
    }
}


/// A frame whose headers can be read leaves with the same tail behind its
/// head, and is four bytes longer for a tag put on and four bytes shorter
/// for a tag taken off.
pub proof fn lemma_out_length(
    peek: Seq<u8>,
    decap_vlan: bool,
    vlan_encap: Option<VlanTag>,
    tail: Seq<u8>,
)
    requires
        parse_headers(peek, decap_vlan) is Ok,
    ensures
        (out_head(peek, decap_vlan, vlan_encap) + tail).len() == (peek + tail).len() + (
        if vlan_encap is Some {
            4int
        } else {
            0int
        }) - (if vlan_tagged(peek, decap_vlan) {
            4int
        } else {
            0int
        }),
        (out_head(peek, decap_vlan, vlan_encap) + tail).skip(
            out_head(peek, decap_vlan, vlan_encap).len() as int,
        ) == tail,
{
    let head = out_head(peek, decap_vlan, vlan_encap);
    assert((head + tail).skip(head.len() as int) =~= tail);
}

/// A frame that is read with the first `n` of its bytes as the peek, has no
/// tag taken off and none put on, leaves byte for byte as it came.
pub proof fn lemma_out_round_trip(frame: Seq<u8>, n: int, decap_vlan: bool)
    requires
        0 <= n <= frame.len(),
        parse_headers(frame.take(n), decap_vlan) is Ok,
        !vlan_tagged(frame.take(n), decap_vlan),
    ensures
        out_head(frame.take(n), decap_vlan, None) + frame.skip(n) == frame,
{
    assert(out_head(frame.take(n), decap_vlan, None) + frame.skip(n) =~= frame);
}

/// A frame whose tag is taken off on the way in, and that is sent with a
/// tag of the same VLAN id, leaves byte for byte as it came, provided the
/// bits of its tag above the id were zero.
pub proof fn lemma_retag_round_trip(frame: Seq<u8>, n: int)
    requires
        0 <= n <= frame.len(),
        parse_headers(frame.take(n), true) is Ok,
        parse_headers(frame.take(n), true)->Ok_0.vlan_tag is Some,
        parse_headers(frame.take(n), true)->Ok_0.vlan_tag->0.tag_control_information < 4096,
    ensures
        out_head(
            frame.take(n),
            true,
            Some(
                VlanTag {
                    ether_type: ETHER_TYPE_802_1Q,
                    tag_control_information: parse_headers(
                        frame.take(n),
                        true,
                    )->Ok_0.vlan_tag->0.spec_vlan_id(),
                },
            ),
        ) + frame.skip(n) == frame,
{
    let peek = frame.take(n);
    let tag = parse_headers(peek, true)->Ok_0.vlan_tag->0;
    let again = VlanTag { ether_type: ETHER_TYPE_802_1Q, tag_control_information: tag.spec_vlan_id() };
    assert(again == tag);
    lemma_header_write_of_read(peek.skip(12));
    assert(tag.wire() =~= peek.subrange(12, 16));
    assert(out_head(peek, true, Some(again)) + frame.skip(n) =~= frame);
}

} // verus!
