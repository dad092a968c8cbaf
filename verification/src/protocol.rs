//! Wire formats: Ethernet, 802.1Q, IPv6 and ICMPv6 headers as they lie in a
//! frame, all multi-byte fields in network byte order.

use vstd::prelude::*;

verus! {

/// The EtherType of IPv6.
pub const ETHER_TYPE_IPV6: u16 = 0x86dd;

/// The EtherType that announces an 802.1Q tag.
pub const ETHER_TYPE_802_1Q: u16 = 0x8100;

/// The next-header value of ICMPv6.
pub const IP_PROTO_ICMP6: u8 = 0x3a;

/// The ICMPv6 type of a Router Advertisement.
pub const ICMP6_TYPE_R_ADV: u8 = 134;

/// Bytes taken by the two Ethernet addresses.
pub const ETHER_FRAME_LEN: usize = 12;

/// Bytes taken by an EtherType field.
pub const ETHER_TYPE_LEN: usize = 2;

/// Bytes taken by an 802.1Q tag.
pub const VLAN_TAG_LEN: usize = 4;

/// Bytes taken by the fixed IPv6 header.
pub const IPV6_HEADER_LEN: usize = 40;

/// Bytes taken by the ICMPv6 header.
pub const ICMPV6_HEADER_LEN: usize = 4;

/// Bytes taken by the body of a Router Advertisement.
pub const ICMPV6_R_ADV_LEN: usize = 12;

/// The address of a station, as it lies in a frame.
pub type MacAddr = [u8; 6];

/// What is left of `b` behind its first `n` bytes.
pub open spec fn after(b: Seq<u8>, n: usize) -> Seq<u8> {
    b.skip(n as int)
}

/// The first `n` bytes of `b`.
pub open spec fn front(b: Seq<u8>, n: usize) -> Seq<u8> {
    b.take(n as int)
}

/// The part of `bytes` behind its first `n`.
fn rest_of(bytes: &[u8], n: usize) -> (rest: &[u8])
    requires
        n <= bytes@.len(),
    ensures
        rest@ == after(bytes@, n),
{
    let rest = vstd::slice::slice_subrange(bytes, n, bytes.len());
    assert(rest@ =~= after(bytes@, n));
    rest
}

/// The 16-bit value whose network-order bytes are `hi`, `lo`.
pub open spec fn be16(hi: u8, lo: u8) -> u16 {
    (hi as int * 256 + lo as int) as u16
}

/// The network-order bytes of a 16-bit value.
pub open spec fn be16_wire(v: u16) -> Seq<u8> {
    seq![(v / 256) as u8, (v % 256) as u8]
}

/// The 32-bit value whose network-order bytes are `b0` to `b3`.
pub open spec fn be32(b0: u8, b1: u8, b2: u8, b3: u8) -> u32 {
    (b0 as int * 16777216 + b1 as int * 65536 + b2 as int * 256 + b3 as int) as u32
}

/// The network-order bytes of a 32-bit value.
pub open spec fn be32_wire(v: u32) -> Seq<u8> {
    seq![
        (v / 16777216) as u8,
        ((v / 65536) % 256) as u8,
        ((v / 256) % 256) as u8,
        (v % 256) as u8,
    ]
}

pub fn read_be16(hi: u8, lo: u8) -> (v: u16)
    ensures
        v == be16(hi, lo),
{
    (hi as u16) * 256 + (lo as u16)
}

pub fn write_be16(v: u16) -> (b: [u8; 2])
    ensures
        b@ == be16_wire(v),
{
    let b: [u8; 2] = [(v / 256) as u8, (v % 256) as u8];
    assert(b@ =~= be16_wire(v));
    b
}

pub fn read_be32(b0: u8, b1: u8, b2: u8, b3: u8) -> (v: u32)
    ensures
        v == be32(b0, b1, b2, b3),
{
    (b0 as u32) * 16777216 + (b1 as u32) * 65536 + (b2 as u32) * 256 + (b3 as u32)
}

pub fn write_be32(v: u32) -> (b: [u8; 4])
    ensures
        b@ == be32_wire(v),
{
    let b: [u8; 4] = [
        (v / 16777216) as u8,
        ((v / 65536) % 256) as u8,
        ((v / 256) % 256) as u8,
        (v % 256) as u8,
    ];
    assert(b@ =~= be32_wire(v));
    b
}

/// Reading back the bytes written for a value gives the value, at both widths.
pub proof fn lemma_be_read_of_write(v16: u16, v32: u32)
    ensures
        be16(be16_wire(v16)[0], be16_wire(v16)[1]) == v16,
        be32(be32_wire(v32)[0], be32_wire(v32)[1], be32_wire(v32)[2], be32_wire(v32)[3]) == v32,
{
}

/// Writing the value read from some bytes gives those bytes, at both widths.
pub proof fn lemma_be_write_of_read(b0: u8, b1: u8, b2: u8, b3: u8)
    ensures
        be16_wire(be16(b0, b1)) == seq![b0, b1],
        be32_wire(be32(b0, b1, b2, b3)) == seq![b0, b1, b2, b3],
{
    let v: int = b0 as int * 256 + b1 as int;
    assert(v / 256 == b0 && v % 256 == b1);
    assert(be16_wire(be16(b0, b1)) =~= seq![b0, b1]);
    let lo: int = b2 as int * 256 + b3 as int;
    let w: int = v * 65536 + lo;
    assert(lo / 256 == b2 && lo % 256 == b3);
    assert(w / 65536 == v && w % 65536 == lo);
    assert(w / 256 == v * 256 + b2 as int);
    assert((v * 256 + b2 as int) % 256 == b2);
    assert(w / 16777216 == b0);
    assert(w % 256 == b3);
    assert(be32(b0, b1, b2, b3) == w);
    assert(be32_wire(be32(b0, b1, b2, b3)) =~= seq![b0, b1, b2, b3]);
}

/// Whether a destination address names a group of stations: the broadcast
/// address, the 802 group block `01:80:c2`, or the IPv6 multicast block `33:33`.
pub open spec fn mac_is_multicast(mac: Seq<u8>) -> bool {
    ||| (mac[0] == 0xff && mac[1] == 0xff && mac[2] == 0xff && mac[3] == 0xff && mac[4] == 0xff
        && mac[5] == 0xff)
    ||| (mac[0] == 0x01 && mac[1] == 0x80 && mac[2] == 0xc2)
    ||| (mac[0] == 0x33 && mac[1] == 0x33)
}

/// Whether frames to `mac` go to a group of stations.
pub fn is_multicast(mac: &MacAddr) -> (r: bool)
    ensures
        r == mac_is_multicast(mac@),
{
    if mac[0] == 0xff && mac[1] == 0xff && mac[2] == 0xff && mac[3] == 0xff && mac[4] == 0xff
        && mac[5] == 0xff {
        true
    } else if mac[0] == 0x01 && mac[1] == 0x80 && mac[2] == 0xc2 {
        true
    } else {
        mac[0] == 0x33 && mac[1] == 0x33
    }
}


/// The two station addresses that open every Ethernet frame. The EtherType
/// is no part of it: a VLAN tag may stand between the addresses and the type.
#[derive(Debug, Clone, Copy, PartialEq, Eq)]
pub struct EtherFrame {
    pub dst_addr: MacAddr,
    pub src_addr: MacAddr,
}

impl EtherFrame {
    /// The header as it lies in a frame.
    pub open spec fn wire(self) -> Seq<u8> {
        self.dst_addr@ + self.src_addr@
    }

    /// The header that the first twelve bytes of `b` spell.
    pub open spec fn from_wire(b: Seq<u8>) -> EtherFrame {
        EtherFrame {
            dst_addr: [b[0], b[1], b[2], b[3], b[4], b[5]],
            src_addr: [b[6], b[7], b[8], b[9], b[10], b[11]],
        }
    }

    /// Splits the header off the front of `bytes`; `None` where they are too few.
    pub fn read_from_prefix(bytes: &[u8]) -> (r: Option<(EtherFrame, &[u8])>)
        ensures
            r is None <==> bytes@.len() < ETHER_FRAME_LEN,
            r matches Some((h, rest)) ==> h == EtherFrame::from_wire(bytes@) && rest@
                == after(bytes@, ETHER_FRAME_LEN),
    {
        if bytes.len() < ETHER_FRAME_LEN {
            return None;
        }
        let h = EtherFrame {
            dst_addr: [bytes[0], bytes[1], bytes[2], bytes[3], bytes[4], bytes[5]],
            src_addr: [bytes[6], bytes[7], bytes[8], bytes[9], bytes[10], bytes[11]],
        };
        let rest = rest_of(bytes, ETHER_FRAME_LEN);
        assert(h.dst_addr =~= EtherFrame::from_wire(bytes@).dst_addr);
        assert(h.src_addr =~= EtherFrame::from_wire(bytes@).src_addr);
        Some((h, rest))
    }

    pub fn to_bytes(&self) -> (b: [u8; 12])
        ensures
            b@ == self.wire(),
    {
        let d = &self.dst_addr;
        let s = &self.src_addr;
        let b: [u8; 12] = [d[0], d[1], d[2], d[3], d[4], d[5], s[0], s[1], s[2], s[3], s[4], s[5]];
        assert(b@ =~= self.wire());
        b
    }
}

/// An 802.1Q tag: the EtherType that announces it and the tag control
/// information, whose low twelve bits are the VLAN id.
#[derive(Debug, Clone, Copy, PartialEq, Eq)]
pub struct VlanTag {
    pub ether_type: u16,
    pub tag_control_information: u16,
}

impl VlanTag {
    pub open spec fn wire(self) -> Seq<u8> {
        be16_wire(self.ether_type) + be16_wire(self.tag_control_information)
    }

    pub open spec fn from_wire(b: Seq<u8>) -> VlanTag {
        VlanTag { ether_type: be16(b[0], b[1]), tag_control_information: be16(b[2], b[3]) }
    }

    /// The VLAN id that the tag carries.
    pub open spec fn spec_vlan_id(&self) -> u16 {
        (self.tag_control_information % 4096) as u16
    }

    /// Splits the tag off the front of `bytes`; `None` where they are too few.
    pub fn read_from_prefix(bytes: &[u8]) -> (r: Option<(VlanTag, &[u8])>)
        ensures
            r is None <==> bytes@.len() < VLAN_TAG_LEN,
            r matches Some((h, rest)) ==> h == VlanTag::from_wire(bytes@) && rest@ == after(bytes@, VLAN_TAG_LEN),
    {
        if bytes.len() < VLAN_TAG_LEN {
            return None;
        }
        let h = VlanTag {
            ether_type: read_be16(bytes[0], bytes[1]),
            tag_control_information: read_be16(bytes[2], bytes[3]),
        };
        let rest = rest_of(bytes, VLAN_TAG_LEN);
        Some((h, rest))
    }

    pub fn to_bytes(&self) -> (b: [u8; 4])
        ensures
            b@ == self.wire(),
    {
        let t = write_be16(self.ether_type);
        let c = write_be16(self.tag_control_information);
        let b: [u8; 4] = [t[0], t[1], c[0], c[1]];
        assert(b@ =~= self.wire());
        b
    }

    #[verifier::when_used_as_spec(spec_vlan_id)]
    pub fn vlan_id(&self) -> (id: u16)
        ensures
            id == self.spec_vlan_id(),
            id < 4096,
    {
        let tci = self.tag_control_information;
        assert(tci & 0xfff == tci % 4096) by (bit_vector);
        tci & 0xfff
    }
}

/// Splits an EtherType field off the front of `bytes`; `None` where they are
/// too few.
pub fn read_ether_type(bytes: &[u8]) -> (r: Option<(u16, &[u8])>)
    ensures
        r is None <==> bytes@.len() < ETHER_TYPE_LEN,
        r matches Some((t, rest)) ==> t == be16(bytes@[0], bytes@[1]) && rest@ == after(bytes@, ETHER_TYPE_LEN),
{
    if bytes.len() < ETHER_TYPE_LEN {
        return None;
    }
    let t = read_be16(bytes[0], bytes[1]);
    let rest = rest_of(bytes, ETHER_TYPE_LEN);
    Some((t, rest))
}

/// The fixed IPv6 header.
#[derive(Debug, Clone, Copy, PartialEq, Eq)]
pub struct Ipv6Header {
    pub version_traffic_class_flow_label: u32,
    pub payload_length: u16,
    pub next_header: u8,
    pub hop_limit: u8,
    pub src_addr: [u8; 16],
    pub dst_addr: [u8; 16],
}

/// The sixteen bytes of `b` from `at` on, as an address.
pub open spec fn addr_at(b: Seq<u8>, at: int) -> [u8; 16] {
    [
        b[at],
        b[at + 1],
        b[at + 2],
        b[at + 3],
        b[at + 4],
        b[at + 5],
        b[at + 6],
        b[at + 7],
        b[at + 8],
        b[at + 9],
        b[at + 10],
        b[at + 11],
        b[at + 12],
        b[at + 13],
        b[at + 14],
        b[at + 15],
    ]
}

fn read_addr(bytes: &[u8], at: usize) -> (a: [u8; 16])
    requires
        at + 16 <= bytes@.len(),
    ensures
        a == addr_at(bytes@, at as int),
{
    let a: [u8; 16] = [
        bytes[at],
        bytes[at + 1],
        bytes[at + 2],
        bytes[at + 3],
        bytes[at + 4],
        bytes[at + 5],
        bytes[at + 6],
        bytes[at + 7],
        bytes[at + 8],
        bytes[at + 9],
        bytes[at + 10],
        bytes[at + 11],
        bytes[at + 12],
        bytes[at + 13],
        bytes[at + 14],
        bytes[at + 15],
    ];
    assert(a =~= addr_at(bytes@, at as int));
    a
}

impl Ipv6Header {
    pub open spec fn wire(self) -> Seq<u8> {
        be32_wire(self.version_traffic_class_flow_label) + be16_wire(self.payload_length)
            + seq![self.next_header, self.hop_limit] + self.src_addr@ + self.dst_addr@
    }

    pub open spec fn from_wire(b: Seq<u8>) -> Ipv6Header {
        Ipv6Header {
            version_traffic_class_flow_label: be32(b[0], b[1], b[2], b[3]),
            payload_length: be16(b[4], b[5]),
            next_header: b[6],
            hop_limit: b[7],
            src_addr: addr_at(b, 8),
            dst_addr: addr_at(b, 24),
        }
    }

    /// Splits the header off the front of `bytes`; `None` where they are too few.
    pub fn read_from_prefix(bytes: &[u8]) -> (r: Option<(Ipv6Header, &[u8])>)
        ensures
            r is None <==> bytes@.len() < IPV6_HEADER_LEN,
            r matches Some((h, rest)) ==> h == Ipv6Header::from_wire(bytes@) && rest@
                == after(bytes@, IPV6_HEADER_LEN),
    {
        if bytes.len() < IPV6_HEADER_LEN {
            return None;
        }
        let h = Ipv6Header {
            version_traffic_class_flow_label: read_be32(bytes[0], bytes[1], bytes[2], bytes[3]),
            payload_length: read_be16(bytes[4], bytes[5]),
            next_header: bytes[6],
            hop_limit: bytes[7],
            src_addr: read_addr(bytes, 8),
            dst_addr: read_addr(bytes, 24),
        };
        let rest = rest_of(bytes, IPV6_HEADER_LEN);
        Some((h, rest))
    }

    pub fn to_bytes(&self) -> (b: [u8; 40])
        ensures
            b@ == self.wire(),
    {
        let w = write_be32(self.version_traffic_class_flow_label);
        let l = write_be16(self.payload_length);
        let s = &self.src_addr;
        let d = &self.dst_addr;
        let b: [u8; 40] = [
            w[0],
            w[1],
            w[2],
            w[3],
            l[0],
            l[1],
            self.next_header,
            self.hop_limit,
            s[0],
            s[1],
            s[2],
            s[3],
            s[4],
            s[5],
            s[6],
            s[7],
            s[8],
            s[9],
            s[10],
            s[11],
            s[12],
            s[13],
            s[14],
            s[15],
            d[0],
            d[1],
            d[2],
            d[3],
            d[4],
            d[5],
            d[6],
            d[7],
            d[8],
            d[9],
            d[10],
            d[11],
            d[12],
            d[13],
            d[14],
            d[15],
        ];
        assert(b@ =~= self.wire());
        b
    }
}

/// The header common to all ICMPv6 messages.
#[derive(Debug, Clone, Copy, PartialEq, Eq)]
pub struct Icmpv6Header {
    pub msg_type: u8,
    pub code: u8,
    pub checksum: u16,
}

impl Icmpv6Header {
    pub open spec fn wire(self) -> Seq<u8> {
        seq![self.msg_type, self.code] + be16_wire(self.checksum)
    }

    pub open spec fn from_wire(b: Seq<u8>) -> Icmpv6Header {
        Icmpv6Header { msg_type: b[0], code: b[1], checksum: be16(b[2], b[3]) }
    }

    /// Splits the header off the front of `bytes`; `None` where they are too few.
    pub fn read_from_prefix(bytes: &[u8]) -> (r: Option<(Icmpv6Header, &[u8])>)
        ensures
            r is None <==> bytes@.len() < ICMPV6_HEADER_LEN,
            r matches Some((h, rest)) ==> h == Icmpv6Header::from_wire(bytes@) && rest@
                == after(bytes@, ICMPV6_HEADER_LEN),
    {
        if bytes.len() < ICMPV6_HEADER_LEN {
            return None;
        }
        let h = Icmpv6Header {
            msg_type: bytes[0],
            code: bytes[1],
            checksum: read_be16(bytes[2], bytes[3]),
        };
        let rest = rest_of(bytes, ICMPV6_HEADER_LEN);
        Some((h, rest))
    }

    pub fn to_bytes(&self) -> (b: [u8; 4])
        ensures
            b@ == self.wire(),
    {
        let c = write_be16(self.checksum);
        let b: [u8; 4] = [self.msg_type, self.code, c[0], c[1]];
        assert(b@ =~= self.wire());
        b
    }
}

/// The body of a Router Advertisement, which follows the ICMPv6 header.
#[derive(Debug, Clone, Copy, PartialEq, Eq)]
pub struct Icmpv6RouterAdvertisement {
    pub hop_limit: u8,
    pub flags: u8,
    pub router_lifetime: u16,
    pub reachable_time: u32,
    pub retrans_timer: u32,
}

impl Icmpv6RouterAdvertisement {
    pub open spec fn wire(self) -> Seq<u8> {
        seq![self.hop_limit, self.flags] + be16_wire(self.router_lifetime) + be32_wire(
            self.reachable_time,
        ) + be32_wire(self.retrans_timer)
    }

    pub open spec fn from_wire(b: Seq<u8>) -> Icmpv6RouterAdvertisement {
        Icmpv6RouterAdvertisement {
            hop_limit: b[0],
            flags: b[1],
            router_lifetime: be16(b[2], b[3]),
            reachable_time: be32(b[4], b[5], b[6], b[7]),
            retrans_timer: be32(b[8], b[9], b[10], b[11]),
        }
    }

    /// Splits the body off the front of `bytes`; `None` where they are too few.
    pub fn read_from_prefix(bytes: &[u8]) -> (r: Option<(Icmpv6RouterAdvertisement, &[u8])>)
        ensures
            r is None <==> bytes@.len() < ICMPV6_R_ADV_LEN,
            r matches Some((h, rest)) ==> h == Icmpv6RouterAdvertisement::from_wire(bytes@)
                && rest@ == after(bytes@, ICMPV6_R_ADV_LEN),
    {
        if bytes.len() < ICMPV6_R_ADV_LEN {
            return None;
        }
        let h = Icmpv6RouterAdvertisement {
            hop_limit: bytes[0],
            flags: bytes[1],
            router_lifetime: read_be16(bytes[2], bytes[3]),
            reachable_time: read_be32(bytes[4], bytes[5], bytes[6], bytes[7]),
            retrans_timer: read_be32(bytes[8], bytes[9], bytes[10], bytes[11]),
        };
        let rest = rest_of(bytes, ICMPV6_R_ADV_LEN);
        Some((h, rest))
    }

    /// Reads the body from bytes that lie in two pieces, the second behind
    /// the first; `None` where both together are too few.
    pub fn read_from_parts(first: &[u8], second: &[u8]) -> (r: Option<Icmpv6RouterAdvertisement>)
        ensures
            r is None <==> first@.len() + second@.len() < ICMPV6_R_ADV_LEN,
            r matches Some(h) ==> h == Icmpv6RouterAdvertisement::from_wire(first@ + second@),
    {
        let mut body: [u8; 12] = [0u8; 12];
        let mut i: usize = 0;
        while i < 12
            invariant
                i <= 12,
                i <= first@.len() + second@.len(),
                forall|j: int| 0 <= j < i ==> body@[j] == (first@ + second@)[j],
            decreases 12 - i,
        {
            if i < first.len() {
                body[i] = first[i];
            } else if i - first.len() < second.len() {
                body[i] = second[i - first.len()];
            } else {
                return None;
            }
            i += 1;
        }
        match Icmpv6RouterAdvertisement::read_from_prefix(body.as_slice()) {
            Some(x) => Some(x.0),
            None => None,
        }
    }

    pub fn to_bytes(&self) -> (b: [u8; 12])
        ensures
            b@ == self.wire(),
    {
        let l = write_be16(self.router_lifetime);
        let r = write_be32(self.reachable_time);
        let t = write_be32(self.retrans_timer);
        let b: [u8; 12] = [
            self.hop_limit,
            self.flags,
            l[0],
            l[1],
            r[0],
            r[1],
            r[2],
            r[3],
            t[0],
            t[1],
            t[2],
            t[3],
        ];
        assert(b@ =~= self.wire());
        b
    }
}

/// Each header is read back unchanged from the bytes written for it,
/// whatever follows them.
pub proof fn lemma_header_read_of_write(
    e: EtherFrame,
    v: VlanTag,
    i: Ipv6Header,
    c: Icmpv6Header,
    r: Icmpv6RouterAdvertisement,
    tail: Seq<u8>,
)
    ensures
        EtherFrame::from_wire(e.wire() + tail) == e,
        VlanTag::from_wire(v.wire() + tail) == v,
        Ipv6Header::from_wire(i.wire() + tail) == i,
        Icmpv6Header::from_wire(c.wire() + tail) == c,
        Icmpv6RouterAdvertisement::from_wire(r.wire() + tail) == r,
{
    let eb = EtherFrame::from_wire(e.wire() + tail);
    assert(eb.dst_addr =~= e.dst_addr);
    assert(eb.src_addr =~= e.src_addr);
    lemma_be_read_of_write(v.ether_type, 0);
    lemma_be_read_of_write(v.tag_control_information, 0);
    let ib = Ipv6Header::from_wire(i.wire() + tail);
    lemma_be_read_of_write(i.payload_length, i.version_traffic_class_flow_label);
    assert(ib.src_addr =~= i.src_addr);
    assert(ib.dst_addr =~= i.dst_addr);
    lemma_be_read_of_write(c.checksum, 0);
    lemma_be_read_of_write(r.router_lifetime, r.reachable_time);
    lemma_be_read_of_write(0, r.retrans_timer);
}

/// Each header read from enough bytes is written back as exactly those bytes.
pub proof fn lemma_header_write_of_read(b: Seq<u8>)
    ensures
        b.len() >= ETHER_FRAME_LEN ==> EtherFrame::from_wire(b).wire() == front(b, ETHER_FRAME_LEN),
        b.len() >= VLAN_TAG_LEN ==> VlanTag::from_wire(b).wire() == front(b, VLAN_TAG_LEN),
        b.len() >= IPV6_HEADER_LEN ==> Ipv6Header::from_wire(b).wire() == front(b, IPV6_HEADER_LEN),
        b.len() >= ICMPV6_HEADER_LEN ==> Icmpv6Header::from_wire(b).wire() == front(b, ICMPV6_HEADER_LEN),
        b.len() >= ICMPV6_R_ADV_LEN ==> Icmpv6RouterAdvertisement::from_wire(b).wire() == front(b, ICMPV6_R_ADV_LEN),
{
    if b.len() >= ETHER_FRAME_LEN {
        assert(EtherFrame::from_wire(b).wire() =~= front(b, ETHER_FRAME_LEN));
    }
    if b.len() >= VLAN_TAG_LEN {
        lemma_be_write_of_read(b[0], b[1], 0, 0);
        lemma_be_write_of_read(b[2], b[3], 0, 0);
        assert(VlanTag::from_wire(b).wire() =~= front(b, VLAN_TAG_LEN));
        lemma_be_write_of_read(b[0], b[1], b[2], b[3]);
        assert(Icmpv6Header::from_wire(b).wire() =~= front(b, ICMPV6_HEADER_LEN));
    }
    if b.len() >= ICMPV6_R_ADV_LEN {
        lemma_be_write_of_read(b[4], b[5], b[6], b[7]);
        lemma_be_write_of_read(b[8], b[9], b[10], b[11]);
        assert(Icmpv6RouterAdvertisement::from_wire(b).wire() =~= front(b, ICMPV6_R_ADV_LEN));
    }
    if b.len() >= IPV6_HEADER_LEN {
        lemma_be_write_of_read(b[4], b[5], 0, 0);
        assert(Ipv6Header::from_wire(b).wire() =~= front(b, IPV6_HEADER_LEN));
    }
}

} // verus!
