//! The data plane: which interface a frame leaves on, what the forwarding
//! table learns from it, and the table of installed interfaces.

use crate::packet::{parse_headers, HeaderError, HeadersView, Packet};
use crate::protocol::{be32, is_multicast, mac_is_multicast, read_be32, MacAddr};
use std::collections::HashMap;
use vstd::prelude::*;

verus! {

broadcast use vstd::std_specs::hash::group_hash_axioms;

/// Names one side of the router: the upstream side, one of the app VMs in
/// the order they connected, or, as an output only, all sides but the one a
/// frame came from.
#[derive(Debug, Clone, Copy, PartialEq, Eq, Hash, Structural)]
pub enum InterfaceId {
    Upstream,
    App(usize),
    Broadcast,
}

/// Four 32-bit words as one number, the first word the most significant.
pub open spec fn words_key(w0: u32, w1: u32, w2: u32, w3: u32) -> u128 {
    (w0 as int * 79228162514264337593543950336 + w1 as int * 18446744073709551616 + w2 as int
        * 4294967296 + w3 as int) as u128
}

/// An IPv6 address as one number, its first byte the most significant.
pub open spec fn addr_key(addr: Seq<u8>) -> u128 {
    words_key(
        be32(addr[0], addr[1], addr[2], addr[3]),
        be32(addr[4], addr[5], addr[6], addr[7]),
        be32(addr[8], addr[9], addr[10], addr[11]),
        be32(addr[12], addr[13], addr[14], addr[15]),
    )
}

/// The unspecified address `::`.
pub open spec fn key_is_unspecified(key: u128) -> bool {
    key == 0
}

/// An address in `ff00::/8`.
pub open spec fn key_is_multicast(key: u128) -> bool {
    key >= 0xff00_0000_0000_0000_0000_0000_0000_0000u128
}

/// The number of an address, by which the forwarding table is keyed.
pub fn ipv6_key(addr: &[u8; 16]) -> (key: u128)
    ensures
        key == addr_key(addr@),
{
    let w0 = read_be32(addr[0], addr[1], addr[2], addr[3]);
    let w1 = read_be32(addr[4], addr[5], addr[6], addr[7]);
    let w2 = read_be32(addr[8], addr[9], addr[10], addr[11]);
    let w3 = read_be32(addr[12], addr[13], addr[14], addr[15]);
    (w0 as u128) * 79228162514264337593543950336 + (w1 as u128) * 18446744073709551616 + (
    w2 as u128) * 4294967296 + (w3 as u128)
}

proof fn lemma_words_key(w0: u32, w1: u32, w2: u32, w3: u32, v0: u32, v1: u32, v2: u32, v3: u32)
    ensures
        words_key(w0, w1, w2, w3) == 0 <==> w0 == 0 && w1 == 0 && w2 == 0 && w3 == 0,
        key_is_multicast(words_key(w0, w1, w2, w3)) <==> w0 >= 0xff00_0000u32,
        words_key(w0, w1, w2, w3) == words_key(v0, v1, v2, v3) ==> w0 == v0 && w1 == v1 && w2
            == v2 && w3 == v3,
{
    let lo_w: int = w2 as int * 4294967296 + w3 as int;
    let lo_v: int = v2 as int * 4294967296 + v3 as int;
    let hi_w: int = w0 as int * 4294967296 + w1 as int;
    let hi_v: int = v0 as int * 4294967296 + v1 as int;
    assert(0 <= lo_w < 18446744073709551616 && 0 <= lo_v < 18446744073709551616);
    assert(0 <= hi_w < 18446744073709551616 && 0 <= hi_v < 18446744073709551616);
    assert(words_key(w0, w1, w2, w3) == hi_w * 18446744073709551616 + lo_w);
    assert(words_key(v0, v1, v2, v3) == hi_v * 18446744073709551616 + lo_v);
    if words_key(w0, w1, w2, w3) == words_key(v0, v1, v2, v3) {
        assert(hi_w == hi_v);
        assert(lo_w == lo_v);
    }
}

proof fn lemma_be32_bytes(b0: u8, b1: u8, b2: u8, b3: u8, c0: u8, c1: u8, c2: u8, c3: u8)
    ensures
        be32(b0, b1, b2, b3) == 0 <==> b0 == 0 && b1 == 0 && b2 == 0 && b3 == 0,
        be32(b0, b1, b2, b3) >= 0xff00_0000u32 <==> b0 == 0xff,
        be32(b0, b1, b2, b3) == be32(c0, c1, c2, c3) ==> b0 == c0 && b1 == c1 && b2 == c2 && b3
            == c3,
{
    crate::protocol::lemma_be_write_of_read(b0, b1, b2, b3);
    crate::protocol::lemma_be_write_of_read(c0, c1, c2, c3);
    if be32(b0, b1, b2, b3) == be32(c0, c1, c2, c3) {
        let s = seq![b0, b1, b2, b3];
        let t = seq![c0, c1, c2, c3];
        assert(s == t);
        assert(s[0] == t[0] && s[1] == t[1] && s[2] == t[2] && s[3] == t[3]);
    }
}

/// The number of an address says what the address is: it is zero for the
/// address of sixteen zero bytes only, it lies in `ff00::/8` exactly where
/// the first byte is `ff`, and two addresses with one number are equal.
pub proof fn lemma_addr_key(a: Seq<u8>, b: Seq<u8>)
    requires
        a.len() == 16,
        b.len() == 16,
    ensures
        key_is_unspecified(addr_key(a)) <==> (forall|i: int| 0 <= i < 16 ==> a[i] == 0),
        key_is_multicast(addr_key(a)) <==> a[0] == 0xff,
        addr_key(a) == addr_key(b) ==> a == b,
{
    lemma_words_key(
        be32(a[0], a[1], a[2], a[3]),
        be32(a[4], a[5], a[6], a[7]),
        be32(a[8], a[9], a[10], a[11]),
        be32(a[12], a[13], a[14], a[15]),
        be32(b[0], b[1], b[2], b[3]),
        be32(b[4], b[5], b[6], b[7]),
        be32(b[8], b[9], b[10], b[11]),
        be32(b[12], b[13], b[14], b[15]),
    );
    lemma_be32_bytes(a[0], a[1], a[2], a[3], b[0], b[1], b[2], b[3]);
    lemma_be32_bytes(a[4], a[5], a[6], a[7], b[4], b[5], b[6], b[7]);
    lemma_be32_bytes(a[8], a[9], a[10], a[11], b[8], b[9], b[10], b[11]);
    lemma_be32_bytes(a[12], a[13], a[14], a[15], b[12], b[13], b[14], b[15]);
    if addr_key(a) == addr_key(b) {
        assert(a =~= b);
    }
}

/// The forwarding table as a map: for an address, the station that was
/// seen to use it and the interface it was seen on.
pub type Fib = Map<u128, (MacAddr, InterfaceId)>;

/// What is done with a frame.
#[derive(Debug, Clone, Copy, PartialEq, Eq, Structural)]
pub enum Decision {
    /// The frame carries no IPv6: it is dropped without a word.
    Ignore,
    /// Nothing is known of the destination and the frame came in on the
    /// default interface: it is dropped with a warning.
    NoRoute,
    /// The frame leaves on this interface, or on all others for `Broadcast`.
    Output(InterfaceId),
}

/// The interface that a frame with headers `h`, come in on `in_iface`, goes
/// out on: all others for a group address; else the one the table has for
/// the destination; else the default one, but never back where it came from.
pub open spec fn decide(fib: Fib, default_out: InterfaceId, in_iface: InterfaceId, h: HeadersView)
    -> Decision {
    match h.ipv6_hdr {
        None => Decision::Ignore,
        Some(ip) => {
            let dst = addr_key(ip.dst_addr@);
            if mac_is_multicast(h.ether_frame.dst_addr@) {
                Decision::Output(InterfaceId::Broadcast)
            } else if fib.contains_key(dst) {
                Decision::Output(fib[dst].1)
            } else if in_iface != default_out {
                Decision::Output(default_out)
            } else {
                Decision::NoRoute
            }
        },
    }
}

/// The destination address that the table puts in place of the frame's
/// own: that of the station found for the destination, for a frame that is
/// sent to one station.
pub open spec fn rewritten_dst(fib: Fib, h: HeadersView) -> Option<MacAddr> {
    match h.ipv6_hdr {
        None => None,
        Some(ip) => {
            let dst = addr_key(ip.dst_addr@);
            if !mac_is_multicast(h.ether_frame.dst_addr@) && fib.contains_key(dst) {
                Some(fib[dst].0)
            } else {
                None
            }
        },
    }
}

/// Whether a frame with source address `src` that came in on `in_iface`
/// adds an entry to the table.
pub open spec fn learns(fib: Fib, default_out: InterfaceId, in_iface: InterfaceId, src: u128)
    -> bool {
    in_iface != default_out && !key_is_unspecified(src) && !key_is_multicast(src)
        && !fib.contains_key(src)
}

/// The table after a frame with headers `h` came in on `in_iface`.
pub open spec fn learn(fib: Fib, default_out: InterfaceId, in_iface: InterfaceId, h: HeadersView)
    -> Fib {
    match h.ipv6_hdr {
        None => fib,
        Some(ip) => {
            let src = addr_key(ip.src_addr@);
            if learns(fib, default_out, in_iface, src) {
                fib.insert(src, (h.ether_frame.src_addr, in_iface))
            } else {
                fib
            }
        },
    }
}

/// What holds of every entry of a table kept for `default_out`: its address
/// is that of one station, and its interface is not the default one.
pub open spec fn fib_sound(fib: Fib, default_out: InterfaceId) -> bool {
    forall|k: u128| #[trigger]
        fib.contains_key(k) ==> !key_is_unspecified(k) && !key_is_multicast(k) && fib[k].1
            != default_out
}

/// Learning adds at most the frame's own source, never a group address,
/// the unspecified address or a source seen on the default interface, and
/// so keeps a sound table sound.
pub proof fn lemma_learn_sound(
    fib: Fib,
    default_out: InterfaceId,
    in_iface: InterfaceId,
    h: HeadersView,
)
    ensures
        forall|k: u128|
            learn(fib, default_out, in_iface, h).contains_key(k) && !fib.contains_key(k) ==> {
                &&& h.ipv6_hdr is Some
                &&& k == addr_key(h.ipv6_hdr->0.src_addr@)
                &&& !key_is_unspecified(k)
                &&& !key_is_multicast(k)
                &&& in_iface != default_out
                &&& learn(fib, default_out, in_iface, h)[k] == (h.ether_frame.src_addr, in_iface)
            },
        forall|k: u128|
            fib.contains_key(k) ==> learn(fib, default_out, in_iface, h).contains_key(k) && learn(
                fib,
                default_out,
                in_iface,
                h,
            )[k] == fib[k],
        fib_sound(fib, default_out) ==> fib_sound(
            learn(fib, default_out, in_iface, h),
            default_out,
        ),
{
}

/// Seeing a frame twice teaches the table nothing new, and what the table
/// holds for an address stays, whatever station or interface the address is
/// seen with later.
pub proof fn lemma_learn_idempotent(
    fib: Fib,
    default_out: InterfaceId,
    in_iface: InterfaceId,
    h: HeadersView,
    later_iface: InterfaceId,
    later: HeadersView,
)
    ensures
        learn(learn(fib, default_out, in_iface, h), default_out, in_iface, h) == learn(
            fib,
            default_out,
            in_iface,
            h,
        ),
        later.ipv6_hdr matches Some(ip) && fib.contains_key(addr_key(ip.src_addr@)) ==> learn(
            fib,
            default_out,
            later_iface,
            later,
        ) == fib,
{
}


/// How handing a frame to a sink ended.
pub enum SendOutcome<E> {
    /// The sink took the frame.
    Sent,
    /// The sink was blocked for longer than a sender waits.
    TimedOut,
    /// The sink failed.
    Failed(E),
}

impl<E> SendOutcome<E> {
    /// What the router makes of it. A sink that is blocked loses the frame,
    /// and the router goes on: `Ok`, with whether the frame was delivered.
    /// A sink that failed ends the router's run with its error.
    pub fn settle(self) -> (r: Result<bool, E>)
        ensures
            r == match self {
                SendOutcome::Sent => Ok::<bool, E>(true),
                SendOutcome::TimedOut => Ok::<bool, E>(false),
                SendOutcome::Failed(e) => Err::<bool, E>(e),
            },
    {
        match self {
            SendOutcome::Sent => Ok(true),
            SendOutcome::TimedOut => Ok(false),
            SendOutcome::Failed(e) => Err(e),
        }
    }
}

/// How long a sender waits for a sink, in seconds.
pub const SEND_TIMEOUT_SECS: u64 = 1;

/// Whether a table of interfaces has an entry for `id`.
pub open spec fn has_iface<T>(table: Seq<(InterfaceId, T)>, id: InterfaceId) -> bool {
    exists|i: int| 0 <= i < table.len() && (#[trigger] table[i]).0 == id
}

/// Where in a table of interfaces the entry for `id` stands.
pub open spec fn iface_index<T>(table: Seq<(InterfaceId, T)>, id: InterfaceId) -> int {
    choose|i: int| 0 <= i < table.len() && (#[trigger] table[i]).0 == id
}

/// No interface has two entries in the table.
pub open spec fn ifaces_distinct<T>(table: Seq<(InterfaceId, T)>) -> bool {
    forall|i: int, j: int|
        0 <= i < j < table.len() ==> (#[trigger] table[i]).0 != (#[trigger] table[j]).0
}

/// The table with `value` as the entry of `id`: in place of the entry that
/// `id` had, or else behind all others.
pub open spec fn with_iface<T>(table: Seq<(InterfaceId, T)>, id: InterfaceId, value: T) -> Seq<
    (InterfaceId, T),
> {
    if has_iface(table, id) {
        table.update(iface_index(table, id), (id, value))
    } else {
        table.push((id, value))
    }
}

/// The interfaces of a table, in its order.
pub open spec fn iface_ids<T>(table: Seq<(InterfaceId, T)>) -> Seq<InterfaceId> {
    Seq::new(table.len(), |i: int| table[i].0)
}

/// The first entry for `id` in `table`, if it has one.
fn find_iface<T>(table: &Vec<(InterfaceId, T)>, id: InterfaceId) -> (r: Option<usize>)
    ensures
        r is Some <==> has_iface(table@, id),
        r matches Some(i) ==> i < table@.len() && table@[i as int].0 == id,
        r matches Some(i) ==> ifaces_distinct(table@) ==> i == iface_index(table@, id),
{
    let mut i: usize = 0;
    while i < table.len()
        invariant
            i <= table@.len(),
            forall|j: int| 0 <= j < i ==> (#[trigger] table@[j]).0 != id,
        decreases table@.len() - i,
    {
        if table[i].0 == id {
            return Some(i);
        }
        i += 1;
    }
    None
}

/// The router's state: a stream of incoming frames and a sink for outgoing
/// ones per installed interface, the forwarding table, and the interface
/// that takes what the table knows nothing of.
pub struct Router<S, K> {
    streams: Vec<(InterfaceId, S)>,
    sinks: Vec<(InterfaceId, K)>,
    fib: HashMap<u128, (MacAddr, InterfaceId)>,
    default_out: InterfaceId,
}

impl<S, K> Router<S, K> {
    /// The installed streams, each with its interface.
    pub closed spec fn streams(&self) -> Seq<(InterfaceId, S)> {
        self.streams@
    }

    /// The installed sinks, each with its interface.
    pub closed spec fn sinks(&self) -> Seq<(InterfaceId, K)> {
        self.sinks@
    }

    /// The forwarding table.
    pub closed spec fn fib(&self) -> Fib {
        self.fib@
    }

    /// The interface that takes what the table knows nothing of.
    pub closed spec fn spec_default_out(&self) -> InterfaceId {
        self.default_out
    }

    /// Whether `id` has a stream.
    pub open spec fn has_stream(&self, id: InterfaceId) -> bool {
        has_iface(self.streams(), id)
    }

    /// Whether `id` has a sink.
    pub open spec fn has_sink(&self, id: InterfaceId) -> bool {
        has_iface(self.sinks(), id)
    }

    /// What holds of a router at all times: every interface has one stream
    /// and one sink, at the same place in both tables, and the forwarding
    /// table is sound.
    pub open spec fn wf(&self) -> bool {
        &&& iface_ids(self.streams()) == iface_ids(self.sinks())
        &&& ifaces_distinct(self.sinks())
        &&& ifaces_distinct(self.streams())
        &&& fib_sound(self.fib(), self.spec_default_out())
    }

    /// In a well-formed router an interface has a stream exactly where it
    /// has a sink.
    pub proof fn lemma_stream_iff_sink(&self, id: InterfaceId)
        requires
            self.wf(),
        ensures
            self.has_stream(id) <==> self.has_sink(id),
    {
        lemma_same_ifaces(self.streams@, self.sinks@, id);
    }

    /// A router with no interface and an empty forwarding table.
    pub fn new(default_out: InterfaceId) -> (r: Self)
        ensures
            r.wf(),
            r.streams().len() == 0,
            r.sinks().len() == 0,
            r.fib() == Map::<u128, (MacAddr, InterfaceId)>::empty(),
            r.spec_default_out() == default_out,
    {
        let r = Router { streams: Vec::new(), sinks: Vec::new(), fib: HashMap::new(), default_out };
        assert(iface_ids(r.streams()) =~= iface_ids(r.sinks()));
        r
    }

    /// Installs an interface: `stream` and `sink` take the place of those
    /// that `id` had, or are added where it had none.
    pub fn add_iface(&mut self, id: InterfaceId, stream: S, sink: K)
        requires
            old(self).wf(),
        ensures
            final(self).wf(),
            final(self).streams() == with_iface(old(self).streams(), id, stream),
            final(self).sinks() == with_iface(old(self).sinks(), id, sink),
            final(self).fib() == old(self).fib(),
            final(self).spec_default_out() == old(self).spec_default_out(),
            forall|i: InterfaceId| final(self).has_stream(i) <==> final(self).has_sink(i),
            forall|i: InterfaceId|
                final(self).has_sink(i) <==> old(self).has_sink(i) || i == id,
    {
        proof {
            lemma_same_ifaces(self.streams@, self.sinks@, id);
        }
        match find_iface(&self.sinks, id) {
            Some(at) => {
                self.streams[at] = (id, stream);
                self.sinks[at] = (id, sink);
            },
            None => {
                self.streams.push((id, stream));
                self.sinks.push((id, sink));
            },
        }
        proof {
            lemma_with_iface(old(self).streams@, id, stream);
            lemma_with_iface(old(self).sinks@, id, sink);
            assert(iface_ids(self.streams@) =~= iface_ids(self.sinks@));
            assert forall|i: InterfaceId| self.has_stream(i) <==> self.has_sink(i) by {
                lemma_same_ifaces(self.streams@, self.sinks@, i);
            }
        }
    }

    /// The interface that takes what the table knows nothing of.
    #[verifier::when_used_as_spec(spec_default_out)]
    pub fn default_out(&self) -> (id: InterfaceId)
        ensures
            id == self.spec_default_out(),
    {
        self.default_out
    }

    /// Handles one frame that came in on `in_iface`: says where it goes,
    /// writes the destination station found in the table into its peek, and
    /// lets the table learn its source. A frame whose headers cannot be read
    /// changes nothing.
    pub fn route<R>(&mut self, in_iface: InterfaceId, packet: &mut Packet<R>) -> (r: Result<
        Decision,
        HeaderError,
    >)
        requires
            old(self).wf(),
        ensures
            final(self).wf(),
            final(self).streams() == old(self).streams(),
            final(self).sinks() == old(self).sinks(),
            final(self).spec_default_out() == old(self).spec_default_out(),
            final(packet).is_peeked() == old(packet).is_peeked(),
            final(packet).spec_decap_vlan() == old(packet).spec_decap_vlan(),
            final(packet).tail() == old(packet).tail(),
            final(packet).head().len() == old(packet).head().len(),
            match parse_headers(old(packet).head(), old(packet).spec_decap_vlan()) {
                Err(e) => {
                    &&& r == Err::<Decision, HeaderError>(e)
                    &&& final(self).fib() == old(self).fib()
                    &&& final(packet).head() == old(packet).head()
                },
                Ok(h) => {
                    &&& r == Ok::<Decision, HeaderError>(
                        decide(old(self).fib(), old(self).spec_default_out(), in_iface, h),
                    )
                    &&& final(self).fib() == learn(
                        old(self).fib(),
                        old(self).spec_default_out(),
                        in_iface,
                        h,
                    )
                    &&& final(packet).head() == match rewritten_dst(old(self).fib(), h) {
                        Some(mac) => mac@ + old(packet).head().skip(6),
                        None => old(packet).head(),
                    }
                },
            },
    {
        let (ether_frame, ipv6_hdr) = match packet.headers() {
            Ok(h) => (h.ether_frame, h.ipv6_hdr),
            Err(e) => {
                return Err(e);
            },
        };
        let ghost h = parse_headers(old(packet).head(), old(packet).spec_decap_vlan())->Ok_0;
        let ip = match ipv6_hdr {
            Some(ip) => ip,
            None => {
                return Ok(Decision::Ignore);
            },
        };
        let src = ipv6_key(&ip.src_addr);
        let dst = ipv6_key(&ip.dst_addr);
        let decision = if is_multicast(&ether_frame.dst_addr) {
            Decision::Output(InterfaceId::Broadcast)
        } else {
            match self.fib.get(&dst) {
                Some(entry) => {
                    let (dst_mac, out) = *entry;
                    packet.set_dst_addr(&dst_mac);
                    Decision::Output(out)
                },
                None => {
                    if in_iface != self.default_out {
                        Decision::Output(self.default_out)
                    } else {
                        Decision::NoRoute
                    }
                },
            }
        };
        if in_iface != self.default_out && src != 0 && src
            < 0xff00_0000_0000_0000_0000_0000_0000_0000u128 && !self.fib.contains_key(&src) {
            self.fib.insert(src, (ether_frame.src_addr, in_iface));
        }
        proof {
            lemma_learn_sound(old(self).fib(), self.default_out, in_iface, h);
        }
        Ok(decision)
    }

    /// How many interfaces are installed.
    pub fn iface_count(&self) -> (n: usize)
        ensures
            n == self.sinks().len(),
            self.wf() ==> n == self.streams().len(),
    {
        proof {
            if self.wf() {
                lemma_same_ifaces(self.streams@, self.sinks@, InterfaceId::Upstream);
            }
        }
        self.sinks.len()
    }

    /// The interface at place `at` of the tables.
    pub fn iface_at(&self, at: usize) -> (id: InterfaceId)
        requires
            at < self.sinks().len(),
        ensures
            id == self.sinks()[at as int].0,
            self.wf() ==> id == self.streams()[at as int].0,
    {
        proof {
            if self.wf() {
                lemma_same_ifaces(self.streams@, self.sinks@, InterfaceId::Upstream);
                assert(iface_ids(self.streams@)[at as int] == self.streams@[at as int].0);
                assert(iface_ids(self.sinks@)[at as int] == self.sinks@[at as int].0);
            }
        }
        self.sinks[at].0
    }

    /// The place of `id` in the tables, where it is installed.
    pub fn find(&self, id: InterfaceId) -> (r: Option<usize>)
        requires
            self.wf(),
        ensures
            r is Some <==> self.has_sink(id),
            r matches Some(at) ==> at < self.sinks().len() && at == iface_index(self.sinks(), id)
                && self.sinks()[at as int].0 == id && self.streams()[at as int].0 == id,
    {
        let r = find_iface(&self.sinks, id);
        proof {
            lemma_same_ifaces(self.streams@, self.sinks@, id);
            if let Some(at) = r {
                assert(iface_ids(self.streams@)[at as int] == self.streams@[at as int].0);
                assert(iface_ids(self.sinks@)[at as int] == self.sinks@[at as int].0);
            }
        }
        r
    }

    /// The stream at place `at`, to take frames from.
    pub fn stream_mut(&mut self, at: usize) -> (stream: &mut S)
        requires
            at < old(self).streams().len(),
        ensures
            *stream == old(self).streams()[at as int].1,
            final(self).streams() == old(self).streams().update(
                at as int,
                (old(self).streams()[at as int].0, *final(stream)),
            ),
            final(self).sinks() == old(self).sinks(),
            final(self).fib() == old(self).fib(),
            final(self).spec_default_out() == old(self).spec_default_out(),
            old(self).wf() ==> final(self).wf(),
    {
        proof {
            lemma_same_value(old(self).streams@, at as int);
        }
        &mut self.streams[at].1
    }

    /// The sink at place `at`, to hand frames to.
    pub fn sink_mut(&mut self, at: usize) -> (sink: &mut K)
        requires
            at < old(self).sinks().len(),
        ensures
            *sink == old(self).sinks()[at as int].1,
            final(self).sinks() == old(self).sinks().update(
                at as int,
                (old(self).sinks()[at as int].0, *final(sink)),
            ),
            final(self).streams() == old(self).streams(),
            final(self).fib() == old(self).fib(),
            final(self).spec_default_out() == old(self).spec_default_out(),
            old(self).wf() ==> final(self).wf(),
    {
        proof {
            lemma_same_value(old(self).sinks@, at as int);
        }
        &mut self.sinks[at].1
    }

    /// The interfaces that a frame from `in_iface` is fanned out to: all
    /// installed ones but `in_iface`, in the order of the tables.
    pub fn broadcast_targets(&self, in_iface: InterfaceId) -> (targets: Vec<InterfaceId>)
        ensures
            targets@ == iface_ids(self.sinks()).filter(|id: InterfaceId| id != in_iface),
    {
        let ghost ids = iface_ids(self.sinks@);
        let ghost keep = |id: InterfaceId| id != in_iface;
        let mut targets: Vec<InterfaceId> = Vec::new();
        let mut i: usize = 0;
        proof {
            reveal(Seq::filter);
            assert(ids.take(0) =~= Seq::<InterfaceId>::empty());
        }
        while i < self.sinks.len()
            invariant
                i <= self.sinks@.len(),
                ids == iface_ids(self.sinks@),
                keep == |id: InterfaceId| id != in_iface,
                targets@ == ids.take(i as int).filter(keep),
            decreases self.sinks@.len() - i,
        {
            let id = self.sinks[i].0;
            proof {
                reveal(Seq::filter);
                assert(ids.take(i + 1).drop_last() =~= ids.take(i as int));
                assert(ids.take(i + 1).last() == id);
            }
            if id != in_iface {
                targets.push(id);
            }
            i += 1;
        }
        assert(ids.take(i as int) =~= ids);
        targets
    }

    /// What the forwarding table holds for an address.
    pub fn lookup(&self, addr: &[u8; 16]) -> (r: Option<(MacAddr, InterfaceId)>)
        ensures
            r == if self.fib().contains_key(addr_key(addr@)) {
                Some(self.fib()[addr_key(addr@)])
            } else {
                None
            },
    {
        let key = ipv6_key(addr);
        match self.fib.get(&key) {
            Some(entry) => Some(*entry),
            None => None,
        }
    }
}

/// A table whose entry at one place gets another value keeps its
/// interfaces, each at its place.
proof fn lemma_same_value<T>(table: Seq<(InterfaceId, T)>, at: int)
    requires
        0 <= at < table.len(),
    ensures
        forall|value: T|
            iface_ids(#[trigger] table.update(at, (table[at].0, value))) == iface_ids(table),
        forall|value: T|
            ifaces_distinct(table) ==> ifaces_distinct(
                #[trigger] table.update(at, (table[at].0, value)),
            ),
{
    assert forall|value: T|
        iface_ids(#[trigger] table.update(at, (table[at].0, value))) == iface_ids(table) by {
        assert(iface_ids(table.update(at, (table[at].0, value))) =~= iface_ids(table));
    }
    assert forall|value: T| ifaces_distinct(table) implies ifaces_distinct(
        #[trigger] table.update(at, (table[at].0, value)),
    ) by {
        let t = table.update(at, (table[at].0, value));
        assert forall|i: int, j: int| 0 <= i < j < t.len() implies (#[trigger] t[i]).0 != (
        #[trigger] t[j]).0 by {
            assert(table[i].0 != table[j].0);
        }
    }
}

/// Two tables with the same interfaces at the same places have an entry for
/// `id` together or not at all, and at the same place.
proof fn lemma_same_ifaces<A, B>(
    a: Seq<(InterfaceId, A)>,
    b: Seq<(InterfaceId, B)>,
    id: InterfaceId,
)
    requires
        iface_ids(a) == iface_ids(b),
    ensures
        a.len() == b.len(),
        has_iface(a, id) <==> has_iface(b, id),
        ifaces_distinct(b) ==> ifaces_distinct(a),
        has_iface(a, id) && ifaces_distinct(b) ==> iface_index(a, id) == iface_index(b, id),
{
    assert(iface_ids(a).len() == a.len());
    assert(iface_ids(b).len() == b.len());
    assert forall|i: int| 0 <= i < a.len() implies (#[trigger] a[i]).0 == b[i].0 by {
        assert(iface_ids(a)[i] == a[i].0);
        assert(iface_ids(b)[i] == b[i].0);
    }
    if has_iface(a, id) {
        let i = iface_index(a, id);
        assert(b[i].0 == id);
    }
    if has_iface(b, id) {
        let i = iface_index(b, id);
        assert(a[i].0 == id);
    }
    if ifaces_distinct(b) {
        assert forall|i: int, j: int| 0 <= i < j < a.len() implies (#[trigger] a[i]).0 != (
        #[trigger] a[j]).0 by {
            assert(b[i].0 != b[j].0);
        }
        if has_iface(a, id) {
            let i = iface_index(a, id);
            let j = iface_index(b, id);
            assert(b[i].0 == id && b[j].0 == id);
            if i < j {
                assert(b[i].0 != b[j].0);
            }
            if j < i {
                assert(b[j].0 != b[i].0);
            }
        }
    }
}

/// Putting an entry in a table of distinct interfaces keeps them distinct,
/// changes the interfaces by at most the new one, and leaves every other
/// entry where it was.
proof fn lemma_with_iface<T>(table: Seq<(InterfaceId, T)>, id: InterfaceId, value: T)
    requires
        ifaces_distinct(table),
    ensures
        ifaces_distinct(with_iface(table, id, value)),
        forall|i: InterfaceId|
            has_iface(with_iface(table, id, value), i) <==> has_iface(table, i) || i == id,
        iface_ids(with_iface(table, id, value)) == if has_iface(table, id) {
            iface_ids(table)
        } else {
            iface_ids(table).push(id)
        },
{
    let t = with_iface(table, id, value);
    if has_iface(table, id) {
        let at = iface_index(table, id);
        assert forall|i: int| 0 <= i < t.len() implies (#[trigger] t[i]).0 == table[i].0 by {}
        assert forall|i: InterfaceId| has_iface(t, i) <==> has_iface(table, i) || i == id by {
            if has_iface(t, i) {
                let k = iface_index(t, i);
                assert(table[k].0 == i);
            }
            if has_iface(table, i) {
                let k = iface_index(table, i);
                assert(t[k].0 == i);
            }
            if i == id {
                assert(t[at].0 == i);
            }
        }
        assert forall|i: int, j: int| 0 <= i < j < t.len() implies (#[trigger] t[i]).0 != (
        #[trigger] t[j]).0 by {
            assert(table[i].0 != table[j].0);
        }
        assert(iface_ids(t) =~= iface_ids(table));
    } else {
        assert forall|i: int| 0 <= i < table.len() implies (#[trigger] t[i]).0 == table[i].0 by {}
        assert forall|i: InterfaceId| has_iface(t, i) <==> has_iface(table, i) || i == id by {
            if has_iface(t, i) {
                let k = iface_index(t, i);
                if k < table.len() {
                    assert(table[k].0 == i);
                }
            }
            if has_iface(table, i) {
                let k = iface_index(table, i);
                assert(t[k].0 == i);
            }
            if i == id {
                assert(t[table.len() as int].0 == i);
            }
        }
        assert forall|i: int, j: int| 0 <= i < j < t.len() implies (#[trigger] t[i]).0 != (
        #[trigger] t[j]).0 by {
            if j < table.len() {
                assert(table[i].0 != table[j].0);
            } else {
                assert(table[i].0 != id);
            }
        }
        assert(iface_ids(t) =~= iface_ids(table).push(id));
    }
}

} // verus!
