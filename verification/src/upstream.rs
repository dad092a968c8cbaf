//! The driver side of the router: which of the upstream VLANs carries the
//! traffic. Router Advertisements seen on a VLAN say that a router lives
//! there and for how long; the lowest such VLAN is the active one.
//!
//! Time is a count of nanoseconds on a clock that never runs backwards.

use crate::packet::{out_head, parse_headers, HeaderError, HeadersView, OutgoingPacket, Packet};
use crate::protocol::{
    Icmpv6Header, Icmpv6RouterAdvertisement, VlanTag, ETHER_TYPE_802_1Q, ICMP6_TYPE_R_ADV,
    IP_PROTO_ICMP6,
};
use vstd::prelude::*;

verus! {

/// Nanoseconds in a second.
pub const NANOS_PER_SEC: u64 = 1_000_000_000;

/// How many frames may wait between the upstream side and the router, each way.
pub const CHANNEL_CAPACITY: usize = 64;

/// How far ahead the timer is set while nothing is due: a year of 365 days.
pub const IDLE_TIMEOUT: u64 = 31_536_000_000_000_000;

/// A moment from which the timer can still be set a year ahead.
pub open spec fn time_ok(now: u64) -> bool {
    now + IDLE_TIMEOUT <= u64::MAX
}

/// When an advertisement seen at `now` with this lifetime in seconds runs out.
pub open spec fn expiry(now: u64, router_lifetime: u16) -> u64 {
    (now + router_lifetime as int * NANOS_PER_SEC as int) as u64
}

fn expires_at(now: u64, router_lifetime: u16) -> (until: u64)
    requires
        time_ok(now),
    ensures
        until == expiry(now, router_lifetime),
        until >= now,
{
    now + (router_lifetime as u64) * NANOS_PER_SEC
}

/// The advertisements on record: a VLAN id and the moment its
/// advertisement runs out.
pub type Advertisements = Seq<(u16, u64)>;

/// Ordered by VLAN id, each id at most once.
pub open spec fn sorted_by_vlan(table: Advertisements) -> bool {
    forall|i: int, j: int|
        0 <= i < j < table.len() ==> (#[trigger] table[i]).0 < (#[trigger] table[j]).0
}

/// The table with `until` on record for `vlan_id`, whatever it held for
/// that id before: what stood before the id, the new entry, what stood
/// behind it.
pub open spec fn upsert(table: Advertisements, vlan_id: u16, until: u64) -> Advertisements {
    table.filter(|e: (u16, u64)| e.0 < vlan_id) + seq![(vlan_id, until)] + table.filter(
        |e: (u16, u64)| e.0 > vlan_id,
    )
}

/// The first entry of the table that has not run out at `now`.
pub open spec fn first_live(table: Advertisements, now: u64) -> Option<(u16, u64)>
    decreases table.len(),
{
    if table.len() == 0 {
        None
    } else if table[0].1 > now {
        Some(table[0])
    } else {
        first_live(table.drop_first(), now)
    }
}

/// The state of the upstream side as a value.
pub struct UpstreamState {
    /// The VLAN that frames are taken from and sent on.
    pub active_interface: Option<u16>,
    pub radv_valid_until: Advertisements,
    /// When the active VLAN is to be looked at again.
    pub reevaluate_at: u64,
}

impl UpstreamState {
    /// The state when a driver has just connected, or none has yet.
    pub open spec fn fresh(now: u64) -> UpstreamState {
        UpstreamState {
            active_interface: None,
            radv_valid_until: Seq::empty(),
            reevaluate_at: (now + IDLE_TIMEOUT) as u64,
        }
    }

    /// The state after an advertisement with this lifetime was seen on
    /// `vlan_id`. One with lifetime zero changes nothing. Any other is put
    /// on record; its VLAN becomes the active one if its id is lower than
    /// that of the active one or if the timer has run out, and the timer is
    /// set to its expiry if its VLAN is the active one then.
    pub open spec fn after_advertisement(self, vlan_id: u16, router_lifetime: u16, now: u64)
        -> UpstreamState {
        let until = expiry(now, router_lifetime);
        let prev = match self.active_interface {
            Some(v) => v,
            None => 0xffffu16,
        };
        let table = upsert(self.radv_valid_until, vlan_id, until);
        if router_lifetime == 0 {
            self
        } else if vlan_id < prev || self.reevaluate_at < now {
            UpstreamState {
                active_interface: Some(vlan_id),
                radv_valid_until: table,
                reevaluate_at: until,
            }
        } else if vlan_id == prev {
            UpstreamState { radv_valid_until: table, reevaluate_at: until, ..self }
        } else {
            UpstreamState { radv_valid_until: table, ..self }
        }
    }

    /// The state after the timer fired: the first VLAN whose advertisement
    /// has not run out is the active one, until it runs out; where there is
    /// none, no VLAN is active and the timer is set a year ahead.
    pub open spec fn after_timer(self, now: u64) -> UpstreamState {
        match first_live(self.radv_valid_until, now) {
            Some(entry) => UpstreamState {
                active_interface: Some(entry.0),
                reevaluate_at: entry.1,
                ..self
            },
            None => UpstreamState {
                active_interface: None,
                reevaluate_at: (now + IDLE_TIMEOUT) as u64,
                ..self
            },
        }
    }

    /// What holds of the state at all times: the record is ordered by VLAN
    /// id with no id twice, ids have twelve bits, and the timer stands at
    /// the expiry on record for the active VLAN.
    pub open spec fn wf(self) -> bool {
        &&& sorted_by_vlan(self.radv_valid_until)
        &&& forall|i: int|
            0 <= i < self.radv_valid_until.len() ==> (#[trigger] self.radv_valid_until[i]).0 < 4096
        &&& self.active_interface matches Some(v) ==> v < 4096
            && self.radv_valid_until.contains((v, self.reevaluate_at))
    }
}

/// Whatever is seen, the record stays ordered by VLAN id with no id twice,
/// and the state stays well formed: after an advertisement on a VLAN of
/// twelve bits, whose expiry lies in the future and is on record thereafter,
/// after the timer fired, and when all is forgotten.
pub proof fn lemma_state_wf(state: UpstreamState, vlan_id: u16, router_lifetime: u16, now: u64)
    requires
        state.wf(),
        vlan_id < 4096,
        time_ok(now),
    ensures
        state.after_advertisement(vlan_id, router_lifetime, now).wf(),
        sorted_by_vlan(state.after_advertisement(vlan_id, router_lifetime, now).radv_valid_until),
        router_lifetime != 0 ==> expiry(now, router_lifetime) > now && state.after_advertisement(
            vlan_id,
            router_lifetime,
            now,
        ).radv_valid_until.contains((vlan_id, expiry(now, router_lifetime))),
        state.after_timer(now).wf(),
        sorted_by_vlan(state.after_timer(now).radv_valid_until),
        UpstreamState::fresh(now).wf(),
{
    let table = state.radv_valid_until;
    let until = expiry(now, router_lifetime);
    if router_lifetime != 0 {
        let at = rank(table, vlan_id);
        lemma_rank(table, vlan_id);
        let found = at < table.len() && table[at].0 == vlan_id;
        lemma_upsert(table, vlan_id, until, at, found);
        let new = upsert(table, vlan_id, until);
        assert forall|i: int| 0 <= i < new.len() implies (#[trigger] new[i]).0 < 4096 by {
            let e = new[i];
            if e != (vlan_id, until) {
                let k = choose|k: int| 0 <= k < table.len() && table[k] == e;
                assert(table[k].0 < 4096);
            }
        }
    }
    lemma_first_live(table, now);
}

/// How many entries at the front of the table have an id below `vlan_id`.
spec fn rank(table: Advertisements, vlan_id: u16) -> int
    decreases table.len(),
{
    if table.len() == 0 || table[0].0 >= vlan_id {
        0
    } else {
        1 + rank(table.drop_first(), vlan_id)
    }
}

proof fn lemma_rank(table: Advertisements, vlan_id: u16)
    requires
        sorted_by_vlan(table),
    ensures
        0 <= rank(table, vlan_id) <= table.len(),
        forall|i: int| 0 <= i < rank(table, vlan_id) ==> (#[trigger] table[i]).0 < vlan_id,
        forall|i: int|
            rank(table, vlan_id) <= i < table.len() ==> (#[trigger] table[i]).0 >= vlan_id,
        forall|i: int|
            rank(table, vlan_id) < i < table.len() ==> (#[trigger] table[i]).0 > vlan_id,
    decreases table.len(),
{
    if table.len() == 0 || table[0].0 >= vlan_id {
        assert forall|i: int| 0 < i < table.len() implies (#[trigger] table[i]).0 > vlan_id by {
            assert(table[0].0 < table[i].0);
        }
    } else {
        let rest = table.drop_first();
        assert forall|i: int, j: int| 0 <= i < j < rest.len() implies (#[trigger] rest[i]).0 < (
        #[trigger] rest[j]).0 by {
            assert(table[i + 1].0 < table[j + 1].0);
        }
        lemma_rank(rest, vlan_id);
        let r = rank(rest, vlan_id);
        assert forall|i: int| 0 <= i < r + 1 implies (#[trigger] table[i]).0 < vlan_id by {
            if i > 0 {
                assert(rest[i - 1] == table[i]);
            }
        }
        assert forall|i: int| r + 1 <= i < table.len() implies (#[trigger] table[i]).0
            >= vlan_id by {
            assert(rest[i - 1] == table[i]);
        }
        assert forall|i: int| r + 1 < i < table.len() implies (#[trigger] table[i]).0
            > vlan_id by {
            assert(rest[i - 1] == table[i]);
        }
    }
}

/// The first live entry of a table is one of its entries.
proof fn lemma_first_live(table: Advertisements, now: u64)
    ensures
        first_live(table, now) matches Some(e) ==> table.contains(e) && e.1 > now,
        first_live(table, now) is None ==> forall|i: int|
            0 <= i < table.len() ==> (#[trigger] table[i]).1 <= now,
    decreases table.len(),
{
    if table.len() > 0 {
        if table[0].1 > now {
            assert(table[0] == table[0]);
        } else {
            let rest = table.drop_first();
            lemma_first_live(rest, now);
            if let Some(e) = first_live(rest, now) {
                let k = choose|k: int| 0 <= k < rest.len() && rest[k] == e;
                assert(table[k + 1] == e);
            }
            assert forall|i: int| 0 <= i < table.len() && first_live(table, now) is None implies (
            #[trigger] table[i]).1 <= now by {
                if i > 0 {
                    assert(rest[i - 1] == table[i]);
                }
            }
        }
    }
}

/// A filter keeps a sequence whole where every element passes, and keeps
/// nothing of it where none does.
proof fn lemma_filter_all(s: Advertisements, pred: spec_fn((u16, u64)) -> bool)
    ensures
        (forall|i: int| 0 <= i < s.len() ==> pred(#[trigger] s[i])) ==> s.filter(pred) == s,
        (forall|i: int| 0 <= i < s.len() ==> !pred(#[trigger] s[i])) ==> s.filter(pred)
            == Seq::<(u16, u64)>::empty(),
    decreases s.len(),
{
    reveal(Seq::filter);
    if s.len() > 0 {
        lemma_filter_all(s.drop_last(), pred);
        if forall|i: int| 0 <= i < s.len() ==> pred(#[trigger] s[i]) {
            assert forall|i: int| 0 <= i < s.drop_last().len() implies pred(
                #[trigger] s.drop_last()[i],
            ) by {
                assert(s.drop_last()[i] == s[i]);
            }
            assert(pred(s.last()));
            assert(s.drop_last().push(s.last()) =~= s);
        }
        if forall|i: int| 0 <= i < s.len() ==> !pred(#[trigger] s[i]) {
            assert forall|i: int| 0 <= i < s.drop_last().len() implies !pred(
                #[trigger] s.drop_last()[i],
            ) by {
                assert(s.drop_last()[i] == s[i]);
            }
            assert(!pred(s.last()));
        }
    } else {
        assert(s.filter(pred) =~= s);
    }
}

/// In an ordered table, what stands before the place of an id has lower
/// ids and what stands behind it has higher ones, so the table with an
/// entry put on record is what stood before, the entry, what stood behind.
proof fn lemma_upsert_parts(table: Advertisements, vlan_id: u16, until: u64, at: int, rest: int)
    requires
        0 <= at <= rest <= table.len(),
        forall|i: int| 0 <= i < at ==> (#[trigger] table[i]).0 < vlan_id,
        forall|i: int| at <= i < rest ==> (#[trigger] table[i]).0 == vlan_id,
        forall|i: int| rest <= i < table.len() ==> (#[trigger] table[i]).0 > vlan_id,
    ensures
        upsert(table, vlan_id, until) == table.take(at) + seq![(vlan_id, until)] + table.skip(rest),
{
    let below = |e: (u16, u64)| e.0 < vlan_id;
    let above = |e: (u16, u64)| e.0 > vlan_id;
    let front = table.take(at);
    let mid = table.subrange(at, rest);
    let back = table.skip(rest);
    assert(table =~= front + mid + back);
    assert forall|i: int| 0 <= i < back.len() implies above(#[trigger] back[i]) && !below(
        back[i],
    ) by {
        assert(back[i] == table[rest + i]);
    }
    assert forall|i: int| 0 <= i < front.len() implies below(#[trigger] front[i]) && !above(
        front[i],
    ) by {
        assert(front[i] == table[i]);
    }
    assert forall|i: int| 0 <= i < mid.len() implies !above(#[trigger] mid[i]) && !below(
        mid[i],
    ) by {
        assert(mid[i] == table[at + i]);
    }
    lemma_filter_all(front, below);
    lemma_filter_all(front, above);
    lemma_filter_all(mid, below);
    lemma_filter_all(mid, above);
    lemma_filter_all(back, below);
    lemma_filter_all(back, above);
    Seq::filter_distributes_over_add(front, mid, below);
    Seq::filter_distributes_over_add(front + mid, back, below);
    Seq::filter_distributes_over_add(front, mid, above);
    Seq::filter_distributes_over_add(front + mid, back, above);
    assert(table.filter(below) =~= front);
    assert(table.filter(above) =~= back);
}

/// In an ordered table, putting an entry on record is to write it over the
/// entry of its id, or to slip it in where its id belongs. The table stays
/// ordered, holds the entry, and holds besides it what it held for other ids.
pub proof fn lemma_upsert(table: Advertisements, vlan_id: u16, until: u64, at: int, found: bool)
    requires
        sorted_by_vlan(table),
        0 <= at <= table.len(),
        forall|i: int| 0 <= i < at ==> (#[trigger] table[i]).0 < vlan_id,
        found ==> at < table.len() && table[at].0 == vlan_id,
        !found ==> forall|i: int| at <= i < table.len() ==> (#[trigger] table[i]).0 > vlan_id,
    ensures
        upsert(table, vlan_id, until) == if found {
            table.update(at, (vlan_id, until))
        } else {
            table.insert(at, (vlan_id, until))
        },
        sorted_by_vlan(upsert(table, vlan_id, until)),
        upsert(table, vlan_id, until).contains((vlan_id, until)),
        forall|e: (u16, u64)|
            table.contains(e) && e.0 != vlan_id ==> upsert(table, vlan_id, until).contains(e),
        forall|i: int|
            0 <= i < upsert(table, vlan_id, until).len() ==> {
                let e = #[trigger] upsert(table, vlan_id, until)[i];
                e == (vlan_id, until) || table.contains(e)
            },
{
    let rest = if found {
        at + 1
    } else {
        at
    };
    assert forall|i: int| rest <= i < table.len() implies (#[trigger] table[i]).0 > vlan_id by {
        if found {
            assert(table[at].0 < table[i].0);
        }
    }
    lemma_upsert_parts(table, vlan_id, until, at, rest);
    let new = upsert(table, vlan_id, until);
    let back = table.skip(rest);
    assert(new.len() == at + 1 + back.len());
    assert forall|i: int| 0 <= i < new.len() implies #[trigger] new[i] == (if i < at {
        table[i]
    } else if i == at {
        (vlan_id, until)
    } else {
        table[rest + (i - at - 1)]
    }) by {}
    if found {
        assert(new =~= table.update(at, (vlan_id, until)));
    } else {
        assert(new =~= table.insert(at, (vlan_id, until)));
    }
    assert(new[at] == (vlan_id, until));
    lemma_upsert_sorted(table, new, vlan_id, until, at, rest);
    assert forall|e: (u16, u64)| table.contains(e) && e.0 != vlan_id implies new.contains(e) by {
        let k = choose|k: int| 0 <= k < table.len() && table[k] == e;
        if k < at {
            assert(new[k] == e);
        } else {
            assert(k >= rest);
            assert(new[at + 1 + (k - rest)] == e);
        }
    }
    assert forall|i: int| 0 <= i < new.len() implies {
        let e = #[trigger] new[i];
        e == (vlan_id, until) || table.contains(e)
    } by {
        if i < at {
            assert(new[i] == table[i]);
        } else if i > at {
            assert(new[i] == table[rest + (i - at - 1)]);
        }
    }
}

/// A table made of the front of an ordered one, an entry whose id lies
/// between, and the back of the ordered one, is ordered.
proof fn lemma_upsert_sorted(
    table: Advertisements,
    new: Advertisements,
    vlan_id: u16,
    until: u64,
    at: int,
    rest: int,
)
    requires
        sorted_by_vlan(table),
        0 <= at <= rest <= table.len(),
        forall|i: int| 0 <= i < at ==> (#[trigger] table[i]).0 < vlan_id,
        forall|i: int| rest <= i < table.len() ==> (#[trigger] table[i]).0 > vlan_id,
        new.len() == at + 1 + (table.len() - rest),
        forall|i: int|
            0 <= i < new.len() ==> #[trigger] new[i] == (if i < at {
                table[i]
            } else if i == at {
                (vlan_id, until)
            } else {
                table[rest + (i - at - 1)]
            }),
    ensures
        sorted_by_vlan(new),
{
    assert forall|i: int, j: int| 0 <= i < j < new.len() implies (#[trigger] new[i]).0 < (
    #[trigger] new[j]).0 by {
        let src_i = if i < at {
            i
        } else {
            rest + (i - at - 1)
        };
        let src_j = if j < at {
            j
        } else {
            rest + (j - at - 1)
        };
        if i != at && j != at {
            assert(new[i] == table[src_i]);
            assert(new[j] == table[src_j]);
            assert(table[src_i].0 < table[src_j].0);
        } else if i == at {
            assert(new[j] == table[src_j]);
            assert(table[src_j].0 > vlan_id);
        } else {
            assert(new[i] == table[src_i]);
            assert(table[src_i].0 < vlan_id);
        }
    }
}

/// The place of `vlan_id` in an ordered table: `Ok` with the place of its
/// entry, or `Err` with the place where its entry belongs.
fn search(table: &Vec<(u16, u64)>, vlan_id: u16) -> (r: Result<usize, usize>)
    requires
        sorted_by_vlan(table@),
    ensures
        match r {
            Ok(at) => at < table@.len() && table@[at as int].0 == vlan_id,
            Err(at) => at <= table@.len() && forall|i: int|
                at <= i < table@.len() ==> (#[trigger] table@[i]).0 > vlan_id,
        },
        forall|i: int|
            0 <= i < (match r {
                Ok(at) => at,
                Err(at) => at,
            }) ==> (#[trigger] table@[i]).0 < vlan_id,
{
    let mut lo: usize = 0;
    let mut hi: usize = table.len();
    while lo < hi
        invariant
            lo <= hi <= table@.len(),
            sorted_by_vlan(table@),
            forall|i: int| 0 <= i < lo ==> (#[trigger] table@[i]).0 < vlan_id,
            forall|i: int| hi <= i < table@.len() ==> (#[trigger] table@[i]).0 > vlan_id,
        decreases hi - lo,
    {
        let mid = lo + (hi - lo) / 2;
        let id = table[mid].0;
        if id == vlan_id {
            assert forall|i: int| 0 <= i < mid implies (#[trigger] table@[i]).0 < vlan_id by {
                assert(table@[i].0 < table@[mid as int].0);
            }
            return Ok(mid);
        } else if id < vlan_id {
            assert forall|i: int| 0 <= i < mid + 1 implies (#[trigger] table@[i]).0 < vlan_id by {
                if i < mid {
                    assert(table@[i].0 < table@[mid as int].0);
                }
            }
            lo = mid + 1;
        } else {
            assert forall|i: int| mid <= i < table@.len() implies (#[trigger] table@[i]).0
                > vlan_id by {
                if i > mid {
                    assert(table@[mid as int].0 < table@[i].0);
                }
            }
            hi = mid;
        }
    }
    Err(lo)
}

/// What is done with a frame that came from the driver.
#[derive(Debug, Clone, Copy, PartialEq, Eq)]
pub enum Ingress {
    /// The frame is on the active VLAN: it goes on to the router.
    Forward,
    /// The frame is a Router Advertisement whose body lies behind the peek:
    /// the tail is to be read, and the frame handed in again.
    ReadTail,
    /// The frame has no VLAN tag: it is dropped with a warning.
    Untagged,
    /// The frame is on this VLAN, which is not the active one: it is dropped.
    Inactive(u16),
}

/// Why a frame from the driver could not be handled.
#[derive(Debug, Clone, Copy, PartialEq, Eq)]
pub enum IngressError {
    /// The peek ends before the headers do.
    Header(HeaderError),
    /// The frame carries ICMPv6, and the peek ends before its header does.
    ShortIcmpv6Header,
    /// The frame is a Router Advertisement and ends before its body does.
    ShortRouterAdvertisement,
}

impl IngressError {
    /// The error in words.
    pub fn message(&self) -> (s: &'static str)
        ensures
            s@ == match *self {
                IngressError::Header(e) => e.spec_message(),
                IngressError::ShortIcmpv6Header => "short icmpv6 header"@,
                IngressError::ShortRouterAdvertisement => "short router advertisement"@,
            },
    {
        match self {
            IngressError::Header(e) => e.message(),
            IngressError::ShortIcmpv6Header => "short icmpv6 header",
            IngressError::ShortRouterAdvertisement => "short router advertisement",
        }
    }
}

/// The frame carries ICMPv6 directly in IPv6.
pub open spec fn carries_icmpv6(h: HeadersView) -> bool {
    h.ipv6_hdr matches Some(ip) && ip.next_header == IP_PROTO_ICMP6
}

/// The frame is a Router Advertisement.
pub open spec fn carries_advertisement(h: HeadersView) -> bool {
    carries_icmpv6(h) && h.peek_slice.len() >= 4 && Icmpv6Header::from_wire(
        h.peek_slice,
    ).msg_type == ICMP6_TYPE_R_ADV
}

/// Whether a frame on `vlan_id` is let through.
pub open spec fn let_through(state: UpstreamState, vlan_id: u16) -> Ingress {
    if state.active_interface == Some(vlan_id) {
        Ingress::Forward
    } else {
        Ingress::Inactive(vlan_id)
    }
}

/// What a frame from the driver leads to, and the state after it. `tail`
/// holds the bytes behind the peek where they have been read.
///
/// A frame is let through where it is on the active VLAN. A Router
/// Advertisement is taken note of first, so it may make its own VLAN the
/// active one. Its body is read from what the peek holds behind the ICMPv6
/// header and from the tail.
pub open spec fn ingress(
    state: UpstreamState,
    peek: Seq<u8>,
    decap_vlan: bool,
    tail: Option<Seq<u8>>,
    now: u64,
) -> (Result<Ingress, IngressError>, UpstreamState) {
    match parse_headers(peek, decap_vlan) {
        Err(e) => (Err(IngressError::Header(e)), state),
        Ok(h) => match h.vlan_tag {
            None => (Ok(Ingress::Untagged), state),
            Some(tag) => {
                let vlan_id = tag.spec_vlan_id();
                if carries_icmpv6(h) && h.peek_slice.len() < 4 {
                    (Err(IngressError::ShortIcmpv6Header), state)
                } else if carries_advertisement(h) {
                    match tail {
                        None => (Ok(Ingress::ReadTail), state),
                        Some(t) => {
                            let body = h.peek_slice.skip(4) + t;
                            if body.len() < 12 {
                                (Err(IngressError::ShortRouterAdvertisement), state)
                            } else {
                                let seen = state.after_advertisement(
                                    vlan_id,
                                    Icmpv6RouterAdvertisement::from_wire(body).router_lifetime,
                                    now,
                                );
                                (Ok(let_through(seen, vlan_id)), seen)
                            }
                        },
                    }
                } else {
                    (Ok(let_through(state, vlan_id)), state)
                }
            },
        },
    }
}

/// The upstream side: the active VLAN, the advertisements on record, and the
/// moment at which the choice is to be looked at again.
pub struct Upstream {
    active_interface: Option<u16>,
    reevaluate_at: u64,
    radv_valid_until: Vec<(u16, u64)>,
}

impl View for Upstream {
    type V = UpstreamState;

    closed spec fn view(&self) -> UpstreamState {
        UpstreamState {
            active_interface: self.active_interface,
            radv_valid_until: self.radv_valid_until@,
            reevaluate_at: self.reevaluate_at,
        }
    }
}

impl Upstream {
    /// No VLAN is active, nothing is on record, the timer is a year ahead.
    pub fn new(now: u64) -> (r: Upstream)
        requires
            time_ok(now),
        ensures
            r@ == UpstreamState::fresh(now),
            r@.wf(),
    {
        Upstream {
            active_interface: None,
            reevaluate_at: now + IDLE_TIMEOUT,
            radv_valid_until: Vec::new(),
        }
    }

    /// Forgets everything, as for a driver that has just connected.
    pub fn reset(&mut self, now: u64)
        requires
            time_ok(now),
        ensures
            final(self)@ == UpstreamState::fresh(now),
            final(self)@.wf(),
            sorted_by_vlan(final(self)@.radv_valid_until),
    {
        self.radv_valid_until.clear();
        self.active_interface = None;
        self.reevaluate_at = now + IDLE_TIMEOUT;
    }

    /// The VLAN that frames are taken from and sent on, if there is one.
    pub fn active_interface(&self) -> (v: Option<u16>)
        ensures
            v == self@.active_interface,
    {
        self.active_interface
    }

    /// The moment for which the timer is to be set.
    pub fn reevaluate_at(&self) -> (t: u64)
        ensures
            t == self@.reevaluate_at,
    {
        self.reevaluate_at
    }

    /// The advertisements on record, by VLAN id, each with its expiry.
    pub fn radv_valid_until(&self) -> (table: &Vec<(u16, u64)>)
        ensures
            table@ == self@.radv_valid_until,
    {
        &self.radv_valid_until
    }

    /// Takes note of a Router Advertisement seen on `vlan_id` at `now`.
    pub fn router_advertisement(&mut self, vlan_id: u16, router_lifetime: u16, now: u64)
        requires
            old(self)@.wf(),
            vlan_id < 4096,
            time_ok(now),
        ensures
            final(self)@ == old(self)@.after_advertisement(vlan_id, router_lifetime, now),
            final(self)@.wf(),
            sorted_by_vlan(final(self)@.radv_valid_until),
    {
        if router_lifetime == 0 {
            return ;
        }
        let until = expires_at(now, router_lifetime);
        match search(&self.radv_valid_until, vlan_id) {
            Ok(at) => {
                proof {
                    lemma_upsert(old(self)@.radv_valid_until, vlan_id, until, at as int, true);
                }
                self.radv_valid_until[at] = (vlan_id, until);
            },
            Err(at) => {
                proof {
                    lemma_upsert(old(self)@.radv_valid_until, vlan_id, until, at as int, false);
                }
                self.radv_valid_until.insert(at, (vlan_id, until));
            },
        }
        let prev = match self.active_interface {
            Some(v) => v,
            None => u16::MAX,
        };
        if vlan_id < prev || self.reevaluate_at < now {
            self.active_interface = Some(vlan_id);
            self.reevaluate_at = until;
        } else if vlan_id == prev {
            self.reevaluate_at = until;
        }
        proof {
            let table = upsert(old(self)@.radv_valid_until, vlan_id, until);
            assert(self.radv_valid_until@ == table);
            assert forall|i: int| 0 <= i < table.len() implies (#[trigger] table[i]).0 < 4096 by {
                let e = table[i];
                if e != (vlan_id, until) {
                    let k = choose|k: int|
                        0 <= k < old(self)@.radv_valid_until.len() && old(
                            self,
                        )@.radv_valid_until[k] == e;
                    assert(old(self)@.radv_valid_until[k].0 < 4096);
                }
            }
        }
    }

    /// The timer fired: chooses the active VLAN anew.
    pub fn timer_expired(&mut self, now: u64)
        requires
            old(self)@.wf(),
            time_ok(now),
        ensures
            final(self)@ == old(self)@.after_timer(now),
            final(self)@.wf(),
            sorted_by_vlan(final(self)@.radv_valid_until),
    {
        let mut i: usize = 0;
        let ghost table = self.radv_valid_until@;
        proof {
            assert(table.skip(0) =~= table);
        }
        while i < self.radv_valid_until.len()
            invariant
                i <= table.len(),
                table == self.radv_valid_until@,
                *self == *old(self),
                old(self)@.wf(),
                first_live(table, now) == first_live(table.skip(i as int), now),
            decreases table.len() - i,
        {
            let (vlan_id, until) = self.radv_valid_until[i];
            assert(table.skip(i as int)[0] == table[i as int]);
            if until > now {
                assert(table[i as int] == (vlan_id, until));
                self.active_interface = Some(vlan_id);
                self.reevaluate_at = until;
                return ;
            }
            assert(table.skip(i as int).drop_first() =~= table.skip(i + 1));
            i += 1;
        }
        self.active_interface = None;
        self.reevaluate_at = now + IDLE_TIMEOUT;
    }

    /// Handles one frame that came from the driver.
    pub fn ingress<R>(&mut self, packet: &Packet<R>, now: u64) -> (r: Result<
        Ingress,
        IngressError,
    >)
        requires
            old(self)@.wf(),
            time_ok(now),
        ensures
            (r, final(self)@) == ingress(
                old(self)@,
                packet.head(),
                packet.spec_decap_vlan(),
                packet.tail().bytes(),
                now,
            ),
            final(self)@.wf(),
            sorted_by_vlan(final(self)@.radv_valid_until),
    {
        let h = match packet.headers() {
            Ok(h) => h,
            Err(e) => {
                return Err(IngressError::Header(e));
            },
        };
        let tag = match h.vlan_tag {
            Some(tag) => tag,
            None => {
                return Ok(Ingress::Untagged);
            },
        };
        let vlan_id = tag.vlan_id();
        let control = match h.ipv6_hdr {
            Some(ip) => ip.next_header == IP_PROTO_ICMP6,
            None => false,
        };
        if control {
            let (header, data) = match Icmpv6Header::read_from_prefix(h.peek_slice) {
                Some(x) => x,
                None => {
                    return Err(IngressError::ShortIcmpv6Header);
                },
            };
            if header.msg_type == ICMP6_TYPE_R_ADV {
                let tail = match packet.tail_bytes() {
                    Some(t) => t,
                    None => {
                        return Ok(Ingress::ReadTail);
                    },
                };
                let r_adv = match Icmpv6RouterAdvertisement::read_from_parts(data, tail) {
                    Some(a) => a,
                    None => {
                        return Err(IngressError::ShortRouterAdvertisement);
                    },
                };
                self.router_advertisement(vlan_id, r_adv.router_lifetime, now);
            }
        }
        match self.active_interface {
            Some(v) => {
                if v == vlan_id {
                    Ok(Ingress::Forward)
                } else {
                    Ok(Ingress::Inactive(vlan_id))
                }
            },
            None => Ok(Ingress::Inactive(vlan_id)),
        }
    }

    /// Makes a packet from the router ready to be sent to the driver: with
    /// the tag of the active VLAN. Without an active VLAN the packet is
    /// dropped, and `None` comes back.
    pub fn egress<R>(&self, packet: Packet<R>) -> (r: Result<
        Option<OutgoingPacket<R>>,
        HeaderError,
    >)
        ensures
            match self@.active_interface {
                None => r matches Ok(None),
                Some(v) => match parse_headers(packet.head(), packet.spec_decap_vlan()) {
                    Err(e) => r matches Err(f) && f == e,
                    Ok(_) => r matches Ok(Some(o)) && o.tail() == packet.tail() && o.head()
                        == out_head(
                        packet.head(),
                        packet.spec_decap_vlan(),
                        Some(VlanTag { ether_type: ETHER_TYPE_802_1Q, tag_control_information: v }),
                    ),
                },
            },
    {
        let active_interface = match self.active_interface {
            Some(v) => v,
            None => {
                return Ok(None);
            },
        };
        let vlan_out = VlanTag {
            ether_type: ETHER_TYPE_802_1Q,
            tag_control_information: active_interface,
        };
        match packet.out(Some(vlan_out)) {
            Ok(o) => Ok(Some(o)),
            Err(e) => Err(e),
        }
    }
}

} // verus!
