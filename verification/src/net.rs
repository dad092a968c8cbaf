//! The hardware address given to a VM's network device.

use vstd::prelude::*;
use vstd::string::StringExecFns;

verus! {

/// The upper-case hexadecimal digit for a value below sixteen.
pub open spec fn hex_digit(n: u8) -> char {
    if n < 10 {
        (('0' as u8) + n) as char
    } else {
        (('A' as u8) + n - 10) as char
    }
}

/// The two hexadecimal digits of a byte.
pub open spec fn hex_pair(b: u8) -> Seq<char> {
    seq![hex_digit(b / 16), hex_digit(b % 16)]
}

/// An address in the usual notation: six pairs of digits with colons between.
pub open spec fn mac_text(octets: Seq<u8>) -> Seq<char> {
    hex_pair(octets[0]) + seq![':'] + hex_pair(octets[1]) + seq![':'] + hex_pair(octets[2])
        + seq![':'] + hex_pair(octets[3]) + seq![':'] + hex_pair(octets[4]) + seq![':']
        + hex_pair(octets[5])
}

fn hex_str(n: u8) -> (s: &'static str)
    requires
        n < 16,
    ensures
        s@ == seq![hex_digit(n)],
{
    proof {
        reveal_strlit("0");
        reveal_strlit("1");
        reveal_strlit("2");
        reveal_strlit("3");
        reveal_strlit("4");
        reveal_strlit("5");
        reveal_strlit("6");
        reveal_strlit("7");
        reveal_strlit("8");
        reveal_strlit("9");
        reveal_strlit("A");
        reveal_strlit("B");
        reveal_strlit("C");
        reveal_strlit("D");
        reveal_strlit("E");
        reveal_strlit("F");
    }
    let s = if n == 0 {
        "0"
    } else if n == 1 {
        "1"
    } else if n == 2 {
        "2"
    } else if n == 3 {
        "3"
    } else if n == 4 {
        "4"
    } else if n == 5 {
        "5"
    } else if n == 6 {
        "6"
    } else if n == 7 {
        "7"
    } else if n == 8 {
        "8"
    } else if n == 9 {
        "9"
    } else if n == 10 {
        "A"
    } else if n == 11 {
        "B"
    } else if n == 12 {
        "C"
    } else if n == 13 {
        "D"
    } else if n == 14 {
        "E"
    } else {
        "F"
    };
    assert(s@ =~= seq![hex_digit(n)]);
    s
}

fn push_pair(text: &mut String, b: u8)
    ensures
        final(text)@ == old(text)@ + hex_pair(b),
{
    text.append(hex_str(b / 16));
    text.append(hex_str(b % 16));
    assert(text@ =~= old(text)@ + hex_pair(b));
}

/// A hardware address of six bytes.
#[derive(Copy, Clone, Debug, PartialEq, Eq)]
pub struct MacAddress([u8; 6]);

impl MacAddress {
    /// The six bytes of the address, first to last.
    pub closed spec fn octets(&self) -> Seq<u8> {
        self.0@
    }

    /// The address of these six bytes.
    pub fn new(octets: [u8; 6]) -> (mac: Self)
        ensures
            mac.octets() == octets@,
    {
        Self(octets)
    }

    /// The address of a client's device: locally administered, with the low
    /// four bytes of `id_hashed` as its last four.
    pub fn from_hash(id_hashed: u64) -> (mac: Self)
        ensures
            mac.octets() == seq![
                0x02u8,
                0x00u8,
                ((id_hashed / 0x100_0000) % 256) as u8,
                ((id_hashed / 0x1_0000) % 256) as u8,
                ((id_hashed / 0x100) % 256) as u8,
                (id_hashed % 256) as u8,
            ],
    {
        assert((id_hashed >> 24) & 0xff == (id_hashed / 0x100_0000) % 256) by (bit_vector);
        assert((id_hashed >> 16) & 0xff == (id_hashed / 0x1_0000) % 256) by (bit_vector);
        assert((id_hashed >> 8) & 0xff == (id_hashed / 0x100) % 256) by (bit_vector);
        assert(id_hashed & 0xff == id_hashed % 256) by (bit_vector);
        let octets: [u8; 6] = [
            0x02,
            0x00,
            ((id_hashed >> 24) & 0xff) as u8,
            ((id_hashed >> 16) & 0xff) as u8,
            ((id_hashed >> 8) & 0xff) as u8,
            (id_hashed & 0xff) as u8,
        ];
        let mac = Self(octets);
        assert(mac.octets() =~= seq![
            0x02u8,
            0x00u8,
            ((id_hashed / 0x100_0000) % 256) as u8,
            ((id_hashed / 0x1_0000) % 256) as u8,
            ((id_hashed / 0x100) % 256) as u8,
            (id_hashed % 256) as u8,
        ]);
        mac
    }

    /// The six bytes of the address.
    pub fn to_octets(&self) -> (octets: [u8; 6])
        ensures
            octets@ == self.octets(),
    {
        self.0
    }

    /// The address in upper-case hexadecimal, as `FE:DC:BA:98:76:54`.
    pub fn to_string(&self) -> (text: String)
        ensures
            text@ == mac_text(self.octets()),
    {
        let o = &self.0;
        let mut text = String::new();
        push_pair(&mut text, o[0]);
        text.append(":");
        push_pair(&mut text, o[1]);
        text.append(":");
        push_pair(&mut text, o[2]);
        text.append(":");
        push_pair(&mut text, o[3]);
        text.append(":");
        push_pair(&mut text, o[4]);
        text.append(":");
        push_pair(&mut text, o[5]);
        proof {
            reveal_strlit(":");
            assert(":"@ =~= seq![':']);
            assert(text@ =~= mac_text(self.octets()));
        }
        text
    }
}

} // verus!
