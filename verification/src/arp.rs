//! ARP probing: MAC addresses, the request frame, recognising the reply, and
//! the choice of network interface.
use vstd::prelude::*;
use vstd::string::*;

use crate::text::{
    all_digits, digit_value, digits_value, join_with, law_split_undoes_join, parse_unsigned,
    parse_unsigned_spec, split_char, split_spec, unsigned_digits, views_of,
};

verus! {

/// A MAC address, octet by octet.
#[derive(Clone, Copy, Debug, PartialEq, Eq, Structural, Hash)]
pub struct MacAddress(pub u8, pub u8, pub u8, pub u8, pub u8, pub u8);

/// The broadcast address `ff:ff:ff:ff:ff:ff`.
pub fn broadcast_mac() -> (r: MacAddress)
    ensures
        r == MacAddress(255, 255, 255, 255, 255, 255),
{
    MacAddress(255, 255, 255, 255, 255, 255)
}

/// The octets of a MAC address, in order.
pub open spec fn mac_octets(m: MacAddress) -> Seq<u8> {
    seq![m.0, m.1, m.2, m.3, m.4, m.5]
}

/// A hexadecimal octet as `u8::from_str_radix(p, 16)` reads it.
pub open spec fn hex_octet(p: Seq<char>) -> Option<u8> {
    match parse_unsigned_spec(p, 16, 255) {
        Some(v) => Some(v as u8),
        None => None,
    }
}

/// The MAC address `aa:bb:cc:dd:ee:ff`: exactly six `:`-separated hexadecimal octets.
pub open spec fn mac_spec(s: Seq<char>) -> Option<MacAddress> {
    let ps = split_spec(s, ':');
    if ps.len() == 6 && forall|i: int| 0 <= i < 6 ==> (#[trigger] hex_octet(ps[i])) is Some {
        Some(
            MacAddress(
                hex_octet(ps[0])->0,
                hex_octet(ps[1])->0,
                hex_octet(ps[2])->0,
                hex_octet(ps[3])->0,
                hex_octet(ps[4])->0,
                hex_octet(ps[5])->0,
            ),
        )
    } else {
        None
    }
}

/// Two hexadecimal digits (either case) make the octet they denote, the first
/// one counting sixteen times.
pub proof fn law_hex_octet(c0: char, c1: char)
    requires
        digit_value(c0, 16) is Some,
        digit_value(c1, 16) is Some,
    ensures
        hex_octet(seq![c0, c1]) == Some(
            (digit_value(c0, 16)->0 * 16 + digit_value(c1, 16)->0) as u8,
        ),
        digit_value(c0, 16)->0 * 16 + digit_value(c1, 16)->0 <= 255,
{
    let t = seq![c0, c1];
    assert(c0 != '+');
    assert(unsigned_digits(t) == t);
    assert(t.drop_last() =~= seq![c0]);
    assert(seq![c0].drop_last() =~= Seq::<char>::empty());
    assert(t.last() == c1);
    assert(digits_value(Seq::<char>::empty(), 16) == 0);
    assert(seq![c0].last() == c0);
    assert(digits_value(seq![c0], 16) == digits_value(Seq::<char>::empty(), 16) * 16 + digit_value(
        c0,
        16,
    )->0);
    assert(digits_value(seq![c0], 16) == digit_value(c0, 16)->0);
    assert(all_digits(t, 16)) by {
        assert forall|i: int| 0 <= i < t.len() implies (#[trigger] digit_value(t[i], 16)) is Some by {}
    }
}

/// Six `:`-separated octets make the MAC address with those octets in order; any
/// other number of pieces is no MAC address.
pub proof fn law_mac_from_parts(parts: Seq<Seq<char>>)
    requires
        parts.len() > 0,
        forall|i: int, j: int| 0 <= i < parts.len() && 0 <= j < parts[i].len() ==> parts[i][j] != ':',
    ensures
        parts.len() == 6 && (forall|i: int| 0 <= i < 6 ==> (#[trigger] hex_octet(parts[i])) is Some)
            ==> mac_spec(join_with(parts, ':')) == Some(
            MacAddress(
                hex_octet(parts[0])->0,
                hex_octet(parts[1])->0,
                hex_octet(parts[2])->0,
                hex_octet(parts[3])->0,
                hex_octet(parts[4])->0,
                hex_octet(parts[5])->0,
            ),
        ),
        parts.len() != 6 ==> mac_spec(join_with(parts, ':')) is None,
        parts.len() == 6 && (exists|i: int| 0 <= i < 6 && (#[trigger] hex_octet(parts[i])) is None)
            ==> mac_spec(join_with(parts, ':')) is None,
{
    law_split_undoes_join(parts, ':');
}

fn parse_hex_octet(p: &str) -> (r: Option<u8>)
    ensures
        r == hex_octet(p@),
{
    match parse_unsigned(p, 16, 255) {
        Some(v) => Some(v as u8),
        None => None,
    }
}

/// Reads a MAC address written as six `:`-separated hexadecimal octets.
pub fn parse_mac_address(s: &str) -> (r: Option<MacAddress>)
    ensures
        r == mac_spec(s@),
{
    let parts = split_char(s, ':');
    let ghost ps = split_spec(s@, ':');
    if parts.len() != 6 {
        proof {
            assert(views_of(parts@).len() == parts@.len());
        }
        return None;
    }
    let mut octets: Vec<u8> = Vec::new();
    let mut i: usize = 0;
    assert(views_of(parts@).len() == 6);
    while i < 6
        invariant
            parts@.len() == 6,
            views_of(parts@) == ps,
            ps.len() == 6,
            ps == split_spec(s@, ':'),
            i <= 6,
            octets@.len() == i,
            forall|j: int| 0 <= j < i ==> hex_octet(ps[j]) == Some(#[trigger] octets@[j]),
        decreases 6 - i,
    {
        assert(ps[i as int] == parts@[i as int]@);
        match parse_hex_octet(parts[i]) {
            Some(o) => {
                octets.push(o);
            },
            None => {
                proof {
                    assert(hex_octet(ps[i as int]) is None);
                    assert(!(forall|j: int| 0 <= j < 6 ==> (#[trigger] hex_octet(ps[j])) is Some));
                    assert(mac_spec(s@) is None);
                }
                return None;
            },
        }
        i = i + 1;
    }
    proof {
        assert forall|j: int| 0 <= j < 6 implies (#[trigger] hex_octet(ps[j])) is Some by {
            assert(hex_octet(ps[j]) == Some(octets@[j]));
        }
    }
    Some(MacAddress(octets[0], octets[1], octets[2], octets[3], octets[4], octets[5]))
}

/// The 42-byte Ethernet frame of an ARP request from `src_mac`/`src_ip` to
/// `dst_mac`, asking about `target_mac`; the target protocol address repeats
/// the sender's.
pub open spec fn arp_request_spec(
    src_mac: MacAddress,
    dst_mac: MacAddress,
    target_mac: MacAddress,
    src_ip: Seq<u8>,
) -> Seq<u8> {
    mac_octets(dst_mac) + mac_octets(src_mac) + seq![0x08u8, 0x06u8, 0x00u8, 0x01u8, 0x08u8, 0x00u8, 6u8, 4u8, 0x00u8, 0x01u8]
        + mac_octets(src_mac) + src_ip + mac_octets(target_mac) + src_ip
}

/// Fills `buf` with an ARP request frame.
pub fn build_arp_packet(
    buf: &mut [u8; 42],
    src_mac: &MacAddress,
    dst_mac: &MacAddress,
    target_mac: &MacAddress,
    src_ip: [u8; 4],
)
    ensures
        final(buf)@ == arp_request_spec(*src_mac, *dst_mac, *target_mac, src_ip@),
{
    let mut v: Vec<u8> = Vec::new();
    v.push(dst_mac.0);
    v.push(dst_mac.1);
    v.push(dst_mac.2);
    v.push(dst_mac.3);
    v.push(dst_mac.4);
    v.push(dst_mac.5);
    v.push(src_mac.0);
    v.push(src_mac.1);
    v.push(src_mac.2);
    v.push(src_mac.3);
    v.push(src_mac.4);
    v.push(src_mac.5);
    v.push(0x08);
    v.push(0x06);
    v.push(0x00);
    v.push(0x01);
    v.push(0x08);
    v.push(0x00);
    v.push(6);
    v.push(4);
    v.push(0x00);
    v.push(0x01);
    v.push(src_mac.0);
    v.push(src_mac.1);
    v.push(src_mac.2);
    v.push(src_mac.3);
    v.push(src_mac.4);
    v.push(src_mac.5);
    v.push(src_ip[0]);
    v.push(src_ip[1]);
    v.push(src_ip[2]);
    v.push(src_ip[3]);
    v.push(target_mac.0);
    v.push(target_mac.1);
    v.push(target_mac.2);
    v.push(target_mac.3);
    v.push(target_mac.4);
    v.push(target_mac.5);
    v.push(src_ip[0]);
    v.push(src_ip[1]);
    v.push(src_ip[2]);
    v.push(src_ip[3]);
    let ghost want = arp_request_spec(*src_mac, *dst_mac, *target_mac, src_ip@);
    assert(v@ =~= want);
    let mut i: usize = 0;
    while i < 42
        invariant
            v@ == want,
            want.len() == 42,
            i <= 42,
            forall|j: int| 0 <= j < i ==> buf@[j] == want[j],
        decreases 42 - i,
    {
        buf[i] = v[i];
        i = i + 1;
    }
    assert(buf@ =~= want);
}

/// Whether `packet` is an ARP reply whose sender hardware address is `target`:
/// at least 42 bytes, EtherType 0x0806, opcode 2, sender MAC at bytes 22..28.
pub open spec fn is_reply_from_spec(packet: Seq<u8>, target: MacAddress) -> bool {
    &&& packet.len() >= 42
    &&& packet[12] == 0x08 && packet[13] == 0x06
    &&& packet[20] == 0x00 && packet[21] == 0x02
    &&& packet.subrange(22, 28) == mac_octets(target)
}

/// Whether a received frame answers an ARP request about `target`.
pub fn is_arp_reply_from(packet: &[u8], target: &MacAddress) -> (r: bool)
    ensures
        r == is_reply_from_spec(packet@, *target),
{
    if packet.len() < 42 {
        return false;
    }
    if !(packet[12] == 0x08 && packet[13] == 0x06) {
        return false;
    }
    if !(packet[20] == 0x00 && packet[21] == 0x02) {
        return false;
    }
    let sender = MacAddress(packet[22], packet[23], packet[24], packet[25], packet[26], packet[27]);
    let r = sender == *target;
    proof {
        assert(packet@.subrange(22, 28) =~= mac_octets(sender));
        if !r {
            assert(mac_octets(sender) != mac_octets(*target)) by {
                if mac_octets(sender) == mac_octets(*target) {
                    assert(mac_octets(sender)[0] == sender.0);
                    assert(mac_octets(*target)[0] == target.0);
                    assert(mac_octets(sender)[1] == mac_octets(*target)[1]);
                    assert(mac_octets(sender)[2] == mac_octets(*target)[2]);
                    assert(mac_octets(sender)[3] == mac_octets(*target)[3]);
                    assert(mac_octets(sender)[4] == mac_octets(*target)[4]);
                    assert(mac_octets(sender)[5] == mac_octets(*target)[5]);
                }
            }
        }
    }
    r
}

/// What the choice of an ARP interface looks at.
#[derive(Clone, Copy, Debug, PartialEq, Eq, Structural)]
pub struct InterfaceInfo {
    pub is_up: bool,
    pub is_loopback: bool,
    pub has_mac: bool,
    pub has_ipv4: bool,
}

/// An interface fit for ARP: up, not loopback, with a MAC and an IPv4 address.
pub open spec fn arp_capable(i: InterfaceInfo) -> bool {
    i.is_up && !i.is_loopback && i.has_mac && i.has_ipv4
}

/// Index of the first interface fit for ARP.
pub fn select_arp_interface(interfaces: &Vec<InterfaceInfo>) -> (r: Option<usize>)
    ensures
        r matches Some(i) ==> interfaces@[i as int].is_up && !interfaces@[i as int].is_loopback
            && interfaces@[i as int].has_mac && interfaces@[i as int].has_ipv4,
        r is None ==> forall|j: int|
            0 <= j < interfaces@.len() ==> !(interfaces@[j].is_up && !interfaces@[j].is_loopback
                && interfaces@[j].has_mac && #[trigger] interfaces@[j].has_ipv4),
        match r {
            Some(i) => i < interfaces@.len() && arp_capable(interfaces@[i as int]) && forall|j: int|
                0 <= j < i ==> !arp_capable(#[trigger] interfaces@[j]),
            None => forall|j: int|
                0 <= j < interfaces@.len() ==> !arp_capable(#[trigger] interfaces@[j]),
        },
{
    let mut i: usize = 0;
    while i < interfaces.len()
        invariant
            i <= interfaces@.len(),
            forall|j: int| 0 <= j < i ==> !arp_capable(#[trigger] interfaces@[j]),
        decreases interfaces@.len() - i,
    {
        let f = interfaces[i];
        if f.is_up && !f.is_loopback && f.has_mac && f.has_ipv4 {
            return Some(i);
        }
        i = i + 1;
    }
    None
}

} // verus!
