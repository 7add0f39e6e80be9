//! Parsing of Ethernet frames down to transport endpoints. Payloads are never
//! looked at.

use vstd::prelude::*;

use super::{Direction, FlowKey, FlowRecord, Protocol};
use crate::net;
use crate::net::{read_be, read_be_u16, read_be_u32, IpAddr};

verus! {

/// Ethernet II header length in bytes.
pub const ETHERNET_HEADER_LEN: usize = 14;

/// VLAN-tagged Ethernet header length in bytes.
pub const VLAN_ETHERNET_HEADER_LEN: usize = 18;

/// Ethertype for IPv4 payloads.
pub const ETHERTYPE_IPV4: u16 = 0x0800;

/// Ethertype for IPv6 payloads.
pub const ETHERTYPE_IPV6: u16 = 0x86dd;

/// Ethertype for 802.1Q VLAN tag.
pub const ETHERTYPE_VLAN_8021Q: u16 = 0x8100;

/// Ethertype for 802.1ad QinQ VLAN tag.
pub const ETHERTYPE_VLAN_8021AD: u16 = 0x88a8;

/// IPv4 minimum header length in bytes.
pub const IPV4_MIN_HEADER_LEN: usize = 20;

/// IPv6 fixed header length in bytes.
pub const IPV6_HEADER_LEN: usize = 40;

/// TCP protocol number in IP headers.
pub const IP_PROTOCOL_TCP: u8 = 6;

/// UDP protocol number in IP headers.
pub const IP_PROTOCOL_UDP: u8 = 17;

/// Addresses, ports and protocol of one IP packet.
#[derive(Clone, Copy, Debug, PartialEq, Eq, Structural)]
pub struct ParsedL4 {
    pub src_ip: IpAddr,
    pub dst_ip: IpAddr,
    pub src_port: u16,
    pub dst_port: u16,
    pub protocol: Protocol,
}

/// The big-endian number in `count` bytes of `p` from `at` on.
pub open spec fn field(p: Seq<u8>, at: int, count: int) -> nat {
    net::be_value(p.subrange(at, at + count))
}

/// The protocol that an IP header names by number.
pub open spec fn protocol_numbered(number: u8) -> Protocol {
    if number == IP_PROTOCOL_TCP {
        Protocol::Tcp
    } else if number == IP_PROTOCOL_UDP {
        Protocol::Udp
    } else {
        Protocol::Other(number)
    }
}

/// The ethertype of a frame and where its payload starts, one VLAN tag
/// skipped; `None` if the frame ends within its header.
pub open spec fn link_header(frame: Seq<u8>) -> Option<(nat, int)> {
    if frame.len() < ETHERNET_HEADER_LEN {
        None
    } else {
        let outer = field(frame, 12, 2);
        if outer == ETHERTYPE_VLAN_8021Q || outer == ETHERTYPE_VLAN_8021AD {
            if frame.len() < VLAN_ETHERNET_HEADER_LEN {
                None
            } else {
                Some((field(frame, 16, 2), VLAN_ETHERNET_HEADER_LEN as int))
            }
        } else {
            Some((outer, ETHERNET_HEADER_LEN as int))
        }
    }
}

/// Header length that an IPv4 packet claims.
pub open spec fn ipv4_header_len(packet: Seq<u8>) -> int {
    (packet[0] as int % 16) * 4
}

/// The packet begins with a whole IPv4 header, options included, and the
/// four bytes of ports after it, and carries TCP or UDP.
pub open spec fn ipv4_usable(packet: Seq<u8>) -> bool {
    &&& packet.len() >= IPV4_MIN_HEADER_LEN
    &&& packet[0] as int / 16 == 4
    &&& ipv4_header_len(packet) >= IPV4_MIN_HEADER_LEN
    &&& packet.len() >= ipv4_header_len(packet) + 4
    &&& !(protocol_numbered(packet[9]) is Other)
}

/// What an IPv4 packet says about its flow.
pub open spec fn ipv4_flow(packet: Seq<u8>) -> Option<ParsedL4> {
    if ipv4_usable(packet) {
        let ports = ipv4_header_len(packet);
        Some(
            ParsedL4 {
                src_ip: IpAddr::V4(field(packet, 12, 4) as u32),
                dst_ip: IpAddr::V4(field(packet, 16, 4) as u32),
                src_port: field(packet, ports, 2) as u16,
                dst_port: field(packet, ports + 2, 2) as u16,
                protocol: protocol_numbered(packet[9]),
            },
        )
    } else {
        None
    }
}

/// The packet begins with an IPv6 header and four bytes of ports after it,
/// and its next header is TCP or UDP.
pub open spec fn ipv6_usable(packet: Seq<u8>) -> bool {
    &&& packet.len() >= IPV6_HEADER_LEN + 4
    &&& packet[0] as int / 16 == 6
    &&& !(protocol_numbered(packet[6]) is Other)
}

/// What an IPv6 packet says about its flow.
pub open spec fn ipv6_flow(packet: Seq<u8>) -> Option<ParsedL4> {
    if ipv6_usable(packet) {
        Some(
            ParsedL4 {
                src_ip: IpAddr::V6(field(packet, 8, 16) as u128),
                dst_ip: IpAddr::V6(field(packet, 24, 16) as u128),
                src_port: field(packet, 40, 2) as u16,
                dst_port: field(packet, 42, 2) as u16,
                protocol: protocol_numbered(packet[6]),
            },
        )
    } else {
        None
    }
}

/// What a frame says about its flow: that of the IP packet it carries.
pub open spec fn frame_flow(frame: Seq<u8>) -> Option<ParsedL4> {
    match link_header(frame) {
        Some((ether_type, start)) => if ether_type == ETHERTYPE_IPV4 {
            ipv4_flow(frame.skip(start))
        } else if ether_type == ETHERTYPE_IPV6 {
            ipv6_flow(frame.skip(start))
        } else {
            None
        },
        None => None,
    }
}

/// A packet from a local address is sent, one to a local address from
/// elsewhere is received, and one between two others counts as sent.
pub open spec fn flow_direction(
    local_ips: Seq<IpAddr>,
    src_ip: IpAddr,
    dst_ip: IpAddr,
) -> Direction {
    if !local_ips.contains(src_ip) && local_ips.contains(dst_ip) {
        Direction::Rx
    } else {
        Direction::Tx
    }
}

/// The flow key of parsed endpoints.
pub open spec fn flow_key(parsed: ParsedL4) -> FlowKey {
    FlowKey {
        src_ip: parsed.src_ip,
        dst_ip: parsed.dst_ip,
        src_port: parsed.src_port,
        dst_port: parsed.dst_port,
        protocol: parsed.protocol,
    }
}

/// The record of a captured frame.
pub open spec fn packet_record(
    frame: Seq<u8>,
    packet_len: u32,
    local_ips: Seq<IpAddr>,
    now: u64,
) -> Option<FlowRecord> {
    match frame_flow(frame) {
        Some(parsed) => Some(
            FlowRecord {
                key: flow_key(parsed),
                byte_count: packet_len,
                timestamp: now,
                direction: flow_direction(local_ips, parsed.src_ip, parsed.dst_ip),
            },
        ),
        None => None,
    }
}

/// Parses one Ethernet frame and returns a flow record when it carries TCP or
/// UDP over IP.
pub fn parse_packet(
    packet_bytes: &[u8],
    packet_len: u32,
    local_ips: &[IpAddr],
    now: u64,
) -> (record: Option<FlowRecord>)
    ensures
        record == packet_record(packet_bytes@, packet_len, local_ips@, now),
        record matches Some(record) ==> record.byte_count == packet_len && record.timestamp == now,
{
    if packet_bytes.len() < ETHERNET_HEADER_LEN {
        return None;
    }
    let ether_type: u16 = read_be_u16(packet_bytes, 12);
    let mut l3_offset: usize = ETHERNET_HEADER_LEN;
    let mut current_ether_type: u16 = ether_type;
    if current_ether_type == ETHERTYPE_VLAN_8021Q || current_ether_type == ETHERTYPE_VLAN_8021AD {
        if packet_bytes.len() < VLAN_ETHERNET_HEADER_LEN {
            return None;
        }
        current_ether_type = read_be_u16(packet_bytes, 16);
        l3_offset = VLAN_ETHERNET_HEADER_LEN;
    }
    let parsed = if current_ether_type == ETHERTYPE_IPV4 {
        match parse_ipv4(packet_bytes, l3_offset) {
            Some(parsed) => parsed,
            None => {
                return None;
            },
        }
    } else if current_ether_type == ETHERTYPE_IPV6 {
        match parse_ipv6(packet_bytes, l3_offset) {
            Some(parsed) => parsed,
            None => {
                return None;
            },
        }
    } else {
        return None;
    };
    let direction = classify_direction(local_ips, parsed.src_ip, parsed.dst_ip);
    Some(
        FlowRecord {
            key: FlowKey {
                src_ip: parsed.src_ip,
                dst_ip: parsed.dst_ip,
                src_port: parsed.src_port,
                dst_port: parsed.dst_port,
                protocol: parsed.protocol,
            },
            byte_count: packet_len,
            timestamp: now,
            direction,
        },
    )
}

/// Tells sent from received packets by the local interface addresses.
pub fn classify_direction(local_ips: &[IpAddr], src_ip: IpAddr, dst_ip: IpAddr) -> (direction:
    Direction)
    ensures
        direction == flow_direction(local_ips@, src_ip, dst_ip),
{
    if is_local(local_ips, src_ip) {
        return Direction::Tx;
    }
    if is_local(local_ips, dst_ip) {
        return Direction::Rx;
    }
    Direction::Tx
}

/// Decides whether an address is among the local ones.
fn is_local(local_ips: &[IpAddr], ip: IpAddr) -> (local: bool)
    ensures
        local == local_ips@.contains(ip),
{
    let mut i: usize = 0;
    while i < local_ips.len()
        invariant
            i <= local_ips@.len(),
            forall|j: int| 0 <= j < i ==> local_ips@[j] != ip,
        decreases local_ips@.len() - i,
    {
        if local_ips[i] == ip {
            return true;
        }
        i += 1;
    }
    false
}

/// Parses the IPv4 packet that starts at an offset and extracts addresses and
/// ports.
pub fn parse_ipv4(packet_bytes: &[u8], layer3_offset: usize) -> (parsed: Option<ParsedL4>)
    ensures
        parsed == (if layer3_offset <= packet_bytes@.len() {
            ipv4_flow(packet_bytes@.skip(layer3_offset as int))
        } else {
            None
        }),
{
    let total: usize = packet_bytes.len();
    if layer3_offset > total || total - layer3_offset < IPV4_MIN_HEADER_LEN {
        return None;
    }
    let version_ihl: u8 = packet_bytes[layer3_offset];
    assert(version_ihl >> 4 == version_ihl / 16 && version_ihl & 0x0f == version_ihl % 16)
        by (bit_vector);
    if version_ihl >> 4 != 4 {
        return None;
    }
    let ihl: usize = ((version_ihl & 0x0f) as usize) * 4;
    if ihl < IPV4_MIN_HEADER_LEN || total - layer3_offset < ihl {
        return None;
    }
    let protocol_number: u8 = packet_bytes[layer3_offset + 9];
    let src_ip: u32 = read_be_u32(packet_bytes, layer3_offset + 12);
    let dst_ip: u32 = read_be_u32(packet_bytes, layer3_offset + 16);
    let layer4_offset: usize = layer3_offset + ihl;
    if total - layer4_offset < 4 {
        return None;
    }
    let src_port: u16 = read_be_u16(packet_bytes, layer4_offset);
    let dst_port: u16 = read_be_u16(packet_bytes, layer4_offset + 2);
    proof {
        lemma_field_in_suffix(packet_bytes@, layer3_offset as int, 12, 4);
        lemma_field_in_suffix(packet_bytes@, layer3_offset as int, 16, 4);
        lemma_field_in_suffix(packet_bytes@, layer3_offset as int, ihl as int, 2);
        lemma_field_in_suffix(packet_bytes@, layer3_offset as int, ihl + 2, 2);
    }
    let protocol = protocol_from_num(protocol_number);
    if let Protocol::Other(_) = protocol {
        return None;
    }
    Some(
        ParsedL4 {
            src_ip: IpAddr::V4(src_ip),
            dst_ip: IpAddr::V4(dst_ip),
            src_port,
            dst_port,
            protocol,
        },
    )
}

/// Parses the IPv6 packet that starts at an offset and extracts addresses and
/// ports. Extension headers are not followed.
pub fn parse_ipv6(packet_bytes: &[u8], layer3_offset: usize) -> (parsed: Option<ParsedL4>)
    ensures
        parsed == (if layer3_offset <= packet_bytes@.len() {
            ipv6_flow(packet_bytes@.skip(layer3_offset as int))
        } else {
            None
        }),
{
    let total: usize = packet_bytes.len();
    if layer3_offset > total || total - layer3_offset < IPV6_HEADER_LEN {
        return None;
    }
    let first: u8 = packet_bytes[layer3_offset];
    assert(first >> 4 == first / 16) by (bit_vector);
    if first >> 4 != 6 {
        return None;
    }
    let next_header: u8 = packet_bytes[layer3_offset + 6];
    let src_ip: u128 = match read_ipv6_address(packet_bytes, layer3_offset + 8) {
        Some(address) => address,
        None => {
            return None;
        },
    };
    let dst_ip: u128 = match read_ipv6_address(packet_bytes, layer3_offset + 24) {
        Some(address) => address,
        None => {
            return None;
        },
    };
    let layer4_offset: usize = layer3_offset + IPV6_HEADER_LEN;
    if total - layer4_offset < 4 {
        return None;
    }
    let src_port: u16 = read_be_u16(packet_bytes, layer4_offset);
    let dst_port: u16 = read_be_u16(packet_bytes, layer4_offset + 2);
    proof {
        lemma_field_in_suffix(packet_bytes@, layer3_offset as int, 8, 16);
        lemma_field_in_suffix(packet_bytes@, layer3_offset as int, 24, 16);
        lemma_field_in_suffix(packet_bytes@, layer3_offset as int, 40, 2);
        lemma_field_in_suffix(packet_bytes@, layer3_offset as int, 42, 2);
    }
    let protocol = protocol_from_num(next_header);
    if let Protocol::Other(_) = protocol {
        return None;
    }
    Some(
        ParsedL4 {
            src_ip: IpAddr::V6(src_ip),
            dst_ip: IpAddr::V6(dst_ip),
            src_port,
            dst_port,
            protocol,
        },
    )
}

/// Reads the 16 bytes of an IPv6 address at an offset, if they are there.
pub fn read_ipv6_address(packet_bytes: &[u8], offset: usize) -> (address: Option<u128>)
    ensures
        match address {
            Some(value) => offset + 16 <= packet_bytes@.len() && value == field(
                packet_bytes@,
                offset as int,
                16,
            ),
            None => offset + 16 > packet_bytes@.len(),
        },
{
    if offset > packet_bytes.len() || packet_bytes.len() - offset < 16 {
        return None;
    }
    Some(read_be(packet_bytes, offset, 16))
}

/// Maps the protocol number of an IP header.
pub fn protocol_from_num(protocol_number: u8) -> (protocol: Protocol)
    ensures
        protocol == protocol_numbered(protocol_number),
{
    if protocol_number == IP_PROTOCOL_TCP {
        Protocol::Tcp
    } else if protocol_number == IP_PROTOCOL_UDP {
        Protocol::Udp
    } else {
        Protocol::Other(protocol_number)
    }
}

/// A field of a suffix is the field of the whole at the shifted position.
proof fn lemma_field_in_suffix(p: Seq<u8>, start: int, at: int, count: int)
    requires
        0 <= start,
        0 <= at,
        0 <= count,
        start + at + count <= p.len(),
    ensures
        field(p.skip(start), at, count) == field(p, start + at, count),
{
    assert(p.skip(start).subrange(at, at + count) =~= p.subrange(start + at, start + at + count));
}

/// A field does not change when bytes are appended.
proof fn lemma_field_of_prefix(p: Seq<u8>, extra: Seq<u8>, at: int, count: int)
    requires
        0 <= at,
        0 <= count,
        at + count <= p.len(),
    ensures
        field(p + extra, at, count) == field(p, at, count),
{
    assert((p + extra).subrange(at, at + count) =~= p.subrange(at, at + count));
}

/// A VLAN tag does not change the flow of a frame: a frame with a tag put in
/// after its MAC addresses has the flow of the frame without it. One tag is
/// skipped, so the frame itself carries none.
pub proof fn vlan_tag_is_transparent(frame: Seq<u8>, tag: Seq<u8>)
    requires
        frame.len() >= ETHERNET_HEADER_LEN,
        tag.len() == 4,
        field(tag, 0, 2) == ETHERTYPE_VLAN_8021Q || field(tag, 0, 2) == ETHERTYPE_VLAN_8021AD,
        field(frame, 12, 2) != ETHERTYPE_VLAN_8021Q,
        field(frame, 12, 2) != ETHERTYPE_VLAN_8021AD,
    ensures
        frame_flow(frame.take(12) + tag + frame.skip(12)) == frame_flow(frame),
{
    let tagged = frame.take(12) + tag + frame.skip(12);
    assert(tagged.subrange(12, 14) =~= tag.subrange(0, 2));
    assert(tagged.subrange(16, 18) =~= frame.subrange(12, 14));
    assert(tagged.skip(18) =~= frame.skip(14));
}

/// The payload does not matter: bytes after the ports, however many, leave the
/// flow of a frame as it is.
pub proof fn payload_is_ignored(frame: Seq<u8>, payload: Seq<u8>)
    requires
        frame_flow(frame) is Some,
    ensures
        frame_flow(frame + payload) == frame_flow(frame),
{
    let longer = frame + payload;
    lemma_field_of_prefix(frame, payload, 12, 2);
    if frame.len() >= 18 {
        lemma_field_of_prefix(frame, payload, 16, 2);
    }
    let (ether_type, start) = link_header(frame).unwrap();
    let packet = frame.skip(start);
    assert(longer.skip(start) =~= packet + payload);
    if ether_type == ETHERTYPE_IPV4 {
        let ports = ipv4_header_len(packet);
        lemma_field_of_prefix(packet, payload, 12, 4);
        lemma_field_of_prefix(packet, payload, 16, 4);
        lemma_field_of_prefix(packet, payload, ports, 2);
        lemma_field_of_prefix(packet, payload, ports + 2, 2);
    } else {
        lemma_field_of_prefix(packet, payload, 8, 16);
        lemma_field_of_prefix(packet, payload, 24, 16);
        lemma_field_of_prefix(packet, payload, 40, 2);
        lemma_field_of_prefix(packet, payload, 42, 2);
    }
}

/// A record always belongs to a TCP or UDP flow.
pub proof fn flows_are_tcp_or_udp(frame: Seq<u8>)
    requires
        frame_flow(frame) is Some,
    ensures
        frame_flow(frame)->0.protocol == Protocol::Tcp || frame_flow(frame)->0.protocol
            == Protocol::Udp,
{
}

} // verus!
