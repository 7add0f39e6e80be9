//! What holds of capturing as a whole: frames put together from their fields
//! read back, nothing else gives a flow, and the loop loses nothing.

use vstd::prelude::*;

use super::control;
use super::control::{CaptureAction, CaptureCommand, CaptureError, CaptureEvent, CaptureStep};
use super::packet;
use super::{Direction, FlowRecord, Protocol};
use crate::net;
use crate::net::IpAddr;

verus! {

// ---------------------------------------------------------------------------
// Frames from their fields
// ---------------------------------------------------------------------------

/// A link header: two MAC addresses, the tag of a VLAN if there is one, and the
/// type of what follows.
pub open spec fn link(macs: Seq<u8>, tag: Option<(u16, u16)>, ether_type: nat) -> Seq<u8> {
    match tag {
        Some((kind, label)) => macs + net::be_bytes(kind as nat, 2) + net::be_bytes(
            label as nat,
            2,
        ) + net::be_bytes(ether_type, 2),
        None => macs + net::be_bytes(ether_type, 2),
    }
}

/// A link header can be made of these parts.
pub open spec fn link_parts(macs: Seq<u8>, tag: Option<(u16, u16)>) -> bool {
    &&& macs.len() == 12
    &&& tag matches Some((kind, _)) ==> kind == 0x8100 || kind == 0x88a8
}

/// An IPv4 header of `words` words of four bytes, options included. `service`
/// is what stands between the first byte and the protocol.
pub open spec fn ipv4_header(
    words: nat,
    service: Seq<u8>,
    protocol: u8,
    checksum: Seq<u8>,
    src: u32,
    dst: u32,
    options: Seq<u8>,
) -> Seq<u8> {
    seq![(64 + words) as u8] + service + seq![protocol] + checksum + net::be_bytes(src as nat, 4)
        + net::be_bytes(dst as nat, 4) + options
}

/// An IPv6 header. `label` is what stands between the first byte and the
/// next-header number.
pub open spec fn ipv6_header(
    class: nat,
    label: Seq<u8>,
    next_header: u8,
    hop_limit: u8,
    src: u128,
    dst: u128,
) -> Seq<u8> {
    seq![(96 + class) as u8] + label + seq![next_header, hop_limit] + net::be_bytes(src as nat, 16)
        + net::be_bytes(dst as nat, 16)
}

/// What a transport header begins with, and all that follows.
pub open spec fn transport(src_port: u16, dst_port: u16, rest: Seq<u8>) -> Seq<u8> {
    net::be_bytes(src_port as nat, 2) + net::be_bytes(dst_port as nat, 2) + rest
}

/// `record` is the record of a packet between these ends.
pub open spec fn records(
    record: Option<FlowRecord>,
    src_ip: IpAddr,
    dst_ip: IpAddr,
    src_port: u16,
    dst_port: u16,
    protocol_number: u8,
    packet_len: u32,
    local_ips: Seq<IpAddr>,
    now: u64,
) -> bool {
    &&& record matches Some(record)
    &&& record.key.src_ip == src_ip
    &&& record.key.dst_ip == dst_ip
    &&& record.key.src_port == src_port
    &&& record.key.dst_port == dst_port
    &&& protocol_number == 6 ==> record.key.protocol == Protocol::Tcp
    &&& protocol_number == 17 ==> record.key.protocol == Protocol::Udp
    &&& record.byte_count == packet_len
    &&& record.timestamp == now
    &&& local_ips.contains(src_ip) ==> record.direction == Direction::Tx
    &&& local_ips.contains(dst_ip) && !local_ips.contains(src_ip) ==> record.direction
        == Direction::Rx
    &&& !local_ips.contains(dst_ip) ==> record.direction == Direction::Tx
}

/// A number that stands somewhere among bytes is read there.
proof fn lemma_field(before: Seq<u8>, n: nat, count: nat, after: Seq<u8>)
    requires
        n < net::byte_range(count),
    ensures
        packet::field(before + net::be_bytes(n, count) + after, before.len() as int, count as int)
            == n,
{
    net::numbers_read_back_from_bytes(n, count);
    let whole = before + net::be_bytes(n, count) + after;
    let at = before.len() as int;
    assert(whole.subrange(at, at + count) =~= net::be_bytes(n, count));
}

proof fn lemma_link(macs: Seq<u8>, tag: Option<(u16, u16)>, ether_type: nat, rest: Seq<u8>)
    requires
        link_parts(macs, tag),
        ether_type == 0x0800 || ether_type == 0x86dd,
    ensures
        ({
            let start = if tag is Some {
                18int
            } else {
                14int
            };
            let frame = link(macs, tag, ether_type) + rest;
            &&& packet::link_header(frame) == Some((ether_type, start))
            &&& frame.skip(start) == rest
        }),
{
    net::lemma_byte_ranges();
    net::numbers_read_back_from_bytes(ether_type, 2);
    let frame = link(macs, tag, ether_type) + rest;
    match tag {
        Some((kind, label)) => {
            net::numbers_read_back_from_bytes(kind as nat, 2);
            net::numbers_read_back_from_bytes(label as nat, 2);
            let marks = net::be_bytes(kind as nat, 2) + net::be_bytes(label as nat, 2);
            let inner = net::be_bytes(ether_type, 2);
            assert(frame =~= macs + net::be_bytes(kind as nat, 2) + (net::be_bytes(label as nat, 2)
                + inner + rest));
            lemma_field(
                macs,
                kind as nat,
                2,
                net::be_bytes(label as nat, 2) + inner + rest,
            );
            assert(frame =~= (macs + marks) + inner + rest);
            lemma_field(macs + marks, ether_type, 2, rest);
            assert(frame.skip(18) =~= rest);
        },
        None => {
            lemma_field(macs, ether_type, 2, rest);
            assert(frame.skip(14) =~= rest);
        },
    }
}

/// Every TCP or UDP packet over IPv4 is recorded, with exactly the addresses,
/// ports, protocol, length and time that it has, whatever its options, payload
/// and VLAN.
#[verifier::rlimit(40)]
pub proof fn ipv4_frames_read_back(
    macs: Seq<u8>,
    tag: Option<(u16, u16)>,
    words: nat,
    service: Seq<u8>,
    protocol: u8,
    checksum: Seq<u8>,
    src: u32,
    dst: u32,
    options: Seq<u8>,
    src_port: u16,
    dst_port: u16,
    rest: Seq<u8>,
    packet_len: u32,
    local_ips: Seq<IpAddr>,
    now: u64,
)
    requires
        link_parts(macs, tag),
        5 <= words <= 15,
        service.len() == 8,
        checksum.len() == 2,
        options.len() == words * 4 - 20,
        protocol == 6 || protocol == 17,
    ensures
        records(
            packet::packet_record(
                link(macs, tag, 0x0800) + (ipv4_header(
                    words,
                    service,
                    protocol,
                    checksum,
                    src,
                    dst,
                    options,
                ) + transport(src_port, dst_port, rest)),
                packet_len,
                local_ips,
                now,
            ),
            IpAddr::V4(src),
            IpAddr::V4(dst),
            src_port,
            dst_port,
            protocol,
            packet_len,
            local_ips,
            now,
        ),
{
    net::lemma_byte_ranges();
    net::numbers_read_back_from_bytes(src as nat, 4);
    net::numbers_read_back_from_bytes(dst as nat, 4);
    net::numbers_read_back_from_bytes(src_port as nat, 2);
    net::numbers_read_back_from_bytes(dst_port as nat, 2);
    let header = ipv4_header(words, service, protocol, checksum, src, dst, options);
    let ends = transport(src_port, dst_port, rest);
    let p = header + ends;
    lemma_link(macs, tag, 0x0800, p);
    let first = (64 + words) as u8;
    assert(first as int / 16 == 4 && first as int % 16 == words);
    let head = seq![first] + service + seq![protocol] + checksum;
    let from = net::be_bytes(src as nat, 4);
    let to = net::be_bytes(dst as nat, 4);
    assert(p[0] == first && p[9] == protocol);
    assert(p =~= head + from + (to + options + ends));
    lemma_field(head, src as nat, 4, to + options + ends);
    assert(p =~= (head + from) + to + (options + ends));
    lemma_field(head + from, dst as nat, 4, options + ends);
    let sp = net::be_bytes(src_port as nat, 2);
    let dp = net::be_bytes(dst_port as nat, 2);
    assert(p =~= header + sp + (dp + rest));
    lemma_field(header, src_port as nat, 2, dp + rest);
    assert(p =~= (header + sp) + dp + rest);
    lemma_field(header + sp, dst_port as nat, 2, rest);
}

/// Every TCP or UDP packet over IPv6 is recorded, with exactly the addresses,
/// ports, protocol, length and time that it has, whatever its payload and VLAN.
#[verifier::rlimit(40)]
pub proof fn ipv6_frames_read_back(
    macs: Seq<u8>,
    tag: Option<(u16, u16)>,
    class: nat,
    label: Seq<u8>,
    next_header: u8,
    hop_limit: u8,
    src: u128,
    dst: u128,
    src_port: u16,
    dst_port: u16,
    rest: Seq<u8>,
    packet_len: u32,
    local_ips: Seq<IpAddr>,
    now: u64,
)
    requires
        link_parts(macs, tag),
        class < 16,
        label.len() == 5,
        next_header == 6 || next_header == 17,
    ensures
        records(
            packet::packet_record(
                link(macs, tag, 0x86dd) + (ipv6_header(
                    class,
                    label,
                    next_header,
                    hop_limit,
                    src,
                    dst,
                ) + transport(src_port, dst_port, rest)),
                packet_len,
                local_ips,
                now,
            ),
            IpAddr::V6(src),
            IpAddr::V6(dst),
            src_port,
            dst_port,
            next_header,
            packet_len,
            local_ips,
            now,
        ),
{
    net::lemma_byte_ranges();
    net::numbers_read_back_from_bytes(src as nat, 16);
    net::numbers_read_back_from_bytes(dst as nat, 16);
    net::numbers_read_back_from_bytes(src_port as nat, 2);
    net::numbers_read_back_from_bytes(dst_port as nat, 2);
    let header = ipv6_header(class, label, next_header, hop_limit, src, dst);
    let ends = transport(src_port, dst_port, rest);
    let p = header + ends;
    lemma_link(macs, tag, 0x86dd, p);
    let first = (96 + class) as u8;
    assert(first as int / 16 == 6);
    let head = seq![first] + label + seq![next_header, hop_limit];
    let from = net::be_bytes(src as nat, 16);
    let to = net::be_bytes(dst as nat, 16);
    assert(p[0] == first && p[6] == next_header);
    assert(p =~= head + from + (to + ends));
    lemma_field(head, src as nat, 16, to + ends);
    assert(p =~= (head + from) + to + ends);
    lemma_field(head + from, dst as nat, 16, ends);
    let sp = net::be_bytes(src_port as nat, 2);
    let dp = net::be_bytes(dst_port as nat, 2);
    assert(p =~= header + sp + (dp + rest));
    lemma_field(header, src_port as nat, 2, dp + rest);
    assert(p =~= (header + sp) + dp + rest);
    lemma_field(header + sp, dst_port as nat, 2, rest);
}

/// The two bytes at a place are a number in network order.
proof fn lemma_two_bytes(p: Seq<u8>, at: int)
    requires
        0 <= at,
        at + 2 <= p.len(),
    ensures
        packet::field(p, at, 2) == 256 * p[at] + p[at + 1],
{
    let two = p.subrange(at, at + 2);
    assert(two.drop_last().drop_last() =~= Seq::empty());
    assert(net::be_value(two.drop_last().drop_last()) == 0);
    assert(net::be_value(two.drop_last()) == two[0]);
}

/// Nothing else is recorded: a recorded frame is whole up to the ports, names
/// IPv4 or IPv6 behind at most one VLAN tag and begins with a header of that
/// version, and that header names TCP or UDP.
pub proof fn only_tcp_and_udp_over_ip_is_recorded(
    frame: Seq<u8>,
    packet_len: u32,
    local_ips: Seq<IpAddr>,
    now: u64,
)
    requires
        packet::packet_record(frame, packet_len, local_ips, now) is Some,
    ensures
        frame.len() >= 14,
        ({
            let tagged = (frame[12] == 0x81 && frame[13] == 0x00) || (frame[12] == 0x88
                && frame[13] == 0xa8);
            let at = if tagged {
                16int
            } else {
                12int
            };
            &&& frame.len() >= at + 2 + 24
            &&& {
                ||| {
                    &&& frame[at] == 0x08 && frame[at + 1] == 0x00
                    &&& frame[at + 2] as int / 16 == 4
                    &&& frame[at + 2] as int % 16 >= 5
                    &&& frame.len() >= at + 2 + (frame[at + 2] as int % 16) * 4 + 4
                    &&& frame[at + 11] == 6 || frame[at + 11] == 17
                }
                ||| {
                    &&& frame[at] == 0x86 && frame[at + 1] == 0xdd
                    &&& frame[at + 2] as int / 16 == 6
                    &&& frame.len() >= at + 2 + 44
                    &&& frame[at + 8] == 6 || frame[at + 8] == 17
                }
            }
        }),
{
    lemma_two_bytes(frame, 12);
    if frame.len() >= 18 {
        lemma_two_bytes(frame, 16);
    }
}

// ---------------------------------------------------------------------------
// The loop
// ---------------------------------------------------------------------------

/// Every record is handed over as it is, and the loop goes on after it, as after
/// a frame without a record and after a wait in vain.
pub proof fn every_record_is_delivered(
    record: FlowRecord,
    step: CaptureStep,
    quiet: CaptureEvent,
    next: CaptureStep,
)
    requires
        control::reaction(CaptureEvent::Packet(Some(record)), step),
        quiet is Delivered || quiet is ReadTimeout || quiet == CaptureEvent::Packet(None),
        control::reaction(quiet, next),
    ensures
        step.action == CaptureAction::Deliver(record),
        step.status is None,
        next.action is CheckRunning,
        next.status is None,
{
}

/// A filter is installed as it was sent, and what became of it is said in the
/// words of the expression or of the refusal.
pub proof fn filters_are_installed_and_reported(
    expression: String,
    install: CaptureStep,
    accepted: CaptureStep,
    reason: String,
    refused: CaptureStep,
)
    requires
        control::reaction(CaptureEvent::Command(CaptureCommand::ApplyFilter(expression)), install),
        control::reaction(CaptureEvent::FilterSet(expression), accepted),
        control::reaction(CaptureEvent::FilterRefused(reason), refused),
    ensures
        install.action == CaptureAction::SetFilter(expression),
        accepted.status matches Some(line) && line@ == "Filter applied: "@ + expression@,
        refused.status matches Some(line) && line@ == "BPF error: "@ + reason@,
        accepted.action is PollCommand,
        refused.action is PollCommand,
{
}

/// The loop ends when it is told to or when nobody is left to work for or to
/// listen to, and only then.
pub proof fn the_loop_ends_when_told(event: CaptureEvent, step: CaptureStep)
    requires
        control::reaction(event, step),
    ensures
        step.action is Exit <==> {
            ||| event == CaptureEvent::Running(false)
            ||| event == CaptureEvent::Command(CaptureCommand::Stop)
            ||| event is CommandsClosed
            ||| event is ReadFailed
            ||| event is ReceiverGone
        },
        event == CaptureEvent::Running(true) ==> step.action is PollCommand,
        event is NoCommand ==> step.action is ReadPacket,
{
}

/// Only a failing interface clears the flag that keeps the loop running, and only
/// that and a filter give something to say.
pub proof fn the_loop_speaks_when_it_must(event: CaptureEvent, step: CaptureStep)
    requires
        control::reaction(event, step),
    ensures
        step.clear_running <==> event is ReadFailed,
        step.status is Some <==> event is ReadFailed || event is FilterSet || event is FilterRefused,
        event is ReadFailed ==> (step.status matches Some(line) && line@
            == "Capture stopped: interface went down. Select an interface and click Start."@),
{
}

/// What went wrong is said with its reason.
pub proof fn capture_errors_tell_their_reason(reason: String)
    ensures
        CaptureError::Pcap(reason).text() == "pcap error: "@ + reason@,
        CaptureError::ChannelSend(reason).text() == "capture channel send failed: "@ + reason@,
        CaptureError::ThreadJoin(reason).text() == "capture thread join failed: "@ + reason@,
{
}

/// The number in an IP header names the protocol, and no number is lost.
pub proof fn protocol_numbers_name_protocols(number: u8)
    ensures
        packet::protocol_numbered(6) == Protocol::Tcp,
        packet::protocol_numbered(17) == Protocol::Udp,
        number != 6 && number != 17 ==> packet::protocol_numbered(number) == Protocol::Other(
            number,
        ),
{
}

} // verus!
