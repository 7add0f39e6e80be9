use netmon::capture::control::{
    capture_join_result, capture_step, capturing_status, CaptureAction, CaptureCommand,
    CaptureError, CaptureEvent, JoinOutcome,
};
use netmon::capture::packet::{
    classify_direction, parse_ipv4, parse_ipv6, parse_packet, protocol_from_num, read_ipv6_address,
};
use netmon::capture::{Direction, Protocol};
use netmon::net::IpAddr;

const HOST: u32 = 0x0a00_020f;
const PEER: u32 = 0x0808_0808;

fn ipv4_packet(protocol: u8, source: u32, target: u32, ports: [u8; 4]) -> Vec<u8> {
    let mut bytes = vec![0x45, 0, 0, 40, 0, 0, 0, 0, 64, protocol, 0, 0];
    bytes.extend_from_slice(&source.to_be_bytes());
    bytes.extend_from_slice(&target.to_be_bytes());
    bytes.extend_from_slice(&ports);
    bytes.extend_from_slice(&[0; 16]);
    bytes
}

fn frame(ether_type: [u8; 2], payload: &[u8]) -> Vec<u8> {
    let mut bytes = vec![0u8; 12];
    bytes.extend_from_slice(&ether_type);
    bytes.extend_from_slice(payload);
    bytes
}

fn tagged_frame(tag: [u8; 2], ether_type: [u8; 2], payload: &[u8]) -> Vec<u8> {
    let mut bytes = vec![0u8; 12];
    bytes.extend_from_slice(&tag);
    bytes.extend_from_slice(&[0, 7]);
    bytes.extend_from_slice(&ether_type);
    bytes.extend_from_slice(payload);
    bytes
}

#[test]
fn ipv4_tcp_frame_gives_a_record() {
    let payload = ipv4_packet(6, HOST, PEER, [0xc0, 0x01, 0x01, 0xbb]);
    let bytes = frame([0x08, 0x00], &payload);
    let record = parse_packet(&bytes, 1500, &[IpAddr::V4(HOST)], 99).unwrap();
    assert_eq!(record.key.src_ip, IpAddr::V4(HOST));
    assert_eq!(record.key.dst_ip, IpAddr::V4(PEER));
    assert_eq!(record.key.src_port, 0xc001);
    assert_eq!(record.key.dst_port, 443);
    assert_eq!(record.key.protocol, Protocol::Tcp);
    assert_eq!(record.byte_count, 1500);
    assert_eq!(record.timestamp, 99);
    assert_eq!(record.direction, Direction::Tx);
}

#[test]
fn vlan_tags_do_not_change_the_flow() {
    let payload = ipv4_packet(17, PEER, HOST, [0, 53, 0x30, 0x39]);
    let plain = parse_packet(&frame([0x08, 0x00], &payload), 80, &[IpAddr::V4(HOST)], 1).unwrap();
    for tag in [[0x81, 0x00], [0x88, 0xa8]] {
        let tagged = tagged_frame(tag, [0x08, 0x00], &payload);
        let record = parse_packet(&tagged, 80, &[IpAddr::V4(HOST)], 1).unwrap();
        assert_eq!(record.key, plain.key);
        assert_eq!(record.direction, Direction::Rx);
        assert_eq!(record.key.protocol, Protocol::Udp);
        assert_eq!(record.key.dst_port, 12345);
    }
}

#[test]
fn payload_does_not_change_the_flow() {
    let payload = ipv4_packet(6, HOST, PEER, [1, 2, 3, 4]);
    let short = frame([0x08, 0x00], &payload);
    let mut long = short.clone();
    long.extend_from_slice(&[0xff; 700]);
    let a = parse_packet(&short, 1, &[], 0).unwrap();
    let b = parse_packet(&long, 1, &[], 0).unwrap();
    assert_eq!(a.key, b.key);
}

#[test]
fn ipv6_udp_frame_gives_a_record() {
    let source: u128 = 0x2001_0db8_0000_0000_0000_0000_0000_0001;
    let target: u128 = 0xfe80_0000_0000_0000_0000_0000_0000_0002;
    let mut payload = vec![0x60, 0, 0, 0, 0, 8, 17, 64];
    payload.extend_from_slice(&source.to_be_bytes());
    payload.extend_from_slice(&target.to_be_bytes());
    payload.extend_from_slice(&[0x14, 0xe9, 0x00, 0x35, 0, 8, 0, 0]);
    let record = parse_packet(&frame([0x86, 0xdd], &payload), 62, &[], 5).unwrap();
    assert_eq!(record.key.src_ip, IpAddr::V6(source));
    assert_eq!(record.key.dst_ip, IpAddr::V6(target));
    assert_eq!(record.key.src_port, 5353);
    assert_eq!(record.key.dst_port, 53);
    assert_eq!(record.key.protocol, Protocol::Udp);
    assert!(parse_ipv6(&payload, 0).is_some());
    assert!(parse_ipv6(&payload, 1).is_none());
    assert!(parse_ipv6(&payload[..43], 0).is_none());
    assert_eq!(read_ipv6_address(&payload, 8), Some(source));
    assert_eq!(read_ipv6_address(&payload, payload.len()), None);
}

#[test]
fn frames_without_a_flow_are_skipped() {
    let payload = ipv4_packet(6, HOST, PEER, [0, 80, 0, 81]);
    assert!(parse_packet(&[], 0, &[], 0).is_none());
    assert!(parse_packet(&[0; 13], 13, &[], 0).is_none());
    assert!(parse_packet(&frame([0x08, 0x06], &payload), 60, &[], 0).is_none());
    assert!(parse_packet(&tagged_frame([0x81, 0x00], [0x08, 0x00], &[])[..17], 17, &[], 0).is_none());
    assert!(parse_packet(&frame([0x08, 0x00], &payload[..19]), 33, &[], 0).is_none());
    let icmp = ipv4_packet(1, HOST, PEER, [0, 0, 0, 0]);
    assert!(parse_packet(&frame([0x08, 0x00], &icmp), 60, &[], 0).is_none());
}

#[test]
fn ipv4_options_move_the_ports() {
    let mut payload = ipv4_packet(6, HOST, PEER, [0, 0, 0, 0]);
    payload[0] = 0x46;
    payload[24..28].copy_from_slice(&[0x1f, 0x90, 0x00, 0x16]);
    let parsed = parse_ipv4(&payload, 0).unwrap();
    assert_eq!(parsed.src_port, 8080);
    assert_eq!(parsed.dst_port, 22);
    payload[0] = 0x44;
    assert!(parse_ipv4(&payload, 0).is_none());
}

#[test]
fn direction_follows_the_local_addresses() {
    let host = IpAddr::V4(HOST);
    let peer = IpAddr::V4(PEER);
    assert_eq!(classify_direction(&[host], host, peer), Direction::Tx);
    assert_eq!(classify_direction(&[host], peer, host), Direction::Rx);
    assert_eq!(classify_direction(&[host, peer], host, peer), Direction::Tx);
}

#[test]
fn protocol_numbers_are_named() {
    assert_eq!(protocol_from_num(6), Protocol::Tcp);
    assert_eq!(protocol_from_num(17), Protocol::Udp);
    assert_eq!(protocol_from_num(47), Protocol::Other(47));
}

#[test]
fn capture_loop_polls_commands_before_frames() {
    assert!(matches!(capture_step(CaptureEvent::Running(true)).action, CaptureAction::PollCommand));
    assert!(matches!(capture_step(CaptureEvent::Running(false)).action, CaptureAction::Exit));
    assert!(matches!(capture_step(CaptureEvent::NoCommand).action, CaptureAction::ReadPacket));
    assert!(matches!(capture_step(CaptureEvent::ReadTimeout).action, CaptureAction::CheckRunning));
    assert!(matches!(capture_step(CaptureEvent::Delivered).action, CaptureAction::CheckRunning));
    assert!(matches!(
        capture_step(CaptureEvent::Command(CaptureCommand::Stop)).action,
        CaptureAction::Exit
    ));
    assert!(matches!(capture_step(CaptureEvent::CommandsClosed).action, CaptureAction::Exit));
    assert!(matches!(capture_step(CaptureEvent::ReceiverGone).action, CaptureAction::Exit));
    let step = capture_step(CaptureEvent::Command(CaptureCommand::ApplyFilter("tcp".to_string())));
    match step.action {
        CaptureAction::SetFilter(expression) => assert_eq!(expression, "tcp"),
        other => panic!("unexpected action {other:?}"),
    }
}

#[test]
fn refused_filters_keep_the_capture_running() {
    let step = capture_step(CaptureEvent::FilterRefused("syntax error".to_string()));
    assert_eq!(step.status.as_deref(), Some("BPF error: syntax error"));
    assert!(!step.clear_running);
    assert!(matches!(step.action, CaptureAction::PollCommand));
    let step = capture_step(CaptureEvent::FilterSet("udp port 53".to_string()));
    assert_eq!(step.status.as_deref(), Some("Filter applied: udp port 53"));
    assert!(matches!(step.action, CaptureAction::PollCommand));
}

#[test]
fn a_failing_interface_ends_the_capture() {
    let step = capture_step(CaptureEvent::ReadFailed);
    assert!(step.clear_running);
    assert_eq!(
        step.status.as_deref(),
        Some("Capture stopped: interface went down. Select an interface and click Start.")
    );
    assert!(matches!(step.action, CaptureAction::Exit));
}

#[test]
fn capture_errors_have_messages() {
    assert_eq!(CaptureError::Pcap("no device".to_string()).message(), "pcap error: no device");
    assert_eq!(
        CaptureError::ChannelSend("closed".to_string()).message(),
        "capture channel send failed: closed"
    );
    assert!(capture_join_result(JoinOutcome::Finished).is_ok());
    assert_eq!(
        capture_join_result(JoinOutcome::Panicked).unwrap_err().message(),
        "capture thread join failed: capture thread panicked"
    );
    assert_eq!(
        capture_join_result(JoinOutcome::TimedOut).unwrap_err().message(),
        "capture thread join failed: capture thread join timed out"
    );
    assert_eq!(capturing_status("eth0"), "Capturing on eth0...");
}
