use std::collections::HashMap;

use netmon::capture::{FlowKey, Protocol};
use netmon::net::{IpAddr, SocketAddr};
use netmon::resolver::netlink::{
    build_inet_diag_request, nlmsg_align, parse_response_messages, tcp_state_to_str, ByteOrder,
    NetlinkError, QueryProgress, SocketQuery,
};
use netmon::resolver::pid_map::{
    build_inode_pid_map, parse_dir_id, parse_socket_inode, read_comm, read_process_effective_uid,
    ProcessScan, TaskScan,
};
use netmon::resolver::proc_fallback::{
    parse_proc_row, parse_proc_socket_addr, parse_tcp_state, read_proc_net, FallbackError,
    ProcNetFiles,
};
use netmon::resolver::{
    build_connections, build_inode_process_map, choose_source, load_uid_map, resolve, resolver_failure_status,
    scan_connections_for_pid, Resolver, ResolverCache, ResolverError, Scan, SocketEntry,
    SocketSource, SocketTable, SourceChoice,
};
use netmon::text::chars_of;

const SECOND: u64 = 1_000_000_000;
const HEADING: &str = "  sl  local_address rem_address   st tx_queue rx_queue tr tm->when retrnsmt   uid  timeout inode\n";

fn v4(a: u8, b: u8, c: u8, d: u8) -> IpAddr {
    IpAddr::V4(u32::from_be_bytes([a, b, c, d]))
}

fn diag_message(inode: u32, uid: u32) -> Vec<u8> {
    let mut bytes = Vec::new();
    bytes.extend_from_slice(&88u32.to_le_bytes());
    bytes.extend_from_slice(&20u16.to_le_bytes());
    bytes.extend_from_slice(&2u16.to_le_bytes());
    bytes.extend_from_slice(&1u32.to_le_bytes());
    bytes.extend_from_slice(&0u32.to_le_bytes());
    bytes.extend_from_slice(&[2, 1, 0, 0]);
    bytes.extend_from_slice(&50000u16.to_be_bytes());
    bytes.extend_from_slice(&443u16.to_be_bytes());
    bytes.extend_from_slice(&[10, 0, 2, 15]);
    bytes.extend_from_slice(&[0; 12]);
    bytes.extend_from_slice(&[8, 8, 4, 4]);
    bytes.extend_from_slice(&[0; 12]);
    bytes.extend_from_slice(&[0; 12]);
    bytes.extend_from_slice(&[0; 12]);
    bytes.extend_from_slice(&uid.to_le_bytes());
    bytes.extend_from_slice(&inode.to_le_bytes());
    bytes
}

fn done_message() -> Vec<u8> {
    let mut bytes = Vec::new();
    bytes.extend_from_slice(&16u32.to_le_bytes());
    bytes.extend_from_slice(&3u16.to_le_bytes());
    bytes.extend_from_slice(&[0; 10]);
    bytes
}

fn error_message(code: i32) -> Vec<u8> {
    let mut bytes = Vec::new();
    bytes.extend_from_slice(&36u32.to_le_bytes());
    bytes.extend_from_slice(&2u16.to_le_bytes());
    bytes.extend_from_slice(&[0; 10]);
    bytes.extend_from_slice(&code.to_le_bytes());
    bytes.extend_from_slice(&[0; 16]);
    bytes
}

fn socket(inode: u64, local: SocketAddr, remote: SocketAddr) -> SocketEntry {
    SocketEntry {
        inode,
        local_addr: local,
        remote_addr: remote,
        state: "ESTABLISHED".to_string(),
        uid: 1000,
        protocol: Protocol::Tcp,
    }
}

fn passwd() -> Result<Vec<String>, String> {
    Ok(vec![
        "root:x:0:0:root:/root:/bin/bash".to_string(),
        "broken line".to_string(),
        "alice:x:1000:1000::/home/alice:/bin/sh".to_string(),
        "odd:x:none:5::/:/bin/sh".to_string(),
    ])
}

fn curl_process() -> ProcessScan {
    ProcessScan {
        dir_name: "77".to_string(),
        comm: Some("curl\n".to_string()),
        status: Some("Name:\tcurl\nUid:\t1000\t1000\t1000\t1000\n".to_string()),
        tasks: Some(vec![
            TaskScan {
                dir_name: "77".to_string(),
                comm: Some("curl\n".to_string()),
                fd_targets: vec!["/dev/null".to_string()],
            },
            TaskScan {
                dir_name: "78".to_string(),
                comm: Some("worker\n".to_string()),
                fd_targets: vec!["socket:[4711]".to_string(), "pipe:[9]".to_string()],
            },
        ]),
        fd_targets: Vec::new(),
    }
}

fn sockets() -> HashMap<u64, SocketEntry> {
    let mut map = HashMap::new();
    let local = SocketAddr { ip: v4(10, 0, 2, 15), port: 50000 };
    let remote = SocketAddr { ip: v4(8, 8, 4, 4), port: 443 };
    map.insert(4711, socket(4711, local, remote));
    map
}

fn flow() -> FlowKey {
    FlowKey {
        src_ip: v4(10, 0, 2, 15),
        dst_ip: v4(8, 8, 4, 4),
        src_port: 50000,
        dst_port: 443,
        protocol: Protocol::Tcp,
    }
}

#[test]
fn diag_request_has_the_documented_layout() {
    let request = build_inet_diag_request(ByteOrder::Little, 2, 6);
    assert_eq!(request.len(), 72);
    assert_eq!(&request[0..4], &72u32.to_le_bytes());
    assert_eq!(&request[4..6], &20u16.to_le_bytes());
    assert_eq!(&request[6..8], &0x0301u16.to_le_bytes());
    assert_eq!(&request[8..12], &1u32.to_le_bytes());
    assert_eq!(request[16], 2);
    assert_eq!(request[17], 6);
    assert_eq!(&request[20..24], &[0xff; 4]);
    assert!(request[24..].iter().all(|b| *b == 0));
    let big = build_inet_diag_request(ByteOrder::Big, 10, 17);
    assert_eq!(&big[0..4], &72u32.to_be_bytes());
    assert_eq!(big[16], 10);
    assert_eq!(big[17], 17);
}

#[test]
fn diag_messages_become_sockets() {
    let mut datagram = diag_message(4711, 1000);
    datagram.extend_from_slice(&diag_message(4712, 0));
    let mut found = HashMap::new();
    let done =
        parse_response_messages(ByteOrder::Little, &datagram, Protocol::Tcp, &mut found).unwrap();
    assert!(!done);
    assert_eq!(found.len(), 2);
    let entry = &found[&4711];
    assert_eq!(entry.inode, 4711);
    assert_eq!(entry.local_addr, SocketAddr { ip: v4(10, 0, 2, 15), port: 50000 });
    assert_eq!(entry.remote_addr, SocketAddr { ip: v4(8, 8, 4, 4), port: 443 });
    assert_eq!(entry.state, "ESTABLISHED");
    assert_eq!(entry.uid, 1000);
    assert_eq!(entry.protocol, Protocol::Tcp);
}

#[test]
fn nothing_after_the_end_is_read() {
    let mut datagram = diag_message(4711, 1000);
    datagram.extend_from_slice(&done_message());
    datagram.extend_from_slice(&diag_message(1, 1));
    let mut found = HashMap::new();
    let done =
        parse_response_messages(ByteOrder::Little, &datagram, Protocol::Udp, &mut found).unwrap();
    assert!(done);
    assert_eq!(found.len(), 1);
    assert_eq!(found[&4711].protocol, Protocol::Udp);
}

#[test]
fn bad_datagrams_are_errors() {
    let mut found = HashMap::new();
    let mut zero = diag_message(1, 1);
    zero[0] = 0;
    assert!(matches!(
        parse_response_messages(ByteOrder::Little, &zero, Protocol::Tcp, &mut found),
        Err(NetlinkError::ParseError)
    ));
    let short = diag_message(1, 1);
    assert!(matches!(
        parse_response_messages(ByteOrder::Little, &short[..80], Protocol::Tcp, &mut found),
        Err(NetlinkError::ParseError)
    ));
    assert!(matches!(
        parse_response_messages(ByteOrder::Little, &error_message(-13), Protocol::Tcp, &mut found),
        Err(NetlinkError::KernelError(13))
    ));
    assert!(found.is_empty());
}

#[test]
fn a_query_asks_for_four_tables() {
    let mut query = SocketQuery::new(ByteOrder::Little);
    let mut asked = Vec::new();
    for table in 0..4 {
        let request = query.request();
        asked.push((request[16], request[17]));
        let mut first = diag_message(100 + table, 0);
        assert!(matches!(query.receive(&first), Ok(QueryProgress::Receive)));
        first = done_message();
        let progress = query.receive(&first).unwrap();
        if table < 3 {
            assert_eq!(progress, QueryProgress::SendNext);
        } else {
            assert_eq!(progress, QueryProgress::Complete);
        }
    }
    assert_eq!(asked, vec![(2, 6), (2, 17), (10, 6), (10, 17)]);
    let table = query.into_sockets();
    assert_eq!(table.len(), 4);
    let found = table.into_sockets();
    assert_eq!(found[&100].protocol, Protocol::Tcp);
    assert_eq!(found[&103].protocol, Protocol::Udp);
    for (inode, entry) in &found {
        assert_eq!(*inode, entry.inode);
    }
}

#[test]
fn an_empty_datagram_ends_a_query() {
    let mut query = SocketQuery::new(ByteOrder::Little);
    assert!(matches!(query.receive(&[]), Err(NetlinkError::ParseError)));
}

#[test]
fn messages_are_aligned_to_four_bytes() {
    assert_eq!(nlmsg_align(16), 16);
    assert_eq!(nlmsg_align(17), 20);
    assert_eq!(nlmsg_align(20), 20);
}

#[test]
fn tcp_states_are_named() {
    let names = [
        "UNKNOWN", "ESTABLISHED", "SYN_SENT", "SYN_RECV", "FIN_WAIT1", "FIN_WAIT2", "TIME_WAIT",
        "CLOSE", "CLOSE_WAIT", "LAST_ACK", "LISTEN", "CLOSING", "UNKNOWN",
    ];
    for (state, name) in names.iter().enumerate() {
        assert_eq!(tcp_state_to_str(state as u8), *name);
        let hex = format!("{state:02X}");
        assert_eq!(parse_tcp_state(&chars_of(&hex), Protocol::Tcp), *name);
    }
    assert_eq!(parse_tcp_state(&chars_of("01"), Protocol::Udp), "UNCONN");
    assert_eq!(parse_tcp_state(&chars_of("zz"), Protocol::Tcp), "UNKNOWN");
    assert_eq!(parse_tcp_state(&chars_of("100"), Protocol::Tcp), "UNKNOWN");
}

#[test]
fn proc_addresses_are_little_endian_words() {
    assert_eq!(
        parse_proc_socket_addr(&chars_of("0F02000A:1F90"), true),
        Some(SocketAddr { ip: v4(10, 0, 2, 15), port: 8080 })
    );
    assert_eq!(
        parse_proc_socket_addr(&chars_of("B80D0120000000000000000001000000:0035"), false),
        Some(SocketAddr {
            ip: IpAddr::V6(0x2001_0db8_0000_0000_0000_0000_0000_0001),
            port: 53
        })
    );
    for bad in ["0F02000A", "0F02000:1F90", "0F02000A:", "0F02000A:10000", "xxxxxxxx:0001", ""] {
        assert_eq!(parse_proc_socket_addr(&chars_of(bad), true), None);
    }
    assert_eq!(parse_proc_socket_addr(&chars_of("0F02000A:1F90"), false), None);
}

fn tcp_row() -> String {
    "   0: 0F02000A:C350 04040808:01BB 01 00000000:00000000 00:00000000 00000000  1000        0 4711 1 0 100 0 0 10 0\n"
        .to_string()
}

#[test]
fn proc_rows_become_sockets() {
    let row = tcp_row();
    let entry = parse_proc_row(&chars_of(row.trim_end()), Protocol::Tcp, true).unwrap();
    assert_eq!(entry.inode, 4711);
    assert_eq!(entry.local_addr, SocketAddr { ip: v4(10, 0, 2, 15), port: 50000 });
    assert_eq!(entry.remote_addr, SocketAddr { ip: v4(8, 8, 4, 4), port: 443 });
    assert_eq!(entry.state, "ESTABLISHED");
    assert_eq!(entry.uid, 0);
}

#[test]
fn the_four_tables_are_read_in_order() {
    let heading = || Ok(HEADING.to_string());
    let files = ProcNetFiles {
        tcp: Ok(format!("{HEADING}{}", tcp_row())),
        tcp6: heading(),
        udp: heading(),
        udp6: Ok(String::new()),
    };
    let found = read_proc_net(&files).unwrap();
    assert_eq!(found.len(), 1);
    assert_eq!(found[&4711].inode, 4711);

    let files = ProcNetFiles {
        tcp: heading(),
        tcp6: Err("No such file".to_string()),
        udp: Err("other".to_string()),
        udp6: heading(),
    };
    let error = read_proc_net(&files).unwrap_err();
    assert!(matches!(error, FallbackError::FileOpen { .. }));
    assert_eq!(error.message(), "could not open /proc/net/tcp6: No such file");

    let files = ProcNetFiles {
        tcp: Ok(format!("{HEADING}{}too short\n", tcp_row())),
        tcp6: heading(),
        udp: heading(),
        udp6: heading(),
    };
    let error = read_proc_net(&files).unwrap_err();
    assert!(matches!(error, FallbackError::ParseLine { .. }));
    assert_eq!(error.message(), "could not parse line in /proc/net/tcp: \"too short\"");
}

#[test]
fn socket_links_give_inodes() {
    assert_eq!(parse_socket_inode("socket:[4711]"), Some(4711));
    for n in [0u64, 1, u64::MAX] {
        assert_eq!(parse_socket_inode(&format!("socket:[{n}]")), Some(n));
    }
    for bad in ["socket:[]", "socket:[4711", "pipe:[4711]", "socket:4711]", "socket:[x]", "", "]"] {
        assert_eq!(parse_socket_inode(bad), None);
    }
}

#[test]
fn status_texts_give_effective_user_ids() {
    assert_eq!(read_process_effective_uid("Name:\tx\nUid:\t1000\t1001\t1002\t1003\n"), Some(1001));
    assert_eq!(read_process_effective_uid("Uid:\t5\nUid: 1 2\n"), Some(2));
    assert_eq!(read_process_effective_uid("Uid:\t5\tx\nUid: 1 2\n"), None);
    assert_eq!(read_process_effective_uid("Gid:\t1 2\n"), None);
    assert_eq!(read_comm("  bash \n"), "bash");
    assert_eq!(parse_dir_id("4294967295"), Some(u32::MAX));
    assert_eq!(parse_dir_id("self"), None);
}

#[test]
fn threads_hold_sockets() {
    let mut no_tasks = curl_process();
    no_tasks.dir_name = "90".to_string();
    no_tasks.tasks = None;
    no_tasks.fd_targets = vec!["socket:[5]".to_string()];
    let mut nameless = curl_process();
    nameless.dir_name = "91".to_string();
    nameless.comm = None;
    let mut quiet_task = curl_process();
    quiet_task.dir_name = "92".to_string();
    quiet_task.tasks = Some(vec![
        TaskScan {
            dir_name: "93".to_string(),
            comm: None,
            fd_targets: vec!["socket:[6]".to_string()],
        },
        TaskScan {
            dir_name: "oops".to_string(),
            comm: None,
            fd_targets: vec!["socket:[7]".to_string()],
        },
    ]);
    let map = build_inode_pid_map(&vec![curl_process(), no_tasks, nameless, quiet_task]);
    assert_eq!(map.len(), 3);
    assert_eq!(map[&4711].pid, 77);
    assert_eq!(map[&4711].tid, 78);
    assert_eq!(map[&4711].process_name, "curl");
    assert_eq!(map[&4711].thread_name, "worker");
    assert_eq!(map[&4711].uid, 1000);
    assert_eq!((map[&5].pid, map[&5].tid), (90, 90));
    assert_eq!(map[&5].thread_name, "curl");
    assert_eq!(map[&6].thread_name, "curl");
}

#[test]
fn users_come_from_the_password_file() {
    let users = load_uid_map(&passwd().unwrap());
    assert_eq!(users.len(), 2);
    assert_eq!(users[&0], "root");
    assert_eq!(users[&1000], "alice");
}

#[test]
fn sockets_join_with_holders_and_users() {
    let mut all = sockets();
    let addr = SocketAddr { ip: v4(1, 1, 1, 1), port: 1 };
    all.insert(9, socket(9, addr, addr));
    let held = build_inode_pid_map(&vec![curl_process()]);
    let users = load_uid_map(&passwd().unwrap());
    let owners = build_inode_process_map(&all, &held, &users);
    assert_eq!(owners.len(), 2);
    assert_eq!(owners[&4711].name, "curl");
    assert_eq!(owners[&4711].thread_name, "worker");
    assert_eq!(owners[&4711].username, "alice");
    assert_eq!(owners[&9].pid, 0);
    assert_eq!(owners[&9].name, "[unknown]");
    assert_eq!(owners[&9].username, "[unknown]");
    let rows = build_connections(&all, &held, &users);
    assert_eq!(rows.len(), 2);
    let known = rows.iter().find(|row| row.inode == 4711).unwrap();
    assert_eq!((known.pid, known.tid, known.uid), (77, 78, 1000));
    let unknown = rows.iter().find(|row| row.inode == 9).unwrap();
    assert_eq!(unknown.process, "[unknown]");
    assert_eq!(unknown.uid, 1000);
    assert_eq!(unknown.username, "alice");
}

fn socket_table() -> SocketTable {
    let mut table = SocketTable::new();
    for (_, socket) in sockets() {
        table.insert(socket);
    }
    table
}

fn curl_scan() -> Scan {
    Scan { source: SocketSource::Netlink(socket_table()), processes: vec![curl_process()] }
}

fn empty_scan() -> Scan {
    Scan { source: SocketSource::Netlink(SocketTable::new()), processes: Vec::new() }
}

#[test]
fn a_cache_is_stale_until_its_first_scan() {
    let now = 100 * SECOND;
    let mut cache = ResolverCache::new(&passwd(), now).unwrap();
    assert!(cache.needs_refresh(now));
    assert!(cache.resolve_flow_owner(&flow(), None, now).is_none());
    assert!(cache.lookup(4711).is_none());
    cache
        .refresh_if_needed(curl_scan(), now)
        .unwrap();
    assert!(!cache.needs_refresh(now));
    assert!(!cache.needs_refresh(now + SECOND - 1));
    assert!(cache.needs_refresh(now + SECOND));
    assert_eq!(cache.lookup(4711).unwrap().pid, 77);
    // A fresh cache ignores another scan.
    cache
        .refresh_if_needed(empty_scan(), now + 1)
        .unwrap();
    assert_eq!(cache.list_connections(None, now).len(), 1);
    cache
        .refresh(empty_scan(), now + 2)
        .unwrap();
    assert!(cache.list_connections(None, now).is_empty());
}

#[test]
fn flows_are_resolved_in_both_directions() {
    let now = 10 * SECOND;
    let mut resolver = Resolver::new(&passwd(), now).unwrap();
    assert!(resolver.needs_refresh(now));
    resolver
        .refresh_if_needed(curl_scan(), now)
        .unwrap();
    let owner = resolver.resolve_flow_owner(&flow(), None, now).unwrap();
    assert_eq!((owner.pid, owner.tid), (77, 78));
    let mut answer = flow();
    answer.src_ip = flow().dst_ip;
    answer.dst_ip = flow().src_ip;
    answer.src_port = 443;
    answer.dst_port = 50000;
    assert_eq!(resolver.resolve_flow_owner(&answer, None, now).unwrap().pid, 77);
    let mut other = flow();
    other.protocol = Protocol::Udp;
    assert!(resolver.resolve_flow_owner(&other, None, now).is_none());
    other = flow();
    other.dst_port = 444;
    assert!(resolver.resolve_flow_owner(&other, None, now).is_none());
    assert_eq!(resolver.process_by_pid(77, None, now).unwrap().name, "curl");
    assert!(resolver.process_by_pid(78, None, now).is_none());
    assert_eq!(resolver.list_connections(None, now).len(), 1);
}

#[test]
fn a_failed_scan_leaves_the_cache_alone() {
    let now = 10 * SECOND;
    let mut resolver = Resolver::new(&passwd(), now).unwrap();
    resolver
        .refresh_if_needed(curl_scan(), now)
        .unwrap();
    let files = ProcNetFiles {
        tcp: Err("denied".to_string()),
        tcp6: Ok(String::new()),
        udp: Ok(String::new()),
        udp6: Ok(String::new()),
    };
    let later = now + 2 * SECOND;
    let error = resolver
        .refresh_if_needed(Scan { source: SocketSource::ProcNet(files), processes: Vec::new() }, later)
        .unwrap_err();
    assert_eq!(
        error.message(),
        "fallback resolver error: could not open /proc/net/tcp: denied"
    );
    assert!(resolver.needs_refresh(later));
    assert_eq!(resolver.list_connections(None, now).len(), 1);
}

#[test]
fn answers_bring_a_stale_cache_up_to_date() {
    let now = 10 * SECOND;
    let mut resolver = Resolver::new(&passwd(), now).unwrap();
    let owner = resolver.resolve_flow_owner(&flow(), Some(curl_scan()), now);
    assert_eq!(owner.unwrap().pid, 77);
    let soon = now + SECOND - 1;
    assert_eq!(resolver.list_connections(Some(empty_scan()), soon).len(), 1);
    assert!(resolver.process_by_pid(77, Some(empty_scan()), soon).is_some());
    let later = now + SECOND;
    assert_eq!(resolver.list_connections(None, later).len(), 1);
    assert!(resolver.list_connections(Some(empty_scan()), later).is_empty());
    assert!(resolver.process_by_pid(77, None, later).is_none());
    let again = later + SECOND;
    assert!(resolver.process_by_pid(77, Some(curl_scan()), again).is_some());
}

#[test]
fn text_tables_are_read_only_without_an_answer() {
    match choose_source(Ok(socket_table())) {
        SourceChoice::Use(SocketSource::Netlink(table)) => assert_eq!(table.len(), sockets().len()),
        other => panic!("unexpected choice {other:?}"),
    }
    match choose_source(Err(NetlinkError::KernelError(13))) {
        SourceChoice::ReadTables(NetlinkError::KernelError(errno)) => assert_eq!(errno, 13),
        other => panic!("unexpected choice {other:?}"),
    }
}

#[test]
fn missing_password_files_are_io_errors() {
    let error = Resolver::new(&Err("No such file".to_string()), 10 * SECOND).unwrap_err();
    assert!(matches!(error, ResolverError::Io(_)));
    assert_eq!(error.message(), "io error: No such file");
    assert_eq!(
        resolver_failure_status(&error),
        "Resolver initialization failed: io error: No such file"
    );
}

#[test]
fn single_scans_resolve_and_list() {
    let now = 6 * SECOND;
    let owner = resolve(
        &passwd(),
        curl_scan(),
        now,
        &flow(),
    );
    assert_eq!(owner.unwrap().thread_name, "worker");
    let none = resolve(
        &Err("x".to_string()),
        curl_scan(),
        now,
        &flow(),
    );
    assert!(none.is_none());
    let rows = scan_connections_for_pid(
        &passwd(),
        curl_scan(),
        now,
        77,
    );
    assert_eq!(rows.len(), 1);
    let rows = scan_connections_for_pid(
        &passwd(),
        curl_scan(),
        now,
        1,
    );
    assert!(rows.is_empty());
}

#[test]
fn netlink_errors_have_messages() {
    let cause = || "denied".to_string();
    let message = |error: NetlinkError| error.message();
    assert_eq!(message(NetlinkError::SocketOpen(cause())), "failed to open Netlink socket: denied");
    assert_eq!(message(NetlinkError::SendFailed(cause())), "failed to send Netlink request: denied");
    assert_eq!(
        message(NetlinkError::RecvFailed(cause())),
        "failed to receive Netlink response: denied"
    );
    for errno in [13, 0, -5, i32::MIN] {
        assert_eq!(
            message(NetlinkError::KernelError(errno)),
            format!("kernel returned a Netlink error message (errno {errno})")
        );
    }
    assert_eq!(message(NetlinkError::ParseError), "could not parse Netlink response message");
}
