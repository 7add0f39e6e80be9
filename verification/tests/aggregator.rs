use std::collections::HashSet;

use netmon::aggregator::account::{
    lookup_process_from_connections, update_connection_stats, Account, TimedRecord,
};
use netmon::aggregator::export::{
    export_lines, forty_second_avg, history_path, sanitize_csv, ten_second_avg, two_second_avg,
    write_csv_line, HistoryCsvRow, CSV_COLUMNS, CSV_HEADER,
};
use netmon::aggregator::{
    aggregator_join_result, push_sample, ConnectionKey, ConnectionStats, InterfaceStats, ThreadKey,
    ThreadStats, HISTORY_SLOTS,
};
use netmon::capture::control::JoinOutcome;
use netmon::capture::{Direction, FlowKey, FlowRecord, Protocol};
use netmon::net::{IpAddr, SocketAddr};
use netmon::resolver::pid_map::{ProcessScan, TaskScan};
use netmon::resolver::{
    ProcessInfo, ResolvedConnection, Resolver, Scan, SocketEntry, SocketSource, SocketTable,
};
use netmon::table::Table;

const SECOND: u64 = 1_000_000_000;
const START: u64 = 100 * SECOND;

fn host() -> SocketAddr {
    SocketAddr { ip: IpAddr::V4(0x0a00_020f), port: 50000 }
}

fn peer() -> SocketAddr {
    SocketAddr { ip: IpAddr::V4(0x0808_0404), port: 443 }
}

fn record(bytes: u32, direction: Direction) -> FlowRecord {
    let (src, dst) = match direction {
        Direction::Tx => (host(), peer()),
        Direction::Rx => (peer(), host()),
    };
    FlowRecord {
        key: FlowKey {
            src_ip: src.ip,
            dst_ip: dst.ip,
            src_port: src.port,
            dst_port: dst.port,
            protocol: Protocol::Tcp,
        },
        byte_count: bytes,
        timestamp: START,
        direction,
    }
}

fn info(pid: u32, tid: u32) -> ProcessInfo {
    ProcessInfo {
        pid,
        tid,
        name: "curl".to_string(),
        thread_name: "worker".to_string(),
        uid: 1000,
        username: "alice".to_string(),
    }
}

fn empty_resolver() -> Resolver {
    Resolver::new(&Ok(vec!["alice:x:1000:".to_string()]), START).unwrap()
}

fn socket(inode: u64, local: SocketAddr, remote: SocketAddr) -> SocketEntry {
    SocketEntry {
        inode,
        local_addr: local,
        remote_addr: remote,
        state: "ESTABLISHED".to_string(),
        uid: 1000,
        protocol: Protocol::Tcp,
    }
}

fn task(tid: u32, inodes: &[u64]) -> TaskScan {
    TaskScan {
        dir_name: tid.to_string(),
        comm: Some("worker\n".to_string()),
        fd_targets: inodes.iter().map(|inode| format!("socket:[{inode}]")).collect(),
    }
}

fn scan(sockets: Vec<SocketEntry>, pid: u32, name: &str, tasks: Vec<TaskScan>) -> Scan {
    let process = ProcessScan {
        dir_name: pid.to_string(),
        comm: Some(format!("{name}\n")),
        status: Some("Uid:\t1000\t1000\t1000\t1000\n".to_string()),
        tasks: Some(tasks),
        fd_targets: Vec::new(),
    };
    let mut table = SocketTable::new();
    for socket in sockets {
        table.insert(socket);
    }
    Scan {
        source: SocketSource::Netlink(table),
        processes: vec![process],
    }
}

fn curl_scan() -> Scan {
    scan(vec![socket(4711, host(), peer())], 77, "curl", vec![task(77, &[4711])])
}

fn curl_resolver() -> Resolver {
    let mut resolver = empty_resolver();
    resolver.refresh_if_needed(curl_scan(), START).unwrap();
    resolver
}

fn connection(pid: u32, tid: u32, local: SocketAddr, remote: SocketAddr) -> ResolvedConnection {
    ResolvedConnection {
        local_addr: local,
        remote_addr: remote,
        protocol: Protocol::Tcp,
        state: "ESTABLISHED".to_string(),
        inode: 1,
        pid,
        tid,
        process: "listed".to_string(),
        thread_name: "listed-thread".to_string(),
        uid: 5,
        username: "bob".to_string(),
    }
}

#[test]
fn interface_stats_start_at_zero() {
    let stats = InterfaceStats::default();
    assert_eq!(stats.tx_bytes_total, 0);
    assert_eq!(stats.peak_bandwidth_bytes_per_sec, 0);
    assert!(stats.tx_history.iter().all(|sample| *sample == 0));
    assert_eq!(stats.rx_history.len(), 40);
    assert_eq!(stats.tx_history, [0; 40]);
}

#[test]
fn samples_move_back_by_one() {
    let mut history = [0u64; HISTORY_SLOTS];
    push_sample(&mut history, 7);
    push_sample(&mut history, 8);
    assert_eq!(&history[..4], &[8, 7, 0, 0]);
    let mut full = [0u64; HISTORY_SLOTS];
    full[HISTORY_SLOTS - 1] = 9;
    push_sample(&mut full, 1);
    assert_eq!(full[HISTORY_SLOTS - 1], 0);
    let mut stats = ThreadStats::new(info(1, 1), 5);
    stats.tx_current_second = 3;
    stats.rx_current_second = 4;
    stats.rotate_second();
    assert_eq!((stats.tx_history[0], stats.rx_history[0]), (3, 4));
    assert_eq!((stats.tx_current_second, stats.rx_current_second), (0, 0));
    assert_eq!(stats.last_seen, 5);
}

#[test]
fn averages_round_down() {
    let mut history = [0u64; HISTORY_SLOTS];
    history[0] = 10;
    history[1] = 5;
    history[9] = 100;
    history[39] = 85;
    assert_eq!(two_second_avg(&history), 7);
    assert_eq!(ten_second_avg(&history), 11);
    assert_eq!(forty_second_avg(&history), 5);
    let full = [u64::MAX; HISTORY_SLOTS];
    assert_eq!(two_second_avg(&full), u64::MAX);
    assert_eq!(ten_second_avg(&full), u64::MAX);
    assert_eq!(forty_second_avg(&full), u64::MAX);
}

#[test]
fn packets_count_once() {
    let mut account = Account::new(START);
    account.count_packet(&record(100, Direction::Tx), info(77, 78), START + 1);
    account.count_packet(&record(40, Direction::Rx), info(77, 78), START + 2);
    account.count_packet(&record(7, Direction::Tx), info(9, 9), START + 3);
    let rows = account.rows(&HashSet::new());
    assert_eq!(rows.len(), 2);
    assert_eq!((rows[0].info.pid, rows[0].tx_bytes, rows[0].rx_bytes), (9, 7, 0));
    assert_eq!((rows[1].info.pid, rows[1].tx_bytes, rows[1].rx_bytes), (77, 100, 40));
    assert_eq!(rows[1].last_seen, START + 2);
    let stats = account.interface_stats();
    assert_eq!((stats.tx_bytes_total, stats.rx_bytes_total), (107, 40));
    assert_eq!(stats.current_bandwidth_bytes_per_sec, 0);
}

#[test]
fn rows_are_ordered_and_marked_as_blocked() {
    let mut account = Account::new(START);
    for (pid, tid) in [(30, 31), (5, 9), (30, 30), (5, 5)] {
        account.count_packet(&record(1, Direction::Tx), info(pid, tid), START);
    }
    let blocked: HashSet<u32> = [30].into_iter().collect();
    let rows = account.rows(&blocked);
    let keys: Vec<(u32, u32)> = rows.iter().map(|row| (row.info.pid, row.info.tid)).collect();
    assert_eq!(keys, vec![(5, 5), (5, 9), (30, 30), (30, 31)]);
    let flags: Vec<bool> = rows.iter().map(|row| row.is_blocked).collect();
    assert_eq!(flags, vec![false, false, true, true]);
}

#[test]
fn owners_come_from_the_resolver_then_the_list_then_nobody() {
    let mut account = Account::new(START);
    account.process_record(&record(10, Direction::Tx), &mut empty_resolver(), None, START);
    let rows = account.rows(&HashSet::new());
    assert_eq!(rows[0].info.name, "[unknown]");
    assert_eq!((rows[0].info.pid, rows[0].info.tid), (0, 0));

    assert!(account.connection_cache_due(START));
    let listed = scan(vec![socket(1, host(), peer())], 3, "listed", vec![task(4, &[1])]);
    account.refresh_connection_cache_if_due(&mut empty_resolver(), Some(listed), START);
    assert!(!account.connection_cache_due(START));
    account.refresh_connection_cache_if_due(&mut empty_resolver(), None, START + 1);
    account.process_record(&record(10, Direction::Tx), &mut empty_resolver(), None, START);
    let rows = account.rows(&HashSet::new());
    assert_eq!(rows[1].info.name, "listed");
    assert_eq!(rows[1].info.username, "alice");

    account.process_record(&record(10, Direction::Rx), &mut curl_resolver(), None, START);
    let rows = account.rows(&HashSet::new());
    assert_eq!(rows[2].info.name, "curl");
    assert_eq!(rows[2].rx_bytes, 10);
    assert!(account.connection_cache_due(START + 800_000_000));
}

#[test]
fn stale_resolvers_are_brought_up_to_date_first() {
    let mut account = Account::new(START);
    let mut resolver = empty_resolver();
    account.process_record(&record(10, Direction::Tx), &mut resolver, Some(curl_scan()), START);
    assert!(!resolver.needs_refresh(START));
    assert_eq!(account.rows(&HashSet::new())[0].info.name, "curl");

    // A scan that comes too early is not taken in.
    let nothing = || scan(Vec::new(), 1, "init", Vec::new());
    account.mark_exited_threads(&mut resolver, Some(nothing()), START + SECOND - 1);
    assert_eq!(account.rows(&HashSet::new())[0].info.name, "curl");
    account.mark_exited_threads(&mut resolver, Some(nothing()), START + SECOND);
    assert_eq!(account.rows(&HashSet::new())[0].info.name, "curl [exited]");
    assert!(!resolver.needs_refresh(START + SECOND));

    // Without a process to ask for, the resolver is left alone.
    let mut idle = Account::new(START);
    let mut fresh = empty_resolver();
    idle.mark_exited_threads(&mut fresh, Some(nothing()), START);
    assert!(fresh.needs_refresh(START));
}

#[test]
fn the_first_listed_connection_wins() {
    let list = vec![
        connection(1, 1, peer(), peer()),
        connection(2, 2, peer(), host()),
        connection(3, 3, host(), peer()),
    ];
    let owner = lookup_process_from_connections(&record(1, Direction::Tx).key, &list).unwrap();
    assert_eq!(owner.pid, 2);
    assert_eq!(owner.thread_name, "listed-thread");
    let none = lookup_process_from_connections(&record(1, Direction::Tx).key, &Vec::new());
    assert!(none.is_none());
}

#[test]
fn connections_show_their_bytes() {
    let mut account = Account::new(START);
    account.count_packet(&record(100, Direction::Tx), info(77, 78), START);
    account.count_packet(&record(40, Direction::Rx), info(77, 78), START);
    let sockets = vec![
        socket(1, host(), peer()),
        socket(2, peer(), host()),
        socket(3, peer(), peer()),
        socket(4, host(), peer()),
    ];
    let tasks = vec![task(78, &[1, 2, 3]), task(79, &[4])];
    let listing = scan(sockets, 77, "curl", tasks);
    account.refresh_connection_cache_if_due(&mut empty_resolver(), Some(listing), START);
    let rows = account.rows(&HashSet::new());
    assert_eq!(rows.len(), 1);
    assert_eq!(rows[0].connections.len(), 3);
    for shown in &rows[0].connections {
        let expected = match (shown.local_addr == host(), shown.remote_addr == host()) {
            (true, _) => (100, 40),
            (false, true) => (40, 100),
            (false, false) => (0, 0),
        };
        assert_eq!((shown.tx_bytes, shown.rx_bytes), expected);
    }
}

#[test]
fn both_directions_share_one_connection() {
    let mut account = Account::new(START);
    let sent = record(100, Direction::Tx);
    let mut received = record(40, Direction::Rx);
    received.key.src_ip = sent.key.dst_ip;
    received.key.dst_ip = sent.key.src_ip;
    received.key.src_port = sent.key.dst_port;
    received.key.dst_port = sent.key.src_port;
    account.count_packet(&received, info(77, 78), START);
    account.count_packet(&sent, info(77, 78), START + 1);
    let table = account.connection_table();
    assert_eq!(table.len(), 1);
    let key = table.key_at(0);
    assert_eq!((key.local_addr.ip, key.local_addr.port), (sent.key.src_ip, sent.key.src_port));
    assert_eq!((key.remote_addr.ip, key.remote_addr.port), (sent.key.dst_ip, sent.key.dst_port));
    assert_eq!((table.value_at(0).tx_bytes, table.value_at(0).rx_bytes), (100, 40));
}

#[test]
fn connection_counts_follow_the_given_direction() {
    let mut table: Table<ConnectionKey, ConnectionStats> = Table::new();
    let sent = record(1, Direction::Tx);
    let mut received = sent;
    received.key.src_ip = sent.key.dst_ip;
    received.key.dst_ip = sent.key.src_ip;
    received.key.src_port = sent.key.dst_port;
    received.key.dst_port = sent.key.src_port;
    update_connection_stats(&mut table, &sent, &info(7, 8), 30, true, START);
    update_connection_stats(&mut table, &received, &info(7, 8), 12, false, START + 1);
    assert_eq!(table.len(), 1);
    let stats = table.value_at(0);
    assert_eq!((stats.tx_bytes, stats.rx_bytes, stats.last_seen), (30, 12, START + 1));
    update_connection_stats(&mut table, &sent, &info(7, 9), u64::MAX, true, START);
    assert_eq!(table.len(), 2);
}

#[test]
fn exited_processes_are_marked_once() {
    let mut account = Account::new(START);
    account.count_packet(&record(1, Direction::Tx), info(77, 77), START);
    account.count_packet(&record(1, Direction::Tx), info(5, 5), START);
    account.count_packet(&record(1, Direction::Tx), ProcessInfo::unknown(), START);
    let mut resolver = curl_resolver();
    account.mark_exited_threads(&mut resolver, None, START);
    account.mark_exited_threads(&mut resolver, None, START);
    let names: Vec<String> =
        account.rows(&HashSet::new()).iter().map(|row| row.info.name.clone()).collect();
    assert_eq!(names, vec!["[unknown]", "curl [exited]", "curl"]);
}

#[test]
fn idle_threads_and_their_connections_are_dropped() {
    let mut account = Account::new(START);
    account.count_packet(&record(1, Direction::Tx), info(1, 1), START);
    account.count_packet(&record(1, Direction::Tx), info(2, 2), START + 5 * SECOND);
    account.evict_stale_threads(START + 30 * SECOND);
    assert_eq!(account.thread_count(), 2);
    account.evict_stale_threads(START + 30 * SECOND + 1);
    assert_eq!(account.thread_count(), 1);
    assert_eq!(account.thread_at(0).0, ThreadKey { pid: 2, tid: 2 });
    assert_eq!(account.connection_table().len(), 2);
    account.prune_connection_stats(START + 30 * SECOND + 1);
    assert_eq!(account.connection_table().len(), 1);
    account.prune_connection_stats(START + 36 * SECOND);
    assert_eq!(account.connection_table().len(), 0);
}

#[test]
fn histories_rotate_once_a_second() {
    let mut account = Account::new(START);
    account.count_packet(&record(300, Direction::Tx), info(1, 1), START);
    account.count_packet(&record(200, Direction::Rx), info(1, 1), START);
    assert!(!account.rotate_histories_if_due(START + SECOND - 1));
    assert!(account.rotate_histories_if_due(START + SECOND));
    assert!(!account.rotate_histories_if_due(START + SECOND));
    let stats = account.interface_stats();
    assert_eq!((stats.tx_history[0], stats.rx_history[0]), (300, 200));
    assert_eq!(stats.current_bandwidth_bytes_per_sec, 500);
    assert_eq!(stats.peak_bandwidth_bytes_per_sec, 500);
    assert!(account.rotate_histories_if_due(START + 2 * SECOND));
    let stats = account.interface_stats();
    assert_eq!(stats.current_bandwidth_bytes_per_sec, 0);
    assert_eq!(stats.peak_bandwidth_bytes_per_sec, 500);
    let rows = account.rows(&HashSet::new());
    assert_eq!(&rows[0].tx_history[..3], &[0, 300, 0]);
}

#[test]
fn a_cycle_runs_all_steps() {
    let mut account = Account::new(START);
    account.count_packet(&record(1, Direction::Tx), info(5, 5), START);
    let now = START + 31 * SECOND;
    let packets = vec![
        TimedRecord { record: record(100, Direction::Tx), now },
        TimedRecord { record: record(50, Direction::Rx), now },
    ];
    let mut resolver = empty_resolver();
    assert!(account.run_cycle(&packets, &mut resolver, Some(curl_scan()), now));
    assert!(!resolver.needs_refresh(now));
    let rows = account.rows(&HashSet::new());
    assert_eq!(rows.len(), 1);
    assert_eq!(rows[0].info.name, "curl");
    assert_eq!((rows[0].tx_history[0], rows[0].rx_history[0]), (100, 50));
    assert_eq!(rows[0].connections.len(), 1);
    assert_eq!(rows[0].connections[0].tx_bytes, 100);
    let stats = account.interface_stats();
    assert_eq!((stats.tx_bytes_total, stats.rx_bytes_total), (101, 50));
    assert!(!account.finish_cycle(&mut resolver, None, now + 1));
}

fn csv_row() -> HistoryCsvRow {
    HistoryCsvRow {
        timestamp: 1700000000,
        pid: 77,
        tid: 78,
        process: "cu,rl".to_string(),
        thread: "\"w\"".to_string(),
        user: "alice".to_string(),
        uid: 1000,
        tx_bytes_total: 1,
        rx_bytes_total: 2,
        tx_2s_avg: 3,
        rx_2s_avg: 4,
        tx_10s_avg: 5,
        rx_10s_avg: 6,
    }
}

#[test]
fn history_rows_become_lines() {
    let mut account = Account::new(START);
    account.count_packet(&record(100, Direction::Tx), info(77, 78), START);
    account.rotate_histories_if_due(START + SECOND);
    let rows = account.history_rows(1700000000);
    assert_eq!(rows.len(), 1);
    assert_eq!(rows[0].tx_2s_avg, 50);
    assert_eq!(rows[0].tx_10s_avg, 10);
    assert_eq!(
        write_csv_line(&rows[0]),
        "1700000000,77,78,curl,worker,alice,1000,100,0,50,0,10,0\n"
    );
}

#[test]
fn csv_lines_have_one_column_per_heading() {
    let line = write_csv_line(&csv_row());
    assert_eq!(line, "1700000000,77,78,cu rl,'w',alice,1000,1,2,3,4,5,6\n");
    assert_eq!(line.trim_end().split(',').count(), CSV_COLUMNS);
    assert_eq!(CSV_HEADER.trim_end().split(',').count(), CSV_COLUMNS);
    assert_eq!(sanitize_csv("a,b\"c"), "a b'c");
}

#[test]
fn exported_lines_are_ordered() {
    let mut rows = Vec::new();
    for (timestamp, pid, tid) in [(2, 1, 1), (1, 9, 9), (1, 9, 8), (1, 2, 5)] {
        let mut row = csv_row();
        row.timestamp = timestamp;
        row.pid = pid;
        row.tid = tid;
        rows.push(row);
    }
    let starts: Vec<String> = export_lines(&rows)
        .iter()
        .map(|line| line.split(',').take(3).collect::<Vec<_>>().join(","))
        .collect();
    assert_eq!(starts, vec!["1,2,5", "1,9,8", "1,9,9", "2,1,1"]);
}

#[test]
fn history_files_stand_in_the_home_directory() {
    assert_eq!(
        history_path(&Some("/home/alice".to_string()), 7),
        "/home/alice/netmon_history_7.csv"
    );
    assert_eq!(history_path(&None, 7), "/tmp/netmon_history_7.csv");
}

#[test]
fn waiting_for_the_thread_can_fail() {
    assert_eq!(aggregator_join_result(JoinOutcome::Finished), Ok(()));
    assert_eq!(aggregator_join_result(JoinOutcome::Panicked), Err("aggregator thread panicked"));
    assert_eq!(
        aggregator_join_result(JoinOutcome::TimedOut),
        Err("aggregator thread join timed out")
    );
}

#[test]
fn tables_hold_each_key_once() {
    let mut table: Table<ThreadKey, u64> = Table::new();
    let key = |tid: u32| ThreadKey { pid: 1, tid };
    for tid in 0..4 {
        table.insert_new(key(tid), u64::from(tid) * 10);
    }
    assert_eq!(table.len(), 4);
    assert_eq!(table.find(&key(2)), Some(2));
    *table.value_mut(2) = 99;
    assert_eq!(table.get(&key(2)), Some(&99));
    assert_eq!(table.remove_at(1), 10);
    assert!(!table.contains_key(&key(1)));
    assert_eq!(table.get(&key(1)), None);
    assert_eq!(table.key_at(1), key(2));
    assert_eq!(*table.value_at(2), 30);
}
