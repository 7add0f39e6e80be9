use std::collections::HashSet;

use netmon::aggregator::export::HistoryCsvRow;
use netmon::aggregator::{
    ConnectionEntry, InterfaceStats, ProcessRow, ThreadKey, HISTORY_SLOTS,
};
use netmon::capture::Protocol;
use netmon::net::{IpAddr, SocketAddr};
use netmon::resolver::ProcessInfo;
use netmon::ui::actions::{
    block_question, csv_document, csv_export_path, csv_export_status, filter_error_status,
    filter_request, limit_bandwidth, limit_status, note_block, note_unblock, parse_rate,
    pcap_export_path, pcap_export_status, pcap_refusal, recording_path, write_failure,
    CaptureState, CsvOutcome, FilterRequest, PendingBlock, UserBlock,
};
use netmon::ui::figures::{
    format_bandwidth, format_bytes_or_bits, format_protocol, protocol_mix_summary,
};
use netmon::ui::host::{detect_virtualbox, has_required_capabilities, is_virtualbox, may_run};
use netmon::ui::rows::{
    chart_histories, chart_window, collect_visible_connections, column_heading, connection_cells,
    connection_headings, find_row, interface_summary, owner_label, process_cells, process_columns,
    row_traffic, selected_label, sorted_rows, toggle_selection, SortColumn, SortState, Traffic,
    CHART_HISTORY_SECONDS, DEFAULT_CHART_WINDOW_SECONDS,
};

fn entry(pid: u32, protocol: Protocol) -> ConnectionEntry {
    let addr = SocketAddr { ip: IpAddr::V4(0x7f00_0001), port: 80 };
    ConnectionEntry {
        local_addr: addr,
        remote_addr: addr,
        protocol,
        state: "LISTEN".to_string(),
        pid,
        tid: pid + 1,
        process: "p".to_string(),
        thread_name: "t".to_string(),
        username: "alice".to_string(),
        tx_bytes: 12,
        rx_bytes: 34,
    }
}

fn row(pid: u32, tid: u32, name: &str, username: &str) -> ProcessRow {
    ProcessRow {
        info: ProcessInfo {
            pid,
            tid,
            name: name.to_string(),
            thread_name: format!("{name}-thread"),
            uid: 1000,
            username: username.to_string(),
        },
        tx_bytes: 0,
        rx_bytes: 0,
        last_seen: 0,
        tx_history: [0; HISTORY_SLOTS],
        rx_history: [0; HISTORY_SLOTS],
        is_blocked: false,
        connections: Vec::new(),
    }
}

fn pids(rows: &[ProcessRow]) -> Vec<u32> {
    rows.iter().map(|row| row.info.pid).collect()
}

fn plain_bandwidth(value: u64) -> String {
    if value < 1024 {
        return format!("{value} B/s");
    }
    if value < 1024 * 1024 {
        return format!("{:.1} KB/s", value as f64 / 1024.0);
    }
    format!("{:.1} MB/s", value as f64 / (1024.0 * 1024.0))
}

fn plain_amount(value: u64, bits: bool) -> String {
    let units = if bits {
        ["b", "Kb", "Mb", "Gb", "Tb"]
    } else {
        ["B", "KB", "MB", "GB", "TB"]
    };
    let mut scaled = value as f64 * if bits { 8.0 } else { 1.0 };
    let mut unit = 0;
    while scaled >= 1024.0 && unit < 4 {
        scaled /= 1024.0;
        unit += 1;
    }
    format!("{scaled:.2} {}", units[unit])
}

fn samples() -> Vec<u64> {
    let mut values = vec![0, 1, 7, 127, 128, 1023, 1024, 1025, 1075, 1076, 1177, 1280, 1331, 1536];
    for shift in 10..64 {
        let power = 1u64 << shift;
        values.extend_from_slice(&[power - 1, power, power + 1, power + power / 2]);
        values.push(power + power / 8);
        values.push(power + power / 20);
        values.push(power + power / 32 + 1);
    }
    values.extend_from_slice(&[u64::MAX, u64::MAX - 1, u64::MAX - 1023, u64::MAX - 1024]);
    values.extend_from_slice(&[9007199254740993, 9007199254740995, 123456789012345678]);
    values
}

#[test]
fn bandwidths_match_double_precision() {
    for value in samples() {
        assert_eq!(format_bandwidth(value), plain_bandwidth(value), "{value}");
    }
    assert_eq!(format_bandwidth(1023), "1023 B/s");
    assert_eq!(format_bandwidth(1536), "1.5 KB/s");
    assert_eq!(format_bandwidth(1048575), "1024.0 KB/s");
    assert_eq!(format_bandwidth(10 * 1024 * 1024), "10.0 MB/s");
}

#[test]
fn amounts_match_double_precision() {
    for value in samples() {
        for bits in [false, true] {
            assert_eq!(format_bytes_or_bits(value, bits), plain_amount(value, bits), "{value}");
        }
    }
    assert_eq!(format_bytes_or_bits(0, false), "0.00 B");
    assert_eq!(format_bytes_or_bits(1536, false), "1.50 KB");
    assert_eq!(format_bytes_or_bits(1536, true), "12.00 Kb");
    assert_eq!(format_bytes_or_bits(u64::MAX, false), "16777216.00 TB");
}

#[test]
fn protocols_are_named_and_counted() {
    assert_eq!(format_protocol(Protocol::Tcp), "TCP");
    assert_eq!(format_protocol(Protocol::Udp), "UDP");
    assert_eq!(format_protocol(Protocol::Other(1)), "OTHER");
    let mut shown = row(1, 1, "a", "alice");
    assert_eq!(protocol_mix_summary(&shown), "T:0 U:0 O:0");
    for protocol in [Protocol::Tcp, Protocol::Udp, Protocol::Tcp, Protocol::Other(2)] {
        shown.connections.push(entry(1, protocol));
    }
    assert_eq!(protocol_mix_summary(&shown), "T:2 U:1 O:1");
}

#[test]
fn clicking_a_heading_turns_the_direction() {
    let mut state = SortState::new();
    assert_eq!((state.column, state.ascending), (SortColumn::Pid, true));
    state.set_sort(SortColumn::Pid);
    assert_eq!((state.column, state.ascending), (SortColumn::Pid, false));
    state.set_sort(SortColumn::TxRate);
    assert_eq!((state.column, state.ascending), (SortColumn::TxRate, true));
    state.set_sort(SortColumn::TxRate);
    assert!(!state.ascending);
}

#[test]
fn rows_are_sorted_by_every_column() {
    let mut a = row(1, 30, "bash", "root");
    a.tx_bytes = 5;
    a.rx_bytes = 1;
    a.tx_history[0] = 8;
    a.connections.push(entry(1, Protocol::Udp));
    let mut b = row(2, 20, "apt", "alice");
    b.tx_bytes = 9;
    b.rx_bytes = 0;
    b.rx_history[1] = 6;
    b.tx_history[4] = 90;
    b.tx_history[10] = 500;
    b.connections.push(entry(2, Protocol::Tcp));
    let mut c = row(3, 10, "curl", "bob");
    c.rx_bytes = 7;
    c.tx_history[9] = 200;
    c.rx_history[2] = 50;
    let rows = vec![a, b, c];
    let by = |column: SortColumn, ascending: bool| {
        pids(&sorted_rows(rows.clone(), SortState { column, ascending }))
    };
    assert_eq!(by(SortColumn::Pid, true), vec![1, 2, 3]);
    assert_eq!(by(SortColumn::Pid, false), vec![3, 2, 1]);
    assert_eq!(by(SortColumn::Tid, true), vec![3, 2, 1]);
    assert_eq!(by(SortColumn::Process, true), vec![2, 1, 3]);
    assert_eq!(by(SortColumn::Thread, false), vec![3, 1, 2]);
    assert_eq!(by(SortColumn::User, true), vec![2, 3, 1]);
    assert_eq!(by(SortColumn::ProtocolMix, true), vec![3, 1, 2]);
    assert_eq!(by(SortColumn::TxRate, true), vec![2, 3, 1]);
    assert_eq!(by(SortColumn::TxRate, false), vec![1, 2, 3]);
    assert_eq!(by(SortColumn::RxRate, false), vec![2, 1, 3]);
    assert_eq!(by(SortColumn::TxSteadyRate, true), vec![1, 2, 3]);
    assert_eq!(by(SortColumn::TxSteadyRate, false), vec![3, 2, 1]);
    assert_eq!(by(SortColumn::RxSteadyRate, false), vec![3, 1, 2]);
    assert_eq!(by(SortColumn::TxTotal, true), vec![3, 1, 2]);
    assert_eq!(by(SortColumn::RxTotal, false), vec![3, 1, 2]);
}

#[test]
fn traffic_has_two_thresholds() {
    let mut shown = row(1, 1, "a", "alice");
    assert_eq!(row_traffic(&shown), Traffic::Normal);
    shown.tx_history[0] = 2 * 1024 * 1024;
    assert_eq!(row_traffic(&shown), Traffic::Normal);
    shown.tx_history[0] += 2;
    assert_eq!(row_traffic(&shown), Traffic::High);
    shown.rx_history[1] = 20 * 1024 * 1024 + 2;
    assert_eq!(row_traffic(&shown), Traffic::VeryHigh);
}

#[test]
fn clicking_a_thread_twice_lifts_the_selection() {
    let key = ThreadKey { pid: 1, tid: 2 };
    let other = ThreadKey { pid: 1, tid: 3 };
    assert_eq!(toggle_selection(None, key), Some(key));
    assert_eq!(toggle_selection(Some(key), key), None);
    assert_eq!(toggle_selection(Some(other), key), Some(key));
}

#[test]
fn charts_show_the_selection_or_everything() {
    let mut a = row(1, 1, "a", "x");
    a.tx_history[0] = 5;
    a.rx_history[7] = u64::MAX;
    let mut b = row(2, 2, "b", "x");
    b.tx_history[0] = 6;
    b.rx_history[7] = 1;
    let rows = vec![a, b];
    let (tx, rx) = chart_histories(&rows, None);
    assert_eq!((tx[0], tx[1], rx[7]), (11, 0, u64::MAX));
    let (tx, rx) = chart_histories(&rows, Some(ThreadKey { pid: 2, tid: 2 }));
    assert_eq!((tx[0], rx[7]), (6, 1));
    let (tx, rx) = chart_histories(&rows, Some(ThreadKey { pid: 2, tid: 1 }));
    assert!(tx.iter().chain(rx.iter()).all(|sample| *sample == 0));
    assert_eq!(find_row(&rows, ThreadKey { pid: 2, tid: 2 }), Some(1));
    assert_eq!(find_row(&rows, ThreadKey { pid: 3, tid: 2 }), None);
    assert_eq!(chart_window(0), 1);
    assert_eq!(chart_window(30), 30);
    assert_eq!(chart_window(41), 40);
    assert_eq!(CHART_HISTORY_SECONDS, HISTORY_SLOTS);
    assert_eq!(DEFAULT_CHART_WINDOW_SECONDS, 40);
}

#[test]
fn a_selection_hides_other_connections() {
    let mut a = row(1, 1, "a", "x");
    a.is_blocked = true;
    a.connections = vec![entry(1, Protocol::Tcp), entry(1, Protocol::Udp)];
    let mut b = row(2, 2, "b", "x");
    b.connections = vec![entry(2, Protocol::Tcp)];
    let rows = vec![a, b];
    let all = collect_visible_connections(&rows, None);
    let flags: Vec<(bool, u32)> = all.iter().map(|(blocked, c)| (*blocked, c.pid)).collect();
    assert_eq!(flags, vec![(true, 1), (true, 1), (false, 2)]);
    let own = collect_visible_connections(&rows, Some(ThreadKey { pid: 2, tid: 2 }));
    assert_eq!(own.len(), 1);
    assert_eq!(own[0].1.pid, 2);
    assert!(collect_visible_connections(&rows, Some(ThreadKey { pid: 9, tid: 9 })).is_empty());
}

#[test]
fn cells_stand_under_their_headings() {
    let headings: Vec<&str> = process_columns().into_iter().map(column_heading).collect();
    assert_eq!(
        headings,
        vec![
            "PID", "Process", "User", "Proto Mix", "TX/s (2s)", "RX/s (2s)", "TX/s (10s)",
            "RX/s (10s)", "TX Total", "RX Total", "TID", "Thread"
        ]
    );
    let mut shown = row(77, 78, "curl", "alice");
    shown.tx_history[0] = 4096;
    shown.tx_history[9] = 16384;
    shown.tx_history[10] = 99;
    shown.rx_history[5] = 70;
    shown.rx_bytes = 2048;
    assert_eq!(
        process_cells(&shown, false),
        vec![
            "77", "curl", "alice", "T:0 U:0 O:0", "2.0 KB/s", "0 B/s", "2.0 KB/s", "7 B/s",
            "0.00 B", "2.00 KB", "78", "curl-thread"
        ]
    );
    let cells = connection_cells(&entry(5, Protocol::Udp), "127.0.0.1:80", "[::1]:81");
    assert_eq!(
        cells,
        vec!["5", "6", "t", "p", "alice", "127.0.0.1:80", "[::1]:81", "UDP", "LISTEN", "12", "34"]
    );
    assert_eq!(connection_headings().len(), cells.len());
    assert_eq!(connection_headings()[10], "RX");
}

#[test]
fn labels_name_the_selected_thread() {
    let shown = row(77, 78, "curl", "alice");
    assert_eq!(
        selected_label(&shown),
        "Selected thread: curl / curl-thread (PID 77, TID 78, user alice)"
    );
    assert_eq!(owner_label(&shown), "Process: curl (PID 77) | User: alice");
}

#[test]
fn the_summary_shows_totals_and_the_filter() {
    let mut stats = InterfaceStats::default();
    stats.tx_bytes_total = 1024;
    stats.current_bandwidth_bytes_per_sec = 10;
    stats.peak_bandwidth_bytes_per_sec = 2048;
    assert_eq!(
        interface_summary(&stats, false, ""),
        vec![
            "TX Total: 1.00 KB",
            "RX Total: 0.00 B",
            "Current BW: 10 B/s/s",
            "Peak BW: 2.0 KB/s/s"
        ]
    );
    assert_eq!(interface_summary(&stats, true, "tcp")[4], "Active Filter: tcp");
    assert_eq!(interface_summary(&stats, true, "tcp")[0], "TX Total: 8.00 Kb");
}

#[test]
fn captures_start_and_stop() {
    let mut state = CaptureState::new();
    let devices = vec!["eth0".to_string(), "lo".to_string()];
    assert_eq!(state.stop(), None);
    assert_eq!(state.start_target(&devices, 1), Some("lo".to_string()));
    assert_eq!(state.start_target(&devices, 2), None);
    assert_eq!(state.start_target(&Vec::new(), 0), None);
    let status = state.started("lo", "/tmp/a.pcap".to_string(), &Some("no permission".to_string()));
    assert_eq!(status, "Failed to start capture on lo: no permission");
    assert!(!state.is_capturing);
    assert_eq!(state.recording, None);
    let status = state.started("lo", "/tmp/a.pcap".to_string(), &None);
    assert_eq!(status, "Capturing on lo...");
    assert!(state.is_capturing);
    assert_eq!(state.recording.as_deref(), Some("/tmp/a.pcap"));
    assert_eq!(state.start_target(&devices, 0), None);
    assert_eq!(state.stop(), Some("Capture stopped"));
    assert!(!state.is_capturing);
}

#[test]
fn refused_filters_leave_the_last_one_active() {
    let mut state = CaptureState::new();
    state.started("lo", "x".to_string(), &None);
    assert!(!state.take_message("Filter applied: tcp port 80"));
    assert_eq!(state.active_filter, "tcp port 80");
    assert!(!state.take_message("BPF error: syntax error"));
    assert_eq!(state.active_filter, "tcp port 80");
    assert!(state.is_capturing);
    assert!(state.take_message("Capture stopped: interface went down."));
    assert!(!state.is_capturing);
    assert_eq!(state.active_filter, "tcp port 80");
}

#[test]
fn filters_need_a_capture_and_an_expression() {
    match filter_request(true, "  tcp  ") {
        FilterRequest::Apply(expression) => assert_eq!(expression, "tcp"),
        other => panic!("unexpected request {other:?}"),
    }
    match filter_request(true, " \t") {
        FilterRequest::Refuse(reason) => {
            assert_eq!(reason, "Enter a BPF expression before applying it")
        }
        other => panic!("unexpected request {other:?}"),
    }
    match filter_request(false, "tcp") {
        FilterRequest::Refuse(reason) => {
            assert_eq!(reason, "Cannot apply BPF: capture is not running")
        }
        other => panic!("unexpected request {other:?}"),
    }
    assert_eq!(filter_error_status("closed"), "BPF error: closed");
}

#[test]
fn blocks_are_noted() {
    let mut blocked = HashSet::new();
    assert_eq!(note_block(&mut blocked, 7, "curl", &Ok(())), "Blocked curl (PID 7)");
    assert!(blocked.contains(&7));
    assert_eq!(
        note_block(&mut blocked, 8, "x", &Err("no".to_string())),
        "Block failed for PID 8: no"
    );
    assert!(!blocked.contains(&8));
    assert_eq!(
        note_unblock(&mut blocked, 7, &Err("no".to_string())),
        "Unblock failed for PID 7: no"
    );
    assert!(blocked.contains(&7));
    assert_eq!(note_unblock(&mut blocked, 7, &Ok(())), "Unblocked PID 7");
    assert!(blocked.is_empty());
    assert_eq!(
        block_question(7, "curl"),
        "Block all traffic for curl (PID 7)? This will insert an nftables rule. Confirm?"
    );
}

#[test]
fn blocks_wait_for_confirmation() {
    let mut block = PendingBlock::new();
    assert_eq!(block.question(), None);
    assert_eq!(block.confirm(), None);
    block.ask(7, "curl");
    block.ask(8, "wget");
    assert_eq!(block.question(), Some(block_question(8, "wget")));
    assert_eq!(block.confirm(), Some((8, "wget".to_string())));
    assert_eq!(block.question(), None);
    assert_eq!(block.confirm(), None);
    block.ask(7, "curl");
    block.cancel();
    assert_eq!(block.confirm(), None);
}

#[test]
fn a_user_is_blocked_process_by_process() {
    let rows = vec![
        row(1, 1, "a", "alice"),
        row(2, 2, "b", "bob"),
        row(1, 5, "a2", "alice"),
        row(3, 3, "c", "alice"),
    ];
    let mut blocked = HashSet::new();
    let mut block = UserBlock::new(&rows, "alice");
    assert_eq!(block.next_process(), Some((1, "a".to_string())));
    block.note_attempt(&Ok(()), &mut blocked);
    assert_eq!(block.next_process(), Some((3, "c".to_string())));
    block.note_attempt(&Ok(()), &mut blocked);
    assert_eq!(block.next_process(), None);
    assert_eq!(block.status(), "Blocked user alice: a (PID 1), c (PID 3)");
    assert_eq!(blocked.len(), 2);

    let mut mixed = UserBlock::new(&rows, "alice");
    mixed.note_attempt(&Err("x".to_string()), &mut blocked);
    mixed.note_attempt(&Ok(()), &mut blocked);
    assert_eq!(mixed.status(), "Blocked user alice with errors: PID 1: x");

    let mut failed = UserBlock::new(&rows, "alice");
    failed.note_attempt(&Err("x".to_string()), &mut blocked);
    failed.note_attempt(&Err("y".to_string()), &mut blocked);
    assert_eq!(failed.status(), "Failed to block user alice: PID 1: x; PID 3: y");

    let nobody = UserBlock::new(&rows, "carol");
    assert_eq!(nobody.next_process(), None);
    assert_eq!(nobody.status(), "No active processes found for user carol");
}

#[test]
fn rates_must_be_positive_numbers() {
    assert_eq!(parse_rate(" 1024 "), Some(1024));
    assert_eq!(parse_rate("0"), None);
    assert_eq!(parse_rate("-1"), None);
    assert_eq!(parse_rate("4294967296"), None);
    assert_eq!(
        limit_bandwidth(7, "curl", "1024"),
        "Rate limit failed for PID 7: rate limiting is not implemented yet"
    );
    assert_eq!(
        limit_bandwidth(7, "curl", "fast"),
        "Enter a positive kbit/s value before limiting bandwidth"
    );
    assert_eq!(
        limit_status(7, "curl", 64, &Ok(())),
        "Rate-limited curl (PID 7) to 64 kbit/s"
    );
}

#[test]
fn exports_say_how_they_ended() {
    let status = |outcome: CsvOutcome| csv_export_status(&outcome, "/h/f.csv");
    assert_eq!(status(CsvOutcome::NoHistory), "No session history captured yet");
    assert_eq!(status(CsvOutcome::CreateFailed("full".to_string())), "CSV export failed: full");
    assert_eq!(status(write_failure(0)), "CSV export failed while writing header");
    assert_eq!(status(write_failure(3)), "CSV export failed while writing rows");
    assert_eq!(status(CsvOutcome::Written), "Exported CSV to /h/f.csv");
    assert_eq!(pcap_refusal(true, true), None);
    assert_eq!(
        pcap_refusal(false, true),
        Some("PCAP export unavailable: start capture first")
    );
    assert_eq!(
        pcap_refusal(true, false),
        Some("PCAP export unavailable: no recording file yet")
    );
    assert_eq!(pcap_export_status(&None, "/h/f.pcap"), "Exported PCAP to /h/f.pcap");
    assert_eq!(
        pcap_export_status(&Some("full".to_string()), "x"),
        "PCAP export failed: full"
    );
    let home = Some("/h".to_string());
    assert_eq!(recording_path(&home, 9), "/h/netmon_capture_9.pcap");
    assert_eq!(csv_export_path(&home, 9), "/h/netmon_export_9.csv");
    assert_eq!(pcap_export_path(&None, 9), "/tmp/netmon_export_9.pcap");
}

#[test]
fn exported_histories_begin_with_the_heading() {
    assert!(csv_document(&Vec::new()).is_none());
    let line = |timestamp: u64| HistoryCsvRow {
        timestamp,
        pid: 1,
        tid: 2,
        process: "p".to_string(),
        thread: "t".to_string(),
        user: "u".to_string(),
        uid: 3,
        tx_bytes_total: 4,
        rx_bytes_total: 5,
        tx_2s_avg: 6,
        rx_2s_avg: 7,
        tx_10s_avg: 8,
        rx_10s_avg: 9,
    };
    let document = csv_document(&vec![line(20), line(10)]).unwrap();
    assert_eq!(
        document,
        vec![
            "timestamp,pid,tid,process,thread,user,uid,tx_bytes_total,rx_bytes_total,tx_2s_avg,rx_2s_avg,tx_10s_avg,rx_10s_avg\n",
            "10,1,2,p,t,u,3,4,5,6,7,8,9\n",
            "20,1,2,p,t,u,3,4,5,6,7,8,9\n"
        ]
    );
}

#[test]
fn virtual_machines_are_detected_in_any_case() {
    assert!(detect_virtualbox(&Some("My-VBox-host\n".to_string()), &None));
    assert!(detect_virtualbox(&None, &Some("VirtualBox\n".to_string())));
    assert!(!detect_virtualbox(&Some("laptop".to_string()), &Some("ThinkPad".to_string())));
    assert!(!detect_virtualbox(&None, &None));
    assert!(!is_virtualbox("VBOX", "VirtualBox"));
    assert!(is_virtualbox("vbox", ""));
}

#[test]
fn capabilities_are_read_from_the_status() {
    let status = |hex: &str| Some(format!("Name:\tx\nCapEff:\t{hex}\n"));
    assert!(has_required_capabilities(&status("0000000000003000")));
    assert!(!has_required_capabilities(&status("0000000000001000")));
    assert!(!has_required_capabilities(&status("0000000000002000")));
    assert!(has_required_capabilities(&status("000001ffffffffff")));
    assert!(!has_required_capabilities(&status("zz")));
    assert!(!has_required_capabilities(&Some("CapEff:\n".to_string())));
    assert!(!has_required_capabilities(&Some("CapPrm:\t3000\n".to_string())));
    assert!(!has_required_capabilities(&None));
    assert!(may_run(true, &None));
    assert!(!may_run(false, &None));
    assert!(may_run(false, &status("3000")));
}
