//! Traffic accounting: byte counters and per-second histories by thread, by
//! connection and for the interface as a whole.

pub mod account;
pub mod export;
pub mod laws;
pub mod snapshot;

use vstd::prelude::*;

use crate::capture::control::JoinOutcome;
use crate::capture::Protocol;
use crate::net::SocketAddr;
use crate::resolver::{ProcessInfo, ProcessInfoView};
use crate::table::TableKey;

verus! {

/// Number of per-second samples kept for charts and rolling averages.
pub const HISTORY_SLOTS: usize = 40;

/// How long a receive from the flow channel waits, in nanoseconds.
pub const CHANNEL_RECV_TIMEOUT: u64 = 100_000_000;

/// Time between two refreshes of the connection list, in nanoseconds.
pub const RESOLVER_SCAN_INTERVAL: u64 = 800_000_000;

/// Pause at the end of each cycle, in nanoseconds.
pub const LOOP_SLEEP_INTERVAL: u64 = 10_000_000;

/// How long a thread or connection may be idle before it is dropped, in
/// nanoseconds.
pub const PROCESS_EVICTION_TIMEOUT: u64 = 30_000_000_000;

/// Length of one history sample, in nanoseconds.
pub const ROTATION_PERIOD: u64 = 1_000_000_000;

/// How far back a new account dates its last refresh of the connection list,
/// in nanoseconds.
pub const INITIAL_SCAN_AGE: u64 = 1_000_000_000;

/// Mark behind the name of a process that is gone.
pub const EXITED_MARK: &'static str = " [exited]";

/// Identifies a thread.
#[derive(Clone, Copy, Debug, PartialEq, Eq, Hash, Structural)]
pub struct ThreadKey {
    pub pid: u32,
    pub tid: u32,
}

impl TableKey for ThreadKey {
    fn same(&self, other: &Self) -> (same: bool) {
        *self == *other
    }
}

/// Identifies a connection of a thread.
#[derive(Clone, Copy, Debug, PartialEq, Eq, Hash, Structural)]
pub struct ConnectionKey {
    pub pid: u32,
    pub tid: u32,
    pub local_addr: SocketAddr,
    pub remote_addr: SocketAddr,
    pub protocol: Protocol,
}

impl TableKey for ConnectionKey {
    fn same(&self, other: &Self) -> (same: bool) {
        *self == *other
    }
}

/// Traffic of one connection.
#[derive(Clone, Copy, Debug)]
pub struct ConnectionStats {
    pub tx_bytes: u64,
    pub rx_bytes: u64,
    pub last_seen: u64,
}

/// Traffic of one thread.
#[derive(Debug)]
pub struct ThreadStats {
    pub info: ProcessInfo,
    pub tx_bytes_total: u64,
    pub rx_bytes_total: u64,
    pub last_seen: u64,
    pub tx_current_second: u64,
    pub rx_current_second: u64,
    pub tx_history: [u64; HISTORY_SLOTS],
    pub rx_history: [u64; HISTORY_SLOTS],
}

/// [`ThreadStats`] with texts as characters and histories as sequences, newest
/// sample first.
pub struct ThreadStatsView {
    pub info: ProcessInfoView,
    pub tx_bytes_total: u64,
    pub rx_bytes_total: u64,
    pub last_seen: u64,
    pub tx_current_second: u64,
    pub rx_current_second: u64,
    pub tx_history: Seq<u64>,
    pub rx_history: Seq<u64>,
}

impl View for ThreadStats {
    type V = ThreadStatsView;

    open spec fn view(&self) -> ThreadStatsView {
        ThreadStatsView {
            info: self.info@,
            tx_bytes_total: self.tx_bytes_total,
            rx_bytes_total: self.rx_bytes_total,
            last_seen: self.last_seen,
            tx_current_second: self.tx_current_second,
            rx_current_second: self.rx_current_second,
            tx_history: self.tx_history@,
            rx_history: self.rx_history@,
        }
    }
}

/// A history without traffic.
pub open spec fn quiet_history() -> Seq<u64> {
    Seq::new(HISTORY_SLOTS as nat, |i: int| 0u64)
}

/// A history after one more second: the newest sample first, the oldest gone.
pub open spec fn shifted(history: Seq<u64>, newest: u64) -> Seq<u64> {
    seq![newest] + history.drop_last()
}

/// Moves a history on by one second.
pub fn push_sample(history: &mut [u64; HISTORY_SLOTS], newest: u64)
    ensures
        final(history)@ == shifted(old(history)@, newest),
{
    let ghost before = history@;
    let mut idx: usize = HISTORY_SLOTS - 1;
    while idx > 0
        invariant
            idx < HISTORY_SLOTS,
            before.len() == HISTORY_SLOTS,
            history@.len() == HISTORY_SLOTS,
            forall|i: int| idx < i < HISTORY_SLOTS ==> #[trigger] history@[i] == before[i - 1],
            forall|i: int| 0 <= i <= idx ==> #[trigger] history@[i] == before[i],
        decreases idx,
    {
        history[idx] = history[idx - 1];
        idx -= 1;
    }
    history[0] = newest;
    assert(history@ =~= shifted(before, newest));
}

/// What is known of a thread before its first packet.
pub open spec fn new_thread(info: ProcessInfoView, now: u64) -> ThreadStatsView {
    ThreadStatsView {
        info,
        tx_bytes_total: 0,
        rx_bytes_total: 0,
        last_seen: now,
        tx_current_second: 0,
        rx_current_second: 0,
        tx_history: quiet_history(),
        rx_history: quiet_history(),
    }
}

/// A thread after one more second.
pub open spec fn thread_rotated(stats: ThreadStatsView) -> ThreadStatsView {
    ThreadStatsView {
        tx_current_second: 0,
        rx_current_second: 0,
        tx_history: shifted(stats.tx_history, stats.tx_current_second),
        rx_history: shifted(stats.rx_history, stats.rx_current_second),
        ..stats
    }
}

impl ThreadStats {
    /// Starts counting for a thread.
    pub fn new(info: ProcessInfo, now: u64) -> (stats: ThreadStats)
        ensures
            stats@ == new_thread(info@, now),
    {
        let stats = ThreadStats {
            info,
            tx_bytes_total: 0,
            rx_bytes_total: 0,
            last_seen: now,
            tx_current_second: 0,
            rx_current_second: 0,
            tx_history: [0;HISTORY_SLOTS],
            rx_history: [0;HISTORY_SLOTS],
        };
        assert(stats.tx_history@ =~= quiet_history());
        assert(stats.rx_history@ =~= quiet_history());
        stats
    }

    /// Moves the histories on by one second and starts the next one at zero.
    pub fn rotate_second(&mut self)
        ensures
            final(self)@ == thread_rotated(old(self)@),
    {
        push_sample(&mut self.tx_history, self.tx_current_second);
        push_sample(&mut self.rx_history, self.rx_current_second);
        self.tx_current_second = 0;
        self.rx_current_second = 0;
    }
}

/// One connection as it is shown.
#[derive(Clone, Debug)]
pub struct ConnectionEntry {
    pub local_addr: SocketAddr,
    pub remote_addr: SocketAddr,
    pub protocol: Protocol,
    pub state: String,
    pub pid: u32,
    pub tid: u32,
    pub process: String,
    pub thread_name: String,
    pub username: String,
    pub tx_bytes: u64,
    pub rx_bytes: u64,
}

/// A [`ConnectionEntry`] with its texts as characters.
pub struct ConnectionEntryView {
    pub local_addr: SocketAddr,
    pub remote_addr: SocketAddr,
    pub protocol: Protocol,
    pub state: Seq<char>,
    pub pid: u32,
    pub tid: u32,
    pub process: Seq<char>,
    pub thread_name: Seq<char>,
    pub username: Seq<char>,
    pub tx_bytes: u64,
    pub rx_bytes: u64,
}

impl View for ConnectionEntry {
    type V = ConnectionEntryView;

    open spec fn view(&self) -> ConnectionEntryView {
        ConnectionEntryView {
            local_addr: self.local_addr,
            remote_addr: self.remote_addr,
            protocol: self.protocol,
            state: self.state@,
            pid: self.pid,
            tid: self.tid,
            process: self.process@,
            thread_name: self.thread_name@,
            username: self.username@,
            tx_bytes: self.tx_bytes,
            rx_bytes: self.rx_bytes,
        }
    }
}

/// Connections with their texts as characters.
pub open spec fn entry_views(s: Seq<ConnectionEntry>) -> Seq<ConnectionEntryView> {
    s.map_values(|e: ConnectionEntry| e@)
}

/// One thread as it is shown.
#[derive(Clone, Debug)]
pub struct ProcessRow {
    pub info: ProcessInfo,
    pub tx_bytes: u64,
    pub rx_bytes: u64,
    pub last_seen: u64,
    pub tx_history: [u64; HISTORY_SLOTS],
    pub rx_history: [u64; HISTORY_SLOTS],
    pub is_blocked: bool,
    pub connections: Vec<ConnectionEntry>,
}

/// A [`ProcessRow`] with texts as characters and histories as sequences.
pub struct ProcessRowView {
    pub info: ProcessInfoView,
    pub tx_bytes: u64,
    pub rx_bytes: u64,
    pub last_seen: u64,
    pub tx_history: Seq<u64>,
    pub rx_history: Seq<u64>,
    pub is_blocked: bool,
    pub connections: Seq<ConnectionEntryView>,
}

impl View for ProcessRow {
    type V = ProcessRowView;

    open spec fn view(&self) -> ProcessRowView {
        ProcessRowView {
            info: self.info@,
            tx_bytes: self.tx_bytes,
            rx_bytes: self.rx_bytes,
            last_seen: self.last_seen,
            tx_history: self.tx_history@,
            rx_history: self.rx_history@,
            is_blocked: self.is_blocked,
            connections: entry_views(self.connections@),
        }
    }
}

/// Rows with texts as characters and histories as sequences.
pub open spec fn row_views(s: Seq<ProcessRow>) -> Seq<ProcessRowView> {
    s.map_values(|row: ProcessRow| row@)
}

/// Traffic of the whole interface.
#[derive(Clone, Debug)]
pub struct InterfaceStats {
    pub tx_bytes_total: u64,
    pub rx_bytes_total: u64,
    pub current_bandwidth_bytes_per_sec: u64,
    pub peak_bandwidth_bytes_per_sec: u64,
    pub tx_history: [u64; HISTORY_SLOTS],
    pub rx_history: [u64; HISTORY_SLOTS],
}

impl Default for InterfaceStats {
    fn default() -> (stats: InterfaceStats)
        ensures
            stats.tx_bytes_total == 0,
            stats.rx_bytes_total == 0,
            stats.current_bandwidth_bytes_per_sec == 0,
            stats.peak_bandwidth_bytes_per_sec == 0,
            stats.tx_history@ == quiet_history(),
            stats.rx_history@ == quiet_history(),
    {
        let stats = InterfaceStats {
            tx_bytes_total: 0,
            rx_bytes_total: 0,
            current_bandwidth_bytes_per_sec: 0,
            peak_bandwidth_bytes_per_sec: 0,
            tx_history: [0;HISTORY_SLOTS],
            rx_history: [0;HISTORY_SLOTS],
        };
        assert(stats.tx_history@ =~= quiet_history());
        assert(stats.rx_history@ =~= quiet_history());
        stats
    }
}

/// The result of waiting for the aggregator thread.
pub fn aggregator_join_result(outcome: JoinOutcome) -> (result: Result<(), &'static str>)
    ensures
        match (outcome, result) {
            (JoinOutcome::Finished, Ok(())) => true,
            (JoinOutcome::Panicked, Err(text)) => text@ == "aggregator thread panicked"@,
            (JoinOutcome::TimedOut, Err(text)) => text@ == "aggregator thread join timed out"@,
            _ => false,
        },
{
    match outcome {
        JoinOutcome::Finished => Ok(()),
        JoinOutcome::Panicked => Err("aggregator thread panicked"),
        JoinOutcome::TimedOut => Err("aggregator thread join timed out"),
    }
}

/// Moving a history on keeps its length and moves every sample back by one.
pub proof fn samples_move_back(history: Seq<u64>, newest: u64)
    requires
        history.len() > 0,
    ensures
        shifted(history, newest).len() == history.len(),
        shifted(history, newest)[0] == newest,
        forall|i: int|
            0 <= i < history.len() - 1 ==> shifted(history, newest)[i + 1] == #[trigger] history[i],
{
}

} // verus!
