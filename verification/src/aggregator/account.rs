//! The running account: what each packet, each second and each idle period do
//! to the counters.

use vstd::prelude::*;

use crate::aggregator;
use crate::aggregator::{
    ConnectionKey, ConnectionStats, ThreadKey, ThreadStats, ThreadStatsView, EXITED_MARK,
    HISTORY_SLOTS, INITIAL_SCAN_AGE, PROCESS_EVICTION_TIMEOUT, RESOLVER_SCAN_INTERVAL,
    ROTATION_PERIOD,
};
use crate::capture::{Direction, FlowKey, FlowRecord};
use crate::net::SocketAddr;
use crate::resolver;
use crate::resolver::{
    ProcessInfo, ProcessInfoView, ResolvedConnection, ResolvedConnectionView, Resolver,
    ResolverCache, Scan,
};
use crate::table::Table;
use crate::text;

verus! {

/// Counters of the whole interface.
#[derive(Debug)]
pub struct InterfaceCounters {
    pub tx_total: u64,
    pub rx_total: u64,
    pub tx_current_second: u64,
    pub rx_current_second: u64,
    pub tx_history: [u64; HISTORY_SLOTS],
    pub rx_history: [u64; HISTORY_SLOTS],
    pub peak_bandwidth: u64,
}

/// [`InterfaceCounters`] with histories as sequences.
pub struct InterfaceCountersView {
    pub tx_total: u64,
    pub rx_total: u64,
    pub tx_current_second: u64,
    pub rx_current_second: u64,
    pub tx_history: Seq<u64>,
    pub rx_history: Seq<u64>,
    pub peak_bandwidth: u64,
}

impl View for InterfaceCounters {
    type V = InterfaceCountersView;

    open spec fn view(&self) -> InterfaceCountersView {
        InterfaceCountersView {
            tx_total: self.tx_total,
            rx_total: self.rx_total,
            tx_current_second: self.tx_current_second,
            rx_current_second: self.rx_current_second,
            tx_history: self.tx_history@,
            rx_history: self.rx_history@,
            peak_bandwidth: self.peak_bandwidth,
        }
    }
}

/// The account of all traffic since the capture began.
#[derive(Debug)]
pub struct Account {
    threads: Table<ThreadKey, ThreadStats>,
    connections: Table<ConnectionKey, ConnectionStats>,
    cache: Vec<ResolvedConnection>,
    interface: InterfaceCounters,
    last_rotation: u64,
    last_proc_scan: u64,
}

/// An [`Account`] as a mathematical value.
#[verifier::ext_equal]
pub struct AccountView {
    /// Traffic by thread.
    pub threads: Map<ThreadKey, ThreadStatsView>,
    /// Traffic by connection.
    pub connections: Map<ConnectionKey, ConnectionStats>,
    /// The connections that were last listed.
    pub cache: Seq<ResolvedConnectionView>,
    /// Traffic of the interface.
    pub interface: InterfaceCountersView,
    /// Time of the last step of the histories.
    pub last_rotation: u64,
    /// Time when the connections were last listed.
    pub last_proc_scan: u64,
}

/// Thread statistics with their views.
pub open spec fn thread_views(m: Map<ThreadKey, ThreadStats>) -> Map<ThreadKey, ThreadStatsView> {
    m.map_values(|stats: ThreadStats| stats@)
}

impl View for Account {
    type V = AccountView;

    closed spec fn view(&self) -> AccountView {
        AccountView {
            threads: thread_views(self.threads@),
            connections: self.connections@,
            cache: resolver::connection_views(self.cache@),
            interface: self.interface@,
            last_rotation: self.last_rotation,
            last_proc_scan: self.last_proc_scan,
        }
    }
}

/// Every thread is filed under the ids that its info gives, its histories have
/// all their samples, and no second was busier than the recorded peak.
pub open spec fn account_sound(account: AccountView) -> bool {
    &&& forall|key: ThreadKey| #[trigger]
        account.threads.contains_key(key) ==> thread_sound(key, account.threads[key])
    &&& account.interface.tx_history.len() == HISTORY_SLOTS
    &&& account.interface.rx_history.len() == HISTORY_SLOTS
    &&& current_bandwidth(account.interface) <= account.interface.peak_bandwidth
}

/// A thread is filed under the ids that its info gives, and its histories have
/// all their samples.
pub open spec fn thread_sound(key: ThreadKey, stats: ThreadStatsView) -> bool {
    &&& stats.info.pid == key.pid
    &&& stats.info.tid == key.tid
    &&& stats.tx_history.len() == HISTORY_SLOTS
    &&& stats.rx_history.len() == HISTORY_SLOTS
}

/// Traffic in both directions during the last full second.
pub open spec fn current_bandwidth(interface: InterfaceCountersView) -> u64 {
    interface.tx_history[0].saturating_add(interface.rx_history[0])
}

/// `then` lies at most the eviction timeout before `now`.
pub open spec fn recent(then: u64, now: u64) -> bool {
    now - then <= PROCESS_EVICTION_TIMEOUT
}

// ---------------------------------------------------------------------------
// Packets
// ---------------------------------------------------------------------------

/// The local and the remote end of a packet of a flow.
pub open spec fn flow_ends(flow: FlowKey, sent: bool) -> (SocketAddr, SocketAddr) {
    let src = SocketAddr { ip: flow.src_ip, port: flow.src_port };
    let dst = SocketAddr { ip: flow.dst_ip, port: flow.dst_port };
    if sent {
        (src, dst)
    } else {
        (dst, src)
    }
}

/// The connection that a packet of a thread's flow belongs to.
pub open spec fn flow_connection(flow: FlowKey, key: ThreadKey, sent: bool) -> ConnectionKey {
    ConnectionKey {
        pid: key.pid,
        tid: key.tid,
        local_addr: flow_ends(flow, sent).0,
        remote_addr: flow_ends(flow, sent).1,
        protocol: flow.protocol,
    }
}

/// The connection that a packet of a thread belongs to.
pub open spec fn packet_connection(record: FlowRecord, key: ThreadKey) -> ConnectionKey {
    flow_connection(record.key, key, record.direction == Direction::Tx)
}

/// A thread after one of its packets.
pub open spec fn thread_credited(
    stats: ThreadStatsView,
    record: FlowRecord,
    info: ProcessInfoView,
    now: u64,
) -> ThreadStatsView {
    let bytes = record.byte_count as u64;
    let seen = ThreadStatsView { info, last_seen: now, ..stats };
    match record.direction {
        Direction::Tx => ThreadStatsView {
            tx_bytes_total: stats.tx_bytes_total.saturating_add(bytes),
            tx_current_second: stats.tx_current_second.saturating_add(bytes),
            ..seen
        },
        Direction::Rx => ThreadStatsView {
            rx_bytes_total: stats.rx_bytes_total.saturating_add(bytes),
            rx_current_second: stats.rx_current_second.saturating_add(bytes),
            ..seen
        },
    }
}

/// A connection after one of its packets.
pub open spec fn connection_credited(
    stats: ConnectionStats,
    bytes: u64,
    sent: bool,
    now: u64,
) -> ConnectionStats {
    if sent {
        ConnectionStats {
            tx_bytes: stats.tx_bytes.saturating_add(bytes),
            last_seen: now,
            ..stats
        }
    } else {
        ConnectionStats {
            rx_bytes: stats.rx_bytes.saturating_add(bytes),
            last_seen: now,
            ..stats
        }
    }
}

/// The connections after a packet of a thread's flow.
pub open spec fn connection_counted(
    connections: Map<ConnectionKey, ConnectionStats>,
    flow: FlowKey,
    key: ThreadKey,
    bytes: u64,
    sent: bool,
    now: u64,
) -> Map<ConnectionKey, ConnectionStats> {
    let entry = flow_connection(flow, key, sent);
    let before = if connections.contains_key(entry) {
        connections[entry]
    } else {
        ConnectionStats { tx_bytes: 0, rx_bytes: 0, last_seen: now }
    };
    connections.insert(entry, connection_credited(before, bytes, sent, now))
}

/// The interface after a packet.
pub open spec fn interface_credited(
    interface: InterfaceCountersView,
    record: FlowRecord,
) -> InterfaceCountersView {
    let bytes = record.byte_count as u64;
    match record.direction {
        Direction::Tx => InterfaceCountersView {
            tx_total: interface.tx_total.saturating_add(bytes),
            tx_current_second: interface.tx_current_second.saturating_add(bytes),
            ..interface
        },
        Direction::Rx => InterfaceCountersView {
            rx_total: interface.rx_total.saturating_add(bytes),
            rx_current_second: interface.rx_current_second.saturating_add(bytes),
            ..interface
        },
    }
}

/// The account after a packet that belongs to the given owner.
pub open spec fn packet_counted(
    account: AccountView,
    record: FlowRecord,
    info: ProcessInfoView,
    now: u64,
) -> AccountView {
    let key = ThreadKey { pid: info.pid, tid: info.tid };
    let thread = if account.threads.contains_key(key) {
        account.threads[key]
    } else {
        aggregator::new_thread(info, now)
    };
    AccountView {
        threads: account.threads.insert(key, thread_credited(thread, record, info, now)),
        connections: connection_counted(
            account.connections,
            record.key,
            key,
            record.byte_count as u64,
            record.direction == Direction::Tx,
            now,
        ),
        interface: interface_credited(account.interface, record),
        ..account
    }
}

/// The owner that a listed connection gives its traffic.
pub open spec fn connection_owner(connection: ResolvedConnectionView) -> ProcessInfoView {
    ProcessInfoView {
        pid: connection.pid,
        tid: connection.tid,
        name: connection.process,
        thread_name: connection.thread_name,
        uid: connection.uid,
        username: connection.username,
    }
}

/// The owner of a flow by the first listed connection that carries it.
pub open spec fn listed_owner(cache: Seq<ResolvedConnectionView>, flow: FlowKey) -> Option<
    ProcessInfoView,
>
    decreases cache.len(),
{
    if cache.len() == 0 {
        None
    } else if resolver::carries(
        cache[0].local_addr,
        cache[0].remote_addr,
        cache[0].protocol,
        flow,
    ) {
        Some(connection_owner(cache[0]))
    } else {
        listed_owner(cache.drop_first(), flow)
    }
}

/// The owner that a packet is counted for, given the resolver's answer: that
/// answer, or what the listed connections say, or nobody known.
pub open spec fn packet_owner(
    answer: Option<ProcessInfo>,
    cache: Seq<ResolvedConnectionView>,
    flow: FlowKey,
) -> ProcessInfoView {
    match answer {
        Some(info) => info@,
        None => match listed_owner(cache, flow) {
            Some(info) => info,
            None => resolver::unknown_process(),
        },
    }
}

/// A packet and the time when it is counted.
#[derive(Clone, Copy, Debug)]
pub struct TimedRecord {
    pub record: FlowRecord,
    pub now: u64,
}

/// `answers` holds what the resolver may answer for each of the packets.
pub open spec fn answers_packets(
    answers: Seq<Option<ProcessInfo>>,
    packets: Seq<TimedRecord>,
    cache: ResolverCache,
) -> bool {
    &&& answers.len() == packets.len()
    &&& forall|i: int|
        0 <= i < answers.len() ==> resolver::is_flow_owner(
            #[trigger] answers[i],
            cache.sockets(),
            cache.owners(),
            packets[i].record.key,
        )
}

/// The account after packets, each with the resolver's answer for it.
pub open spec fn packets_counted(
    account: AccountView,
    packets: Seq<TimedRecord>,
    answers: Seq<Option<ProcessInfo>>,
) -> AccountView
    decreases packets.len(),
{
    if packets.len() == 0 {
        account
    } else {
        let before = packets_counted(account, packets.drop_last(), answers.drop_last());
        let packet = packets.last();
        packet_counted(
            before,
            packet.record,
            packet_owner(answers.last(), before.cache, packet.record.key),
            packet.now,
        )
    }
}

/// Counting packets does not change when the histories last moved on.
proof fn lemma_counting_keeps_time(
    account: AccountView,
    packets: Seq<TimedRecord>,
    answers: Seq<Option<ProcessInfo>>,
)
    ensures
        packets_counted(account, packets, answers).last_rotation == account.last_rotation,
    decreases packets.len(),
{
    if packets.len() > 0 {
        lemma_counting_keeps_time(account, packets.drop_last(), answers.drop_last());
    }
}

/// Finds the owner of a flow among the listed connections.
pub fn lookup_process_from_connections(
    flow: &FlowKey,
    connection_cache: &Vec<ResolvedConnection>,
) -> (owner: Option<ProcessInfo>)
    ensures
        match owner {
            Some(info) => listed_owner(
                resolver::connection_views(connection_cache@),
                *flow,
            ) == Some(info@),
            None => listed_owner(resolver::connection_views(connection_cache@), *flow) is None,
        },
{
    let ghost cache = resolver::connection_views(connection_cache@);
    let mut i: usize = 0;
    assert(cache.skip(0) =~= cache);
    while i < connection_cache.len()
        invariant
            i <= connection_cache@.len(),
            cache == resolver::connection_views(connection_cache@),
            listed_owner(cache, *flow) == listed_owner(cache.skip(i as int), *flow),
        decreases connection_cache@.len() - i,
    {
        let connection = &connection_cache[i];
        assert(cache.skip(i as int)[0] == connection@);
        assert(cache.skip(i as int).drop_first() =~= cache.skip(i + 1));
        if resolver::carries_flow(
            &connection.local_addr,
            &connection.remote_addr,
            connection.protocol,
            flow,
        ) {
            return Some(
                ProcessInfo {
                    pid: connection.pid,
                    tid: connection.tid,
                    name: connection.process.clone(),
                    thread_name: connection.thread_name.clone(),
                    uid: connection.uid,
                    username: connection.username.clone(),
                },
            );
        }
        i += 1;
    }
    assert(cache.skip(cache.len() as int) =~= Seq::empty());
    None
}

/// Counts a packet for its connection.
pub fn update_connection_stats(
    connections: &mut Table<ConnectionKey, ConnectionStats>,
    record: &FlowRecord,
    info: &ProcessInfo,
    bytes: u64,
    is_tx: bool,
    now: u64,
)
    requires
        old(connections).well_formed(),
    ensures
        final(connections).well_formed(),
        final(connections)@ == connection_counted(
            old(connections)@,
            record.key,
            ThreadKey { pid: info.pid, tid: info.tid },
            bytes,
            is_tx,
            now,
        ),
{
    let src = SocketAddr { ip: record.key.src_ip, port: record.key.src_port };
    let dst = SocketAddr { ip: record.key.dst_ip, port: record.key.dst_port };
    let (local_addr, remote_addr) = if is_tx {
        (src, dst)
    } else {
        (dst, src)
    };
    let connection_key = ConnectionKey {
        pid: info.pid,
        tid: info.tid,
        local_addr,
        remote_addr,
        protocol: record.key.protocol,
    };
    let known = match connections.get(&connection_key) {
        Some(stats) => *stats,
        None => ConnectionStats { tx_bytes: 0, rx_bytes: 0, last_seen: now },
    };
    let credited = if is_tx {
        ConnectionStats {
            tx_bytes: known.tx_bytes.saturating_add(bytes),
            rx_bytes: known.rx_bytes,
            last_seen: now,
        }
    } else {
        ConnectionStats {
            tx_bytes: known.tx_bytes,
            rx_bytes: known.rx_bytes.saturating_add(bytes),
            last_seen: now,
        }
    };
    match connections.find(&connection_key) {
        Some(at) => {
            *connections.value_mut(at) = credited;
        },
        None => {
            connections.insert_new(connection_key, credited);
        },
    }
}

/// Counts a packet for a thread.
fn credit_thread(stats: &mut ThreadStats, record: &FlowRecord, info: ProcessInfo, now: u64)
    ensures
        final(stats)@ == thread_credited(old(stats)@, *record, info@, now),
{
    let bytes: u64 = record.byte_count as u64;
    stats.info = info;
    stats.last_seen = now;
    match record.direction {
        Direction::Tx => {
            stats.tx_bytes_total = stats.tx_bytes_total.saturating_add(bytes);
            stats.tx_current_second = stats.tx_current_second.saturating_add(bytes);
        },
        Direction::Rx => {
            stats.rx_bytes_total = stats.rx_bytes_total.saturating_add(bytes);
            stats.rx_current_second = stats.rx_current_second.saturating_add(bytes);
        },
    }
}

// ---------------------------------------------------------------------------
// Cycles
// ---------------------------------------------------------------------------

/// The connections are due to be listed anew.
pub open spec fn cache_due(account: AccountView, now: u64) -> bool {
    now - account.last_proc_scan >= RESOLVER_SCAN_INTERVAL
}

/// The account with the connections listed anew.
pub open spec fn cache_replaced(
    account: AccountView,
    connections: Seq<ResolvedConnectionView>,
    now: u64,
) -> AccountView {
    AccountView { cache: connections, last_proc_scan: now, ..account }
}

/// The account at the start of a cycle: the connections are listed anew if the
/// list is due.
pub open spec fn connections_listed(
    account: AccountView,
    connections: Seq<ResolvedConnectionView>,
    now: u64,
) -> AccountView {
    if cache_due(account, now) {
        cache_replaced(account, connections, now)
    } else {
        account
    }
}

/// Some thread belongs to a known process.
pub open spec fn knows_processes(account: AccountView) -> bool {
    exists|key: ThreadKey| #[trigger] account.threads.contains_key(key) && key.pid != 0
}

/// Some socket is owned by the process.
pub open spec fn process_alive(owners: Map<u64, ProcessInfoView>, pid: u32) -> bool {
    exists|inode: u64| #[trigger] owners.contains_key(inode) && owners[inode].pid == pid
}

/// A thread with the exit mark behind its name, unless it is already there.
pub open spec fn with_exit_mark(stats: ThreadStatsView) -> ThreadStatsView {
    if text::ends_in(stats.info.name, EXITED_MARK@) {
        stats
    } else {
        ThreadStatsView {
            info: ProcessInfoView { name: stats.info.name + EXITED_MARK@, ..stats.info },
            ..stats
        }
    }
}

/// A thread, marked if its process is gone. Traffic of nobody known is never
/// marked.
pub open spec fn exit_marked(
    key: ThreadKey,
    stats: ThreadStatsView,
    owners: Map<u64, ProcessInfoView>,
) -> ThreadStatsView {
    if key.pid != 0 && !process_alive(owners, key.pid) {
        with_exit_mark(stats)
    } else {
        stats
    }
}

/// The account with the threads of gone processes marked.
pub open spec fn exits_marked(
    account: AccountView,
    owners: Map<u64, ProcessInfoView>,
) -> AccountView {
    AccountView {
        threads: Map::new(
            |key: ThreadKey| account.threads.contains_key(key),
            |key: ThreadKey| exit_marked(key, account.threads[key], owners),
        ),
        ..account
    }
}

/// The account without the threads that have been idle too long.
pub open spec fn stale_evicted(account: AccountView, now: u64) -> AccountView {
    AccountView {
        threads: Map::new(
            |key: ThreadKey|
                account.threads.contains_key(key) && recent(account.threads[key].last_seen, now),
            |key: ThreadKey| account.threads[key],
        ),
        ..account
    }
}

/// A connection is kept: it is not idle, and its thread is there.
pub open spec fn connection_kept(
    key: ConnectionKey,
    stats: ConnectionStats,
    threads: Map<ThreadKey, ThreadStatsView>,
    now: u64,
) -> bool {
    recent(stats.last_seen, now) && threads.contains_key(ThreadKey { pid: key.pid, tid: key.tid })
}

/// The account with only the connections that are kept.
pub open spec fn connections_pruned(account: AccountView, now: u64) -> AccountView {
    AccountView {
        connections: Map::new(
            |key: ConnectionKey|
                account.connections.contains_key(key) && connection_kept(
                    key,
                    account.connections[key],
                    account.threads,
                    now,
                ),
            |key: ConnectionKey| account.connections[key],
        ),
        ..account
    }
}

/// A second has passed since the histories last moved on.
pub open spec fn rotation_due(account: AccountView, now: u64) -> bool {
    now - account.last_rotation >= ROTATION_PERIOD
}

/// The interface after one more second, its peak aside.
pub open spec fn interface_shifted(interface: InterfaceCountersView) -> InterfaceCountersView {
    InterfaceCountersView {
        tx_current_second: 0,
        rx_current_second: 0,
        tx_history: aggregator::shifted(interface.tx_history, interface.tx_current_second),
        rx_history: aggregator::shifted(interface.rx_history, interface.rx_current_second),
        ..interface
    }
}

/// The interface after one more second.
pub open spec fn interface_rotated(interface: InterfaceCountersView) -> InterfaceCountersView {
    let after = interface_shifted(interface);
    let bandwidth = current_bandwidth(after);
    InterfaceCountersView {
        peak_bandwidth: if bandwidth > interface.peak_bandwidth {
            bandwidth
        } else {
            interface.peak_bandwidth
        },
        ..after
    }
}

/// The account after one more second.
pub open spec fn histories_rotated(account: AccountView, now: u64) -> AccountView {
    AccountView {
        threads: Map::new(
            |key: ThreadKey| account.threads.contains_key(key),
            |key: ThreadKey| aggregator::thread_rotated(account.threads[key]),
        ),
        interface: interface_rotated(account.interface),
        last_rotation: now,
        ..account
    }
}

/// The account at the end of a cycle.
pub open spec fn cycle_finished(
    account: AccountView,
    owners: Map<u64, ProcessInfoView>,
    now: u64,
) -> AccountView {
    let cleaned = connections_pruned(stale_evicted(exits_marked(account, owners), now), now);
    if rotation_due(account, now) {
        histories_rotated(cleaned, now)
    } else {
        cleaned
    }
}

/// The account after a cycle: the connections are listed anew if they are due,
/// the packets are counted, and the cycle ends.
pub open spec fn cycle_run(
    account: AccountView,
    connections: Seq<ResolvedConnectionView>,
    packets: Seq<TimedRecord>,
    answers: Seq<Option<ProcessInfo>>,
    owners: Map<u64, ProcessInfoView>,
    now: u64,
) -> AccountView {
    cycle_finished(
        packets_counted(connections_listed(account, connections, now), packets, answers),
        owners,
        now,
    )
}

/// Marks a thread as exited, unless it already is.
fn mark_exited(stats: &mut ThreadStats)
    ensures
        final(stats)@ == with_exit_mark(old(stats)@),
{
    let name = text::chars_of(stats.info.name.as_str());
    let mark = text::chars_of(EXITED_MARK);
    if !text::ends_with_chars(name.as_slice(), mark.as_slice()) {
        stats.info.name.append(EXITED_MARK);
    }
}

/// Moves the interface's histories on by one second.
fn rotate_interface_second(interface: &mut InterfaceCounters)
    ensures
        final(interface)@ == interface_shifted(old(interface)@),
{
    let tx: u64 = interface.tx_current_second;
    let rx: u64 = interface.rx_current_second;
    aggregator::push_sample(&mut interface.tx_history, tx);
    aggregator::push_sample(&mut interface.rx_history, rx);
    interface.tx_current_second = 0;
    interface.rx_current_second = 0;
}

impl Account {
    /// The tables hold each key once.
    spec fn tables_hold(&self) -> bool {
        self.threads.well_formed() && self.connections.well_formed()
    }

    /// The tables hold each key once, and the account is sound.
    pub closed spec fn well_formed(&self) -> bool {
        self.tables_hold() && account_sound(self@)
    }

    /// A well-formed account is sound.
    pub proof fn lemma_sound(&self)
        requires
            self.well_formed(),
        ensures
            account_sound(self@),
    {
    }

    /// The threads in the order in which they came.
    pub closed spec fn thread_order(&self) -> Seq<ThreadKey> {
        self.threads.order()
    }

    /// The order lists each thread of the account once.
    pub proof fn lemma_threads(&self)
        requires
            self.well_formed(),
        ensures
            self.thread_order().no_duplicates(),
            forall|key: ThreadKey| #[trigger]
                self@.threads.contains_key(key) <==> self.thread_order().contains(key),
            forall|i: int|
                0 <= i < self.thread_order().len() ==> self@.threads.contains_key(
                    #[trigger] self.thread_order()[i],
                ),
    {
        self.threads.lemma_order();
    }

    /// Number of threads.
    pub fn thread_count(&self) -> (count: usize)
        requires
            self.well_formed(),
        ensures
            count == self.thread_order().len(),
    {
        self.threads.len()
    }

    /// The thread at a position.
    pub fn thread_at(&self, at: usize) -> (thread: (ThreadKey, &ThreadStats))
        requires
            self.well_formed(),
            at < self.thread_order().len(),
        ensures
            thread.0 == self.thread_order()[at as int],
            self@.threads.contains_key(thread.0),
            thread.1@ == self@.threads[thread.0],
    {
        (self.threads.key_at(at), self.threads.value_at(at))
    }

    /// The connections that were last listed.
    pub fn listed_connections(&self) -> (connections: &Vec<ResolvedConnection>)
        ensures
            resolver::connection_views(connections@) == self@.cache,
    {
        &self.cache
    }

    /// Traffic by connection.
    pub fn connection_table(&self) -> (table: &Table<ConnectionKey, ConnectionStats>)
        requires
            self.well_formed(),
        ensures
            table.well_formed(),
            table@ == self@.connections,
    {
        &self.connections
    }

    /// Traffic of the interface.
    pub fn interface_counters(&self) -> (counters: &InterfaceCounters)
        ensures
            counters@ == self@.interface,
    {
        &self.interface
    }

    /// Opens an account without any traffic. The connection list counts as due
    /// for a refresh.
    pub fn new(now: u64) -> (account: Account)
        requires
            now >= INITIAL_SCAN_AGE,
        ensures
            account.well_formed(),
            account@ == (AccountView {
                threads: Map::empty(),
                connections: Map::empty(),
                cache: Seq::empty(),
                interface: InterfaceCountersView {
                    tx_total: 0,
                    rx_total: 0,
                    tx_current_second: 0,
                    rx_current_second: 0,
                    tx_history: aggregator::quiet_history(),
                    rx_history: aggregator::quiet_history(),
                    peak_bandwidth: 0,
                },
                last_rotation: now,
                last_proc_scan: (now - INITIAL_SCAN_AGE) as u64,
            }),
    {
        let account = Account {
            threads: Table::new(),
            connections: Table::new(),
            cache: Vec::new(),
            interface: InterfaceCounters {
                tx_total: 0,
                rx_total: 0,
                tx_current_second: 0,
                rx_current_second: 0,
                tx_history: [0;HISTORY_SLOTS],
                rx_history: [0;HISTORY_SLOTS],
                peak_bandwidth: 0,
            },
            last_rotation: now,
            last_proc_scan: now - INITIAL_SCAN_AGE,
        };
        assert(account@.threads =~= Map::empty());
        assert(account@.cache =~= Seq::empty());
        assert(account@.interface.tx_history =~= aggregator::quiet_history());
        assert(account@.interface.rx_history =~= aggregator::quiet_history());
        account
    }

    /// Counts a packet for its owner.
    pub fn count_packet(&mut self, record: &FlowRecord, info: ProcessInfo, now: u64)
        requires
            old(self).well_formed(),
        ensures
            final(self).well_formed(),
            final(self)@ == packet_counted(old(self)@, *record, info@, now),
    {
        let bytes: u64 = record.byte_count as u64;
        let key = ThreadKey { pid: info.pid, tid: info.tid };
        let ghost threads = thread_views(self.threads@);
        let ghost owner = info@;
        let is_tx = record.direction == Direction::Tx;
        update_connection_stats(&mut self.connections, record, &info, bytes, is_tx, now);
        match self.threads.find(&key) {
            Some(at) => {
                credit_thread(self.threads.value_mut(at), record, info, now);
            },
            None => {
                let mut stats = ThreadStats::new(info.duplicate(), now);
                credit_thread(&mut stats, record, info, now);
                self.threads.insert_new(key, stats);
            },
        }
        proof {
            let before = if threads.contains_key(key) {
                threads[key]
            } else {
                aggregator::new_thread(owner, now)
            };
            assert(thread_views(self.threads@) =~= threads.insert(
                key,
                thread_credited(before, *record, owner, now),
            ));
        }
        match record.direction {
            Direction::Tx => {
                self.interface.tx_total = self.interface.tx_total.saturating_add(bytes);
                self.interface.tx_current_second = self.interface.tx_current_second.saturating_add(
                    bytes,
                );
            },
            Direction::Rx => {
                self.interface.rx_total = self.interface.rx_total.saturating_add(bytes);
                self.interface.rx_current_second = self.interface.rx_current_second.saturating_add(
                    bytes,
                );
            },
        }
        assert(self@ =~= packet_counted(old(self)@, *record, owner, now));
        proof {
            packets_keep_the_account_sound(old(self)@, *record, owner, now);
        }
    }

    /// Counts a packet for the owner that the resolver, once it is up to date,
    /// or the listed connections give.
    pub fn process_record(
        &mut self,
        record: &FlowRecord,
        resolver: &mut Resolver,
        scan: Option<Scan>,
        now: u64,
    )
        requires
            old(self).well_formed(),
        ensures
            final(self).well_formed(),
            resolver::brought_up_to_date(
                old(resolver).cached(),
                final(resolver).cached(),
                scan,
                now,
            ),
            resolver::joined(
                final(resolver).cached().sockets(),
                final(resolver).cached().owners(),
            ),
            exists|answer: Option<ProcessInfo>| #[trigger]
                resolver::is_flow_owner(
                    answer,
                    final(resolver).cached().sockets(),
                    final(resolver).cached().owners(),
                    record.key,
                ) && final(self)@ == packet_counted(
                    old(self)@,
                    *record,
                    packet_owner(answer, old(self)@.cache, record.key),
                    now,
                ),
    {
        let answer = resolver.resolve_flow_owner(&record.key, scan, now);
        let ghost given = answer;
        let info = match answer {
            Some(info) => info,
            None => match lookup_process_from_connections(&record.key, &self.cache) {
                Some(info) => info,
                None => ProcessInfo::unknown(),
            },
        };
        assert(info@ == packet_owner(given, self@.cache, record.key));
        self.count_packet(record, info, now);
    }

    /// Lists the connections anew if the list is due.
    pub fn refresh_connection_cache_if_due(
        &mut self,
        resolver: &mut Resolver,
        scan: Option<Scan>,
        now: u64,
    )
        requires
            old(self).well_formed(),
        ensures
            final(self).well_formed(),
            if cache_due(old(self)@, now) {
                &&& resolver::brought_up_to_date(
                    old(resolver).cached(),
                    final(resolver).cached(),
                    scan,
                    now,
                )
                &&& final(self)@ == cache_replaced(
                    old(self)@,
                    final(resolver).cached().rows(),
                    now,
                )
            } else {
                *final(resolver) == *old(resolver) && final(self)@ == old(self)@
            },
    {
        if self.connection_cache_due(now) {
            self.cache = resolver.list_connections(scan, now);
            self.last_proc_scan = now;
        }
        assert(self@.threads == old(self)@.threads);
        assert(self@.interface == old(self)@.interface);
    }

    /// Whether the connections are due to be listed anew.
    pub fn connection_cache_due(&self, now: u64) -> (due: bool)
        ensures
            due == cache_due(self@, now),
    {
        now >= self.last_proc_scan && now - self.last_proc_scan >= RESOLVER_SCAN_INTERVAL
    }

    /// Marks the threads whose process the resolver, once it is up to date, no
    /// longer knows. Where there is no process to ask for, the resolver is left
    /// alone.
    pub fn mark_exited_threads(&mut self, resolver: &mut Resolver, scan: Option<Scan>, now: u64)
        requires
            old(self).well_formed(),
        ensures
            final(self).well_formed(),
            final(self)@ == exits_marked(old(self)@, final(resolver).cached().owners()),
            if knows_processes(old(self)@) {
                resolver::brought_up_to_date(
                    old(resolver).cached(),
                    final(resolver).cached(),
                    scan,
                    now,
                )
            } else {
                *final(resolver) == *old(resolver)
            },
    {
        let ghost order = self.threads.order();
        let ghost threads = thread_views(self.threads@);
        proof {
            self.threads.lemma_order();
        }
        let ghost given = scan;
        let mut pending = scan;
        let mut asked = false;
        let mut i: usize = 0;
        while i < self.threads.len()
            invariant
                self.tables_hold(),
                order == self.threads.order(),
                i <= order.len(),
                order.no_duplicates(),
                forall|key: ThreadKey| #[trigger]
                    threads.contains_key(key) <==> order.contains(key),
                self.threads@.dom() == threads.dom(),
                given == scan,
                if asked {
                    &&& pending is None
                    &&& knows_processes(old(self)@)
                    &&& resolver::brought_up_to_date(
                        old(resolver).cached(),
                        resolver.cached(),
                        given,
                        now,
                    )
                } else {
                    &&& pending == given
                    &&& *resolver == *old(resolver)
                    &&& forall|j: int| 0 <= j < i ==> (#[trigger] order[j]).pid == 0
                },
                forall|j: int|
                    0 <= j < i ==> self.threads@[#[trigger] order[j]]@ == exit_marked(
                        order[j],
                        threads[order[j]],
                        resolver.cached().owners(),
                    ),
                forall|j: int|
                    i <= j < order.len() ==> self.threads@[#[trigger] order[j]]@
                        == threads[order[j]],
                threads == old(self)@.threads,
                self@ == (AccountView { threads: thread_views(self.threads@), ..old(self)@ }),
            decreases order.len() - i,
        {
            let key = self.threads.key_at(i);
            if key.pid != 0 {
                let gone = resolver.process_by_pid(key.pid, pending, now).is_none();
                pending = None;
                asked = true;
                let ghost owners = resolver.cached().owners();
                let ghost before = self.threads@;
                assert(order.contains(key));
                assert(threads.contains_key(key));
                assert(gone == !process_alive(owners, key.pid)) by {
                    if process_alive(owners, key.pid) {
                        let inode = choose|inode: u64| #[trigger]
                            owners.contains_key(inode) && owners[inode].pid == key.pid;
                        assert(owners.contains_key(inode));
                    }
                }
                if gone {
                    mark_exited(self.threads.value_mut(i));
                    assert(self.threads@.dom() =~= before.dom());
                    assert forall|j: int| 0 <= j < order.len() && j != i implies self.threads@[#[trigger] order[j]]
                        == before[order[j]] by {
                        assert(order[j] != order[i as int]);
                    }
                }
            }
            i += 1;
        }
        proof {
            let owners = resolver.cached().owners();
            let goal = exits_marked(old(self)@, owners);
            assert(self@.threads.dom() =~= goal.threads.dom());
            assert forall|key: ThreadKey| goal.threads.contains_key(key) implies self@.threads[key]
                == goal.threads[key] by {
                assert(threads.contains_key(key));
                let j = choose|j: int| 0 <= j < order.len() && order[j] == key;
                assert(self.threads@[order[j]]@ == exit_marked(order[j], threads[order[j]], owners));
            }
            assert(self@.threads =~= goal.threads);
            assert(self@ =~= goal);
            if !asked {
                assert forall|key: ThreadKey| #[trigger]
                    threads.contains_key(key) implies key.pid == 0 by {
                    let j = choose|j: int| 0 <= j < order.len() && order[j] == key;
                    assert(order[j].pid == 0);
                }
            }
            lemma_marked_sound(old(self)@, owners);
        }
    }

    /// Drops the threads that have been idle too long.
    pub fn evict_stale_threads(&mut self, now: u64)
        requires
            old(self).well_formed(),
        ensures
            final(self).well_formed(),
            final(self)@ == stale_evicted(old(self)@, now),
    {
        let ghost threads = thread_views(self.threads@);
        let mut i: usize = 0;
        proof {
            self.threads.lemma_order();
            assert(self.threads.order().skip(0) =~= self.threads.order());
        }
        while i < self.threads.len()
            invariant
                self.tables_hold(),
                i <= self.threads.order().len(),
                self@ == (AccountView { threads: thread_views(self.threads@), ..old(self)@ }),
                forall|key: ThreadKey| #[trigger]
                    self.threads@.contains_key(key) ==> threads.contains_key(key)
                        && self.threads@[key]@ == threads[key],
                forall|key: ThreadKey| #[trigger]
                    threads.contains_key(key) && recent(threads[key].last_seen, now)
                        ==> self.threads@.contains_key(key),
                forall|j: int|
                    0 <= j < i ==> recent(
                        threads[#[trigger] self.threads.order()[j]].last_seen,
                        now,
                    ),
            decreases self.threads.order().len() - i,
        {
            let key = self.threads.key_at(i);
            let last_seen: u64 = self.threads.value_at(i).last_seen;
            if now >= last_seen && now - last_seen > PROCESS_EVICTION_TIMEOUT {
                let ghost before = self.threads.order();
                let _ = self.threads.remove_at(i);
                assert forall|j: int| 0 <= j < i implies recent(
                    threads[#[trigger] self.threads.order()[j]].last_seen,
                    now,
                ) by {
                    assert(self.threads.order()[j] == before[j]);
                }
            } else {
                i += 1;
            }
        }
        proof {
            self.threads.lemma_order();
            let goal = stale_evicted(old(self)@, now).threads;
            assert forall|key: ThreadKey|
                self@.threads.contains_key(key) == goal.contains_key(key) by {
                if self.threads@.contains_key(key) {
                    let j = choose|j: int|
                        0 <= j < self.threads.order().len() && self.threads.order()[j] == key;
                    assert(recent(threads[self.threads.order()[j]].last_seen, now));
                }
                if goal.contains_key(key) {
                    assert(threads.contains_key(key));
                }
            }
            assert(self@.threads =~= goal);
            assert(self@ =~= stale_evicted(old(self)@, now));
            lemma_evicted_sound(old(self)@, now);
        }
    }

    /// Drops the connections that have been idle too long or whose thread is
    /// no longer there.
    pub fn prune_connection_stats(&mut self, now: u64)
        requires
            old(self).well_formed(),
        ensures
            final(self).well_formed(),
            final(self)@ == connections_pruned(old(self)@, now),
    {
        let ghost connections = self.connections@;
        let ghost threads = thread_views(self.threads@);
        let mut i: usize = 0;
        while i < self.connections.len()
            invariant
                self.tables_hold(),
                i <= self.connections.order().len(),
                self@ == (AccountView { connections: self.connections@, ..old(self)@ }),
                threads == old(self)@.threads,
                forall|key: ConnectionKey| #[trigger]
                    self.connections@.contains_key(key) ==> connections.contains_key(key)
                        && self.connections@[key] == connections[key],
                forall|key: ConnectionKey| #[trigger]
                    connections.contains_key(key) && connection_kept(
                        key,
                        connections[key],
                        threads,
                        now,
                    ) ==> self.connections@.contains_key(key),
                forall|j: int|
                    0 <= j < i ==> connection_kept(
                        #[trigger] self.connections.order()[j],
                        connections[self.connections.order()[j]],
                        threads,
                        now,
                    ),
            decreases self.connections.order().len() - i,
        {
            let key = self.connections.key_at(i);
            let last_seen: u64 = self.connections.value_at(i).last_seen;
            let idle = now >= last_seen && now - last_seen > PROCESS_EVICTION_TIMEOUT;
            let thread = ThreadKey { pid: key.pid, tid: key.tid };
            if idle || !self.threads.contains_key(&thread) {
                let ghost before = self.connections.order();
                let _ = self.connections.remove_at(i);
                assert forall|j: int| 0 <= j < i implies connection_kept(
                    #[trigger] self.connections.order()[j],
                    connections[self.connections.order()[j]],
                    threads,
                    now,
                ) by {
                    assert(self.connections.order()[j] == before[j]);
                }
            } else {
                i += 1;
            }
        }
        proof {
            self.connections.lemma_order();
            let goal = connections_pruned(old(self)@, now).connections;
            assert forall|key: ConnectionKey|
                self@.connections.contains_key(key) == goal.contains_key(key) by {
                if self.connections@.contains_key(key) {
                    let j = choose|j: int|
                        0 <= j < self.connections.order().len() && self.connections.order()[j]
                            == key;
                    assert(connection_kept(
                        self.connections.order()[j],
                        connections[self.connections.order()[j]],
                        threads,
                        now,
                    ));
                }
                if goal.contains_key(key) {
                    assert(connections.contains_key(key));
                }
            }
            assert(self@.connections =~= goal);
            assert(self@ =~= connections_pruned(old(self)@, now));
        }
    }

    /// Moves all histories on if a second has passed since they last moved.
    pub fn rotate_histories_if_due(&mut self, now: u64) -> (rotated: bool)
        requires
            old(self).well_formed(),
        ensures
            final(self).well_formed(),
            rotated == rotation_due(old(self)@, now),
            final(self)@ == (if rotated {
                histories_rotated(old(self)@, now)
            } else {
                old(self)@
            }),
    {
        if now < self.last_rotation || now - self.last_rotation < ROTATION_PERIOD {
            return false;
        }
        let ghost order = self.threads.order();
        let ghost threads = thread_views(self.threads@);
        proof {
            self.threads.lemma_order();
        }
        let mut i: usize = 0;
        while i < self.threads.len()
            invariant
                self.tables_hold(),
                order == self.threads.order(),
                i <= order.len(),
                order.no_duplicates(),
                forall|key: ThreadKey| #[trigger]
                    threads.contains_key(key) <==> order.contains(key),
                self.threads@.dom() == threads.dom(),
                forall|j: int|
                    0 <= j < i ==> self.threads@[#[trigger] order[j]]@
                        == aggregator::thread_rotated(threads[order[j]]),
                forall|j: int|
                    i <= j < order.len() ==> self.threads@[#[trigger] order[j]]@
                        == threads[order[j]],
                self@ == (AccountView { threads: thread_views(self.threads@), ..old(self)@ }),
            decreases order.len() - i,
        {
            let ghost before = self.threads@;
            self.threads.value_mut(i).rotate_second();
            assert(self.threads@.dom() =~= before.dom());
            assert forall|j: int| 0 <= j < order.len() && j != i implies self.threads@[#[trigger] order[j]]
                == before[order[j]] by {
                assert(order[j] != order[i as int]);
            }
            i += 1;
        }
        rotate_interface_second(&mut self.interface);
        let bandwidth: u64 = self.interface.tx_history[0].saturating_add(
            self.interface.rx_history[0],
        );
        if bandwidth > self.interface.peak_bandwidth {
            self.interface.peak_bandwidth = bandwidth;
        }
        self.last_rotation = now;
        proof {
            let goal = histories_rotated(old(self)@, now);
            assert(self@.threads.dom() =~= goal.threads.dom());
            assert forall|key: ThreadKey| goal.threads.contains_key(key) implies self@.threads[key]
                == goal.threads[key] by {
                assert(threads.contains_key(key));
                let j = choose|j: int| 0 <= j < order.len() && order[j] == key;
                assert(self.threads@[order[j]]@ == aggregator::thread_rotated(threads[order[j]]));
            }
            assert(self@.threads =~= goal.threads);
            assert(self@ =~= goal);
            lemma_rotated_sound(old(self)@, now);
        }
        true
    }

    /// Counts packets, one after the other, with the answers of the last scan.
    fn process_records(&mut self, packets: &Vec<TimedRecord>, resolver: &mut Resolver)
        requires
            old(self).well_formed(),
        ensures
            final(self).well_formed(),
            final(resolver).cached() == old(resolver).cached(),
            exists|answers: Seq<Option<ProcessInfo>>| #[trigger]
                answers_packets(answers, packets@, old(resolver).cached()) && final(self)@
                    == packets_counted(old(self)@, packets@, answers),
    {
        let ghost cache = resolver.cached();
        let ghost mut answers: Seq<Option<ProcessInfo>> = Seq::empty();
        let mut i: usize = 0;
        assert(packets@.take(0) =~= Seq::empty());
        assert(answers_packets(answers, packets@.take(0), cache));
        while i < packets.len()
            invariant
                i <= packets@.len(),
                self.well_formed(),
                cache == resolver.cached(),
                answers_packets(answers, packets@.take(i as int), cache),
                self@ == packets_counted(old(self)@, packets@.take(i as int), answers),
            decreases packets@.len() - i,
        {
            let packet = &packets[i];
            let ghost before = self@;
            self.process_record(&packet.record, resolver, None, packet.now);
            proof {
                let answer = choose|answer: Option<ProcessInfo>| #[trigger]
                    resolver::is_flow_owner(
                        answer,
                        cache.sockets(),
                        cache.owners(),
                        packet.record.key,
                    ) && self@ == packet_counted(
                        before,
                        packet.record,
                        packet_owner(answer, before.cache, packet.record.key),
                        packet.now,
                    );
                let seen = packets@.take(i as int);
                let longer = packets@.take(i + 1);
                assert(longer.drop_last() =~= seen);
                assert(longer.last() == packets@[i as int]);
                let all = answers.push(answer);
                assert(all.drop_last() =~= answers);
                assert forall|j: int| 0 <= j < all.len() implies resolver::is_flow_owner(
                    #[trigger] all[j],
                    cache.sockets(),
                    cache.owners(),
                    longer[j].record.key,
                ) by {
                    if j < i {
                        assert(all[j] == answers[j]);
                        assert(longer[j] == seen[j]);
                    }
                }
                answers = all;
            }
            i += 1;
        }
        assert(packets@.take(packets@.len() as int) =~= packets@);
    }

    /// Runs a cycle: brings the resolver up to date, lists the connections anew
    /// if they are due, counts the packets that came in, and ends the cycle.
    /// Tells whether the histories moved on.
    pub fn run_cycle(
        &mut self,
        packets: &Vec<TimedRecord>,
        resolver: &mut Resolver,
        scan: Option<Scan>,
        now: u64,
    ) -> (rotated: bool)
        requires
            old(self).well_formed(),
        ensures
            final(self).well_formed(),
            rotated == rotation_due(old(self)@, now),
            resolver::brought_up_to_date(
                old(resolver).cached(),
                final(resolver).cached(),
                scan,
                now,
            ),
            exists|answers: Seq<Option<ProcessInfo>>| #[trigger]
                answers_packets(answers, packets@, final(resolver).cached()) && final(self)@
                    == cycle_finished(
                    packets_counted(
                        connections_listed(old(self)@, final(resolver).cached().rows(), now),
                        packets@,
                        answers,
                    ),
                    final(resolver).cached().owners(),
                    now,
                ) && final(self)@ == cycle_run(
                    old(self)@,
                    final(resolver).cached().rows(),
                    packets@,
                    answers,
                    final(resolver).cached().owners(),
                    now,
                ),
    {
        if let Some(scan) = scan {
            let _ = resolver.refresh_if_needed(scan, now);
        }
        let ghost cache = resolver.cached();
        self.refresh_connection_cache_if_due(resolver, None, now);
        let ghost listed = self@;
        self.process_records(packets, resolver);
        let ghost answers = choose|answers: Seq<Option<ProcessInfo>>| #[trigger]
            answers_packets(answers, packets@, cache) && self@ == packets_counted(
                listed,
                packets@,
                answers,
            );
        proof {
            lemma_counting_keeps_time(listed, packets@, answers);
        }
        let rotated = self.finish_cycle(resolver, None, now);
        assert(answers_packets(answers, packets@, resolver.cached()));
        rotated
    }

    /// Ends a cycle: marks exited threads, drops what has been idle too long,
    /// and moves the histories on if they are due. Tells whether they moved.
    pub fn finish_cycle(&mut self, resolver: &mut Resolver, scan: Option<Scan>, now: u64) -> (rotated:
        bool)
        requires
            old(self).well_formed(),
        ensures
            final(self).well_formed(),
            final(self)@ == cycle_finished(old(self)@, final(resolver).cached().owners(), now),
            rotated == rotation_due(old(self)@, now),
            if knows_processes(old(self)@) {
                resolver::brought_up_to_date(
                    old(resolver).cached(),
                    final(resolver).cached(),
                    scan,
                    now,
                )
            } else {
                *final(resolver) == *old(resolver)
            },
    {
        self.mark_exited_threads(resolver, scan, now);
        self.evict_stale_threads(now);
        self.prune_connection_stats(now);
        self.rotate_histories_if_due(now)
    }
}

// ---------------------------------------------------------------------------
// Laws
// ---------------------------------------------------------------------------

/// Counting a packet keeps the account sound.
pub proof fn packets_keep_the_account_sound(
    account: AccountView,
    record: FlowRecord,
    info: ProcessInfoView,
    now: u64,
)
    requires
        account_sound(account),
    ensures
        account_sound(packet_counted(account, record, info, now)),
{
}

proof fn lemma_marked_sound(account: AccountView, owners: Map<u64, ProcessInfoView>)
    requires
        account_sound(account),
    ensures
        account_sound(exits_marked(account, owners)),
{
    let after = exits_marked(account, owners);
    assert forall|key: ThreadKey| #[trigger]
        after.threads.contains_key(key) implies thread_sound(key, after.threads[key]) by {
        assert(account.threads.contains_key(key));
    }
}

proof fn lemma_evicted_sound(account: AccountView, now: u64)
    requires
        account_sound(account),
    ensures
        account_sound(stale_evicted(account, now)),
{
    let after = stale_evicted(account, now);
    assert forall|key: ThreadKey| #[trigger]
        after.threads.contains_key(key) implies thread_sound(key, after.threads[key]) by {
        assert(account.threads.contains_key(key));
    }
}

proof fn lemma_rotated_sound(account: AccountView, now: u64)
    requires
        account_sound(account),
    ensures
        account_sound(histories_rotated(account, now)),
{
    let after = histories_rotated(account, now);
    assert forall|key: ThreadKey| #[trigger]
        after.threads.contains_key(key) implies thread_sound(key, after.threads[key]) by {
        assert(account.threads.contains_key(key));
    }
}

/// Ending a cycle keeps the account sound.
pub proof fn cycles_keep_the_account_sound(
    account: AccountView,
    owners: Map<u64, ProcessInfoView>,
    now: u64,
)
    requires
        account_sound(account),
    ensures
        account_sound(cycle_finished(account, owners, now)),
{
    let marked = exits_marked(account, owners);
    lemma_marked_sound(account, owners);
    lemma_evicted_sound(marked, now);
    lemma_rotated_sound(connections_pruned(stale_evicted(marked, now), now), now);
}

/// A packet counts for one thread, one connection and the interface: the bytes
/// go to its direction, nothing goes to the other one, and all other threads
/// and connections keep their counts.
pub proof fn packets_count_once(
    account: AccountView,
    record: FlowRecord,
    info: ProcessInfoView,
    now: u64,
)
    ensures
        ({
            let after = packet_counted(account, record, info, now);
            let bytes = record.byte_count as u64;
            let key = ThreadKey { pid: info.pid, tid: info.tid };
            let connection = packet_connection(record, key);
            let tx = if record.direction == Direction::Tx {
                bytes
            } else {
                0
            };
            let rx = if record.direction == Direction::Rx {
                bytes
            } else {
                0
            };
            let known = account.threads.contains_key(key);
            let thread_tx = if known {
                account.threads[key].tx_bytes_total
            } else {
                0
            };
            let thread_rx = if known {
                account.threads[key].rx_bytes_total
            } else {
                0
            };
            &&& after.threads[key].tx_bytes_total == thread_tx.saturating_add(tx)
            &&& after.threads[key].rx_bytes_total == thread_rx.saturating_add(rx)
            &&& after.interface.tx_total == account.interface.tx_total.saturating_add(tx)
            &&& after.interface.rx_total == account.interface.rx_total.saturating_add(rx)
            &&& after.threads.remove(key) == account.threads.remove(key)
            &&& after.connections.remove(connection) == account.connections.remove(connection)
        }),
{
    let after = packet_counted(account, record, info, now);
    let key = ThreadKey { pid: info.pid, tid: info.tid };
    let connection = packet_connection(record, key);
    assert(after.threads.remove(key) =~= account.threads.remove(key));
    assert(after.connections.remove(connection) =~= account.connections.remove(connection));
}

/// What was sent and what came back share one entry, filed from the local side:
/// a packet of a flow and one of the flow that answers it, in the other
/// direction, add to the same entry, each to its own count, and touch no other
/// one. Where there was no connection before, there is exactly one after them.
pub proof fn a_connection_has_one_entry(
    connections: Map<ConnectionKey, ConnectionStats>,
    flow: FlowKey,
    key: ThreadKey,
    bytes: u64,
    sent: bool,
    then: u64,
    answer_bytes: u64,
    now: u64,
)
    ensures
        ({
            let once = connection_counted(connections, flow, key, bytes, sent, then);
            let after = connection_counted(
                once,
                resolver::answering(flow),
                key,
                answer_bytes,
                !sent,
                now,
            );
            let entry = flow_connection(flow, key, sent);
            let (tx_bytes, rx_bytes) = if sent {
                (bytes, answer_bytes)
            } else {
                (answer_bytes, bytes)
            };
            let (tx, rx) = if connections.contains_key(entry) {
                (connections[entry].tx_bytes, connections[entry].rx_bytes)
            } else {
                (0u64, 0u64)
            };
            let stats = ConnectionStats {
                tx_bytes: tx.saturating_add(tx_bytes),
                rx_bytes: rx.saturating_add(rx_bytes),
                last_seen: now,
            };
            &&& after == connections.insert(entry, stats)
            &&& connections == Map::<ConnectionKey, ConnectionStats>::empty() ==> after
                == map![entry => ConnectionStats { tx_bytes, rx_bytes, last_seen: now }]
        }),
{
    let once = connection_counted(connections, flow, key, bytes, sent, then);
    let after = connection_counted(once, resolver::answering(flow), key, answer_bytes, !sent, now);
    let entry = flow_connection(flow, key, sent);
    assert(flow_connection(resolver::answering(flow), key, !sent) == entry);
    assert(after =~= connections.insert(entry, after[entry]));
}

/// Both directions of a connection share one entry, filed from the local side:
/// a packet and the one that answers it, of one thread and in either order, add
/// to the same entry, each to its own direction, and touch no other one.
pub proof fn both_directions_share_an_entry(
    account: AccountView,
    packet: FlowRecord,
    owner: ProcessInfoView,
    then: u64,
    answer: FlowRecord,
    answer_owner: ProcessInfoView,
    now: u64,
)
    requires
        answer.key == resolver::answering(packet.key),
        answer.direction != packet.direction,
        answer_owner.pid == owner.pid,
        answer_owner.tid == owner.tid,
    ensures
        ({
            let once = packet_counted(account, packet, owner, then);
            let after = packet_counted(once, answer, answer_owner, now);
            let (sent, received) = if packet.direction == Direction::Tx {
                (packet, answer)
            } else {
                (answer, packet)
            };
            let entry = ConnectionKey {
                pid: owner.pid,
                tid: owner.tid,
                local_addr: SocketAddr { ip: sent.key.src_ip, port: sent.key.src_port },
                remote_addr: SocketAddr { ip: sent.key.dst_ip, port: sent.key.dst_port },
                protocol: packet.key.protocol,
            };
            let known = account.connections.contains_key(entry);
            let tx = if known {
                account.connections[entry].tx_bytes
            } else {
                0
            };
            let rx = if known {
                account.connections[entry].rx_bytes
            } else {
                0
            };
            after.connections == account.connections.insert(
                entry,
                ConnectionStats {
                    tx_bytes: tx.saturating_add(sent.byte_count as u64),
                    rx_bytes: rx.saturating_add(received.byte_count as u64),
                    last_seen: now,
                },
            )
        }),
{
    a_connection_has_one_entry(
        account.connections,
        packet.key,
        ThreadKey { pid: owner.pid, tid: owner.tid },
        packet.byte_count as u64,
        packet.direction == Direction::Tx,
        then,
        answer.byte_count as u64,
        now,
    );
}

/// Marking exited threads a second time changes nothing.
pub proof fn marking_twice_marks_once(account: AccountView, owners: Map<u64, ProcessInfoView>)
    ensures
        exits_marked(exits_marked(account, owners), owners) == exits_marked(account, owners),
{
    let once = exits_marked(account, owners);
    let twice = exits_marked(once, owners);
    assert forall|key: ThreadKey| once.threads.contains_key(key) implies twice.threads[key]
        == once.threads[key] by {
        let name = account.threads[key].info.name;
        let marked = name + EXITED_MARK@;
        assert(marked.skip(marked.len() - EXITED_MARK@.len()) =~= EXITED_MARK@);
    }
    assert(twice.threads =~= once.threads);
    assert(twice =~= once);
}

/// After a cycle no thread and no connection has been idle too long, and every
/// connection belongs to a thread that is still there.
pub proof fn nothing_stale_outlives_a_cycle(
    account: AccountView,
    owners: Map<u64, ProcessInfoView>,
    now: u64,
)
    ensures
        ({
            let after = cycle_finished(account, owners, now);
            &&& forall|key: ThreadKey| #[trigger]
                after.threads.contains_key(key) ==> recent(after.threads[key].last_seen, now)
            &&& forall|key: ConnectionKey| #[trigger]
                after.connections.contains_key(key) ==> recent(
                    after.connections[key].last_seen,
                    now,
                ) && after.threads.contains_key(ThreadKey { pid: key.pid, tid: key.tid })
        }),
{
}

/// A cycle drops no thread that was active recently, and no count changes.
pub proof fn recent_threads_keep_their_counts(
    account: AccountView,
    owners: Map<u64, ProcessInfoView>,
    now: u64,
    key: ThreadKey,
)
    requires
        account.threads.contains_key(key),
        recent(account.threads[key].last_seen, now),
    ensures
        ({
            let after = cycle_finished(account, owners, now);
            &&& after.threads.contains_key(key)
            &&& after.threads[key].tx_bytes_total == account.threads[key].tx_bytes_total
            &&& after.threads[key].rx_bytes_total == account.threads[key].rx_bytes_total
        }),
{
}

/// A cycle changes no total of the interface and never lowers its peak.
pub proof fn cycles_keep_interface_totals(
    account: AccountView,
    owners: Map<u64, ProcessInfoView>,
    now: u64,
)
    ensures
        ({
            let after = cycle_finished(account, owners, now);
            &&& after.interface.tx_total == account.interface.tx_total
            &&& after.interface.rx_total == account.interface.rx_total
            &&& after.interface.peak_bandwidth >= account.interface.peak_bandwidth
        }),
{
}

/// The bytes counted during a second are the newest sample once the second is
/// over, and the next second starts at zero.
pub proof fn a_second_becomes_a_sample(
    account: AccountView,
    owners: Map<u64, ProcessInfoView>,
    now: u64,
)
    requires
        account_sound(account),
        rotation_due(account, now),
    ensures
        ({
            let after = cycle_finished(account, owners, now);
            &&& after.interface.tx_history[0] == account.interface.tx_current_second
            &&& after.interface.rx_history[0] == account.interface.rx_current_second
            &&& after.interface.tx_current_second == 0
            &&& after.interface.rx_current_second == 0
            &&& forall|key: ThreadKey| #[trigger]
                after.threads.contains_key(key) ==> {
                    &&& after.threads[key].tx_history[0] == account.threads[key].tx_current_second
                    &&& after.threads[key].rx_history[0] == account.threads[key].rx_current_second
                    &&& after.threads[key].tx_current_second == 0
                    &&& after.threads[key].rx_current_second == 0
                }
        }),
{
}

/// The bytes of the packets that go in a direction.
pub open spec fn bytes_in_direction(packets: Seq<TimedRecord>, direction: Direction) -> nat
    decreases packets.len(),
{
    if packets.len() == 0 {
        0
    } else {
        let before = bytes_in_direction(packets.drop_last(), direction);
        if packets.last().record.direction == direction {
            before + packets.last().record.byte_count as nat
        } else {
            before
        }
    }
}

/// A count that stops at the largest value.
pub open spec fn capped(n: nat) -> u64 {
    if n > u64::MAX {
        u64::MAX
    } else {
        n as u64
    }
}

/// The interface counts every byte of every packet, whoever owns it: its totals
/// grow by the bytes sent and the bytes received, up to the largest count.
pub proof fn the_interface_counts_every_byte(
    account: AccountView,
    packets: Seq<TimedRecord>,
    answers: Seq<Option<ProcessInfo>>,
)
    ensures
        ({
            let after = packets_counted(account, packets, answers);
            &&& after.interface.tx_total == capped(
                account.interface.tx_total as nat + bytes_in_direction(packets, Direction::Tx),
            )
            &&& after.interface.rx_total == capped(
                account.interface.rx_total as nat + bytes_in_direction(packets, Direction::Rx),
            )
        }),
    decreases packets.len(),
{
    if packets.len() > 0 {
        the_interface_counts_every_byte(account, packets.drop_last(), answers.drop_last());
    }
}

} // verus!
