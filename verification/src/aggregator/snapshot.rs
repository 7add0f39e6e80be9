//! Snapshots of the account: the rows that are shown and the totals of the
//! interface.

use std::collections::HashSet;

use vstd::prelude::*;

use crate::aggregator;
use crate::aggregator::account;
use crate::aggregator::account::{Account, AccountView, InterfaceCountersView};
use crate::aggregator::{
    ConnectionEntry, ConnectionEntryView, ConnectionKey, ConnectionStats, InterfaceStats,
    ProcessRow, ProcessRowView, ThreadKey, ThreadStatsView,
};
use crate::capture::{Direction, FlowRecord};
use crate::resolver;
use crate::resolver::{ProcessInfoView, ResolvedConnection, ResolvedConnectionView};
use crate::sort;
use crate::sort::Triple;
use crate::table::Table;

verus! {

broadcast use vstd::std_specs::hash::group_hash_axioms;

/// The key that the traffic of a listed connection is counted under.
pub open spec fn counted_as(connection: ResolvedConnectionView) -> ConnectionKey {
    ConnectionKey {
        pid: connection.pid,
        tid: connection.tid,
        local_addr: connection.local_addr,
        remote_addr: connection.remote_addr,
        protocol: connection.protocol,
    }
}

/// The same connection seen from its other end.
pub open spec fn turned_around(key: ConnectionKey) -> ConnectionKey {
    ConnectionKey { local_addr: key.remote_addr, remote_addr: key.local_addr, ..key }
}

/// The bytes sent and received over a listed connection. Traffic counted under
/// its opposite counts the other way round.
pub open spec fn connection_bytes(
    connection: ResolvedConnectionView,
    stats: Map<ConnectionKey, ConnectionStats>,
) -> (u64, u64) {
    let key = counted_as(connection);
    if stats.contains_key(key) {
        (stats[key].tx_bytes, stats[key].rx_bytes)
    } else if stats.contains_key(turned_around(key)) {
        (stats[turned_around(key)].rx_bytes, stats[turned_around(key)].tx_bytes)
    } else {
        (0, 0)
    }
}

/// A listed connection as it is shown.
pub open spec fn shown_connection(
    connection: ResolvedConnectionView,
    stats: Map<ConnectionKey, ConnectionStats>,
) -> ConnectionEntryView {
    ConnectionEntryView {
        local_addr: connection.local_addr,
        remote_addr: connection.remote_addr,
        protocol: connection.protocol,
        state: connection.state,
        pid: connection.pid,
        tid: connection.tid,
        process: connection.process,
        thread_name: connection.thread_name,
        username: connection.username,
        tx_bytes: connection_bytes(connection, stats).0,
        rx_bytes: connection_bytes(connection, stats).1,
    }
}

/// The connections of one thread as they are shown, in the order in which they
/// are listed.
pub open spec fn shown_connections(
    cache: Seq<ResolvedConnectionView>,
    stats: Map<ConnectionKey, ConnectionStats>,
    key: ThreadKey,
) -> Seq<ConnectionEntryView>
    decreases cache.len(),
{
    if cache.len() == 0 {
        Seq::empty()
    } else {
        let before = shown_connections(cache.drop_last(), stats, key);
        if cache.last().pid == key.pid && cache.last().tid == key.tid {
            before.push(shown_connection(cache.last(), stats))
        } else {
            before
        }
    }
}

/// A thread as it is shown.
pub open spec fn shown_row(
    key: ThreadKey,
    stats: ThreadStatsView,
    account: AccountView,
    blocked: Set<u32>,
) -> ProcessRowView {
    ProcessRowView {
        info: stats.info,
        tx_bytes: stats.tx_bytes_total,
        rx_bytes: stats.rx_bytes_total,
        last_seen: stats.last_seen,
        tx_history: stats.tx_history,
        rx_history: stats.rx_history,
        is_blocked: blocked.contains(key.pid),
        connections: shown_connections(account.cache, account.connections, key),
    }
}

/// `a` comes before `b` by process id, then by thread id.
pub open spec fn thread_before(a: ThreadKey, b: ThreadKey) -> bool {
    a.pid < b.pid || (a.pid == b.pid && a.tid < b.tid)
}

/// The thread that a row shows.
pub open spec fn row_key(row: ProcessRowView) -> ThreadKey {
    ThreadKey { pid: row.info.pid, tid: row.info.tid }
}

/// `rows` shows every thread of the account once, ordered by process id and
/// thread id.
pub open spec fn shows_account(
    rows: Seq<ProcessRowView>,
    account: AccountView,
    blocked: Set<u32>,
) -> bool {
    &&& forall|i: int, j: int|
        0 <= i < j < rows.len() ==> thread_before(#[trigger] row_key(rows[i]), #[trigger] row_key(
            rows[j],
        ))
    &&& forall|i: int|
        0 <= i < rows.len() ==> {
            let key = row_key(#[trigger] rows[i]);
            account.threads.contains_key(key) && rows[i] == shown_row(
                key,
                account.threads[key],
                account,
                blocked,
            )
        }
    &&& forall|key: ThreadKey| #[trigger]
        account.threads.contains_key(key) ==> exists|i: int|
            0 <= i < rows.len() && row_key(#[trigger] rows[i]) == key
}

/// The interface as it is shown.
pub open spec fn shows_interface(stats: InterfaceStats, counters: InterfaceCountersView) -> bool {
    &&& stats.tx_bytes_total == counters.tx_total
    &&& stats.rx_bytes_total == counters.rx_total
    &&& stats.current_bandwidth_bytes_per_sec == account::current_bandwidth(counters)
    &&& stats.peak_bandwidth_bytes_per_sec == counters.peak_bandwidth
    &&& stats.tx_history@ == counters.tx_history
    &&& stats.rx_history@ == counters.rx_history
}

/// Makes up a listed connection for display.
fn show_connection(
    connection: &ResolvedConnection,
    stats: &Table<ConnectionKey, ConnectionStats>,
) -> (entry: ConnectionEntry)
    requires
        stats.well_formed(),
    ensures
        entry@ == shown_connection(connection@, stats@),
{
    let key = ConnectionKey {
        pid: connection.pid,
        tid: connection.tid,
        local_addr: connection.local_addr,
        remote_addr: connection.remote_addr,
        protocol: connection.protocol,
    };
    let reverse = ConnectionKey {
        pid: connection.pid,
        tid: connection.tid,
        local_addr: connection.remote_addr,
        remote_addr: connection.local_addr,
        protocol: connection.protocol,
    };
    assert(reverse == turned_around(counted_as(connection@)));
    let (tx_bytes, rx_bytes): (u64, u64) = match stats.get(&key) {
        Some(found) => (found.tx_bytes, found.rx_bytes),
        None => match stats.get(&reverse) {
            Some(found) => (found.rx_bytes, found.tx_bytes),
            None => (0, 0),
        },
    };
    ConnectionEntry {
        local_addr: connection.local_addr,
        remote_addr: connection.remote_addr,
        protocol: connection.protocol,
        state: connection.state.clone(),
        pid: connection.pid,
        tid: connection.tid,
        process: connection.process.clone(),
        thread_name: connection.thread_name.clone(),
        username: connection.username.clone(),
        tx_bytes,
        rx_bytes,
    }
}

/// Makes up the connections of one thread for display.
fn show_connections(
    cache: &Vec<ResolvedConnection>,
    stats: &Table<ConnectionKey, ConnectionStats>,
    key: ThreadKey,
) -> (entries: Vec<ConnectionEntry>)
    requires
        stats.well_formed(),
    ensures
        aggregator::entry_views(entries@) == shown_connections(
            resolver::connection_views(cache@),
            stats@,
            key,
        ),
{
    let ghost all = resolver::connection_views(cache@);
    let mut entries: Vec<ConnectionEntry> = Vec::new();
    let mut i: usize = 0;
    assert(all.take(0) =~= Seq::empty());
    assert(aggregator::entry_views(entries@) =~= Seq::empty());
    while i < cache.len()
        invariant
            i <= cache@.len(),
            stats.well_formed(),
            all == resolver::connection_views(cache@),
            aggregator::entry_views(entries@) == shown_connections(all.take(i as int), stats@, key),
        decreases cache@.len() - i,
    {
        assert(all.take(i + 1).drop_last() =~= all.take(i as int));
        assert(all.take(i + 1).last() == cache@[i as int]@);
        if cache[i].pid == key.pid && cache[i].tid == key.tid {
            let entry = show_connection(&cache[i], stats);
            assert(aggregator::entry_views(entries@.push(entry)) =~= aggregator::entry_views(
                entries@,
            ).push(entry@));
            entries.push(entry);
        }
        i += 1;
    }
    assert(all.take(all.len() as int) =~= all);
    entries
}

impl Account {
    /// The threads as they are shown, ordered by process id and thread id.
    pub fn rows(&self, blocked: &HashSet<u32>) -> (rows: Vec<ProcessRow>)
        requires
            self.well_formed(),
        ensures
            shows_account(aggregator::row_views(rows@), self@, blocked@),
    {
        proof {
            self.lemma_sound();
        }
        let ghost order = self.thread_order();
        let ghost threads = self@.threads;
        let mut rows: Vec<ProcessRow> = Vec::new();
        let mut keys: Vec<Triple> = Vec::new();
        let count: usize = self.thread_count();
        let mut i: usize = 0;
        while i < count
            invariant
                i <= count,
                count == order.len(),
                self.well_formed(),
                account::account_sound(self@),
                order == self.thread_order(),
                threads == self@.threads,
                rows@.len() == i,
                keys@.len() == i,
                forall|j: int|
                    0 <= j < i ==> (#[trigger] rows@[j])@ == shown_row(
                        order[j],
                        threads[order[j]],
                        self@,
                        blocked@,
                    ),
                forall|j: int|
                    0 <= j < i ==> #[trigger] keys@[j] == (Triple {
                        first: 0,
                        second: order[j].pid,
                        third: order[j].tid,
                    }),
            decreases count - i,
        {
            let (key, stats) = self.thread_at(i);
            rows.push(
                ProcessRow {
                    info: stats.info.duplicate(),
                    tx_bytes: stats.tx_bytes_total,
                    rx_bytes: stats.rx_bytes_total,
                    last_seen: stats.last_seen,
                    tx_history: stats.tx_history,
                    rx_history: stats.rx_history,
                    is_blocked: blocked.contains(&key.pid),
                    connections: show_connections(
                        self.listed_connections(),
                        self.connection_table(),
                        key,
                    ),
                },
            );
            keys.push(Triple { first: 0, second: key.pid, third: key.tid });
            i += 1;
        }
        let positions = sort::sorted_order(&keys, false);
        let ghost unsorted = rows@;
        let sorted = sort::reorder(rows, &positions);
        proof {
            self.lemma_threads();
            let views = aggregator::row_views(sorted@);
            assert forall|i: int| 0 <= i < views.len() implies {
                let at = positions@[i] as int;
                &&& 0 <= at < order.len()
                &&& #[trigger] views[i] == shown_row(order[at], threads[order[at]], self@, blocked@)
                &&& row_key(views[i]) == order[at]
                &&& threads.contains_key(order[at])
            } by {
                let at = positions@[i] as int;
                assert(views[i] == unsorted[at]@);
                assert(threads.contains_key(order[at]));
            }
            assert forall|i: int, j: int| 0 <= i < j < views.len() implies thread_before(
                #[trigger] row_key(views[i]),
                #[trigger] row_key(views[j]),
            ) by {
                let a = positions@[i] as int;
                let b = positions@[j] as int;
                assert(sort::goes_before(keys@, false, a, b));
                assert(order[a] != order[b]);
                assert(views[i] == shown_row(order[a], threads[order[a]], self@, blocked@));
                assert(views[j] == shown_row(order[b], threads[order[b]], self@, blocked@));
                assert(sort::ranks(keys@, false, a, b));
            }
            assert forall|key: ThreadKey| #[trigger] threads.contains_key(key) implies exists|
                i: int,
            |
                0 <= i < views.len() && row_key(#[trigger] views[i]) == key by {
                let at = choose|at: int| 0 <= at < order.len() && order[at] == key;
                sort::lemma_range_contains(positions@, order.len() as int, at);
                let i = choose|i: int| 0 <= i < positions@.len() && positions@[i] == at;
                assert(row_key(views[i]) == key);
            }
        }
        sorted
    }

    /// The totals of the interface.
    pub fn interface_stats(&self) -> (stats: InterfaceStats)
        ensures
            shows_interface(stats, self@.interface),
    {
        let counters = self.interface_counters();
        InterfaceStats {
            tx_bytes_total: counters.tx_total,
            rx_bytes_total: counters.rx_total,
            current_bandwidth_bytes_per_sec: counters.tx_history[0].saturating_add(
                counters.rx_history[0],
            ),
            peak_bandwidth_bytes_per_sec: counters.peak_bandwidth,
            tx_history: counters.tx_history,
            rx_history: counters.rx_history,
        }
    }
}

/// An account is shown in one way only.
pub proof fn rows_are_determined(
    a: Seq<ProcessRowView>,
    b: Seq<ProcessRowView>,
    account: AccountView,
    blocked: Set<u32>,
)
    requires
        shows_account(a, account, blocked),
        shows_account(b, account, blocked),
    ensures
        a == b,
{
    lemma_no_more_rows(a, b, account, blocked, a.len() as int);
    lemma_no_more_rows(b, a, account, blocked, b.len() as int);
    assert(a =~= b);
}

proof fn lemma_no_more_rows(
    a: Seq<ProcessRowView>,
    b: Seq<ProcessRowView>,
    account: AccountView,
    blocked: Set<u32>,
    n: int,
)
    requires
        shows_account(a, account, blocked),
        shows_account(b, account, blocked),
        0 <= n <= a.len(),
    ensures
        n <= b.len(),
        forall|i: int| 0 <= i < n ==> a[i] == b[i],
    decreases n,
{
    if n > 0 {
        lemma_no_more_rows(a, b, account, blocked, n - 1);
        let at = n - 1;
        let key = row_key(a[at]);
        assert(account.threads.contains_key(key));
        let j = choose|j: int| 0 <= j < b.len() && row_key(#[trigger] b[j]) == key;
        if j < at {
            assert(a[j] == b[j]);
            assert(thread_before(row_key(a[j]), row_key(a[at])));
        }
        if j > at {
            let other = row_key(b[at]);
            assert(thread_before(other, row_key(b[j])));
            assert(account.threads.contains_key(other));
            let k = choose|k: int| 0 <= k < a.len() && row_key(#[trigger] a[k]) == other;
            if k < at {
                assert(a[k] == b[k]);
                assert(thread_before(row_key(b[k]), row_key(b[at])));
            } else if k > at {
                assert(thread_before(row_key(a[at]), row_key(a[k])));
            }
        }
    }
}

/// A counted packet is shown: the row of its owner names the owner, tells when
/// the owner was last seen, and has the packet's bytes in its totals.
pub proof fn a_counted_packet_is_shown(
    account: AccountView,
    record: FlowRecord,
    info: ProcessInfoView,
    now: u64,
    rows: Seq<ProcessRowView>,
    blocked: Set<u32>,
)
    requires
        shows_account(rows, account::packet_counted(account, record, info, now), blocked),
    ensures
        ({
            let key = ThreadKey { pid: info.pid, tid: info.tid };
            let before = if account.threads.contains_key(key) {
                account.threads[key]
            } else {
                aggregator::new_thread(info, now)
            };
            exists|i: int|
                0 <= i < rows.len() && (#[trigger] rows[i]).info == info && rows[i].last_seen
                    == now && rows[i].is_blocked == blocked.contains(info.pid) && match record.direction {
                    Direction::Tx => rows[i].tx_bytes == before.tx_bytes_total.saturating_add(
                        record.byte_count as u64,
                    ) && rows[i].rx_bytes == before.rx_bytes_total,
                    Direction::Rx => rows[i].rx_bytes == before.rx_bytes_total.saturating_add(
                        record.byte_count as u64,
                    ) && rows[i].tx_bytes == before.tx_bytes_total,
                }
        }),
{
    let after = account::packet_counted(account, record, info, now);
    let key = ThreadKey { pid: info.pid, tid: info.tid };
    assert(after.threads.contains_key(key));
    let i = choose|i: int| 0 <= i < rows.len() && row_key(#[trigger] rows[i]) == key;
    assert(rows[i] == shown_row(key, after.threads[key], after, blocked));
}

/// Turning a connection around twice gives the connection.
pub proof fn turning_twice(key: ConnectionKey)
    ensures
        turned_around(turned_around(key)) == key,
{
}

} // verus!
