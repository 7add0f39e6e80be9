//! What holds of the account as a whole: every byte is counted once for its
//! thread, its connection and the interface, seconds become samples, and the
//! peak is the busiest second.

use vstd::prelude::*;

use crate::aggregator;
use crate::aggregator::account;
use crate::aggregator::account::{AccountView, InterfaceCountersView, TimedRecord};
use crate::aggregator::export;
use crate::aggregator::export::{HistoryCsvRow, HistoryCsvRowView};
use crate::aggregator::snapshot;
use crate::aggregator::{
    ConnectionKey, ConnectionStats, InterfaceStats, ProcessRowView, ThreadKey, ThreadStatsView,
};
use crate::capture::{Direction, FlowKey, FlowRecord};
use crate::collections;
use crate::number;
use crate::resolver;
use crate::resolver::{ProcessInfo, ProcessInfoView, ResolvedConnectionView, ResolverCache};
use crate::sort;
use crate::text;

verus! {

// ---------------------------------------------------------------------------
// Sums of bytes
// ---------------------------------------------------------------------------

/// A packet, the owner it is counted for, and when.
pub struct OwnedPacket {
    pub record: FlowRecord,
    pub owner: ProcessInfoView,
    pub now: u64,
}

/// The thread of a packet's owner.
pub open spec fn thread_of(packet: OwnedPacket) -> ThreadKey {
    ThreadKey { pid: packet.owner.pid, tid: packet.owner.tid }
}

/// The account after packets, one after the other.
pub open spec fn all_counted(account: AccountView, packets: Seq<OwnedPacket>) -> AccountView
    decreases packets.len(),
{
    if packets.len() == 0 {
        account
    } else {
        account::packet_counted(
            all_counted(account, packets.drop_last()),
            packets.last().record,
            packets.last().owner,
            packets.last().now,
        )
    }
}

/// The bytes that the packets carry in a direction, as far as `chosen` takes
/// them.
pub open spec fn bytes_of(
    packets: Seq<OwnedPacket>,
    direction: Direction,
    chosen: spec_fn(OwnedPacket) -> bool,
) -> nat
    decreases packets.len(),
{
    if packets.len() == 0 {
        0
    } else {
        let before = bytes_of(packets.drop_last(), direction, chosen);
        if packets.last().record.direction == direction && chosen(packets.last()) {
            before + packets.last().record.byte_count as nat
        } else {
            before
        }
    }
}

/// A count that stops at the largest value.
pub open spec fn up_to_max(n: nat) -> u64 {
    if n > 0xffff_ffff_ffff_ffff {
        0xffff_ffff_ffff_ffff
    } else {
        n as u64
    }
}

/// The packets of a thread.
pub open spec fn by_thread(key: ThreadKey) -> spec_fn(OwnedPacket) -> bool {
    |packet: OwnedPacket| thread_of(packet) == key
}

/// All packets.
pub open spec fn by_anyone() -> spec_fn(OwnedPacket) -> bool {
    |packet: OwnedPacket| true
}

/// Some packet belongs to the thread.
pub open spec fn has_packet(packets: Seq<OwnedPacket>, key: ThreadKey) -> bool {
    exists|i: int| 0 <= i < packets.len() && thread_of(#[trigger] packets[i]) == key
}

proof fn lemma_has_packet(packets: Seq<OwnedPacket>, key: ThreadKey)
    requires
        packets.len() > 0,
    ensures
        has_packet(packets, key) <==> has_packet(packets.drop_last(), key) || thread_of(
            packets.last(),
        ) == key,
{
    let before = packets.drop_last();
    if has_packet(before, key) {
        let i = choose|i: int| 0 <= i < before.len() && thread_of(#[trigger] before[i]) == key;
        assert(packets[i] == before[i]);
    }
    if has_packet(packets, key) {
        let i = choose|i: int| 0 <= i < packets.len() && thread_of(#[trigger] packets[i]) == key;
        if i < before.len() {
            assert(before[i] == packets[i]);
        }
    }
    assert(packets[packets.len() - 1] == packets.last());
}

/// Over any sequence of packets, the totals and the current second of a thread
/// grow by the bytes of all its packets, each direction by its own, and those of
/// a thread without packets stay as they are. A thread that is new starts at
/// zero.
pub proof fn threads_count_all_their_bytes(
    account: AccountView,
    packets: Seq<OwnedPacket>,
    key: ThreadKey,
)
    ensures
        ({
            let after = all_counted(account, packets);
            let known = account.threads.contains_key(key);
            let tx = bytes_of(packets, Direction::Tx, by_thread(key));
            let rx = bytes_of(packets, Direction::Rx, by_thread(key));
            let before = account.threads[key];
            &&& after.threads.contains_key(key) <==> known || has_packet(packets, key)
            &&& known ==> {
                &&& after.threads[key].tx_bytes_total == up_to_max(before.tx_bytes_total as nat + tx)
                &&& after.threads[key].rx_bytes_total == up_to_max(before.rx_bytes_total as nat + rx)
                &&& after.threads[key].tx_current_second == up_to_max(
                    before.tx_current_second as nat + tx,
                )
                &&& after.threads[key].rx_current_second == up_to_max(
                    before.rx_current_second as nat + rx,
                )
                &&& after.threads[key].tx_history == before.tx_history
                &&& after.threads[key].rx_history == before.rx_history
            }
            &&& !known && has_packet(packets, key) ==> {
                &&& after.threads[key].tx_bytes_total == up_to_max(tx)
                &&& after.threads[key].rx_bytes_total == up_to_max(rx)
                &&& after.threads[key].tx_current_second == up_to_max(tx)
                &&& after.threads[key].rx_current_second == up_to_max(rx)
                &&& after.threads[key].tx_history == Seq::new(40, |i: int| 0u64)
                &&& after.threads[key].rx_history == Seq::new(40, |i: int| 0u64)
            }
            &&& known && !has_packet(packets, key) ==> after.threads[key] == before
            &&& !has_packet(packets, key) ==> tx == 0 && rx == 0
        }),
    decreases packets.len(),
{
    if packets.len() > 0 {
        threads_count_all_their_bytes(account, packets.drop_last(), key);
        lemma_has_packet(packets, key);
        assert(aggregator::quiet_history() =~= Seq::new(40, |i: int| 0u64));
    }
}

/// The last packet of a thread says who the thread is and when it was last seen.
pub proof fn the_last_packet_tells_the_owner(
    account: AccountView,
    packets: Seq<OwnedPacket>,
    at: int,
)
    requires
        0 <= at < packets.len(),
        forall|later: int|
            at < later < packets.len() ==> thread_of(#[trigger] packets[later]) != thread_of(
                packets[at],
            ),
    ensures
        ({
            let thread = all_counted(account, packets).threads[thread_of(packets[at])];
            thread.info == packets[at].owner && thread.last_seen == packets[at].now
        }),
    decreases packets.len(),
{
    assert(packets[packets.len() - 1] == packets.last());
    if at < packets.len() - 1 {
        let before = packets.drop_last();
        assert(before[at] == packets[at]);
        assert forall|later: int| at < later < before.len() implies thread_of(
            #[trigger] before[later],
        ) != thread_of(before[at]) by {
            assert(before[later] == packets[later]);
        }
        the_last_packet_tells_the_owner(account, before, at);
    }
}

/// Over any sequence of packets, the totals and the current second of the
/// interface grow by the bytes of all packets, whoever owns them.
pub proof fn the_interface_counts_all_bytes(account: AccountView, packets: Seq<OwnedPacket>)
    ensures
        ({
            let after = all_counted(account, packets);
            let tx = bytes_of(packets, Direction::Tx, by_anyone());
            let rx = bytes_of(packets, Direction::Rx, by_anyone());
            let before = account.interface;
            &&& after.interface.tx_total == up_to_max(before.tx_total as nat + tx)
            &&& after.interface.rx_total == up_to_max(before.rx_total as nat + rx)
            &&& after.interface.tx_current_second == up_to_max(before.tx_current_second as nat + tx)
            &&& after.interface.rx_current_second == up_to_max(before.rx_current_second as nat + rx)
            &&& after.interface.tx_history == before.tx_history
            &&& after.interface.rx_history == before.rx_history
            &&& after.interface.peak_bandwidth == before.peak_bandwidth
            &&& after.cache == account.cache
            &&& after.last_rotation == account.last_rotation
            &&& after.last_proc_scan == account.last_proc_scan
        }),
    decreases packets.len(),
{
    if packets.len() > 0 {
        the_interface_counts_all_bytes(account, packets.drop_last());
    }
}

/// The connection that a packet belongs to, seen from this side.
pub open spec fn connection_of_packet(packet: OwnedPacket) -> ConnectionKey {
    let key = packet.record.key;
    let src = crate::net::SocketAddr { ip: key.src_ip, port: key.src_port };
    let dst = crate::net::SocketAddr { ip: key.dst_ip, port: key.dst_port };
    let sent = packet.record.direction == Direction::Tx;
    ConnectionKey {
        pid: packet.owner.pid,
        tid: packet.owner.tid,
        local_addr: if sent {
            src
        } else {
            dst
        },
        remote_addr: if sent {
            dst
        } else {
            src
        },
        protocol: key.protocol,
    }
}

/// The packets of a connection.
pub open spec fn by_connection(key: ConnectionKey) -> spec_fn(OwnedPacket) -> bool {
    |packet: OwnedPacket| connection_of_packet(packet) == key
}

/// Over any sequence of packets, the counts of a connection grow by the bytes of
/// all its packets, each direction by its own, and no other connection changes.
pub proof fn connections_count_all_their_bytes(
    account: AccountView,
    packets: Seq<OwnedPacket>,
    key: ConnectionKey,
)
    requires
        account.connections.contains_key(key),
    ensures
        ({
            let after = all_counted(account, packets);
            let tx = bytes_of(packets, Direction::Tx, by_connection(key));
            let rx = bytes_of(packets, Direction::Rx, by_connection(key));
            let before = account.connections[key];
            &&& after.connections.contains_key(key)
            &&& after.connections[key].tx_bytes == up_to_max(before.tx_bytes as nat + tx)
            &&& after.connections[key].rx_bytes == up_to_max(before.rx_bytes as nat + rx)
        }),
    decreases packets.len(),
{
    if packets.len() > 0 {
        connections_count_all_their_bytes(account, packets.drop_last(), key);
        let last = packets.last();
        assert(account::packet_connection(last.record, thread_of(last)) == connection_of_packet(
            last,
        ));
    }
}

/// The first packet of a connection enters it with its bytes.
pub proof fn new_connections_start_with_their_packet(account: AccountView, packet: OwnedPacket)
    requires
        !account.connections.contains_key(connection_of_packet(packet)),
    ensures
        ({
            let after = account::packet_counted(account, packet.record, packet.owner, packet.now);
            let stats = after.connections[connection_of_packet(packet)];
            &&& after.connections.contains_key(connection_of_packet(packet))
            &&& stats.last_seen == packet.now
            &&& packet.record.direction == Direction::Tx ==> stats.tx_bytes
                == packet.record.byte_count && stats.rx_bytes == 0
            &&& packet.record.direction == Direction::Rx ==> stats.rx_bytes
                == packet.record.byte_count && stats.tx_bytes == 0
        }),
{
    assert(account::packet_connection(packet.record, thread_of(packet)) == connection_of_packet(
        packet,
    ));
}

/// A connection that is new is counted from zero: after any sequence of packets
/// it is there exactly if one of them belongs to it, with the bytes of all that
/// do.
pub proof fn new_connections_count_from_zero(
    account: AccountView,
    packets: Seq<OwnedPacket>,
    key: ConnectionKey,
)
    requires
        !account.connections.contains_key(key),
    ensures
        ({
            let after = all_counted(account, packets);
            let tx = bytes_of(packets, Direction::Tx, by_connection(key));
            let rx = bytes_of(packets, Direction::Rx, by_connection(key));
            &&& after.connections.contains_key(key) <==> exists|i: int|
                0 <= i < packets.len() && connection_of_packet(#[trigger] packets[i]) == key
            &&& after.connections.contains_key(key) ==> after.connections[key].tx_bytes
                == up_to_max(tx) && after.connections[key].rx_bytes == up_to_max(rx)
            &&& !after.connections.contains_key(key) ==> tx == 0 && rx == 0
        }),
    decreases packets.len(),
{
    if packets.len() > 0 {
        let before = packets.drop_last();
        let last = packets.last();
        new_connections_count_from_zero(account, before, key);
        assert(account::packet_connection(last.record, thread_of(last)) == connection_of_packet(
            last,
        ));
        assert(packets[packets.len() - 1] == last);
        if exists|i: int|
            0 <= i < before.len() && connection_of_packet(#[trigger] before[i]) == key {
            let i = choose|i: int|
                0 <= i < before.len() && connection_of_packet(#[trigger] before[i]) == key;
            assert(packets[i] == before[i]);
        }
        if exists|i: int|
            0 <= i < packets.len() && connection_of_packet(#[trigger] packets[i]) == key {
            let i = choose|i: int|
                0 <= i < packets.len() && connection_of_packet(#[trigger] packets[i]) == key;
            if i < before.len() {
                assert(before[i] == packets[i]);
            }
        }
    }
}

/// An update of a connection adds its bytes to the direction that they went,
/// however many they are, marks the connection as seen, and leaves all others as
/// they are.
pub proof fn updates_touch_one_connection(
    connections: Map<ConnectionKey, ConnectionStats>,
    flow: FlowKey,
    thread: ThreadKey,
    bytes: u64,
    sent: bool,
    now: u64,
    other: ConnectionKey,
)
    ensures
        ({
            let src = crate::net::SocketAddr { ip: flow.src_ip, port: flow.src_port };
            let dst = crate::net::SocketAddr { ip: flow.dst_ip, port: flow.dst_port };
            let own = ConnectionKey {
                pid: thread.pid,
                tid: thread.tid,
                local_addr: if sent {
                    src
                } else {
                    dst
                },
                remote_addr: if sent {
                    dst
                } else {
                    src
                },
                protocol: flow.protocol,
            };
            let after = account::connection_counted(connections, flow, thread, bytes, sent, now);
            let known = connections.contains_key(own);
            let tx: nat = if known {
                connections[own].tx_bytes as nat
            } else {
                0
            };
            let rx: nat = if known {
                connections[own].rx_bytes as nat
            } else {
                0
            };
            &&& after.contains_key(own)
            &&& after[own].last_seen == now
            &&& sent ==> after[own].tx_bytes == up_to_max(tx + bytes as nat) && after[own].rx_bytes
                == rx
            &&& !sent ==> after[own].rx_bytes == up_to_max(rx + bytes as nat)
                && after[own].tx_bytes == tx
            &&& other != own ==> after.contains_key(other) == connections.contains_key(other)
                && after[other] == connections[other]
        }),
{
}

// ---------------------------------------------------------------------------
// Seconds
// ---------------------------------------------------------------------------

/// A second becomes a sample: once the histories have moved on after any
/// sequence of packets, the newest sample of a thread in each direction is the
/// sum of the bytes of its packets since they last moved, and that of the
/// interface is the sum of the bytes of all of them; the older samples have
/// moved back by one, and counting starts at zero again.
pub proof fn seconds_become_samples(
    account: AccountView,
    packets: Seq<OwnedPacket>,
    key: ThreadKey,
    now: u64,
)
    requires
        account::account_sound(account),
        account.interface.tx_current_second == 0,
        account.interface.rx_current_second == 0,
        account.threads.contains_key(key) ==> account.threads[key].tx_current_second == 0
            && account.threads[key].rx_current_second == 0,
    ensures
        ({
            let after = account::histories_rotated(all_counted(account, packets), now);
            let thread = after.threads[key];
            &&& account.threads.contains_key(key) || has_packet(packets, key) ==> {
                &&& after.threads.contains_key(key)
                &&& thread.tx_history[0] == up_to_max(
                    bytes_of(packets, Direction::Tx, by_thread(key)),
                )
                &&& thread.rx_history[0] == up_to_max(
                    bytes_of(packets, Direction::Rx, by_thread(key)),
                )
                &&& thread.tx_current_second == 0
                &&& thread.rx_current_second == 0
                &&& thread.tx_history.len() == 40
                &&& thread.rx_history.len() == 40
            }
            &&& account.threads.contains_key(key) ==> forall|i: int|
                0 <= i < 39 ==> thread.tx_history[i + 1] == #[trigger] account.threads[key].tx_history[i]
                    && thread.rx_history[i + 1] == account.threads[key].rx_history[i]
            &&& after.interface.tx_history[0] == up_to_max(
                bytes_of(packets, Direction::Tx, by_anyone()),
            )
            &&& after.interface.rx_history[0] == up_to_max(
                bytes_of(packets, Direction::Rx, by_anyone()),
            )
            &&& forall|i: int|
                0 <= i < 39 ==> after.interface.tx_history[i + 1]
                    == #[trigger] account.interface.tx_history[i] && after.interface.rx_history[i
                    + 1] == account.interface.rx_history[i]
            &&& after.interface.tx_current_second == 0
            &&& after.interface.rx_current_second == 0
            &&& after.last_rotation == now
        }),
{
    threads_count_all_their_bytes(account, packets, key);
    the_interface_counts_all_bytes(account, packets);
}

/// What one second brought in both directions.
pub open spec fn bandwidth_of(second: Seq<OwnedPacket>) -> u64 {
    up_to_max(
        up_to_max(bytes_of(second, Direction::Tx, by_anyone())) as nat + up_to_max(
            bytes_of(second, Direction::Rx, by_anyone()),
        ) as nat,
    )
}

/// The account after some seconds: the packets of each are counted, and then the
/// histories move on.
pub open spec fn seconds_passed(
    account: AccountView,
    seconds: Seq<Seq<OwnedPacket>>,
    now: u64,
) -> AccountView
    decreases seconds.len(),
{
    if seconds.len() == 0 {
        account
    } else {
        account::histories_rotated(
            all_counted(seconds_passed(account, seconds.drop_last(), now), seconds.last()),
            now,
        )
    }
}

/// After a second the peak is the larger of what it was and of what the second
/// brought.
pub proof fn the_peak_is_old_or_new(account: AccountView, now: u64)
    requires
        account::account_sound(account),
    ensures
        ({
            let after = account::histories_rotated(account, now).interface;
            let second = up_to_max(
                account.interface.tx_current_second as nat
                    + account.interface.rx_current_second as nat,
            );
            &&& second > account.interface.peak_bandwidth ==> after.peak_bandwidth == second
            &&& second <= account.interface.peak_bandwidth ==> after.peak_bandwidth
                == account.interface.peak_bandwidth
        }),
{
}

/// Over any run of seconds the peak is that of the busiest one: no second
/// brought more, and unless it was there before, some second brought just that.
/// The current bandwidth is that of the last second.
pub proof fn the_peak_is_the_busiest_second(
    account: AccountView,
    seconds: Seq<Seq<OwnedPacket>>,
    now: u64,
)
    requires
        account::account_sound(account),
        account.interface.tx_current_second == 0,
        account.interface.rx_current_second == 0,
    ensures
        ({
            let after = seconds_passed(account, seconds, now).interface;
            &&& after.peak_bandwidth >= account.interface.peak_bandwidth
            &&& forall|i: int|
                0 <= i < seconds.len() ==> after.peak_bandwidth >= bandwidth_of(
                    #[trigger] seconds[i],
                )
            &&& after.peak_bandwidth == account.interface.peak_bandwidth || exists|i: int|
                0 <= i < seconds.len() && after.peak_bandwidth == bandwidth_of(
                    #[trigger] seconds[i],
                )
            &&& seconds.len() > 0 ==> account::current_bandwidth(after) == bandwidth_of(
                seconds.last(),
            )
            &&& after.tx_current_second == 0
            &&& after.rx_current_second == 0
            &&& after.tx_history.len() == account.interface.tx_history.len()
            &&& after.rx_history.len() == account.interface.rx_history.len()
        }),
    decreases seconds.len(),
{
    if seconds.len() > 0 {
        let before = seconds.drop_last();
        the_peak_is_the_busiest_second(account, before, now);
        let earlier = seconds_passed(account, before, now);
        let counted = all_counted(earlier, seconds.last());
        the_interface_counts_all_bytes(earlier, seconds.last());
        let after = seconds_passed(account, seconds, now).interface;
        let last = bandwidth_of(seconds.last());
        assert(seconds[seconds.len() - 1] == seconds.last());
        assert(account::current_bandwidth(after) == last);
        assert(after.peak_bandwidth >= last);
        assert(after.peak_bandwidth >= earlier.interface.peak_bandwidth);
        assert(after.peak_bandwidth == last || after.peak_bandwidth
            == earlier.interface.peak_bandwidth);
        assert forall|i: int| 0 <= i < seconds.len() implies after.peak_bandwidth >= bandwidth_of(
            #[trigger] seconds[i],
        ) by {
            if i < before.len() {
                assert(before[i] == seconds[i]);
            }
        }
        if after.peak_bandwidth != last && after.peak_bandwidth
            != account.interface.peak_bandwidth {
            let i = choose|i: int|
                0 <= i < before.len() && earlier.interface.peak_bandwidth == bandwidth_of(
                    #[trigger] before[i],
                );
            assert(seconds[i] == before[i]);
        }
    }
}

/// The histories of the interface hold the last seconds, the newest first.
pub proof fn histories_hold_the_last_seconds(
    account: AccountView,
    seconds: Seq<Seq<OwnedPacket>>,
    now: u64,
    back: int,
)
    requires
        account::account_sound(account),
        account.interface.tx_current_second == 0,
        account.interface.rx_current_second == 0,
        0 <= back < seconds.len(),
        back < 40,
    ensures
        ({
            let after = seconds_passed(account, seconds, now).interface;
            let second = seconds[seconds.len() - 1 - back];
            &&& after.tx_history[back] == up_to_max(bytes_of(second, Direction::Tx, by_anyone()))
            &&& after.rx_history[back] == up_to_max(bytes_of(second, Direction::Rx, by_anyone()))
        }),
    decreases seconds.len(),
{
    let before = seconds.drop_last();
    let earlier = seconds_passed(account, before, now);
    the_peak_is_the_busiest_second(account, before, now);
    the_interface_counts_all_bytes(earlier, seconds.last());
    if back > 0 {
        histories_hold_the_last_seconds(account, before, now, back - 1);
        assert(before[before.len() - 1 - (back - 1)] == seconds[seconds.len() - 1 - back]);
    }
}

// ---------------------------------------------------------------------------
// The end of a cycle
// ---------------------------------------------------------------------------

/// A thread is kept for thirty seconds after its last packet and no longer, and
/// a connection as long as that and as its thread.
pub proof fn idle_for_thirty_seconds_is_dropped(
    account: AccountView,
    owners: Map<u64, ProcessInfoView>,
    now: u64,
    key: ThreadKey,
    connection: ConnectionKey,
)
    ensures
        ({
            let after = account::cycle_finished(account, owners, now);
            &&& after.threads.contains_key(key) <==> account.threads.contains_key(key) && now
                - account.threads[key].last_seen <= 30_000_000_000
            &&& after.connections.contains_key(connection) <==> {
                &&& account.connections.contains_key(connection)
                &&& now - account.connections[connection].last_seen <= 30_000_000_000
                &&& after.threads.contains_key(
                    ThreadKey { pid: connection.pid, tid: connection.tid },
                )
            }
            &&& after.connections.contains_key(connection) ==> after.connections[connection]
                == account.connections[connection]
            &&& after.cache == account.cache
        }),
{
}

/// A cycle marks exactly the threads of processes that own no socket any more,
/// once and behind the name, and leaves everything else about them as it is.
pub proof fn exited_processes_are_marked(
    account: AccountView,
    owners: Map<u64, ProcessInfoView>,
    now: u64,
    key: ThreadKey,
)
    requires
        account::cycle_finished(account, owners, now).threads.contains_key(key),
    ensures
        ({
            let before = account.threads[key];
            let after = account::cycle_finished(account, owners, now).threads[key];
            let alive = exists|inode: u64| #[trigger]
                owners.contains_key(inode) && owners[inode].pid == key.pid;
            &&& key.pid == 0 || alive ==> after.info == before.info
            &&& key.pid != 0 && !alive ==> {
                &&& text::ends_in(after.info.name, " [exited]"@)
                &&& text::ends_in(before.info.name, " [exited]"@) ==> after.info.name
                    == before.info.name
                &&& !text::ends_in(before.info.name, " [exited]"@) ==> after.info.name
                    == before.info.name + " [exited]"@
                &&& after.info.pid == before.info.pid
                &&& after.info.tid == before.info.tid
                &&& after.info.uid == before.info.uid
                &&& after.info.thread_name == before.info.thread_name
                &&& after.info.username == before.info.username
            }
            &&& after.last_seen == before.last_seen
            &&& after.tx_bytes_total == before.tx_bytes_total
            &&& after.rx_bytes_total == before.rx_bytes_total
        }),
{
    let name = account.threads[key].info.name;
    let marked = name + " [exited]"@;
    assert(marked.skip(marked.len() - " [exited]"@.len()) =~= " [exited]"@);
}

/// The histories move on after a full second and not before, and until then a
/// cycle leaves samples and running counts alone.
pub proof fn histories_move_once_a_second(
    account: AccountView,
    owners: Map<u64, ProcessInfoView>,
    now: u64,
    key: ThreadKey,
)
    ensures
        account::rotation_due(account, now) <==> now - account.last_rotation >= 1_000_000_000,
        ({
            let after = account::cycle_finished(account, owners, now);
            &&& now - account.last_rotation < 1_000_000_000 ==> {
                &&& after.interface == account.interface
                &&& after.last_rotation == account.last_rotation
                &&& after.threads.contains_key(key) ==> {
                    &&& after.threads[key].tx_history == account.threads[key].tx_history
                    &&& after.threads[key].rx_history == account.threads[key].rx_history
                    &&& after.threads[key].tx_current_second
                        == account.threads[key].tx_current_second
                    &&& after.threads[key].rx_current_second
                        == account.threads[key].rx_current_second
                }
            }
            &&& now - account.last_rotation >= 1_000_000_000 ==> after.last_rotation == now
        }),
{
}

/// A cycle at the end of a second takes a sample of every thread that it keeps
/// and of the interface, moves the older samples back, and raises the peak where
/// the second brought more.
pub proof fn cycles_take_the_samples(
    account: AccountView,
    owners: Map<u64, ProcessInfoView>,
    now: u64,
    key: ThreadKey,
)
    requires
        account::account_sound(account),
        now - account.last_rotation >= 1_000_000_000,
    ensures
        ({
            let after = account::cycle_finished(account, owners, now);
            let second = up_to_max(
                account.interface.tx_current_second as nat
                    + account.interface.rx_current_second as nat,
            );
            &&& after.threads.contains_key(key) ==> {
                let before = account.threads[key];
                let thread = after.threads[key];
                &&& thread.tx_history[0] == before.tx_current_second
                &&& thread.rx_history[0] == before.rx_current_second
                &&& forall|i: int|
                    0 <= i < 39 ==> thread.tx_history[i + 1] == #[trigger] before.tx_history[i]
                        && thread.rx_history[i + 1] == before.rx_history[i]
                &&& thread.tx_current_second == 0
                &&& thread.rx_current_second == 0
            }
            &&& after.interface.tx_history[0] == account.interface.tx_current_second
            &&& after.interface.rx_history[0] == account.interface.rx_current_second
            &&& after.interface.tx_current_second == 0
            &&& after.interface.rx_current_second == 0
            &&& after.interface.tx_total == account.interface.tx_total
            &&& after.interface.rx_total == account.interface.rx_total
            &&& second > account.interface.peak_bandwidth ==> after.interface.peak_bandwidth
                == second
            &&& second <= account.interface.peak_bandwidth ==> after.interface.peak_bandwidth
                == account.interface.peak_bandwidth
        }),
{
}

/// The connections are listed anew after eight tenths of a second and not
/// before.
pub proof fn connections_are_listed_regularly(
    account: AccountView,
    connections: Seq<ResolvedConnectionView>,
    now: u64,
)
    ensures
        ({
            let after = account::connections_listed(account, connections, now);
            &&& now - account.last_proc_scan >= 800_000_000 ==> after.cache == connections
                && after.last_proc_scan == now
            &&& now - account.last_proc_scan < 800_000_000 ==> after == account
            &&& after.threads == account.threads
            &&& after.connections == account.connections
            &&& after.interface == account.interface
        }),
{
}

// ---------------------------------------------------------------------------
// Owners
// ---------------------------------------------------------------------------

/// The listed connection has the protocol of the flow and its two ends, in
/// either role.
pub open spec fn listed_with_five_tuple(row: ResolvedConnectionView, flow: FlowKey) -> bool {
    &&& row.protocol == flow.protocol
    &&& {
        ||| {
            &&& row.local_addr.ip == flow.src_ip
            &&& row.local_addr.port == flow.src_port
            &&& row.remote_addr.ip == flow.dst_ip
            &&& row.remote_addr.port == flow.dst_port
        }
        ||| {
            &&& row.local_addr.ip == flow.dst_ip
            &&& row.local_addr.port == flow.dst_port
            &&& row.remote_addr.ip == flow.src_ip
            &&& row.remote_addr.port == flow.src_port
        }
    }
}

/// The first listed connection with the five-tuple of a flow names its owner;
/// without any, the list names none.
pub proof fn the_first_listed_connection_names_the_owner(
    cache: Seq<ResolvedConnectionView>,
    flow: FlowKey,
    at: int,
)
    requires
        0 <= at <= cache.len(),
        at < cache.len() ==> listed_with_five_tuple(cache[at], flow),
        forall|i: int| 0 <= i < at ==> !listed_with_five_tuple(#[trigger] cache[i], flow),
    ensures
        at < cache.len() ==> (account::listed_owner(cache, flow) matches Some(owner) && {
            &&& owner.pid == cache[at].pid
            &&& owner.tid == cache[at].tid
            &&& owner.name == cache[at].process
            &&& owner.thread_name == cache[at].thread_name
            &&& owner.uid == cache[at].uid
            &&& owner.username == cache[at].username
        }),
        at == cache.len() ==> account::listed_owner(cache, flow) is None,
    decreases cache.len(),
{
    if cache.len() > 0 && at > 0 {
        assert(!listed_with_five_tuple(cache[0], flow));
        let later = cache.drop_first();
        assert forall|i: int| 0 <= i < at - 1 implies !listed_with_five_tuple(
            #[trigger] later[i],
            flow,
        ) by {
            assert(later[i] == cache[i + 1]);
        }
        if at < cache.len() {
            assert(later[at - 1] == cache[at]);
        }
        the_first_listed_connection_names_the_owner(later, flow, at - 1);
    }
}

/// A packet is counted for whom the resolver names, else for whom the list
/// names, else for nobody known.
pub proof fn packets_are_counted_for_their_owner(
    answer: Option<ProcessInfo>,
    cache: Seq<ResolvedConnectionView>,
    flow: FlowKey,
)
    ensures
        ({
            let owner = account::packet_owner(answer, cache, flow);
            let listed = account::listed_owner(cache, flow);
            &&& answer matches Some(info) ==> owner == info@
            &&& answer is None && listed is Some ==> owner == listed->0
            &&& answer is None && listed is None ==> {
                &&& owner.pid == 0
                &&& owner.tid == 0
                &&& owner.uid == 0
                &&& owner.name == "[unknown]"@
                &&& owner.username == "[unknown]"@
            }
        }),
{
}

/// The packets of a cycle, each with the owner that it is counted for.
pub open spec fn owned(
    packets: Seq<TimedRecord>,
    answers: Seq<Option<ProcessInfo>>,
    cache: Seq<ResolvedConnectionView>,
) -> Seq<OwnedPacket> {
    Seq::new(
        packets.len(),
        |i: int|
            OwnedPacket {
                record: packets[i].record,
                owner: account::packet_owner(answers[i], cache, packets[i].record.key),
                now: packets[i].now,
            },
    )
}

/// The packets of a cycle are all counted, each for its owner.
pub proof fn cycles_count_every_packet(
    account: AccountView,
    packets: Seq<TimedRecord>,
    answers: Seq<Option<ProcessInfo>>,
)
    requires
        answers.len() == packets.len(),
    ensures
        account::packets_counted(account, packets, answers) == all_counted(
            account,
            owned(packets, answers, account.cache),
        ),
    decreases packets.len(),
{
    if packets.len() > 0 {
        cycles_count_every_packet(account, packets.drop_last(), answers.drop_last());
        let all = owned(packets, answers, account.cache);
        let before = owned(packets.drop_last(), answers.drop_last(), account.cache);
        assert(all.drop_last() =~= before);
        the_interface_counts_all_bytes(account, before);
    }
}

/// A cycle counts every packet that came in, each for its owner by the
/// connections that are listed then: the totals of the interface grow by the
/// bytes of all, and those of a thread that is kept by the bytes of its own.
pub proof fn cycles_lose_no_packet(
    account: AccountView,
    connections: Seq<ResolvedConnectionView>,
    packets: Seq<TimedRecord>,
    answers: Seq<Option<ProcessInfo>>,
    owners: Map<u64, ProcessInfoView>,
    now: u64,
    key: ThreadKey,
)
    requires
        answers.len() == packets.len(),
    ensures
        ({
            let after = account::cycle_run(account, connections, packets, answers, owners, now);
            let cache = if now - account.last_proc_scan >= 800_000_000 {
                connections
            } else {
                account.cache
            };
            let counted = owned(packets, answers, cache);
            let known = account.threads.contains_key(key);
            let tx_before: nat = if known {
                account.threads[key].tx_bytes_total as nat
            } else {
                0
            };
            let rx_before: nat = if known {
                account.threads[key].rx_bytes_total as nat
            } else {
                0
            };
            &&& after.cache == cache
            &&& after.interface.tx_total == up_to_max(
                account.interface.tx_total as nat + bytes_of(counted, Direction::Tx, by_anyone()),
            )
            &&& after.interface.rx_total == up_to_max(
                account.interface.rx_total as nat + bytes_of(counted, Direction::Rx, by_anyone()),
            )
            &&& after.threads.contains_key(key) ==> {
                &&& after.threads[key].tx_bytes_total == up_to_max(
                    tx_before + bytes_of(counted, Direction::Tx, by_thread(key)),
                )
                &&& after.threads[key].rx_bytes_total == up_to_max(
                    rx_before + bytes_of(counted, Direction::Rx, by_thread(key)),
                )
            }
        }),
{
    let listed = account::connections_listed(account, connections, now);
    let counted = owned(packets, answers, listed.cache);
    cycles_count_every_packet(listed, packets, answers);
    threads_count_all_their_bytes(listed, counted, key);
    the_interface_counts_all_bytes(listed, counted);
    let before = all_counted(listed, counted);
    idle_for_thirty_seconds_is_dropped(
        before,
        owners,
        now,
        key,
        ConnectionKey {
            pid: 0,
            tid: 0,
            local_addr: crate::net::SocketAddr { ip: crate::net::IpAddr::V4(0), port: 0 },
            remote_addr: crate::net::SocketAddr { ip: crate::net::IpAddr::V4(0), port: 0 },
            protocol: crate::capture::Protocol::Tcp,
        },
    );
}

// ---------------------------------------------------------------------------
// Snapshots
// ---------------------------------------------------------------------------

/// A row tells what the account holds of its thread, and whether the process is
/// blocked.
pub proof fn rows_tell_their_threads(
    rows: Seq<ProcessRowView>,
    account: AccountView,
    blocked: Set<u32>,
    at: int,
)
    requires
        snapshot::shows_account(rows, account, blocked),
        0 <= at < rows.len(),
    ensures
        ({
            let key = ThreadKey { pid: rows[at].info.pid, tid: rows[at].info.tid };
            let thread = account.threads[key];
            &&& account.threads.contains_key(key)
            &&& rows[at].info == thread.info
            &&& rows[at].tx_bytes == thread.tx_bytes_total
            &&& rows[at].rx_bytes == thread.rx_bytes_total
            &&& rows[at].last_seen == thread.last_seen
            &&& rows[at].tx_history == thread.tx_history
            &&& rows[at].rx_history == thread.rx_history
            &&& rows[at].is_blocked <==> blocked.contains(rows[at].info.pid)
        }),
        forall|later: int|
            at < later < rows.len() ==> {
                ||| rows[at].info.pid < (#[trigger] rows[later]).info.pid
                ||| rows[at].info.pid == rows[later].info.pid && rows[at].info.tid
                    < rows[later].info.tid
            },
{
    let key = snapshot::row_key(rows[at]);
    assert(account.threads.contains_key(key));
    assert forall|later: int| at < later < rows.len() implies {
        ||| rows[at].info.pid < (#[trigger] rows[later]).info.pid
        ||| rows[at].info.pid == rows[later].info.pid && rows[at].info.tid < rows[later].info.tid
    } by {
        assert(snapshot::thread_before(
            snapshot::row_key(rows[at]),
            snapshot::row_key(rows[later]),
        ));
    }
}

/// A listed connection is shown with what was counted for it: as it was counted
/// from the side that is listed, the other way round where it was counted from
/// the other side, and with nothing where nothing was counted.
pub proof fn connections_show_what_was_counted(
    row: ResolvedConnectionView,
    stats: Map<ConnectionKey, ConnectionStats>,
)
    ensures
        ({
            let shown = snapshot::shown_connection(row, stats);
            let same = ConnectionKey {
                pid: row.pid,
                tid: row.tid,
                local_addr: row.local_addr,
                remote_addr: row.remote_addr,
                protocol: row.protocol,
            };
            let other = ConnectionKey {
                pid: row.pid,
                tid: row.tid,
                local_addr: row.remote_addr,
                remote_addr: row.local_addr,
                protocol: row.protocol,
            };
            &&& stats.contains_key(same) ==> shown.tx_bytes == stats[same].tx_bytes
                && shown.rx_bytes == stats[same].rx_bytes
            &&& !stats.contains_key(same) && stats.contains_key(other) ==> shown.tx_bytes
                == stats[other].rx_bytes && shown.rx_bytes == stats[other].tx_bytes
            &&& !stats.contains_key(same) && !stats.contains_key(other) ==> shown.tx_bytes == 0
                && shown.rx_bytes == 0
            &&& shown.local_addr == row.local_addr
            &&& shown.remote_addr == row.remote_addr
            &&& shown.protocol == row.protocol
            &&& shown.state == row.state
            &&& shown.pid == row.pid
            &&& shown.tid == row.tid
            &&& shown.process == row.process
            &&& shown.thread_name == row.thread_name
            &&& shown.username == row.username
        }),
{
}

/// A row shows every listed connection of its thread and no others.
pub proof fn rows_show_their_connections(
    cache: Seq<ResolvedConnectionView>,
    stats: Map<ConnectionKey, ConnectionStats>,
    key: ThreadKey,
    at: int,
)
    requires
        0 <= at < cache.len(),
    ensures
        cache[at].pid == key.pid && cache[at].tid == key.tid ==> snapshot::shown_connections(
            cache,
            stats,
            key,
        ).contains(snapshot::shown_connection(cache[at], stats)),
        forall|i: int|
            0 <= i < snapshot::shown_connections(cache, stats, key).len() ==> {
                let shown = #[trigger] snapshot::shown_connections(cache, stats, key)[i];
                shown.pid == key.pid && shown.tid == key.tid
            },
    decreases cache.len(),
{
    lemma_shown_are_own(cache, stats, key);
    let before = snapshot::shown_connections(cache.drop_last(), stats, key);
    let all = snapshot::shown_connections(cache, stats, key);
    if cache[at].pid == key.pid && cache[at].tid == key.tid {
        if at < cache.len() - 1 {
            assert(cache.drop_last()[at] == cache[at]);
            rows_show_their_connections(cache.drop_last(), stats, key, at);
            let goal = snapshot::shown_connection(cache[at], stats);
            let i = choose|i: int| 0 <= i < before.len() && before[i] == goal;
            assert(all[i] == goal);
        } else {
            assert(all.last() == snapshot::shown_connection(cache[at], stats));
        }
    }
}

proof fn lemma_shown_are_own(
    cache: Seq<ResolvedConnectionView>,
    stats: Map<ConnectionKey, ConnectionStats>,
    key: ThreadKey,
)
    ensures
        forall|i: int|
            0 <= i < snapshot::shown_connections(cache, stats, key).len() ==> {
                let shown = #[trigger] snapshot::shown_connections(cache, stats, key)[i];
                shown.pid == key.pid && shown.tid == key.tid
            },
    decreases cache.len(),
{
    if cache.len() > 0 {
        lemma_shown_are_own(cache.drop_last(), stats, key);
        let before = snapshot::shown_connections(cache.drop_last(), stats, key);
        let all = snapshot::shown_connections(cache, stats, key);
        assert forall|i: int| 0 <= i < all.len() implies {
            let shown = #[trigger] all[i];
            shown.pid == key.pid && shown.tid == key.tid
        } by {
            if i < before.len() {
                assert(all[i] == before[i]);
            }
        }
    }
}

/// The connections of a row stand in the order of the list, each as often as it
/// is listed.
pub proof fn each_listed_connection_is_shown_in_turn(
    cache: Seq<ResolvedConnectionView>,
    next: ResolvedConnectionView,
    stats: Map<ConnectionKey, ConnectionStats>,
    key: ThreadKey,
)
    ensures
        snapshot::shown_connections(Seq::empty(), stats, key).len() == 0,
        next.pid == key.pid && next.tid == key.tid ==> snapshot::shown_connections(
            cache.push(next),
            stats,
            key,
        ) == snapshot::shown_connections(cache, stats, key).push(
            snapshot::shown_connection(next, stats),
        ),
        next.pid != key.pid || next.tid != key.tid ==> snapshot::shown_connections(
            cache.push(next),
            stats,
            key,
        ) == snapshot::shown_connections(cache, stats, key),
{
    assert(cache.push(next).drop_last() =~= cache);
}

/// A row shows the connections that are listed for its thread.
pub proof fn rows_show_the_listed_connections(
    rows: Seq<ProcessRowView>,
    account: AccountView,
    blocked: Set<u32>,
    at: int,
)
    requires
        snapshot::shows_account(rows, account, blocked),
        0 <= at < rows.len(),
    ensures
        rows[at].connections == snapshot::shown_connections(
            account.cache,
            account.connections,
            ThreadKey { pid: rows[at].info.pid, tid: rows[at].info.tid },
        ),
{
    assert(account.threads.contains_key(snapshot::row_key(rows[at])));
}

/// The totals that are shown are those of the account, and the current bandwidth
/// is what the last full second brought in both directions.
pub proof fn totals_are_shown(stats: InterfaceStats, counters: InterfaceCountersView)
    requires
        snapshot::shows_interface(stats, counters),
    ensures
        stats.tx_bytes_total == counters.tx_total,
        stats.rx_bytes_total == counters.rx_total,
        stats.peak_bandwidth_bytes_per_sec == counters.peak_bandwidth,
        stats.current_bandwidth_bytes_per_sec == up_to_max(
            counters.tx_history[0] as nat + counters.rx_history[0] as nat,
        ),
        stats.tx_history@ == counters.tx_history,
        stats.rx_history@ == counters.rx_history,
{
}

// ---------------------------------------------------------------------------
// History
// ---------------------------------------------------------------------------

/// The sum of samples counts each of the newest ones once: a larger sample makes
/// it larger by as much, older samples do not matter, and without traffic it is
/// zero.
pub proof fn every_sample_counts_once(history: Seq<u64>, n: nat, at: int, sample: u64)
    requires
        n <= history.len(),
        0 <= at < history.len(),
    ensures
        at < n ==> export::sample_sum(history.update(at, sample), n) == export::sample_sum(
            history,
            n,
        ) - history[at] + sample,
        at >= n ==> export::sample_sum(history.update(at, sample), n) == export::sample_sum(
            history,
            n,
        ),
        (forall|i: int| 0 <= i < n ==> #[trigger] history[i] == 0) ==> export::sample_sum(
            history,
            n,
        ) == 0,
    decreases n,
{
    if n > 0 {
        every_sample_counts_once(history, (n - 1) as nat, at, sample);
    }
}

/// The averages over two and ten seconds.
pub proof fn averages_are_of_the_newest_samples(history: Seq<u64>)
    requires
        history.len() == 40,
    ensures
        export::average(history, 2) == (history[0] + history[1]) / 2,
        export::average(history, 10) == (history[0] + history[1] + history[2] + history[3]
            + history[4] + history[5] + history[6] + history[7] + history[8] + history[9]) / 10,
{
    reveal_with_fuel(export::sample_sum, 11);
}

/// An average lies between the smallest and the largest of its samples.
pub proof fn averages_lie_between_their_samples(history: Seq<u64>, n: nat, low: u64, high: u64)
    requires
        0 < n <= history.len(),
        forall|i: int| 0 <= i < n ==> low <= #[trigger] history[i] <= high,
    ensures
        low <= export::average(history, n) <= high,
{
    lemma_sum_between(history, n, low, high);
    let sum = export::sample_sum(history, n);
    assert(low <= sum / n <= high) by (nonlinear_arith)
        requires
            n * low <= sum <= n * high,
            n > 0,
    ;
}

proof fn lemma_sum_between(history: Seq<u64>, n: nat, low: u64, high: u64)
    requires
        n <= history.len(),
        forall|i: int| 0 <= i < n ==> low <= #[trigger] history[i] <= high,
    ensures
        n * low <= export::sample_sum(history, n) <= n * high,
    decreases n,
{
    if n > 0 {
        let fewer = (n - 1) as nat;
        lemma_sum_between(history, fewer, low, high);
        assert(low <= history[n - 1] <= high);
        let before = export::sample_sum(history, fewer);
        let newest = history[n - 1];
        assert(export::sample_sum(history, n) == before + newest);
        assert(n * low <= before + newest <= n * high) by (nonlinear_arith)
            requires
                n == fewer + 1,
                fewer * low <= before <= fewer * high,
                low <= newest <= high,
        ;
    } else {
        assert(n * low == 0 && n * high == 0) by (nonlinear_arith)
            requires
                n == 0,
        ;
    }
}

/// A row of the history tells the thread, its totals and its averages.
pub proof fn history_rows_tell_their_threads(timestamp: u64, stats: ThreadStatsView)
    requires
        stats.tx_history.len() == 40,
        stats.rx_history.len() == 40,
    ensures
        ({
            let row = export::csv_row(timestamp, stats);
            &&& row.timestamp == timestamp
            &&& row.pid == stats.info.pid
            &&& row.tid == stats.info.tid
            &&& row.process == stats.info.name
            &&& row.thread == stats.info.thread_name
            &&& row.user == stats.info.username
            &&& row.uid == stats.info.uid
            &&& row.tx_bytes_total == stats.tx_bytes_total
            &&& row.rx_bytes_total == stats.rx_bytes_total
            &&& row.tx_2s_avg == (stats.tx_history[0] + stats.tx_history[1]) / 2
            &&& row.rx_2s_avg == (stats.rx_history[0] + stats.rx_history[1]) / 2
            &&& row.tx_10s_avg == export::average(stats.tx_history, 10)
            &&& row.rx_10s_avg == export::average(stats.rx_history, 10)
        }),
{
    averages_are_of_the_newest_samples(stats.tx_history);
    averages_are_of_the_newest_samples(stats.rx_history);
    averages_lie_between_their_samples(stats.tx_history, 10, 0, u64::MAX);
    averages_lie_between_their_samples(stats.rx_history, 10, 0, u64::MAX);
}

/// The numbers of an exported line read back, each from its own column, and the
/// names stand in theirs with commas and quotation marks replaced.
pub proof fn exported_lines_read_back(row: HistoryCsvRowView)
    ensures
        ({
            let columns = text::split_on(export::csv_line(row).drop_last(), ',');
            let max = u64::MAX as nat;
            &&& columns.len() == 13
            &&& export::csv_line(row).last() == '\n'
            &&& number::numeral(columns[0], 10, max) == Some(row.timestamp as nat)
            &&& number::numeral(columns[1], 10, max) == Some(row.pid as nat)
            &&& number::numeral(columns[2], 10, max) == Some(row.tid as nat)
            &&& columns[3] == plain(row.process)
            &&& columns[4] == plain(row.thread)
            &&& columns[5] == plain(row.user)
            &&& number::numeral(columns[6], 10, max) == Some(row.uid as nat)
            &&& number::numeral(columns[7], 10, max) == Some(row.tx_bytes_total as nat)
            &&& number::numeral(columns[8], 10, max) == Some(row.rx_bytes_total as nat)
            &&& number::numeral(columns[9], 10, max) == Some(row.tx_2s_avg as nat)
            &&& number::numeral(columns[10], 10, max) == Some(row.rx_2s_avg as nat)
            &&& number::numeral(columns[11], 10, max) == Some(row.tx_10s_avg as nat)
            &&& number::numeral(columns[12], 10, max) == Some(row.rx_10s_avg as nat)
        }),
{
    reveal_strlit("\n");
    export::csv_line_gives_its_fields(row);
    let max = u64::MAX as nat;
    number::lemma_decimal_read_back(row.timestamp as nat, max);
    number::lemma_decimal_read_back(row.pid as nat, max);
    number::lemma_decimal_read_back(row.tid as nat, max);
    number::lemma_decimal_read_back(row.uid as nat, max);
    number::lemma_decimal_read_back(row.tx_bytes_total as nat, max);
    number::lemma_decimal_read_back(row.rx_bytes_total as nat, max);
    number::lemma_decimal_read_back(row.tx_2s_avg as nat, max);
    number::lemma_decimal_read_back(row.rx_2s_avg as nat, max);
    number::lemma_decimal_read_back(row.tx_10s_avg as nat, max);
    number::lemma_decimal_read_back(row.rx_10s_avg as nat, max);
    assert(export::sanitized(row.process) =~= plain(row.process));
    assert(export::sanitized(row.thread) =~= plain(row.thread));
    assert(export::sanitized(row.user) =~= plain(row.user));
}

/// A name as it stands in a column: apostrophes for quotation marks and spaces
/// for commas, every other character as it is.
pub open spec fn plain(name: Seq<char>) -> Seq<char> {
    Seq::new(
        name.len(),
        |i: int|
            if name[i] == '"' {
                '\''
            } else if name[i] == ',' {
                ' '
            } else {
                name[i]
            },
    )
}

/// Exported lines are in the order of time, process and thread, and each row is
/// among them once.
pub proof fn exports_are_in_order(rows: Seq<HistoryCsvRow>, order: Seq<usize>, a: int, b: int)
    requires
        sort::is_stable_sort(order, export::export_keys(rows), false),
        0 <= a < b < order.len(),
    ensures
        order.len() == rows.len(),
        order[a] != order[b],
        ({
            let first = rows[order[a] as int];
            let second = rows[order[b] as int];
            ||| first.timestamp < second.timestamp
            ||| first.timestamp == second.timestamp && first.pid < second.pid
            ||| first.timestamp == second.timestamp && first.pid == second.pid && first.tid
                <= second.tid
        }),
{
    assert(sort::goes_before(
        export::export_keys(rows),
        false,
        order[a] as int,
        order[b] as int,
    ));
}

/// Each exported line is that of its row.
pub proof fn exports_write_every_row(rows: Seq<HistoryCsvRow>, order: Seq<usize>, at: int)
    requires
        sort::is_stable_sort(order, export::export_keys(rows), false),
        0 <= at < rows.len(),
    ensures
        export::csv_lines_in_order(order, rows).len() == rows.len(),
        export::csv_lines_in_order(order, rows)[at] == export::csv_line(rows[order[at] as int]@),
        export::csv_lines_in_order(order, rows).contains(export::csv_line(rows[at]@)),
{
    sort::lemma_range_contains(order, rows.len() as int, at);
    let i = choose|i: int| 0 <= i < order.len() && order[i] == at;
    assert(export::csv_lines_in_order(order, rows)[i] == export::csv_line(rows[at]@));
}

/// The history has one row for each thread, with the time that was given.
pub proof fn every_thread_has_a_history_row(
    order: Seq<ThreadKey>,
    threads: Map<ThreadKey, ThreadStatsView>,
    timestamp: u64,
    key: ThreadKey,
)
    requires
        collections::lists_keys(order, threads),
        threads.contains_key(key),
    ensures
        ({
            let rows = export::csv_rows_in_order(order, timestamp, threads);
            &&& rows.len() == order.len()
            &&& rows.contains(export::csv_row(timestamp, threads[key]))
            &&& forall|i: int, j: int| 0 <= i < j < order.len() ==> order[i] != order[j]
            &&& forall|i: int|
                0 <= i < rows.len() ==> (#[trigger] rows[i]).timestamp == timestamp
                    && threads.contains_key(order[i])
        }),
{
    let rows = export::csv_rows_in_order(order, timestamp, threads);
    collections::lemma_listed(order, threads, key);
    assert(order.to_set().contains(key));
    let i = choose|i: int| 0 <= i < order.len() && order[i] == key;
    assert(rows[i] == export::csv_row(timestamp, threads[key]));
    assert forall|i: int| 0 <= i < rows.len() implies (#[trigger] rows[i]).timestamp == timestamp
        && threads.contains_key(order[i]) by {
        assert(order.to_set().contains(order[i]));
    }
}

/// An average is rounded down: with one more byte in each of its seconds it
/// would be more than its samples give.
pub proof fn averages_are_rounded_down(history: Seq<u64>, n: nat)
    requires
        0 < n <= history.len(),
    ensures
        export::average(history, n) * n <= export::sample_sum(history, n),
        export::sample_sum(history, n) < (export::average(history, n) + 1) * n,
{
    let sum = export::sample_sum(history, n);
    assert((sum / n) * n <= sum && sum < (sum / n + 1) * n) by (nonlinear_arith)
        requires
            n > 0,
    ;
}

/// Every thread has exactly one row.
pub proof fn every_thread_is_shown_once(
    rows: Seq<ProcessRowView>,
    account: AccountView,
    blocked: Set<u32>,
    key: ThreadKey,
)
    requires
        snapshot::shows_account(rows, account, blocked),
        account.threads.contains_key(key),
    ensures
        exists|i: int|
            0 <= i < rows.len() && (#[trigger] rows[i]).info.pid == key.pid && rows[i].info.tid
                == key.tid,
        forall|i: int, j: int|
            0 <= i < j < rows.len() ==> (#[trigger] rows[i]).info.pid != (
            #[trigger] rows[j]).info.pid || rows[i].info.tid != rows[j].info.tid,
{
    let i = choose|i: int| 0 <= i < rows.len() && snapshot::row_key(#[trigger] rows[i]) == key;
    assert(rows[i].info.pid == key.pid && rows[i].info.tid == key.tid);
    assert forall|i: int, j: int| 0 <= i < j < rows.len() implies (#[trigger] rows[i]).info.pid != (
    #[trigger] rows[j]).info.pid || rows[i].info.tid != rows[j].info.tid by {
        assert(snapshot::thread_before(
            snapshot::row_key(rows[i]),
            snapshot::row_key(rows[j]),
        ));
    }
}

/// The processes behind the threads are looked up where there is one, be it one
/// alone, and not where all threads are of nobody known.
pub proof fn known_processes_are_looked_up(account: AccountView, key: ThreadKey)
    ensures
        account.threads.contains_key(key) && key.pid > 0 ==> account::knows_processes(account),
        (forall|other: ThreadKey| #[trigger]
            account.threads.contains_key(other) ==> other.pid == 0) ==> !account::knows_processes(
            account,
        ),
{
}

/// Each packet of a cycle is answered with an owner of its own flow.
pub proof fn packets_are_answered_one_by_one(
    answers: Seq<Option<ProcessInfo>>,
    packets: Seq<TimedRecord>,
    cache: ResolverCache,
    at: int,
)
    requires
        account::answers_packets(answers, packets, cache),
        0 <= at < packets.len(),
    ensures
        answers.len() == packets.len(),
        resolver::is_flow_owner(
            answers[at],
            cache.sockets(),
            cache.owners(),
            packets[at].record.key,
        ),
{
}

/// The first cycle of a new account lists the connections, and the first look
/// into a new cache takes a scan in.
pub proof fn first_looks_are_due(account: AccountView, now: u64, later: u64)
    requires
        aggregator::INITIAL_SCAN_AGE <= now <= later,
        account.last_proc_scan == now - aggregator::INITIAL_SCAN_AGE,
    ensures
        account::cache_due(account, later),
        resolver::RESOLVER_INITIAL_AGE >= 1_000_000_000,
{
}

} // verus!
