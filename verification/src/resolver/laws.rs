//! What holds of resolving as a whole: sockets and their holders read back from
//! the way the kernel gives them, and a flow belongs to whoever holds the socket
//! with its five-tuple.

use vstd::prelude::*;

use crate::capture::{FlowKey, Protocol};
use crate::net;
use crate::net::{IpAddr, SocketAddr};
use crate::number;
use crate::resolver;
use crate::resolver::netlink;
use crate::resolver::netlink::{ByteOrder, NetlinkError, QueryProgress};
use crate::resolver::pid_map;
use crate::resolver::pid_map::{InodePidEntryView, ProcessScan, TaskScan};
use crate::resolver::proc_fallback;
use crate::resolver::proc_fallback::{FallbackErrorView, ProcNetFiles};
use crate::resolver::{
    ProcessInfo, ProcessInfoView, ResolvedConnectionView, ResolverCache, ResolverError, Scan,
    SocketEntryView,
};
use crate::text;
use crate::text_laws;

verus! {

// ---------------------------------------------------------------------------
// Flows and sockets
// ---------------------------------------------------------------------------

/// The socket has the protocol of the flow and its two ends, in either role.
pub open spec fn has_five_tuple(socket: SocketEntryView, flow: FlowKey) -> bool {
    &&& socket.protocol == flow.protocol
    &&& {
        ||| {
            &&& socket.local_addr.ip == flow.src_ip
            &&& socket.local_addr.port == flow.src_port
            &&& socket.remote_addr.ip == flow.dst_ip
            &&& socket.remote_addr.port == flow.dst_port
        }
        ||| {
            &&& socket.local_addr.ip == flow.dst_ip
            &&& socket.local_addr.port == flow.dst_port
            &&& socket.remote_addr.ip == flow.src_ip
            &&& socket.remote_addr.port == flow.src_port
        }
    }
}

/// A socket carries a flow exactly if it has the protocol of the flow, whatever
/// that is, and its local and remote address are the ends of the flow, in either
/// order.
pub proof fn sockets_carry_their_five_tuple(socket: SocketEntryView, flow: FlowKey)
    ensures
        resolver::carries(socket.local_addr, socket.remote_addr, socket.protocol, flow)
            <==> has_five_tuple(socket, flow),
{
}

/// Where exactly one socket has the five-tuple of a flow, the flow belongs to
/// the owner of that socket; where none has it, to nobody.
pub proof fn the_five_tuple_names_the_owner(
    sockets: Map<u64, SocketEntryView>,
    owners: Map<u64, ProcessInfoView>,
    flow: FlowKey,
    owner: Option<ProcessInfo>,
    inode: u64,
)
    requires
        resolver::joined(sockets, owners),
        resolver::is_flow_owner(owner, sockets, owners, flow),
        forall|other: u64| #[trigger]
            sockets.contains_key(other) && has_five_tuple(sockets[other], flow) ==> other == inode,
    ensures
        sockets.contains_key(inode) && has_five_tuple(sockets[inode], flow) ==> (owner matches Some(
            info,
        ) && info@ == owners[inode]),
        !(sockets.contains_key(inode) && has_five_tuple(sockets[inode], flow)) ==> owner is None,
{
    if sockets.contains_key(inode) && has_five_tuple(sockets[inode], flow) {
        assert(resolver::is_carrier(inode, sockets, flow));
        assert forall|other: u64| #[trigger]
            resolver::is_carrier(other, sockets, flow) implies other == inode by {
            assert(sockets.contains_key(other) && has_five_tuple(sockets[other], flow));
        }
        resolver::a_lone_carrier_names_the_owner(sockets, owners, flow, owner, inode);
    } else {
        assert forall|other: u64| !#[trigger] resolver::is_carrier(other, sockets, flow) by {
            if resolver::is_carrier(other, sockets, flow) {
                assert(sockets.contains_key(other) && has_five_tuple(sockets[other], flow));
            }
        }
        resolver::every_carried_flow_has_an_owner(sockets, owners, flow, owner);
    }
}

/// The owner of a socket is the thread that holds it, with its process and its
/// user by name; where nothing holds it, nobody known.
pub proof fn owners_are_the_holders(
    sockets: Map<u64, SocketEntryView>,
    held: Map<u64, InodePidEntryView>,
    users: Map<u32, Seq<char>>,
    inode: u64,
)
    requires
        sockets.contains_key(inode),
    ensures
        ({
            let owners = resolver::owners_of(sockets, held, users);
            &&& owners.contains_key(inode)
            &&& held.contains_key(inode) ==> {
                &&& owners[inode].pid == held[inode].pid
                &&& owners[inode].tid == held[inode].tid
                &&& owners[inode].name == held[inode].process_name
                &&& owners[inode].thread_name == held[inode].thread_name
                &&& owners[inode].uid == held[inode].uid
                &&& users.contains_key(held[inode].uid) ==> owners[inode].username
                    == users[held[inode].uid]
                &&& !users.contains_key(held[inode].uid) ==> owners[inode].username == "[unknown]"@
            }
            &&& !held.contains_key(inode) ==> {
                &&& owners[inode].pid == 0
                &&& owners[inode].tid == 0
                &&& owners[inode].name == "[unknown]"@
            }
        }),
{
}

/// The list of connections has one row for each socket, and every row tells the
/// ends, the protocol and the state of its socket and the thread that holds it.
pub proof fn every_socket_is_listed_once(
    rows: Seq<ResolvedConnectionView>,
    sockets: Map<u64, SocketEntryView>,
    held: Map<u64, InodePidEntryView>,
    users: Map<u32, Seq<char>>,
    inode: u64,
)
    requires
        resolver::connections_of(rows, sockets, held, users),
        resolver::keyed_by_inode(sockets),
    ensures
        forall|i: int, j: int|
            0 <= i < j < rows.len() ==> #[trigger] rows[i].inode != #[trigger] rows[j].inode,
        forall|i: int|
            0 <= i < rows.len() ==> {
                let row = #[trigger] rows[i];
                &&& sockets.contains_key(row.inode)
                &&& row.local_addr == sockets[row.inode].local_addr
                &&& row.remote_addr == sockets[row.inode].remote_addr
                &&& row.protocol == sockets[row.inode].protocol
                &&& row.state == sockets[row.inode].state
                &&& held.contains_key(row.inode) ==> {
                    &&& row.pid == held[row.inode].pid
                    &&& row.tid == held[row.inode].tid
                    &&& row.process == held[row.inode].process_name
                    &&& row.thread_name == held[row.inode].thread_name
                    &&& row.uid == held[row.inode].uid
                }
                &&& !held.contains_key(row.inode) ==> {
                    &&& row.pid == 0
                    &&& row.uid == sockets[row.inode].uid
                    &&& row.process == "[unknown]"@
                }
                &&& users.contains_key(row.uid) ==> row.username == users[row.uid]
                &&& !users.contains_key(row.uid) ==> row.username == "[unknown]"@
            },
        sockets.contains_key(inode) ==> exists|i: int|
            0 <= i < rows.len() && #[trigger] rows[i].inode == inode,
{
    let order = choose|order: Seq<u64>| #[trigger]
        crate::collections::lists_keys(order, sockets) && rows == resolver::connections_in_order(
            order,
            sockets,
            held,
            users,
        );
    assert forall|i: int| 0 <= i < rows.len() implies sockets.contains_key(#[trigger] order[i])
        && rows[i].inode == order[i] by {
        assert(order.contains(order[i]));
    }
    assert forall|i: int, j: int| 0 <= i < j < rows.len() implies #[trigger] rows[i].inode
        != #[trigger] rows[j].inode by {
        assert(order[i] != order[j]);
    }
    assert forall|i: int| 0 <= i < rows.len() implies sockets.contains_key(
        (#[trigger] rows[i]).inode,
    ) by {
        assert(rows[i].inode == order[i]);
    }
    if sockets.contains_key(inode) {
        assert(order.contains(inode));
        let i = choose|i: int| 0 <= i < order.len() && order[i] == inode;
        assert(rows[i].inode == inode);
    }
}

/// A cache answers from its last scan for one second and takes the next scan in
/// after that.
pub proof fn a_scan_lasts_one_second(
    before: ResolverCache,
    after: ResolverCache,
    scan: Scan,
    now: u64,
)
    requires
        resolver::brought_up_to_date(before, after, Some(scan), now),
    ensures
        now - before.refreshed_at() < 1_000_000_000 ==> after == before,
        now - before.refreshed_at() >= 1_000_000_000 && resolver::source_sockets(
            scan.source,
        ) is Ok ==> {
            &&& after.refreshed_at() == now
            &&& after.sockets() == resolver::source_sockets(scan.source)->Ok_0
        },
        after.users() == before.users(),
{
}

/// The line of the password file is about the user with this id.
pub open spec fn gives_uid(line: Seq<char>, uid: u32) -> bool {
    resolver::passwd_entry(line) matches Some((id, _)) && id == uid
}

/// Every user of the password file is known by name: the last line that gives
/// an id names its user, wherever it stands.
pub proof fn every_user_is_known(lines: Seq<String>, at: int, uid: u32, name: Seq<char>)
    requires
        0 <= at < lines.len(),
        resolver::passwd_entry(lines[at]@) == Some((uid, name)),
        forall|later: int|
            at < later < lines.len() ==> !gives_uid((#[trigger] lines[later])@, uid),
    ensures
        resolver::passwd_users(lines).contains_key(uid),
        resolver::passwd_users(lines)[uid] == name,
    decreases lines.len(),
{
    if at < lines.len() - 1 {
        let before = lines.drop_last();
        assert(before[at] == lines[at]);
        assert forall|later: int| at < later < before.len() implies !gives_uid(
            (#[trigger] before[later])@,
            uid,
        ) by {
            assert(before[later] == lines[later]);
        }
        every_user_is_known(before, at, uid, name);
        assert(lines[lines.len() - 1] == lines.last());
    }
}

/// No other user is known: every name stands in a line that gives the id.
pub proof fn only_listed_users_are_known(lines: Seq<String>, uid: u32)
    requires
        resolver::passwd_users(lines).contains_key(uid),
    ensures
        exists|i: int|
            0 <= i < lines.len() && resolver::passwd_entry((#[trigger] lines[i])@) == Some(
                (uid, resolver::passwd_users(lines)[uid]),
            ),
    decreases lines.len(),
{
    if lines.len() > 0 {
        let before = lines.drop_last();
        assert(lines[lines.len() - 1] == lines.last());
        if !gives_uid(lines.last()@, uid) {
            only_listed_users_are_known(before, uid);
            let i = choose|i: int|
                0 <= i < before.len() && resolver::passwd_entry((#[trigger] before[i])@) == Some(
                    (uid, resolver::passwd_users(before)[uid]),
                );
            assert(lines[i] == before[i]);
        }
    }
}

/// A line of the password file gives the name before its first colon to the
/// number behind its second one, whatever follows.
pub proof fn password_lines_read_back(name: Seq<char>, mark: Seq<char>, uid: u32, rest: Seq<char>)
    requires
        text::free_of(name, ':'),
        text::free_of(mark, ':'),
    ensures
        resolver::passwd_entry(
            name.push(':') + (mark.push(':') + number::decimal(uid as nat).push(':') + rest),
        ) == Some((uid, name)),
{
    let digits = number::decimal(uid as nat);
    number::lemma_decimal_read_back(uid as nat, u32::MAX as nat);
    number::lemma_decimal_digits(uid as nat);
    assert(text::free_of(digits, ':')) by {
        assert(forall|i: int| 0 <= i < digits.len() ==> digits[i] as int <= 57);
    }
    let after = digits.push(':') + rest;
    text::lemma_split_at(name, ':', mark.push(':') + after);
    text::lemma_split_at(mark, ':', after);
    text::lemma_split_at(digits, ':', rest);
    text::lemma_split_free(name, ':');
    text::lemma_split_free(mark, ':');
    text::lemma_split_free(digits, ':');
    assert(mark.push(':') + after =~= mark.push(':') + digits.push(':') + rest);
    let parts = text::split_on(name.push(':') + (mark.push(':') + after), ':');
    assert(parts[0] == name);
    assert(parts[2] == digits);
}

/// The owner of a flow is the owner of a socket that has its five-tuple.
pub proof fn owners_have_the_five_tuple(
    sockets: Map<u64, SocketEntryView>,
    owners: Map<u64, ProcessInfoView>,
    flow: FlowKey,
    owner: ProcessInfo,
)
    requires
        resolver::joined(sockets, owners),
        resolver::is_flow_owner(Some(owner), sockets, owners, flow),
    ensures
        exists|inode: u64| #[trigger]
            sockets.contains_key(inode) && has_five_tuple(sockets[inode], flow) && owner@
                == owners[inode],
{
    let key = choose|key: u64| #[trigger]
        resolver::owned_carrier(key, sockets, owners, flow) && owner@
            == owners[sockets[key].inode];
    assert(sockets.contains_key(key) && has_five_tuple(sockets[key], flow));
}

/// A process is found by its number if any socket belongs to it, and what is
/// found is of that number.
pub proof fn processes_are_found_by_number(
    found: Option<ProcessInfo>,
    owners: Map<u64, ProcessInfoView>,
    pid: u32,
    inode: u64,
)
    requires
        resolver::is_process(found, owners, pid),
    ensures
        owners.contains_key(inode) && owners[inode].pid == pid ==> found is Some,
        found matches Some(info) ==> info@.pid == pid,
{
}

/// The connections of a process are all those with its number and no others, in
/// their order.
pub proof fn every_connection_of_a_process_is_listed(
    rows: Seq<ResolvedConnectionView>,
    next: ResolvedConnectionView,
    pid: u32,
)
    ensures
        resolver::of_process(Seq::empty(), pid).len() == 0,
        next.pid == pid ==> resolver::of_process(rows.push(next), pid) == resolver::of_process(
            rows,
            pid,
        ).push(next),
        next.pid != pid ==> resolver::of_process(rows.push(next), pid) == resolver::of_process(
            rows,
            pid,
        ),
{
    reveal(Seq::filter);
    assert(rows.push(next).drop_last() =~= rows);
}

/// What went wrong is said with its cause.
pub proof fn resolver_errors_tell_their_cause(
    cause: String,
    path: Seq<char>,
    line: Seq<char>,
    errno: i32,
    result: Result<(), ResolverError>,
    scan: Scan,
)
    requires
        resolver::scan_result(result, scan),
    ensures
        resolver::resolver_message(ResolverError::Io(cause)) == "io error: "@ + cause@,
        resolver::resolver_message(ResolverError::Fallback(cause)) == "fallback resolver error: "@
            + cause@,
        proc_fallback::fallback_message(FallbackErrorView::FileOpen { path, source: cause@ })
            == "could not open "@ + path + ": "@ + cause@,
        proc_fallback::fallback_message(FallbackErrorView::ParseLine { file: path, line })
            == "could not parse line in "@ + path + ": \""@ + line + "\""@,
        netlink::netlink_message(NetlinkError::SocketOpen(cause))
            == "failed to open Netlink socket: "@ + cause@,
        netlink::netlink_message(NetlinkError::SendFailed(cause))
            == "failed to send Netlink request: "@ + cause@,
        netlink::netlink_message(NetlinkError::RecvFailed(cause))
            == "failed to receive Netlink response: "@ + cause@,
        netlink::netlink_message(NetlinkError::KernelError(errno))
            == "kernel returned a Netlink error message (errno "@ + number::signed_decimal(
            errno as int,
        ) + ")"@,
        result is Ok <==> resolver::source_sockets(scan.source) is Ok,
{
}

/// A scan that fails changes nothing, and one that succeeds brings the sockets,
/// their owners and their connections of the same moment.
pub proof fn scans_are_taken_in_whole(
    before: ResolverCache,
    after: ResolverCache,
    scan: Scan,
    now: u64,
)
    requires
        resolver::brought_up_to_date(before, after, Some(scan), now),
        now - before.refreshed_at() >= 1_000_000_000,
    ensures
        resolver::source_sockets(scan.source) is Err ==> after == before,
        resolver::source_sockets(scan.source) matches Ok(sockets) ==> {
            let held = pid_map::held_by_all(scan.processes@);
            &&& after.sockets() == sockets
            &&& after.owners() == resolver::owners_of(sockets, held, before.users())
            &&& resolver::connections_of(after.rows(), sockets, held, before.users())
        },
{
}

// ---------------------------------------------------------------------------
// The kernel's answers
// ---------------------------------------------------------------------------

proof fn lemma_word16(order: ByteOrder, before: Seq<u8>, v: u16, after: Seq<u8>)
    ensures
        netlink::bytes16(order, v).len() == 2,
        netlink::word16(
            order,
            before + netlink::bytes16(order, v) + after,
            before.len() as int,
        ) == v,
{
    let whole = before + netlink::bytes16(order, v) + after;
    let at = before.len() as int;
    assert(whole[at] == netlink::bytes16(order, v)[0]);
    assert(whole[at + 1] == netlink::bytes16(order, v)[1]);
}

/// A number of four bytes reads back in the order of the host.
pub proof fn host_numbers_read_back(order: ByteOrder, before: Seq<u8>, v: u32, after: Seq<u8>)
    ensures
        netlink::bytes32(order, v).len() == 4,
        netlink::word32(
            order,
            before + netlink::bytes32(order, v) + after,
            before.len() as int,
        ) == v,
{
    let low = (v % 0x1_0000) as u16;
    let high = (v / 0x1_0000) as u16;
    let whole = before + netlink::bytes32(order, v) + after;
    let (first, second) = match order {
        ByteOrder::Little => (low, high),
        ByteOrder::Big => (high, low),
    };
    let a = netlink::bytes16(order, first);
    let b = netlink::bytes16(order, second);
    lemma_word16(order, before, first, b + after);
    assert(whole =~= before + a + (b + after));
    lemma_word16(order, before + a, second, after);
    assert(whole =~= (before + a) + b + after);
}

/// The body of a message that describes a socket. `src` and `dst` are the 16
/// bytes that addresses have room in; `middle` is what this program does not
/// look at.
pub open spec fn diag_body(
    order: ByteOrder,
    family: u8,
    state: u8,
    timers: Seq<u8>,
    src_port: u16,
    dst_port: u16,
    src: Seq<u8>,
    dst: Seq<u8>,
    middle: Seq<u8>,
    uid: u32,
    inode: u32,
    attributes: Seq<u8>,
) -> Seq<u8> {
    seq![family, state] + timers + net::be_bytes(src_port as nat, 2) + net::be_bytes(
        dst_port as nat,
        2,
    ) + src + dst + middle + netlink::bytes32(order, uid) + netlink::bytes32(order, inode)
        + attributes
}

proof fn lemma_diag_fields(
    order: ByteOrder,
    family: u8,
    state: u8,
    timers: Seq<u8>,
    src_port: u16,
    dst_port: u16,
    src: Seq<u8>,
    dst: Seq<u8>,
    middle: Seq<u8>,
    uid: u32,
    inode: u32,
    attributes: Seq<u8>,
)
    requires
        timers.len() == 2,
        src.len() == 16,
        dst.len() == 16,
        middle.len() == 24,
    ensures
        ({
            let body = diag_body(
                order,
                family,
                state,
                timers,
                src_port,
                dst_port,
                src,
                dst,
                middle,
                uid,
                inode,
                attributes,
            );
            &&& body.len() >= 72
            &&& body[0] == family
            &&& body[1] == state
            &&& net::be_value(body.subrange(4, 6)) == src_port
            &&& net::be_value(body.subrange(6, 8)) == dst_port
            &&& body.subrange(8, 24) == src
            &&& body.subrange(24, 40) == dst
            &&& netlink::word32(order, body, 64) == uid
            &&& netlink::word32(order, body, 68) == inode
        }),
{
    net::lemma_byte_ranges();
    net::numbers_read_back_from_bytes(src_port as nat, 2);
    net::numbers_read_back_from_bytes(dst_port as nat, 2);
    let body = diag_body(
        order,
        family,
        state,
        timers,
        src_port,
        dst_port,
        src,
        dst,
        middle,
        uid,
        inode,
        attributes,
    );
    let sp = net::be_bytes(src_port as nat, 2);
    let dp = net::be_bytes(dst_port as nat, 2);
    let head = seq![family, state] + timers + sp + dp + src + dst + middle;
    let u = netlink::bytes32(order, uid);
    let n = netlink::bytes32(order, inode);
    host_numbers_read_back(order, head, uid, n + attributes);
    assert(body =~= head + u + (n + attributes));
    host_numbers_read_back(order, head + u, inode, attributes);
    assert(body =~= (head + u) + n + attributes);
    assert(body.subrange(4, 6) =~= sp);
    assert(body.subrange(6, 8) =~= dp);
    assert(body.subrange(8, 24) =~= src);
    assert(body.subrange(24, 40) =~= dst);
}

/// A socket over IPv4 reads back from the message that describes it.
#[verifier::rlimit(40)]
pub proof fn ipv4_sockets_read_back(
    order: ByteOrder,
    kind: Protocol,
    state: u8,
    timers: Seq<u8>,
    local: (u32, u16),
    remote: (u32, u16),
    src_room: Seq<u8>,
    dst_room: Seq<u8>,
    middle: Seq<u8>,
    uid: u32,
    inode: u32,
    attributes: Seq<u8>,
)
    requires
        timers.len() == 2,
        src_room.len() == 12,
        dst_room.len() == 12,
        middle.len() == 24,
    ensures
        netlink::diag_socket(
            order,
            diag_body(
                order,
                2,
                state,
                timers,
                local.1,
                remote.1,
                net::be_bytes(local.0 as nat, 4) + src_room,
                net::be_bytes(remote.0 as nat, 4) + dst_room,
                middle,
                uid,
                inode,
                attributes,
            ),
            kind,
        ) == Some(
            SocketEntryView {
                inode: inode as u64,
                local_addr: SocketAddr { ip: IpAddr::V4(local.0), port: local.1 },
                remote_addr: SocketAddr { ip: IpAddr::V4(remote.0), port: remote.1 },
                state: netlink::state_name(state),
                uid,
                protocol: kind,
            },
        ),
{
    net::lemma_byte_ranges();
    net::numbers_read_back_from_bytes(local.0 as nat, 4);
    net::numbers_read_back_from_bytes(remote.0 as nat, 4);
    let src = net::be_bytes(local.0 as nat, 4) + src_room;
    let dst = net::be_bytes(remote.0 as nat, 4) + dst_room;
    lemma_diag_fields(
        order,
        2,
        state,
        timers,
        local.1,
        remote.1,
        src,
        dst,
        middle,
        uid,
        inode,
        attributes,
    );
    let body = diag_body(
        order,
        2,
        state,
        timers,
        local.1,
        remote.1,
        src,
        dst,
        middle,
        uid,
        inode,
        attributes,
    );
    assert(body.subrange(8, 12) =~= body.subrange(8, 24).subrange(0, 4));
    assert(src.subrange(0, 4) =~= net::be_bytes(local.0 as nat, 4));
    assert(body.subrange(24, 28) =~= body.subrange(24, 40).subrange(0, 4));
    assert(dst.subrange(0, 4) =~= net::be_bytes(remote.0 as nat, 4));
}

/// A socket over IPv6 reads back from the message that describes it.
#[verifier::rlimit(40)]
pub proof fn ipv6_sockets_read_back(
    order: ByteOrder,
    kind: Protocol,
    state: u8,
    timers: Seq<u8>,
    local: (u128, u16),
    remote: (u128, u16),
    middle: Seq<u8>,
    uid: u32,
    inode: u32,
    attributes: Seq<u8>,
)
    requires
        timers.len() == 2,
        middle.len() == 24,
    ensures
        netlink::diag_socket(
            order,
            diag_body(
                order,
                10,
                state,
                timers,
                local.1,
                remote.1,
                net::be_bytes(local.0 as nat, 16),
                net::be_bytes(remote.0 as nat, 16),
                middle,
                uid,
                inode,
                attributes,
            ),
            kind,
        ) == Some(
            SocketEntryView {
                inode: inode as u64,
                local_addr: SocketAddr { ip: IpAddr::V6(local.0), port: local.1 },
                remote_addr: SocketAddr { ip: IpAddr::V6(remote.0), port: remote.1 },
                state: netlink::state_name(state),
                uid,
                protocol: kind,
            },
        ),
{
    net::lemma_byte_ranges();
    net::numbers_read_back_from_bytes(local.0 as nat, 16);
    net::numbers_read_back_from_bytes(remote.0 as nat, 16);
    lemma_diag_fields(
        order,
        10,
        state,
        timers,
        local.1,
        remote.1,
        net::be_bytes(local.0 as nat, 16),
        net::be_bytes(remote.0 as nat, 16),
        middle,
        uid,
        inode,
        attributes,
    );
}

/// A message: a header that gives its length and type, and a body, filled up to
/// a multiple of four bytes.
pub open spec fn message(
    order: ByteOrder,
    message_type: u16,
    flags: u16,
    sequence: u32,
    sender: u32,
    body: Seq<u8>,
    fill: Seq<u8>,
) -> Seq<u8> {
    header(order, (16 + body.len()) as u32, message_type, flags, sequence, sender) + body + fill
}

/// A message can be made of these parts.
pub open spec fn message_parts(body: Seq<u8>, fill: Seq<u8>) -> bool {
    &&& body.len() < 0xffff_0000
    &&& fill.len() < 4
    &&& (body.len() + fill.len()) % 4 == 0
}

/// The header of a message.
pub open spec fn header(
    order: ByteOrder,
    len: u32,
    message_type: u16,
    flags: u16,
    sequence: u32,
    sender: u32,
) -> Seq<u8> {
    netlink::bytes32(order, len) + netlink::bytes16(order, message_type) + netlink::bytes16(
        order,
        flags,
    ) + netlink::bytes32(order, sequence) + netlink::bytes32(order, sender)
}

#[verifier::rlimit(40)]
proof fn lemma_header(
    order: ByteOrder,
    len: u32,
    message_type: u16,
    flags: u16,
    sequence: u32,
    sender: u32,
)
    ensures
        ({
            let head = header(order, len, message_type, flags, sequence, sender);
            &&& head.len() == 16
            &&& netlink::word32(order, head, 0) == len
            &&& netlink::word16(order, head, 4) == message_type
        }),
{
    let none = Seq::<u8>::empty();
    let l = netlink::bytes32(order, len);
    let t = netlink::bytes16(order, message_type);
    let f = netlink::bytes16(order, flags);
    let s = netlink::bytes32(order, sequence);
    let p = netlink::bytes32(order, sender);
    let head = header(order, len, message_type, flags, sequence, sender);
    host_numbers_read_back(order, none, sequence, none);
    host_numbers_read_back(order, none, sender, none);
    lemma_word16(order, none, flags, none);
    host_numbers_read_back(order, none, len, t + f + s + p);
    assert(head =~= none + l + (t + f + s + p));
    lemma_word16(order, l, message_type, f + s + p);
    assert(head =~= l + t + (f + s + p));
}

#[verifier::rlimit(40)]
proof fn lemma_message(
    order: ByteOrder,
    message_type: u16,
    flags: u16,
    sequence: u32,
    sender: u32,
    body: Seq<u8>,
    fill: Seq<u8>,
    rest: Seq<u8>,
)
    requires
        message_parts(body, fill),
    ensures
        ({
            let one = message(order, message_type, flags, sequence, sender, body, fill);
            let all = one + rest;
            &&& one.len() == 16 + body.len() + fill.len()
            &&& netlink::word32(order, all, 0) == 16 + body.len()
            &&& netlink::word16(order, all, 4) == message_type
            &&& netlink::message_body(order, all, 0) == body
            &&& netlink::aligned(16 + body.len() as int) == one.len()
        }),
{
    let len = (16 + body.len()) as u32;
    let head = header(order, len, message_type, flags, sequence, sender);
    lemma_header(order, len, message_type, flags, sequence, sender);
    let one = message(order, message_type, flags, sequence, sender, body, fill);
    let all = one + rest;
    assert(one == head + body + fill);
    assert(all[0] == head[0] && all[1] == head[1] && all[2] == head[2] && all[3] == head[3]);
    assert(all[4] == head[4] && all[5] == head[5]);
    assert(netlink::word32(order, all, 0) == netlink::word32(order, head, 0));
    assert(netlink::word16(order, all, 4) == netlink::word16(order, head, 4));
    assert(all.subrange(16, 16 + body.len() as int) =~= body);
    if body.len() == 0 {
        assert(body =~= Seq::empty());
    }
}

/// Reading does not depend on what stands before the place where it begins.
#[verifier::rlimit(40)]
proof fn lemma_scan_shift(
    order: ByteOrder,
    kind: Protocol,
    before: Seq<u8>,
    b: Seq<u8>,
    offset: int,
    sockets: Map<u64, SocketEntryView>,
)
    requires
        0 <= offset,
    ensures
        netlink::scan(order, kind, before + b, before.len() + offset, sockets) == netlink::scan(
            order,
            kind,
            b,
            offset,
            sockets,
        ),
    decreases b.len() + 4 - offset,
{
    let all = before + b;
    let from = before.len() + offset;
    if offset + 16 <= b.len() {
        let len = netlink::word32(order, b, offset);
        assert(netlink::word32(order, all, from) == len);
        let message_type = netlink::word16(order, b, offset + 4);
        assert(netlink::word16(order, all, from + 4) == message_type);
        if len != 0 && offset + len <= b.len() {
            let body = netlink::message_body(order, b, offset);
            assert(netlink::message_body(order, all, from) =~= body);
            if message_type == netlink::SOCK_DIAG_BY_FAMILY_TYPE {
                if let Some(entry) = netlink::diag_socket(order, body, kind) {
                    lemma_scan_shift(
                        order,
                        kind,
                        before,
                        b,
                        offset + netlink::aligned(len),
                        sockets.insert(entry.inode, entry),
                    );
                }
            } else if message_type != netlink::NLMSG_DONE_TYPE && message_type
                != netlink::NLMSG_ERROR_TYPE {
                lemma_scan_shift(
                    order,
                    kind,
                    before,
                    b,
                    offset + netlink::aligned(len),
                    sockets,
                );
            }
        }
    }
}

/// A message that describes a socket enters it, and reading goes on behind it.
#[verifier::rlimit(40)]
proof fn lemma_socket_step(
    order: ByteOrder,
    kind: Protocol,
    flags: u16,
    sequence: u32,
    sender: u32,
    body: Seq<u8>,
    fill: Seq<u8>,
    entry: SocketEntryView,
    rest: Seq<u8>,
    known: Map<u64, SocketEntryView>,
)
    requires
        message_parts(body, fill),
        netlink::diag_socket(order, body, kind) == Some(entry),
    ensures
        ({
            let one = message(order, 20, flags, sequence, sender, body, fill);
            netlink::scan(order, kind, one + rest, 0, known) == netlink::scan(
                order,
                kind,
                one + rest,
                one.len() as int,
                known.insert(entry.inode, entry),
            )
        }),
{
    lemma_message(order, 20, flags, sequence, sender, body, fill, rest);
}

/// A message of another type is passed over, and reading goes on behind it.
#[verifier::rlimit(40)]
proof fn lemma_other_step(
    order: ByteOrder,
    kind: Protocol,
    flags: u16,
    sequence: u32,
    sender: u32,
    body: Seq<u8>,
    fill: Seq<u8>,
    other_type: u16,
    rest: Seq<u8>,
    known: Map<u64, SocketEntryView>,
)
    requires
        message_parts(body, fill),
        other_type != 20,
        other_type != 3,
        other_type != 2,
    ensures
        ({
            let other = message(order, other_type, flags, sequence, sender, body, fill);
            netlink::scan(order, kind, other + rest, 0, known) == netlink::scan(
                order,
                kind,
                other + rest,
                other.len() as int,
                known,
            )
        }),
{
    lemma_message(order, other_type, flags, sequence, sender, body, fill, rest);
}

/// Messages are read one by one: a message that describes a socket enters the
/// socket under its inode, and reading goes on behind it; one of another type
/// that is neither the end nor an error is passed over.
#[verifier::rlimit(40)]
pub proof fn messages_are_read_one_by_one(
    order: ByteOrder,
    kind: Protocol,
    flags: u16,
    sequence: u32,
    sender: u32,
    body: Seq<u8>,
    fill: Seq<u8>,
    entry: SocketEntryView,
    other_type: u16,
    rest: Seq<u8>,
    known: Map<u64, SocketEntryView>,
)
    requires
        message_parts(body, fill),
        netlink::diag_socket(order, body, kind) == Some(entry),
        other_type != 20,
        other_type != 3,
        other_type != 2,
    ensures
        netlink::scan(
            order,
            kind,
            message(order, 20, flags, sequence, sender, body, fill) + rest,
            0,
            known,
        ) == netlink::scan(order, kind, rest, 0, known.insert(entry.inode, entry)),
        netlink::scan(
            order,
            kind,
            message(order, other_type, flags, sequence, sender, body, fill) + rest,
            0,
            known,
        ) == netlink::scan(order, kind, rest, 0, known),
{
    let one = message(order, 20, flags, sequence, sender, body, fill);
    lemma_socket_step(order, kind, flags, sequence, sender, body, fill, entry, rest, known);
    lemma_scan_shift(order, kind, one, rest, 0, known.insert(entry.inode, entry));
    let other = message(order, other_type, flags, sequence, sender, body, fill);
    lemma_other_step(order, kind, flags, sequence, sender, body, fill, other_type, rest, known);
    lemma_scan_shift(order, kind, other, rest, 0, known);
}

/// The end of a dump ends it, whatever stands in the message and behind it, and
/// an error that the kernel reports is given back by its number.
#[verifier::rlimit(40)]
pub proof fn dumps_end_or_fail_as_the_kernel_says(
    order: ByteOrder,
    kind: Protocol,
    flags: u16,
    sequence: u32,
    sender: u32,
    body: Seq<u8>,
    fill: Seq<u8>,
    errno: u32,
    cause: Seq<u8>,
    rest: Seq<u8>,
    known: Map<u64, SocketEntryView>,
)
    requires
        message_parts(body, fill),
        cause.len() == 16,
        0 < errno < 0x8000_0000,
    ensures
        ({
            let end = netlink::scan(
                order,
                kind,
                message(order, 3, flags, sequence, sender, body, fill) + rest,
                0,
                known,
            );
            &&& end.result == Ok::<bool, NetlinkError>(true)
            &&& end.sockets == known
        }),
        ({
            let error = netlink::bytes32(order, (0x1_0000_0000 - errno) as u32) + cause;
            let failed = netlink::scan(
                order,
                kind,
                message(order, 2, flags, sequence, sender, error, Seq::empty()) + rest,
                0,
                known,
            );
            &&& failed.result == Err::<bool, NetlinkError>(NetlinkError::KernelError(errno as i32))
            &&& failed.sockets == known
        }),
        netlink::scan(order, kind, Seq::empty(), 0, known).result == Ok::<bool, NetlinkError>(
            false,
        ),
{
    lemma_message(order, 3, flags, sequence, sender, body, fill, rest);
    let raw = (0x1_0000_0000 - errno) as u32;
    let error = netlink::bytes32(order, raw) + cause;
    let none = Seq::<u8>::empty();
    host_numbers_read_back(order, none, raw, cause);
    assert(none + netlink::bytes32(order, raw) + cause =~= error);
    lemma_message(order, 2, flags, sequence, sender, error, none, rest);
}

/// All four socket tables are asked for: TCP and UDP, over IPv4 and IPv6, each
/// once, and what comes back counts for the protocol that was asked for.
pub proof fn all_four_tables_are_queried()
    ensures
        netlink::socket_table(0) == (2u8, 6u8, Protocol::Tcp),
        netlink::socket_table(1) == (2u8, 17u8, Protocol::Udp),
        netlink::socket_table(2) == (10u8, 6u8, Protocol::Tcp),
        netlink::socket_table(3) == (10u8, 17u8, Protocol::Udp),
{
}

/// A query takes in datagrams until its table ends, goes on with the next one,
/// is complete after the fourth and fails with the first error; what it knows is
/// what the datagrams told, also where they end or fail.
pub proof fn queries_go_through_all_tables(
    order: ByteOrder,
    table: int,
    known: Map<u64, SocketEntryView>,
    datagram: Seq<u8>,
)
    requires
        0 <= table < 4,
        datagram.len() > 0,
    ensures
        ({
            let after = netlink::datagram_taken_in(order, table, known, datagram);
            let scanned = netlink::scan(
                order,
                if table == 0 || table == 2 {
                    Protocol::Tcp
                } else {
                    Protocol::Udp
                },
                datagram,
                0,
                known,
            );
            &&& after.sockets == scanned.sockets
            &&& scanned.result == Ok::<bool, NetlinkError>(false) ==> after.table == table
                && after.progress == Ok::<QueryProgress, NetlinkError>(QueryProgress::Receive)
            &&& scanned.result == Ok::<bool, NetlinkError>(true) && table < 3 ==> after.table
                == table + 1 && after.progress == Ok::<QueryProgress, NetlinkError>(
                QueryProgress::SendNext,
            )
            &&& scanned.result == Ok::<bool, NetlinkError>(true) && table == 3 ==> after.progress
                == Ok::<QueryProgress, NetlinkError>(QueryProgress::Complete)
            &&& scanned.result matches Err(error) ==> after.progress == Err::<
                QueryProgress,
                NetlinkError,
            >(error) && after.table == table
        }),
        netlink::datagram_taken_in(order, table, known, Seq::empty()).progress == Err::<
            QueryProgress,
            NetlinkError,
        >(NetlinkError::ParseError),
{
}

/// A request asks for a dump of the sockets of its family and protocol in every
/// state, in the byte order of the host.
pub proof fn requests_ask_for_everything(order: ByteOrder, family: u8, protocol: u8)
    ensures
        ({
            let request = netlink::diag_request(order, family, protocol);
            &&& request.len() == 72
            &&& netlink::word32(order, request, 0) == 72
            &&& netlink::word16(order, request, 4) == 20
            &&& netlink::word16(order, request, 6) == 0x301
            &&& request[16] == family
            &&& request[17] == protocol
            &&& netlink::word32(order, request, 20) == 0xffff_ffff
            &&& forall|i: int| 24 <= i < 72 ==> #[trigger] request[i] == 0
        }),
{
}

/// A dump that breaks off, a message of no length and one that is too short for
/// what it should hold are errors, and so is a socket of another family.
#[verifier::rlimit(40)]
pub proof fn garbled_dumps_are_refused(
    order: ByteOrder,
    kind: Protocol,
    flags: u16,
    sequence: u32,
    sender: u32,
    body: Seq<u8>,
    fill: Seq<u8>,
    rest: Seq<u8>,
    known: Map<u64, SocketEntryView>,
    datagram: Seq<u8>,
)
    requires
        message_parts(body, fill),
        datagram.len() >= 16,
        netlink::word32(order, datagram, 0) == 0 || netlink::word32(order, datagram, 0)
            > datagram.len(),
    ensures
        ({
            let described = netlink::scan(
                order,
                kind,
                message(order, 20, flags, sequence, sender, body, fill) + rest,
                0,
                known,
            );
            body.len() < 72 || (body[0] != 2 && body[0] != 10) ==> described.result == Err::<
                bool,
                NetlinkError,
            >(NetlinkError::ParseError) && described.sockets == known
        }),
        ({
            let failed = netlink::scan(
                order,
                kind,
                message(order, 2, flags, sequence, sender, body, fill) + rest,
                0,
                known,
            );
            body.len() < 20 ==> failed.result == Err::<bool, NetlinkError>(NetlinkError::ParseError)
        }),
        netlink::scan(order, kind, datagram, 0, known).result == Err::<bool, NetlinkError>(
            NetlinkError::ParseError,
        ),
        netlink::scan(order, kind, datagram.take(15), 0, known).result == Ok::<bool, NetlinkError>(
            false,
        ),
{
    lemma_message(order, 20, flags, sequence, sender, body, fill, rest);
    lemma_message(order, 2, flags, sequence, sender, body, fill, rest);
}

/// An error number is the negation of what the kernel sends, for all but the one
/// that has no negation.
pub proof fn error_numbers_are_negated(order: ByteOrder, raw: u32, cause: Seq<u8>)
    requires
        cause.len() >= 16,
    ensures
        ({
            let errno = netlink::kernel_errno(order, netlink::bytes32(order, raw) + cause);
            &&& raw > 0x8000_0000 ==> errno == Some((0x1_0000_0000 - raw) as i32)
            &&& raw < 0x8000_0000 ==> errno == Some((-raw) as i32)
            &&& raw == 0x8000_0000 ==> errno == Some(i32::MIN)
        }),
{
    let none = Seq::<u8>::empty();
    host_numbers_read_back(order, none, raw, cause);
    assert(none + netlink::bytes32(order, raw) + cause =~= netlink::bytes32(order, raw) + cause);
}

// ---------------------------------------------------------------------------
// The text tables
// ---------------------------------------------------------------------------

/// A row of a socket table. `columns` are the five between the state and the
/// inode; `rest` is what follows the inode.
pub open spec fn table_row(
    lead: Seq<char>,
    slot: Seq<char>,
    local: Seq<char>,
    remote: Seq<char>,
    state: u8,
    columns: Seq<Seq<char>>,
    inode: u64,
    gap: Seq<char>,
    rest: Seq<char>,
) -> Seq<char> {
    lead + text_laws::spaced(
        seq![slot, local, remote, number::hex_digits(state as nat, 2)] + columns + seq![
            number::decimal(inode as nat),
        ],
        gap,
        rest,
    )
}

proof fn lemma_decimal_ink(n: nat)
    ensures
        text_laws::is_inked(number::decimal(n)),
{
    number::lemma_decimal_digits(n);
    let digits = number::decimal(n);
    assert forall|i: int| 0 <= i < digits.len() implies text_laws::is_ink(#[trigger] digits[i]) by {
        assert(48 <= digits[i] as int);
    }
}

proof fn lemma_hex_ink(n: nat, width: nat)
    requires
        width > 0,
    ensures
        text_laws::is_inked(number::hex_digits(n, width)),
        number::hex_digits(n, width).len() == width,
    decreases width,
{
    let digits = number::hex_digits(n, width);
    if width > 1 {
        lemma_hex_ink(n / 16, (width - 1) as nat);
        let earlier = number::hex_digits(n / 16, (width - 1) as nat);
        assert forall|i: int| 0 <= i < digits.len() implies text_laws::is_ink(
            #[trigger] digits[i],
        ) by {
            if i < earlier.len() {
                assert(digits[i] == earlier[i]);
            }
        }
    } else {
        assert(number::hex_digits(n / 16, 0) =~= Seq::empty());
    }
}

/// A row reads back: it gives the socket with the ends, the state and the inode
/// that were written, for any protocol, wherever the two ends read back.
#[verifier::rlimit(40)]
pub proof fn rows_read_back(
    lead: Seq<char>,
    slot: Seq<char>,
    local: Seq<char>,
    remote: Seq<char>,
    state: u8,
    columns: Seq<Seq<char>>,
    inode: u64,
    gap: Seq<char>,
    rest: Seq<char>,
    kind: Protocol,
    is_ipv4: bool,
    local_addr: SocketAddr,
    remote_addr: SocketAddr,
)
    requires
        text_laws::is_gap(lead),
        text_laws::is_gap(gap),
        gap.len() > 0,
        text_laws::is_inked(slot),
        text_laws::is_inked(local),
        text_laws::is_inked(remote),
        columns.len() == 5,
        forall|i: int| 0 <= i < columns.len() ==> text_laws::is_inked(#[trigger] columns[i]),
        proc_fallback::proc_endpoint(local, is_ipv4) == Some(local_addr),
        proc_fallback::proc_endpoint(remote, is_ipv4) == Some(remote_addr),
    ensures
        proc_fallback::proc_row(
            table_row(lead, slot, local, remote, state, columns, inode, gap, rest),
            kind,
            is_ipv4,
        ) == Some(
            SocketEntryView {
                inode,
                local_addr,
                remote_addr,
                state: if kind == Protocol::Tcp {
                    netlink::state_name(state)
                } else {
                    "UNCONN"@
                },
                uid: 0,
                protocol: kind,
            },
        ),
{
    reveal(proc_fallback::proc_row);
    reveal_with_fuel(number::hex_range, 3);
    let state_text = number::hex_digits(state as nat, 2);
    let inode_text = number::decimal(inode as nat);
    let fields = seq![slot, local, remote, state_text] + columns + seq![inode_text];
    lemma_hex_ink(state as nat, 2);
    lemma_decimal_ink(inode as nat);
    number::lemma_hex_read_back(state as nat, 2, u8::MAX as nat);
    number::lemma_decimal_read_back(inode as nat, u64::MAX as nat);
    assert forall|i: int| 0 <= i < fields.len() implies text_laws::is_inked(#[trigger] fields[i]) by {
        if 4 <= i < 9 {
            assert(fields[i] == columns[i - 4]);
        }
    }
    let row = table_row(lead, slot, local, remote, state, columns, inode, gap, rest);
    text_laws::words_read_back(lead, fields, gap, rest);
    let words = text::words(row);
    assert(words == fields + text::words(rest));
    assert(words[1] == local);
    assert(words[2] == remote);
    assert(words[3] == state_text);
    assert(words[9] == inode_text);
}

/// Every row of a table gives its socket: where all rows can be read, the last
/// row with an inode says what is known of it, and nothing known before is lost.
pub proof fn every_row_gives_its_socket(
    file: Seq<char>,
    rows: Seq<Seq<char>>,
    kind: Protocol,
    is_ipv4: bool,
    known: Map<u64, SocketEntryView>,
    at: int,
)
    requires
        0 <= at < rows.len(),
        forall|i: int|
            0 <= i < rows.len() ==> proc_fallback::proc_row(
                #[trigger] rows[i],
                kind,
                is_ipv4,
            ) is Some,
        forall|later: int|
            at < later < rows.len() ==> proc_fallback::proc_row(
                #[trigger] rows[later],
                kind,
                is_ipv4,
            )->0.inode != proc_fallback::proc_row(rows[at], kind, is_ipv4)->0.inode,
    ensures
        proc_fallback::rows_read(file, rows, kind, is_ipv4, known) matches Ok(sockets) && {
            let entry = proc_fallback::proc_row(rows[at], kind, is_ipv4)->0;
            &&& sockets.contains_key(entry.inode)
            &&& sockets[entry.inode] == entry
            &&& forall|inode: u64| #[trigger]
                known.contains_key(inode) ==> sockets.contains_key(inode)
        },
    decreases rows.len(),
{
    let before = rows.drop_last();
    assert forall|i: int| 0 <= i < before.len() implies proc_fallback::proc_row(
        #[trigger] before[i],
        kind,
        is_ipv4,
    ) is Some by {
        assert(before[i] == rows[i]);
    }
    lemma_rows_read(file, before, kind, is_ipv4, known);
    assert(rows[rows.len() - 1] == rows.last());
    if at < rows.len() - 1 {
        assert forall|later: int| at < later < before.len() implies proc_fallback::proc_row(
            #[trigger] before[later],
            kind,
            is_ipv4,
        )->0.inode != proc_fallback::proc_row(before[at], kind, is_ipv4)->0.inode by {
            assert(before[later] == rows[later]);
            assert(before[at] == rows[at]);
        }
        every_row_gives_its_socket(file, before, kind, is_ipv4, known, at);
        assert(before[at] == rows[at]);
    }
}

proof fn lemma_rows_read(
    file: Seq<char>,
    rows: Seq<Seq<char>>,
    kind: Protocol,
    is_ipv4: bool,
    known: Map<u64, SocketEntryView>,
)
    requires
        forall|i: int|
            0 <= i < rows.len() ==> proc_fallback::proc_row(
                #[trigger] rows[i],
                kind,
                is_ipv4,
            ) is Some,
    ensures
        proc_fallback::rows_read(file, rows, kind, is_ipv4, known) matches Ok(sockets)
            && forall|inode: u64| #[trigger]
            known.contains_key(inode) ==> sockets.contains_key(inode),
    decreases rows.len(),
{
    if rows.len() > 0 {
        let before = rows.drop_last();
        assert forall|i: int| 0 <= i < before.len() implies proc_fallback::proc_row(
            #[trigger] before[i],
            kind,
            is_ipv4,
        ) is Some by {
            assert(before[i] == rows[i]);
        }
        lemma_rows_read(file, before, kind, is_ipv4, known);
        assert(rows[rows.len() - 1] == rows.last());
    }
}

/// A row that cannot be read is an error that names the first such row.
pub proof fn the_first_bad_row_is_named(
    file: Seq<char>,
    rows: Seq<Seq<char>>,
    kind: Protocol,
    is_ipv4: bool,
    known: Map<u64, SocketEntryView>,
    at: int,
)
    requires
        0 <= at < rows.len(),
        proc_fallback::proc_row(rows[at], kind, is_ipv4) is None,
        forall|i: int|
            0 <= i < at ==> proc_fallback::proc_row(#[trigger] rows[i], kind, is_ipv4) is Some,
    ensures
        proc_fallback::rows_read(file, rows, kind, is_ipv4, known) == Err::<
            Map<u64, SocketEntryView>,
            proc_fallback::FallbackErrorView,
        >(proc_fallback::FallbackErrorView::ParseLine { file, line: rows[at] }),
    decreases rows.len(),
{
    let before = rows.drop_last();
    if at < rows.len() - 1 {
        assert(before[at] == rows[at]);
        assert forall|i: int| 0 <= i < at implies proc_fallback::proc_row(
            #[trigger] before[i],
            kind,
            is_ipv4,
        ) is Some by {
            assert(before[i] == rows[i]);
        }
        the_first_bad_row_is_named(file, before, kind, is_ipv4, known, at);
    } else {
        assert forall|i: int| 0 <= i < before.len() implies proc_fallback::proc_row(
            #[trigger] before[i],
            kind,
            is_ipv4,
        ) is Some by {
            assert(before[i] == rows[i]);
        }
        lemma_rows_read(file, before, kind, is_ipv4, known);
    }
}

/// A row that is read is complete: it has ten columns at least, both ends have
/// an address of the full length and a port, and the tenth column is the inode.
pub proof fn only_complete_rows_are_read(row: Seq<char>, kind: Protocol, is_ipv4: bool)
    requires
        proc_fallback::proc_row(row, kind, is_ipv4) is Some,
    ensures
        ({
            let columns = text::words(row);
            let socket = proc_fallback::proc_row(row, kind, is_ipv4)->0;
            &&& columns.len() >= 10
            &&& is_endpoint(columns[1], is_ipv4, socket.local_addr)
            &&& is_endpoint(columns[2], is_ipv4, socket.remote_addr)
            &&& number::numeral(columns[9], 10, u64::MAX as nat) == Some(socket.inode as nat)
            &&& socket.protocol == kind
            &&& socket.uid == 0
        }),
{
    reveal(proc_fallback::proc_row);
}

/// The text has an address of the full length for its version before the first
/// colon and the port behind it.
pub open spec fn is_endpoint(s: Seq<char>, is_ipv4: bool, end: SocketAddr) -> bool {
    let parts = text::split_on(s, ':');
    &&& parts.len() >= 2
    &&& is_ipv4 ==> parts[0].len() == 8 && end.ip is V4
    &&& !is_ipv4 ==> parts[0].len() == 32 && end.ip is V6
    &&& number::numeral(parts[1], 16, 0xffff) == Some(end.port as nat)
}

/// The states of TCP have their names, and other protocols have none.
pub proof fn states_have_their_names(state: u8, digits: Seq<char>)
    requires
        number::numeral(digits, 16, 0xff) == Some(state as nat),
    ensures
        ({
            let names = seq![
                "ESTABLISHED"@,
                "SYN_SENT"@,
                "SYN_RECV"@,
                "FIN_WAIT1"@,
                "FIN_WAIT2"@,
                "TIME_WAIT"@,
                "CLOSE"@,
                "CLOSE_WAIT"@,
                "LAST_ACK"@,
                "LISTEN"@,
                "CLOSING"@,
            ];
            &&& 1 <= state <= 11 ==> netlink::state_name(state) == names[state - 1]
            &&& state == 0 || state > 11 ==> netlink::state_name(state) == "UNKNOWN"@
            &&& proc_fallback::proc_state(digits, Protocol::Tcp) == netlink::state_name(state)
            &&& proc_fallback::proc_state(digits, Protocol::Udp) == "UNCONN"@
        }),
{
}

/// One table adds to what is known: the sockets of its rows, each under its own
/// inode, and nothing else changes.
#[verifier::rlimit(40)]
proof fn lemma_rows_add(
    file: Seq<char>,
    rows: Seq<Seq<char>>,
    kind: Protocol,
    is_ipv4: bool,
    known: Map<u64, SocketEntryView>,
    inode: u64,
)
    requires
        proc_fallback::rows_read(file, rows, kind, is_ipv4, known) is Ok,
    ensures
        ({
            let sockets = proc_fallback::rows_read(file, rows, kind, is_ipv4, known)->Ok_0;
            &&& sockets.contains_key(inode) <==> known.contains_key(inode) || row_of(
                rows,
                kind,
                is_ipv4,
                inode,
            )
            &&& !row_of(rows, kind, is_ipv4, inode) && known.contains_key(inode) ==> sockets[inode]
                == known[inode]
            &&& row_of(rows, kind, is_ipv4, inode) ==> sockets[inode].protocol == kind
                && sockets[inode].inode == inode
        }),
    decreases rows.len(),
{
    if rows.len() > 0 {
        let before = rows.drop_last();
        if proc_fallback::proc_row(rows.last(), kind, is_ipv4) is Some {
            only_complete_rows_are_read(rows.last(), kind, is_ipv4);
        }
        lemma_rows_add(file, before, kind, is_ipv4, known, inode);
        assert(rows[rows.len() - 1] == rows.last());
        if row_of(before, kind, is_ipv4, inode) {
            let i = choose|i: int|
                0 <= i < before.len() && gives_inode(#[trigger] before[i], kind, is_ipv4, inode);
            assert(rows[i] == before[i]);
        }
        if row_of(rows, kind, is_ipv4, inode) {
            let i = choose|i: int|
                0 <= i < rows.len() && gives_inode(#[trigger] rows[i], kind, is_ipv4, inode);
            if i < before.len() {
                assert(before[i] == rows[i]);
            }
        }
    }
}

/// The row is of the socket with the inode.
pub open spec fn gives_inode(row: Seq<char>, kind: Protocol, is_ipv4: bool, inode: u64) -> bool {
    proc_fallback::proc_row(row, kind, is_ipv4) matches Some(socket) && socket.inode == inode
}

/// Some row is of the socket with the inode.
pub open spec fn row_of(
    rows: Seq<Seq<char>>,
    kind: Protocol,
    is_ipv4: bool,
    inode: u64,
) -> bool {
    exists|i: int| 0 <= i < rows.len() && gives_inode(#[trigger] rows[i], kind, is_ipv4, inode)
}

/// The lines of a table that follow its heading.
pub open spec fn below_heading(content: Result<String, String>) -> Seq<Seq<char>> {
    match content {
        Ok(content) => if text::lines(content@).len() == 0 {
            Seq::empty()
        } else {
            text::lines(content@).skip(1)
        },
        Err(_) => Seq::empty(),
    }
}

/// All four tables count: where they can be read, a socket is known exactly if
/// some table has a row for it, and where only one has, it is of that table's
/// protocol.
#[verifier::rlimit(40)]
pub proof fn every_table_counts(files: ProcNetFiles, inode: u64)
    requires
        proc_fallback::tables_read(files) is Ok,
    ensures
        files.tcp is Ok,
        files.tcp6 is Ok,
        files.udp is Ok,
        files.udp6 is Ok,
        ({
            let sockets = proc_fallback::tables_read(files)->Ok_0;
            let tcp = row_of(below_heading(files.tcp), Protocol::Tcp, true, inode) || row_of(
                below_heading(files.tcp6),
                Protocol::Tcp,
                false,
                inode,
            );
            let udp = row_of(below_heading(files.udp), Protocol::Udp, true, inode) || row_of(
                below_heading(files.udp6),
                Protocol::Udp,
                false,
                inode,
            );
            &&& sockets.contains_key(inode) <==> tcp || udp
            &&& udp ==> sockets[inode].protocol == Protocol::Udp
            &&& tcp && !udp ==> sockets[inode].protocol == Protocol::Tcp
            &&& tcp || udp ==> sockets[inode].inode == inode
        }),
{
    let none = Map::<u64, SocketEntryView>::empty();
    let start = Ok::<Map<u64, SocketEntryView>, FallbackErrorView>(none);
    let first = proc_fallback::table_read(
        start,
        "/proc/net/tcp"@,
        proc_fallback::content_view(files.tcp),
        Protocol::Tcp,
        true,
    );
    let second = proc_fallback::table_read(
        first,
        "/proc/net/tcp6"@,
        proc_fallback::content_view(files.tcp6),
        Protocol::Tcp,
        false,
    );
    let third = proc_fallback::table_read(
        second,
        "/proc/net/udp"@,
        proc_fallback::content_view(files.udp),
        Protocol::Udp,
        true,
    );
    let last = proc_fallback::tables_read(files);
    assert(first is Ok && second is Ok && third is Ok);
    assert(below_heading(files.tcp) =~= proc_fallback::table_rows(files.tcp->Ok_0@));
    assert(below_heading(files.tcp6) =~= proc_fallback::table_rows(files.tcp6->Ok_0@));
    assert(below_heading(files.udp) =~= proc_fallback::table_rows(files.udp->Ok_0@));
    assert(below_heading(files.udp6) =~= proc_fallback::table_rows(files.udp6->Ok_0@));
    lemma_rows_add(
        "/proc/net/tcp"@,
        below_heading(files.tcp),
        Protocol::Tcp,
        true,
        none,
        inode,
    );
    lemma_rows_add(
        "/proc/net/tcp6"@,
        below_heading(files.tcp6),
        Protocol::Tcp,
        false,
        first->Ok_0,
        inode,
    );
    lemma_rows_add(
        "/proc/net/udp"@,
        below_heading(files.udp),
        Protocol::Udp,
        true,
        second->Ok_0,
        inode,
    );
    lemma_rows_add(
        "/proc/net/udp6"@,
        below_heading(files.udp6),
        Protocol::Udp,
        false,
        third->Ok_0,
        inode,
    );
}

/// Where every row of every table can be read, so can the tables.
#[verifier::rlimit(40)]
pub proof fn readable_tables_are_read(files: ProcNetFiles)
    requires
        files.tcp is Ok,
        files.tcp6 is Ok,
        files.udp is Ok,
        files.udp6 is Ok,
        all_readable(below_heading(files.tcp), Protocol::Tcp, true),
        all_readable(below_heading(files.tcp6), Protocol::Tcp, false),
        all_readable(below_heading(files.udp), Protocol::Udp, true),
        all_readable(below_heading(files.udp6), Protocol::Udp, false),
    ensures
        proc_fallback::tables_read(files) is Ok,
{
    let none = Map::<u64, SocketEntryView>::empty();
    assert(below_heading(files.tcp) =~= proc_fallback::table_rows(files.tcp->Ok_0@));
    assert(below_heading(files.tcp6) =~= proc_fallback::table_rows(files.tcp6->Ok_0@));
    assert(below_heading(files.udp) =~= proc_fallback::table_rows(files.udp->Ok_0@));
    assert(below_heading(files.udp6) =~= proc_fallback::table_rows(files.udp6->Ok_0@));
    lemma_rows_read("/proc/net/tcp"@, below_heading(files.tcp), Protocol::Tcp, true, none);
    let first = proc_fallback::rows_read(
        "/proc/net/tcp"@,
        below_heading(files.tcp),
        Protocol::Tcp,
        true,
        none,
    )->Ok_0;
    lemma_rows_read("/proc/net/tcp6"@, below_heading(files.tcp6), Protocol::Tcp, false, first);
    let second = proc_fallback::rows_read(
        "/proc/net/tcp6"@,
        below_heading(files.tcp6),
        Protocol::Tcp,
        false,
        first,
    )->Ok_0;
    lemma_rows_read("/proc/net/udp"@, below_heading(files.udp), Protocol::Udp, true, second);
    let third = proc_fallback::rows_read(
        "/proc/net/udp"@,
        below_heading(files.udp),
        Protocol::Udp,
        true,
        second,
    )->Ok_0;
    lemma_rows_read("/proc/net/udp6"@, below_heading(files.udp6), Protocol::Udp, false, third);
}

/// Every row can be read.
pub open spec fn all_readable(rows: Seq<Seq<char>>, kind: Protocol, is_ipv4: bool) -> bool {
    forall|i: int|
        0 <= i < rows.len() ==> proc_fallback::proc_row(#[trigger] rows[i], kind, is_ipv4) is Some
}

/// A table that cannot be opened is an error that names its file and the cause,
/// unless an earlier table failed already.
pub proof fn unopened_tables_are_named(files: ProcNetFiles, source: String)
    ensures
        files.tcp == Err::<String, String>(source) ==> proc_fallback::tables_read(files) == Err::<
            Map<u64, SocketEntryView>,
            FallbackErrorView,
        >(FallbackErrorView::FileOpen { path: "/proc/net/tcp"@, source: source@ }),
        files.tcp is Ok && all_readable(below_heading(files.tcp), Protocol::Tcp, true) && files.tcp6
            == Err::<String, String>(source) ==> proc_fallback::tables_read(files) == Err::<
            Map<u64, SocketEntryView>,
            FallbackErrorView,
        >(FallbackErrorView::FileOpen { path: "/proc/net/tcp6"@, source: source@ }),
        files.udp is Err || files.udp6 is Err ==> proc_fallback::tables_read(files) is Err,
{
    if files.tcp is Ok && all_readable(below_heading(files.tcp), Protocol::Tcp, true) {
        assert(below_heading(files.tcp) =~= proc_fallback::table_rows(files.tcp->Ok_0@));
        lemma_rows_read(
            "/proc/net/tcp"@,
            below_heading(files.tcp),
            Protocol::Tcp,
            true,
            Map::empty(),
        );
    }
}

// ---------------------------------------------------------------------------
// Holders
// ---------------------------------------------------------------------------

/// One of the link targets is that of the socket.
pub open spec fn links_to(targets: Seq<String>, inode: u64) -> bool {
    exists|i: int|
        0 <= i < targets.len() && pid_map::socket_inode((#[trigger] targets[i])@) == Some(inode)
}

/// The links of a directory give its owner exactly the sockets that they lead
/// to.
pub proof fn links_give_their_sockets(
    targets: Seq<String>,
    owner: InodePidEntryView,
    known: Map<u64, InodePidEntryView>,
    inode: u64,
)
    ensures
        ({
            let held = pid_map::held(targets, owner, known);
            &&& links_to(targets, inode) ==> held.contains_key(inode) && held[inode] == owner
            &&& !links_to(targets, inode) ==> held.contains_key(inode) == known.contains_key(inode)
                && held[inode] == known[inode]
        }),
    decreases targets.len(),
{
    if targets.len() > 0 {
        let before = targets.drop_last();
        links_give_their_sockets(before, owner, known, inode);
        if links_to(before, inode) {
            let i = choose|i: int|
                0 <= i < before.len() && pid_map::socket_inode((#[trigger] before[i])@) == Some(
                    inode,
                );
            assert(targets[i] == before[i]);
            assert(links_to(targets, inode));
        } else if links_to(targets, inode) {
            let i = choose|i: int|
                0 <= i < targets.len() && pid_map::socket_inode((#[trigger] targets[i])@) == Some(
                    inode,
                );
            if i < before.len() {
                assert(before[i] == targets[i]);
            }
            assert(i == targets.len() - 1);
        } else {
            assert(pid_map::socket_inode(targets[targets.len() - 1]@) != Some(inode));
        }
    }
}

/// A thread holds the socket.
pub open spec fn task_holds(task: TaskScan, inode: u64) -> bool {
    pid_map::dir_id(task.dir_name@) is Some && links_to(task.fd_targets@, inode)
}

/// A process holds the socket through one of its threads, or through its own
/// files where its threads cannot be listed.
pub open spec fn process_holds(process: ProcessScan, inode: u64) -> bool {
    match process.tasks {
        Some(tasks) => exists|i: int| 0 <= i < tasks@.len() && task_holds(#[trigger] tasks@[i], inode),
        None => links_to(process.fd_targets@, inode),
    }
}

proof fn lemma_tasks(
    tasks: Seq<TaskScan>,
    pid: u32,
    name: Seq<char>,
    uid: u32,
    known: Map<u64, InodePidEntryView>,
    inode: u64,
    at: int,
)
    requires
        0 <= at < tasks.len(),
        task_holds(tasks[at], inode),
        forall|later: int|
            at < later < tasks.len() ==> !task_holds(#[trigger] tasks[later], inode),
    ensures
        ({
            let held = pid_map::held_by_tasks(tasks, pid, name, uid, known);
            &&& held.contains_key(inode)
            &&& held[inode] == (InodePidEntryView {
                pid,
                tid: pid_map::dir_id(tasks[at].dir_name@)->0,
                process_name: name,
                thread_name: pid_map::thread_name(tasks[at].comm, name),
                uid,
            })
        }),
    decreases tasks.len(),
{
    let before = pid_map::held_by_tasks(tasks.drop_last(), pid, name, uid, known);
    let last = tasks.last();
    assert(tasks[tasks.len() - 1] == last);
    if at < tasks.len() - 1 {
        assert(tasks.drop_last()[at] == tasks[at]);
        assert forall|later: int| at < later < tasks.drop_last().len() implies !task_holds(
            #[trigger] tasks.drop_last()[later],
            inode,
        ) by {
            assert(tasks.drop_last()[later] == tasks[later]);
        }
        lemma_tasks(tasks.drop_last(), pid, name, uid, known, inode, at);
    }
    if let Some(tid) = pid_map::dir_id(last.dir_name@) {
        links_give_their_sockets(
            last.fd_targets@,
            InodePidEntryView {
                pid,
                tid,
                process_name: name,
                thread_name: pid_map::thread_name(last.comm, name),
                uid,
            },
            before,
            inode,
        );
    }
}

proof fn lemma_tasks_without(
    tasks: Seq<TaskScan>,
    pid: u32,
    name: Seq<char>,
    uid: u32,
    known: Map<u64, InodePidEntryView>,
    inode: u64,
)
    requires
        forall|i: int| 0 <= i < tasks.len() ==> !task_holds(#[trigger] tasks[i], inode),
    ensures
        ({
            let held = pid_map::held_by_tasks(tasks, pid, name, uid, known);
            held.contains_key(inode) == known.contains_key(inode) && held[inode] == known[inode]
        }),
    decreases tasks.len(),
{
    if tasks.len() > 0 {
        let before = tasks.drop_last();
        assert forall|i: int| 0 <= i < before.len() implies !task_holds(
            #[trigger] before[i],
            inode,
        ) by {
            assert(before[i] == tasks[i]);
        }
        lemma_tasks_without(before, pid, name, uid, known, inode);
        let last = tasks.last();
        assert(!task_holds(tasks[tasks.len() - 1], inode));
        if let Some(tid) = pid_map::dir_id(last.dir_name@) {
            links_give_their_sockets(
                last.fd_targets@,
                InodePidEntryView {
                    pid,
                    tid,
                    process_name: name,
                    thread_name: pid_map::thread_name(last.comm, name),
                    uid,
                },
                pid_map::held_by_tasks(before, pid, name, uid, known),
                inode,
            );
        }
    }
}

/// Every inode reads back from the link of its socket, and only such links give
/// one: a number in brackets behind the word.
pub proof fn socket_links_read_back(inode: u64, target: Seq<char>)
    ensures
        pid_map::socket_inode("socket:["@ + number::decimal(inode as nat) + "]"@) == Some(inode),
        pid_map::socket_inode(target) == Some(inode) ==> {
            let inner = target.subrange(8, target.len() - 1);
            &&& target == "socket:["@ + inner + "]"@
            &&& number::numeral(inner, 10, u64::MAX as nat) == Some(inode as nat)
        },
{
    reveal_strlit("socket:[");
    reveal_strlit("]");
    pid_map::socket_link_gives_inode(inode);
    if pid_map::socket_inode(target) == Some(inode) {
        let inner = target.subrange(8, target.len() - 1);
        assert(target.take(8) =~= "socket:["@);
        assert(target.skip(target.len() - 1) =~= "]"@);
        assert(target =~= target.take(8) + inner + target.skip(target.len() - 1));
    }
}

/// A process whose number, name or user cannot be read holds nothing, and neither
/// does a thread whose number cannot be read.
pub proof fn unreadable_processes_hold_nothing(
    process: ProcessScan,
    task: TaskScan,
    pid: u32,
    name: Seq<char>,
    uid: u32,
    known: Map<u64, InodePidEntryView>,
)
    ensures
        number::numeral(process.dir_name@, 10, 0xffff_ffff) is None || process.comm is None
            || process.status is None || pid_map::status_uid(process.status) is None
            ==> pid_map::held_by_process(process, known) == known,
        number::numeral(task.dir_name@, 10, 0xffff_ffff) is None ==> pid_map::held_by_task(
            task,
            pid,
            name,
            uid,
            known,
        ) == known,
{
}

/// A process that does not hold a socket changes nothing about it.
pub proof fn others_do_not_take_sockets(
    process: ProcessScan,
    known: Map<u64, InodePidEntryView>,
    inode: u64,
)
    requires
        !process_holds(process, inode),
    ensures
        ({
            let held = pid_map::held_by_process(process, known);
            held.contains_key(inode) == known.contains_key(inode) && held[inode] == known[inode]
        }),
{
    if let (Some(pid), Some(comm), Some(uid)) = (
        pid_map::dir_id(process.dir_name@),
        process.comm,
        pid_map::status_uid(process.status),
    ) {
        let name = text::trimmed(comm@);
        match process.tasks {
            Some(tasks) => {
                assert forall|i: int| 0 <= i < tasks@.len() implies !task_holds(
                    #[trigger] tasks@[i],
                    inode,
                ) by {
                    if task_holds(tasks@[i], inode) {
                        assert(process_holds(process, inode));
                    }
                }
                lemma_tasks_without(tasks@, pid, name, uid, known, inode);
            },
            None => {
                links_give_their_sockets(
                    process.fd_targets@,
                    InodePidEntryView {
                        pid,
                        tid: pid,
                        process_name: name,
                        thread_name: name,
                        uid,
                    },
                    known,
                    inode,
                );
            },
        }
    }
}

/// The text that a status file has for a user: the real id, the effective id,
/// and more.
pub open spec fn uid_line(login: u32, effective: u32, gap: Seq<char>, rest: Seq<char>) -> Seq<char> {
    "Uid:"@ + (gap + text_laws::spaced(
        seq![number::decimal(login as nat), number::decimal(effective as nat)],
        gap,
        rest,
    ))
}

proof fn lemma_uid_line(login: u32, effective: u32, gap: Seq<char>, rest: Seq<char>)
    requires
        text_laws::is_gap(gap),
        gap.len() > 0,
    ensures
        pid_map::uid_in_line(uid_line(login, effective, gap, rest)) == Some(Some(effective)),
{
    let line = uid_line(login, effective, gap, rest);
    let prefix = "Uid:"@;
    assert(line.take(prefix.len() as int) =~= prefix);
    let tail = gap + text_laws::spaced(
        seq![number::decimal(login as nat), number::decimal(effective as nat)],
        gap,
        rest,
    );
    assert(line.skip(prefix.len() as int) =~= tail);
    lemma_decimal_ink(login as nat);
    lemma_decimal_ink(effective as nat);
    let fields = seq![number::decimal(login as nat), number::decimal(effective as nat)];
    text_laws::words_read_back(gap, fields, gap, rest);
    assert(text::words(tail)[1] == number::decimal(effective as nat));
    number::lemma_decimal_read_back(effective as nat, u32::MAX as nat);
}

/// The effective user id of a process is read from its status, wherever the line
/// stands and whatever the real id is.
pub proof fn the_effective_user_is_read(
    status: Seq<char>,
    lines: Seq<Seq<char>>,
    with_cr: bool,
    at: int,
    login: u32,
    effective: u32,
    gap: Seq<char>,
    rest: Seq<char>,
)
    requires
        forall|i: int| 0 <= i < lines.len() ==> text_laws::is_line(#[trigger] lines[i]),
        status == text_laws::ended_lines(lines, with_cr),
        0 <= at < lines.len(),
        text_laws::is_gap(gap),
        gap.len() > 0,
        lines[at] == uid_line(login, effective, gap, rest),
        forall|i: int| 0 <= i < at ==> !text::begins_with(#[trigger] lines[i], "Uid:"@),
    ensures
        pid_map::uid_in_lines(text::lines(status)) == Some(effective),
{
    let none = Seq::<char>::empty();
    assert(status =~= text_laws::ended_lines(lines, with_cr) + none);
    text_laws::lines_read_back(lines, with_cr, none);
    lemma_uid_line(login, effective, gap, rest);
    lemma_first_uid(lines, at);
}

proof fn lemma_first_uid(lines: Seq<Seq<char>>, at: int)
    requires
        0 <= at < lines.len(),
        pid_map::uid_in_line(lines[at]) is Some,
        forall|i: int| 0 <= i < at ==> !text::begins_with(#[trigger] lines[i], "Uid:"@),
    ensures
        pid_map::uid_in_lines(lines) == pid_map::uid_in_line(lines[at])->0,
    decreases lines.len(),
{
    if at > 0 {
        assert(!text::begins_with(lines[0], "Uid:"@));
        let later = lines.drop_first();
        assert(later[at - 1] == lines[at]);
        assert forall|i: int| 0 <= i < at - 1 implies !text::begins_with(
            #[trigger] later[i],
            "Uid:"@,
        ) by {
            assert(later[i] == lines[i + 1]);
        }
        lemma_first_uid(later, at - 1);
    }
}

/// Directories of processes and threads give their ids, and no other directory
/// does.
pub proof fn numbers_name_processes(id: u32, name: Seq<char>)
    ensures
        pid_map::dir_id(number::decimal(id as nat)) == Some(id),
        pid_map::dir_id(name) is Some ==> name.len() > 0 && forall|i: int|
            1 <= i < name.len() ==> '0' <= #[trigger] name[i] && name[i] <= '9',
{
    number::lemma_decimal_read_back(id as nat, u32::MAX as nat);
    if pid_map::dir_id(name) is Some {
        text_laws::only_digits_spell_numbers(name, u32::MAX as nat);
    }
}

/// The holder of a socket is found: where a process with a readable name and
/// user has a thread with a link to the socket, and no later thread and no later
/// process has one, the socket is held by that thread.
pub proof fn the_holder_of_a_socket_is_found(
    processes: Seq<ProcessScan>,
    at: int,
    tasks: Vec<TaskScan>,
    task: int,
    pid: u32,
    tid: u32,
    comm: String,
    uid: u32,
    inode: u64,
)
    requires
        0 <= at < processes.len(),
        processes[at].dir_name@ == number::decimal(pid as nat),
        processes[at].comm == Some(comm),
        pid_map::status_uid(processes[at].status) == Some(uid),
        processes[at].tasks == Some(tasks),
        0 <= task < tasks@.len(),
        tasks@[task].dir_name@ == number::decimal(tid as nat),
        links_to(tasks@[task].fd_targets@, inode),
        forall|later: int|
            task < later < tasks@.len() ==> !task_holds(#[trigger] tasks@[later], inode),
        forall|later: int|
            at < later < processes.len() ==> !process_holds(#[trigger] processes[later], inode),
    ensures
        ({
            let held = pid_map::held_by_all(processes);
            &&& held.contains_key(inode)
            &&& held[inode].pid == pid
            &&& held[inode].tid == tid
            &&& held[inode].uid == uid
            &&& held[inode].process_name == text::trimmed(comm@)
            &&& tasks@[task].comm matches Some(own) ==> held[inode].thread_name == text::trimmed(
                own@,
            )
            &&& tasks@[task].comm is None ==> held[inode].thread_name == text::trimmed(comm@)
        }),
    decreases processes.len(),
{
    numbers_name_processes(pid, Seq::empty());
    numbers_name_processes(tid, Seq::empty());
    let before = pid_map::held_by_all(processes.drop_last());
    let last = processes.last();
    assert(processes[processes.len() - 1] == last);
    if at < processes.len() - 1 {
        let earlier = processes.drop_last();
        assert(earlier[at] == processes[at]);
        assert forall|later: int| at < later < earlier.len() implies !process_holds(
            #[trigger] earlier[later],
            inode,
        ) by {
            assert(earlier[later] == processes[later]);
        }
        the_holder_of_a_socket_is_found(earlier, at, tasks, task, pid, tid, comm, uid, inode);
        others_do_not_take_sockets(last, before, inode);
    } else {
        lemma_tasks(tasks@, pid, text::trimmed(comm@), uid, before, inode, task);
    }
}

/// Where the threads of a process cannot be listed, its own links count for its
/// main thread.
pub proof fn a_process_holds_what_its_threads_do_not_tell(
    process: ProcessScan,
    known: Map<u64, InodePidEntryView>,
    pid: u32,
    comm: String,
    uid: u32,
    inode: u64,
)
    requires
        process.dir_name@ == number::decimal(pid as nat),
        process.comm == Some(comm),
        pid_map::status_uid(process.status) == Some(uid),
        process.tasks is None,
        links_to(process.fd_targets@, inode),
    ensures
        ({
            let held = pid_map::held_by_process(process, known);
            &&& held.contains_key(inode)
            &&& held[inode].pid == pid
            &&& held[inode].tid == pid
            &&& held[inode].uid == uid
            &&& held[inode].process_name == text::trimmed(comm@)
            &&& held[inode].thread_name == text::trimmed(comm@)
        }),
{
    numbers_name_processes(pid, Seq::empty());
    let name = text::trimmed(comm@);
    links_give_their_sockets(
        process.fd_targets@,
        InodePidEntryView { pid, tid: pid, process_name: name, thread_name: name, uid },
        known,
        inode,
    );
}

} // verus!
