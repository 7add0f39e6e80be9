//! Socket enumeration through the kernel's SOCK_DIAG interface: the requests
//! that are sent, the messages that come back, and the order in which the
//! socket tables are asked for.

use std::collections::HashMap;

use vstd::prelude::*;
use vstd::slice::slice_subrange;

use super::{SocketEntry, SocketEntryView, SocketTable};
use crate::capture::Protocol;
use crate::net;
use crate::net::{read_be, read_be_u16, read_be_u32, IpAddr, SocketAddr};
use crate::number;
use crate::resolver;
use crate::text;

verus! {

/// Linux address family constant for IPv4.
pub const AF_INET_FAMILY: u8 = 2;

/// Linux address family constant for IPv6.
pub const AF_INET6_FAMILY: u8 = 10;

/// Linux IP protocol constant for TCP.
pub const IPPROTO_TCP_PROTOCOL: u8 = 6;

/// Linux IP protocol constant for UDP.
pub const IPPROTO_UDP_PROTOCOL: u8 = 17;

/// Message type for SOCK_DIAG requests and responses.
pub const SOCK_DIAG_BY_FAMILY_TYPE: u16 = 20;

/// Message type that ends a multipart dump.
pub const NLMSG_DONE_TYPE: u16 = 3;

/// Message type of a kernel-side error response.
pub const NLMSG_ERROR_TYPE: u16 = 2;

/// Request flag together with the flags of a dump of everything.
pub const NLMSG_FLAG_DUMP_REQUEST: u16 = 0x0301;

/// Sequence number used for all requests.
pub const NETLINK_REQUEST_SEQUENCE: u32 = 1;

/// Bitmask that selects all socket states.
pub const REQUEST_SOCKET_STATES_ALL: u32 = 0xffff_ffff;

/// Length of a message header in bytes.
pub const NLMSG_HEADER_LEN: usize = 16;

/// Length of a request body in bytes.
pub const DIAG_REQUEST_LEN: usize = 56;

/// Length of the fixed part of a response body in bytes.
pub const DIAG_MESSAGE_LEN: usize = 72;

/// Length of an error body in bytes.
pub const ERROR_MESSAGE_LEN: usize = 20;

/// Byte order of the host, in which the kernel fills in numbers.
#[derive(Clone, Copy, Debug, PartialEq, Eq, Structural)]
pub enum ByteOrder {
    Little,
    Big,
}

/// What can go wrong with a query.
#[derive(Clone, Debug)]
pub enum NetlinkError {
    SocketOpen(String),
    SendFailed(String),
    RecvFailed(String),
    KernelError(i32),
    ParseError,
}

/// The message of an error.
pub open spec fn netlink_message(error: NetlinkError) -> Seq<char> {
    match error {
        NetlinkError::SocketOpen(cause) => "failed to open Netlink socket: "@ + cause@,
        NetlinkError::SendFailed(cause) => "failed to send Netlink request: "@ + cause@,
        NetlinkError::RecvFailed(cause) => "failed to receive Netlink response: "@ + cause@,
        NetlinkError::KernelError(errno) => "kernel returned a Netlink error message (errno "@
            + number::signed_decimal(errno as int) + ")"@,
        NetlinkError::ParseError => "could not parse Netlink response message"@,
    }
}

impl NetlinkError {
    /// The message shown for the error.
    pub fn message(&self) -> (message: String)
        ensures
            message@ == netlink_message(*self),
    {
        match self {
            NetlinkError::SocketOpen(cause) => text::followed_by(
                "failed to open Netlink socket: ",
                cause.as_str(),
            ),
            NetlinkError::SendFailed(cause) => text::followed_by(
                "failed to send Netlink request: ",
                cause.as_str(),
            ),
            NetlinkError::RecvFailed(cause) => text::followed_by(
                "failed to receive Netlink response: ",
                cause.as_str(),
            ),
            NetlinkError::KernelError(errno) => {
                let mut message =
                    "kernel returned a Netlink error message (errno ".to_string();
                number::push_signed(&mut message, *errno);
                message.append(")");
                message
            },
            NetlinkError::ParseError => "could not parse Netlink response message".to_string(),
        }
    }
}

/// The two-byte number at `at`.
pub open spec fn word16(order: ByteOrder, b: Seq<u8>, at: int) -> int {
    match order {
        ByteOrder::Little => b[at] + 256 * b[at + 1],
        ByteOrder::Big => 256 * b[at] + b[at + 1],
    }
}

/// The four-byte number at `at`.
pub open spec fn word32(order: ByteOrder, b: Seq<u8>, at: int) -> int {
    match order {
        ByteOrder::Little => word16(order, b, at) + 0x1_0000 * word16(order, b, at + 2),
        ByteOrder::Big => 0x1_0000 * word16(order, b, at) + word16(order, b, at + 2),
    }
}

/// The bytes of a two-byte number.
pub open spec fn bytes16(order: ByteOrder, v: u16) -> Seq<u8> {
    match order {
        ByteOrder::Little => seq![(v % 256) as u8, (v / 256) as u8],
        ByteOrder::Big => seq![(v / 256) as u8, (v % 256) as u8],
    }
}

/// The bytes of a four-byte number.
pub open spec fn bytes32(order: ByteOrder, v: u32) -> Seq<u8> {
    let low = (v % 0x1_0000) as u16;
    let high = (v / 0x1_0000) as u16;
    match order {
        ByteOrder::Little => bytes16(order, low) + bytes16(order, high),
        ByteOrder::Big => bytes16(order, high) + bytes16(order, low),
    }
}

/// Reads a two-byte number in host order.
pub fn read_word16(order: ByteOrder, b: &[u8], at: usize) -> (value: u16)
    requires
        at + 2 <= b@.len(),
    ensures
        value == word16(order, b@, at as int),
{
    let total: usize = b.len();
    assert(at + 2 <= total);
    match order {
        ByteOrder::Little => b[at] as u16 + 256 * (b[at + 1] as u16),
        ByteOrder::Big => 256 * (b[at] as u16) + b[at + 1] as u16,
    }
}

/// Reads a four-byte number in host order.
pub fn read_word32(order: ByteOrder, b: &[u8], at: usize) -> (value: u32)
    requires
        at + 4 <= b@.len(),
    ensures
        value == word32(order, b@, at as int),
{
    let total: usize = b.len();
    assert(at + 4 <= total);
    match order {
        ByteOrder::Little => read_word16(order, b, at) as u32 + 0x1_0000 * (read_word16(
            order,
            b,
            at + 2,
        ) as u32),
        ByteOrder::Big => 0x1_0000 * (read_word16(order, b, at) as u32) + read_word16(
            order,
            b,
            at + 2,
        ) as u32,
    }
}

/// Appends a two-byte number in host order.
pub fn push_word16(order: ByteOrder, buffer: &mut Vec<u8>, v: u16)
    ensures
        final(buffer)@ == old(buffer)@ + bytes16(order, v),
{
    match order {
        ByteOrder::Little => {
            buffer.push((v % 256) as u8);
            buffer.push((v / 256) as u8);
        },
        ByteOrder::Big => {
            buffer.push((v / 256) as u8);
            buffer.push((v % 256) as u8);
        },
    }
    assert(buffer@ =~= old(buffer)@ + bytes16(order, v));
}

/// Appends a four-byte number in host order.
pub fn push_word32(order: ByteOrder, buffer: &mut Vec<u8>, v: u32)
    ensures
        final(buffer)@ == old(buffer)@ + bytes32(order, v),
{
    let low: u16 = (v % 0x1_0000) as u16;
    let high: u16 = (v / 0x1_0000) as u16;
    match order {
        ByteOrder::Little => {
            push_word16(order, buffer, low);
            push_word16(order, buffer, high);
        },
        ByteOrder::Big => {
            push_word16(order, buffer, high);
            push_word16(order, buffer, low);
        },
    }
    assert(buffer@ =~= old(buffer)@ + bytes32(order, v));
}

// ---------------------------------------------------------------------------
// Requests
// ---------------------------------------------------------------------------

/// The request for a dump of one socket table: a header, the table's family
/// and protocol, every socket state, and an endpoint filter that is all zero.
pub open spec fn diag_request(order: ByteOrder, family: u8, protocol: u8) -> Seq<u8> {
    bytes32(order, 72) + bytes16(order, SOCK_DIAG_BY_FAMILY_TYPE) + bytes16(
        order,
        NLMSG_FLAG_DUMP_REQUEST,
    ) + bytes32(order, NETLINK_REQUEST_SEQUENCE) + bytes32(order, 0) + seq![family, protocol, 0, 0]
        + bytes32(order, REQUEST_SOCKET_STATES_ALL) + Seq::new(48, |i: int| 0u8)
}

/// Builds the request for a dump of one socket table.
pub fn build_inet_diag_request(order: ByteOrder, family: u8, protocol: u8) -> (request: Vec<u8>)
    ensures
        request@ == diag_request(order, family, protocol),
{
    let mut request: Vec<u8> = Vec::with_capacity(NLMSG_HEADER_LEN + DIAG_REQUEST_LEN);
    push_word32(order, &mut request, (NLMSG_HEADER_LEN + DIAG_REQUEST_LEN) as u32);
    push_word16(order, &mut request, SOCK_DIAG_BY_FAMILY_TYPE);
    push_word16(order, &mut request, NLMSG_FLAG_DUMP_REQUEST);
    push_word32(order, &mut request, NETLINK_REQUEST_SEQUENCE);
    push_word32(order, &mut request, 0);
    request.push(family);
    request.push(protocol);
    request.push(0);
    request.push(0);
    push_word32(order, &mut request, REQUEST_SOCKET_STATES_ALL);
    let ghost head = request@;
    let mut i: usize = 0;
    while i < 48
        invariant
            i <= 48,
            request@ == head + Seq::new(i as nat, |j: int| 0u8),
        decreases 48 - i,
    {
        request.push(0);
        assert(head + Seq::new((i + 1) as nat, |j: int| 0u8) =~= (head + Seq::new(
            i as nat,
            |j: int| 0u8,
        )).push(0u8));
        i += 1;
    }
    assert(request@ =~= diag_request(order, family, protocol));
    request
}

/// A request announces its own length and the type that its answers carry.
pub proof fn request_header_is_sound(order: ByteOrder, family: u8, protocol: u8)
    ensures
        word32(order, diag_request(order, family, protocol), 0) == diag_request(
            order,
            family,
            protocol,
        ).len(),
        word16(order, diag_request(order, family, protocol), 4) == SOCK_DIAG_BY_FAMILY_TYPE,
        diag_request(order, family, protocol)[16] == family,
        diag_request(order, family, protocol)[17] == protocol,
        word32(order, diag_request(order, family, protocol), 20) == REQUEST_SOCKET_STATES_ALL,
{
}

// ---------------------------------------------------------------------------
// Responses
// ---------------------------------------------------------------------------

/// The name of a TCP state number.
pub open spec fn state_name(state: u8) -> Seq<char> {
    if state == 1 {
        "ESTABLISHED"@
    } else if state == 2 {
        "SYN_SENT"@
    } else if state == 3 {
        "SYN_RECV"@
    } else if state == 4 {
        "FIN_WAIT1"@
    } else if state == 5 {
        "FIN_WAIT2"@
    } else if state == 6 {
        "TIME_WAIT"@
    } else if state == 7 {
        "CLOSE"@
    } else if state == 8 {
        "CLOSE_WAIT"@
    } else if state == 9 {
        "LAST_ACK"@
    } else if state == 10 {
        "LISTEN"@
    } else if state == 11 {
        "CLOSING"@
    } else {
        "UNKNOWN"@
    }
}

/// The endpoint whose address and port stand at the given places of a
/// response body, both in network order.
pub open spec fn diag_endpoint(body: Seq<u8>, addr_at: int, port_at: int) -> Option<SocketAddr> {
    let port = net::be_value(body.subrange(port_at, port_at + 2)) as u16;
    if body[0] == AF_INET_FAMILY {
        let ip = net::be_value(body.subrange(addr_at, addr_at + 4)) as u32;
        Some(SocketAddr { ip: IpAddr::V4(ip), port })
    } else if body[0] == AF_INET6_FAMILY {
        let ip = net::be_value(body.subrange(addr_at, addr_at + 16)) as u128;
        Some(SocketAddr { ip: IpAddr::V6(ip), port })
    } else {
        None
    }
}

/// The socket that a response body describes, if it is long enough and of an
/// internet family.
pub open spec fn diag_socket(order: ByteOrder, body: Seq<u8>, kind: Protocol) -> Option<
    SocketEntryView,
> {
    if body.len() < DIAG_MESSAGE_LEN {
        None
    } else {
        match (diag_endpoint(body, 8, 4), diag_endpoint(body, 24, 6)) {
            (Some(local_addr), Some(remote_addr)) => Some(
                SocketEntryView {
                    inode: word32(order, body, 68) as u64,
                    local_addr,
                    remote_addr,
                    state: state_name(body[1]),
                    uid: word32(order, body, 64) as u32,
                    protocol: kind,
                },
            ),
            _ => None,
        }
    }
}

/// A four-byte number taken as a signed one.
pub open spec fn signed32(value: int) -> int {
    if value >= 0x8000_0000 {
        value - 0x1_0000_0000
    } else {
        value
    }
}

/// The error number that an error body reports: the negated number at its
/// start. (The one number whose negation is not an `i32` is left as it is.)
pub open spec fn kernel_errno(order: ByteOrder, body: Seq<u8>) -> Option<i32> {
    if body.len() < ERROR_MESSAGE_LEN {
        None
    } else {
        let error = signed32(word32(order, body, 0));
        if error == i32::MIN {
            Some(i32::MIN)
        } else {
            Some((-error) as i32)
        }
    }
}

/// A length rounded up to a multiple of four.
pub open spec fn aligned(len: int) -> int {
    (len + 3) / 4 * 4
}

/// The outcome of reading a datagram: whether the end of the dump was seen or
/// what was wrong, and the sockets known after it.
pub struct Scan {
    pub result: Result<bool, NetlinkError>,
    pub sockets: Map<u64, SocketEntryView>,
}

/// The body of the message at `offset`: what follows its header up to the
/// length that the header gives.
pub open spec fn message_body(order: ByteOrder, b: Seq<u8>, offset: int) -> Seq<u8> {
    let len = word32(order, b, offset);
    if len <= NLMSG_HEADER_LEN {
        Seq::empty()
    } else {
        b.subrange(offset + NLMSG_HEADER_LEN, offset + len)
    }
}

/// Reads the messages of a datagram from `offset` on. Messages follow each
/// other at aligned distances; the first one that ends the dump, reports an
/// error or cannot be read decides the result, and a socket that is described
/// again replaces what was known of it.
pub open spec fn scan(
    order: ByteOrder,
    kind: Protocol,
    b: Seq<u8>,
    offset: int,
    sockets: Map<u64, SocketEntryView>,
) -> Scan
    decreases b.len() + 4 - offset,
    when 0 <= offset
{
    if offset + NLMSG_HEADER_LEN > b.len() {
        Scan { result: Ok(false), sockets }
    } else {
        let len = word32(order, b, offset);
        let message_type = word16(order, b, offset + 4);
        let body = message_body(order, b, offset);
        if len == 0 || offset + len > b.len() {
            Scan { result: Err(NetlinkError::ParseError), sockets }
        } else if message_type == NLMSG_DONE_TYPE {
            Scan { result: Ok(true), sockets }
        } else if message_type == NLMSG_ERROR_TYPE {
            match kernel_errno(order, body) {
                Some(errno) => Scan { result: Err(NetlinkError::KernelError(errno)), sockets },
                None => Scan { result: Err(NetlinkError::ParseError), sockets },
            }
        } else if message_type == SOCK_DIAG_BY_FAMILY_TYPE {
            match diag_socket(order, body, kind) {
                Some(entry) => scan(
                    order,
                    kind,
                    b,
                    offset + aligned(len),
                    sockets.insert(entry.inode, entry),
                ),
                None => Scan { result: Err(NetlinkError::ParseError), sockets },
            }
        } else {
            scan(order, kind, b, offset + aligned(len), sockets)
        }
    }
}

/// Rounds a message length up to the distance to the next message.
pub fn nlmsg_align(len: usize) -> (distance: usize)
    requires
        len + 3 <= usize::MAX,
    ensures
        distance == aligned(len as int),
{
    (len + 3) / 4 * 4
}

/// Names a TCP state number.
pub fn tcp_state_to_str(state: u8) -> (name: &'static str)
    ensures
        name@ == state_name(state),
{
    match state {
        1 => "ESTABLISHED",
        2 => "SYN_SENT",
        3 => "SYN_RECV",
        4 => "FIN_WAIT1",
        5 => "FIN_WAIT2",
        6 => "TIME_WAIT",
        7 => "CLOSE",
        8 => "CLOSE_WAIT",
        9 => "LAST_ACK",
        10 => "LISTEN",
        11 => "CLOSING",
        _ => "UNKNOWN",
    }
}

/// Reads an endpoint out of a response body.
pub fn socket_addr_from_diag(body: &[u8], addr_at: usize, port_at: usize) -> (addr: Option<
    SocketAddr,
>)
    requires
        0 < body@.len(),
        addr_at + 16 <= body@.len(),
        port_at + 2 <= body@.len(),
    ensures
        addr == diag_endpoint(body@, addr_at as int, port_at as int),
{
    let family: u8 = body[0];
    let port: u16 = read_be_u16(body, port_at);
    if family == AF_INET_FAMILY {
        let ip: u32 = read_be_u32(body, addr_at);
        return Some(SocketAddr { ip: IpAddr::V4(ip), port });
    }
    if family == AF_INET6_FAMILY {
        let ip: u128 = read_be(body, addr_at, 16);
        return Some(SocketAddr { ip: IpAddr::V6(ip), port });
    }
    None
}

/// Parses a response body into a socket entry.
pub fn parse_inet_diag_message(order: ByteOrder, body: &[u8], kind: Protocol) -> (parsed: Result<
    SocketEntry,
    NetlinkError,
>)
    ensures
        match parsed {
            Ok(entry) => diag_socket(order, body@, kind) == Some(entry@),
            Err(error) => diag_socket(order, body@, kind) is None && error
                == NetlinkError::ParseError,
        },
{
    if body.len() < DIAG_MESSAGE_LEN {
        return Err(NetlinkError::ParseError);
    }
    let local_addr = match socket_addr_from_diag(body, 8, 4) {
        Some(addr) => addr,
        None => {
            return Err(NetlinkError::ParseError);
        },
    };
    let remote_addr = match socket_addr_from_diag(body, 24, 6) {
        Some(addr) => addr,
        None => {
            return Err(NetlinkError::ParseError);
        },
    };
    Ok(
        SocketEntry {
            inode: read_word32(order, body, 68) as u64,
            local_addr,
            remote_addr,
            state: tcp_state_to_str(body[1]).to_string(),
            uid: read_word32(order, body, 64),
            protocol: kind,
        },
    )
}

/// Reads the error number out of an error body.
pub fn parse_kernel_error(order: ByteOrder, body: &[u8]) -> (errno: Result<i32, NetlinkError>)
    ensures
        match errno {
            Ok(number) => kernel_errno(order, body@) == Some(number),
            Err(error) => kernel_errno(order, body@) is None && error == NetlinkError::ParseError,
        },
{
    if body.len() < ERROR_MESSAGE_LEN {
        return Err(NetlinkError::ParseError);
    }
    let raw: u32 = read_word32(order, body, 0);
    if raw == 0x8000_0000 {
        return Ok(i32::MIN);
    }
    let error: i64 = if raw > 0x8000_0000 {
        raw as i64 - 0x1_0000_0000
    } else {
        raw as i64
    };
    Ok((-error) as i32)
}

/// Reads one datagram into the sockets known so far and tells whether the end
/// of the dump was seen.
pub fn parse_response_messages(
    order: ByteOrder,
    response_bytes: &[u8],
    kind: Protocol,
    sockets_by_inode: &mut HashMap<u64, SocketEntry>,
) -> (done: Result<bool, NetlinkError>)
    ensures
        (Scan { result: done, sockets: resolver::entries(final(sockets_by_inode)@) }) == scan(
            order,
            kind,
            response_bytes@,
            0,
            resolver::entries(old(sockets_by_inode)@),
        ),
{
    broadcast use vstd::std_specs::hash::group_hash_axioms;

    let total: usize = response_bytes.len();
    let mut offset: usize = 0;
    let ghost whole = scan(
        order,
        kind,
        response_bytes@,
        0,
        resolver::entries(old(sockets_by_inode)@),
    );
    while offset <= total && total - offset >= NLMSG_HEADER_LEN
        invariant
            total == response_bytes@.len(),
            whole == scan(
                order,
                kind,
                response_bytes@,
                0,
                resolver::entries(old(sockets_by_inode)@),
            ),
            scan(
                order,
                kind,
                response_bytes@,
                offset as int,
                resolver::entries(sockets_by_inode@),
            ) == whole,
        decreases total - offset,
    {
        let message_len: usize = read_word32(order, response_bytes, offset) as usize;
        if message_len == 0 || message_len > total - offset {
            return Err(NetlinkError::ParseError);
        }
        let message_type: u16 = read_word16(order, response_bytes, offset + 4);
        let body: &[u8] = if message_len <= NLMSG_HEADER_LEN {
            slice_subrange(response_bytes, offset, offset)
        } else {
            slice_subrange(response_bytes, offset + NLMSG_HEADER_LEN, offset + message_len)
        };
        assert(body@ =~= message_body(order, response_bytes@, offset as int));
        if message_type == NLMSG_DONE_TYPE {
            return Ok(true);
        }
        if message_type == NLMSG_ERROR_TYPE {
            return match parse_kernel_error(order, body) {
                Ok(errno) => Err(NetlinkError::KernelError(errno)),
                Err(error) => Err(error),
            };
        }
        if message_type == SOCK_DIAG_BY_FAMILY_TYPE {
            match parse_inet_diag_message(order, body, kind) {
                Ok(entry) => {
                    proof {
                        resolver::lemma_entries_insert(sockets_by_inode@, entry.inode, entry);
                    }
                    sockets_by_inode.insert(entry.inode, entry);
                },
                Err(error) => {
                    return Err(error);
                },
            }
        }
        assert(scan(
            order,
            kind,
            response_bytes@,
            offset + aligned(message_len as int),
            resolver::entries(sockets_by_inode@),
        ) == whole);
        if message_len > usize::MAX - 3 || nlmsg_align(message_len) > total - offset {
            return Ok(false);
        }
        offset += nlmsg_align(message_len);
    }
    Ok(false)
}

// ---------------------------------------------------------------------------
// Queries
// ---------------------------------------------------------------------------

/// How a query goes on after a datagram.
#[derive(Clone, Copy, Debug, PartialEq, Eq, Structural)]
pub enum QueryProgress {
    /// The dump is not over: receive the next datagram.
    Receive,
    /// One table is done: send the request for the next one.
    SendNext,
    /// All tables are done.
    Complete,
}

/// The family, protocol number and protocol of each socket table, in the order
/// in which the tables are asked for.
pub open spec fn socket_table(stage: int) -> (u8, u8, Protocol) {
    if stage == 0 {
        (AF_INET_FAMILY, IPPROTO_TCP_PROTOCOL, Protocol::Tcp)
    } else if stage == 1 {
        (AF_INET_FAMILY, IPPROTO_UDP_PROTOCOL, Protocol::Udp)
    } else if stage == 2 {
        (AF_INET6_FAMILY, IPPROTO_TCP_PROTOCOL, Protocol::Tcp)
    } else {
        (AF_INET6_FAMILY, IPPROTO_UDP_PROTOCOL, Protocol::Udp)
    }
}

/// Number of socket tables.
pub const SOCKET_TABLES: usize = 4;

/// A query for all TCP and UDP sockets, table by table.
pub struct SocketQuery {
    order: ByteOrder,
    stage: usize,
    sockets: HashMap<u64, SocketEntry>,
}

/// What a datagram makes of a query.
pub struct QueryStep {
    pub progress: Result<QueryProgress, NetlinkError>,
    pub table: int,
    pub sockets: Map<u64, SocketEntryView>,
}

/// What a datagram makes of a query for the table at a position: its sockets are
/// added, and the end of a dump leads to the next table.
pub open spec fn datagram_taken_in(
    order: ByteOrder,
    table: int,
    known: Map<u64, SocketEntryView>,
    datagram: Seq<u8>,
) -> QueryStep {
    let scanned = scan(order, socket_table(table).2, datagram, 0, known);
    if datagram.len() == 0 {
        QueryStep { progress: Err(NetlinkError::ParseError), table, sockets: known }
    } else {
        match scanned.result {
            Err(error) => QueryStep { progress: Err(error), table, sockets: scanned.sockets },
            Ok(done) => QueryStep {
                progress: Ok(
                    if !done {
                        QueryProgress::Receive
                    } else if table + 1 < SOCKET_TABLES {
                        QueryProgress::SendNext
                    } else {
                        QueryProgress::Complete
                    },
                ),
                table: if done {
                    table + 1
                } else {
                    table
                },
                sockets: scanned.sockets,
            },
        }
    }
}

impl SocketQuery {
    /// Byte order of the host.
    pub closed spec fn byte_order(&self) -> ByteOrder {
        self.order
    }

    /// Index of the table that is being asked for; past the last one when the
    /// query is complete.
    pub closed spec fn table(&self) -> int {
        self.stage as int
    }

    /// The sockets known so far, by inode.
    pub closed spec fn known(&self) -> Map<u64, SocketEntryView> {
        resolver::entries(self.sockets@)
    }

    #[verifier::type_invariant]
    spec fn filed(&self) -> bool {
        resolver::keyed_by_inode(resolver::entries(self.sockets@))
    }

    /// Starts a query with the first table and no sockets.
    pub fn new(order: ByteOrder) -> (query: SocketQuery)
        ensures
            query.byte_order() == order,
            query.table() == 0,
            query.known() == Map::<u64, SocketEntryView>::empty(),
    {
        let sockets: HashMap<u64, SocketEntry> = HashMap::new();
        assert(resolver::entries(sockets@) =~= Map::<u64, SocketEntryView>::empty());
        SocketQuery { order, stage: 0, sockets }
    }

    /// Family, protocol number and protocol of the current table.
    fn current(&self) -> (table: (u8, u8, Protocol))
        ensures
            table == socket_table(self.table()),
    {
        if self.stage == 0 {
            (AF_INET_FAMILY, IPPROTO_TCP_PROTOCOL, Protocol::Tcp)
        } else if self.stage == 1 {
            (AF_INET_FAMILY, IPPROTO_UDP_PROTOCOL, Protocol::Udp)
        } else if self.stage == 2 {
            (AF_INET6_FAMILY, IPPROTO_TCP_PROTOCOL, Protocol::Tcp)
        } else {
            (AF_INET6_FAMILY, IPPROTO_UDP_PROTOCOL, Protocol::Udp)
        }
    }

    /// The request for the current table.
    pub fn request(&self) -> (request: Vec<u8>)
        ensures
            request@ == diag_request(
                self.byte_order(),
                socket_table(self.table()).0,
                socket_table(self.table()).1,
            ),
    {
        let (family, protocol, _kind) = self.current();
        build_inet_diag_request(self.order, family, protocol)
    }

    /// Takes in a datagram received for the current table. An empty one, like
    /// one that cannot be read, ends the query with an error.
    pub fn receive(&mut self, datagram: &[u8]) -> (progress: Result<QueryProgress, NetlinkError>)
        requires
            old(self).table() < SOCKET_TABLES,
        ensures
            final(self).byte_order() == old(self).byte_order(),
            ({
                let scanned = scan(
                    old(self).byte_order(),
                    socket_table(old(self).table()).2,
                    datagram@,
                    0,
                    old(self).known(),
                );
                if datagram@.len() == 0 {
                    &&& progress == Err::<QueryProgress, NetlinkError>(NetlinkError::ParseError)
                    &&& *final(self) == *old(self)
                } else {
                    &&& final(self).known() == scanned.sockets
                    &&& match scanned.result {
                        Err(error) => progress == Err::<QueryProgress, NetlinkError>(error)
                            && final(self).table() == old(self).table(),
                        Ok(false) => progress == Ok::<QueryProgress, NetlinkError>(
                            QueryProgress::Receive,
                        ) && final(self).table() == old(self).table(),
                        Ok(true) => progress == Ok::<QueryProgress, NetlinkError>(
                            if old(self).table() + 1 < SOCKET_TABLES {
                                QueryProgress::SendNext
                            } else {
                                QueryProgress::Complete
                            },
                        ) && final(self).table() == old(self).table() + 1,
                    }
                }
            }),
            ({
                let after = datagram_taken_in(
                    old(self).byte_order(),
                    old(self).table(),
                    old(self).known(),
                    datagram@,
                );
                &&& progress == after.progress
                &&& final(self).table() == after.table
                &&& final(self).known() == after.sockets
            }),
    {
        if datagram.len() == 0 {
            return Err(NetlinkError::ParseError);
        }
        let (_family, _protocol, kind) = self.current();
        proof {
            use_type_invariant(&*self);
            answers_are_keyed_by_inode(self.order, kind, datagram@, 0, self.known());
        }
        let mut sockets: HashMap<u64, SocketEntry> = HashMap::new();
        assert(resolver::entries(sockets@) =~= Map::<u64, SocketEntryView>::empty());
        std::mem::swap(&mut self.sockets, &mut sockets);
        let parsed = parse_response_messages(self.order, datagram, kind, &mut sockets);
        self.sockets = sockets;
        match parsed {
            Err(error) => Err(error),
            Ok(done) => {
                if !done {
                    return Ok(QueryProgress::Receive);
                }
                self.stage += 1;
                if self.stage < SOCKET_TABLES {
                    Ok(QueryProgress::SendNext)
                } else {
                    Ok(QueryProgress::Complete)
                }
            },
        }
    }

    /// Hands the sockets out, each filed under its own inode.
    pub fn into_sockets(self) -> (table: SocketTable)
        ensures
            table@ == self.known(),
            resolver::keyed_by_inode(table@),
    {
        proof {
            use_type_invariant(&self);
        }
        SocketTable::of(self.sockets)
    }
}

/// What comes after the end of a dump in a datagram is not read.
pub proof fn nothing_after_the_end_is_read(
    order: ByteOrder,
    kind: Protocol,
    b: Seq<u8>,
    rest: Seq<u8>,
    offset: int,
    sockets: Map<u64, SocketEntryView>,
)
    requires
        0 <= offset,
        scan(order, kind, b, offset, sockets).result == Ok::<bool, NetlinkError>(true),
    ensures
        scan(order, kind, b + rest, offset, sockets) == scan(order, kind, b, offset, sockets),
    decreases b.len() + 4 - offset,
{
    let len = word32(order, b, offset);
    let longer = b + rest;
    assert(word32(order, longer, offset) == len);
    assert(word16(order, longer, offset + 4) == word16(order, b, offset + 4));
    assert(message_body(order, longer, offset) =~= message_body(order, b, offset));
    let message_type = word16(order, b, offset + 4);
    if message_type == NLMSG_DONE_TYPE {
    } else if message_type == SOCK_DIAG_BY_FAMILY_TYPE {
        let entry = diag_socket(order, message_body(order, b, offset), kind).unwrap();
        nothing_after_the_end_is_read(
            order,
            kind,
            b,
            rest,
            offset + aligned(len),
            sockets.insert(entry.inode, entry),
        );
    } else {
        nothing_after_the_end_is_read(order, kind, b, rest, offset + aligned(len), sockets);
    }
}

/// Reading a datagram forgets no socket: every inode known before is known
/// after it, whatever the result.
pub proof fn known_sockets_stay_known(
    order: ByteOrder,
    kind: Protocol,
    b: Seq<u8>,
    offset: int,
    sockets: Map<u64, SocketEntryView>,
    inode: u64,
)
    requires
        0 <= offset,
        sockets.contains_key(inode),
    ensures
        scan(order, kind, b, offset, sockets).sockets.contains_key(inode),
    decreases b.len() + 4 - offset,
{
    if offset + NLMSG_HEADER_LEN <= b.len() {
        let len = word32(order, b, offset);
        let message_type = word16(order, b, offset + 4);
        if len != 0 && offset + len <= b.len() && message_type != NLMSG_DONE_TYPE && message_type
            != NLMSG_ERROR_TYPE {
            if message_type == SOCK_DIAG_BY_FAMILY_TYPE {
                if let Some(entry) = diag_socket(order, message_body(order, b, offset), kind) {
                    known_sockets_stay_known(
                        order,
                        kind,
                        b,
                        offset + aligned(len),
                        sockets.insert(entry.inode, entry),
                        inode,
                    );
                }
            } else {
                known_sockets_stay_known(order, kind, b, offset + aligned(len), sockets, inode);
            }
        }
    }
}

/// Reading a datagram files every socket under its own inode.
pub proof fn answers_are_keyed_by_inode(
    order: ByteOrder,
    kind: Protocol,
    b: Seq<u8>,
    offset: int,
    sockets: Map<u64, SocketEntryView>,
)
    requires
        0 <= offset,
        resolver::keyed_by_inode(sockets),
    ensures
        resolver::keyed_by_inode(scan(order, kind, b, offset, sockets).sockets),
    decreases b.len() + 4 - offset,
{
    if offset + NLMSG_HEADER_LEN <= b.len() {
        let len = word32(order, b, offset);
        let message_type = word16(order, b, offset + 4);
        if len != 0 && offset + len <= b.len() && message_type != NLMSG_DONE_TYPE && message_type
            != NLMSG_ERROR_TYPE {
            if message_type == SOCK_DIAG_BY_FAMILY_TYPE {
                if let Some(entry) = diag_socket(order, message_body(order, b, offset), kind) {
                    answers_are_keyed_by_inode(
                        order,
                        kind,
                        b,
                        offset + aligned(len),
                        sockets.insert(entry.inode, entry),
                    );
                }
            } else {
                answers_are_keyed_by_inode(order, kind, b, offset + aligned(len), sockets);
            }
        }
    }
}

} // verus!
