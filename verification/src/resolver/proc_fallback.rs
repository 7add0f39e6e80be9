//! The socket tables as text: what `/proc/net/tcp`, `tcp6`, `udp` and `udp6`
//! hold. They are read where the kernel does not answer socket queries.

use std::collections::HashMap;

use vstd::prelude::*;
use vstd::slice::slice_subrange;

use crate::capture::Protocol;
use crate::net::{IpAddr, SocketAddr};
use crate::number;
use crate::resolver;
use crate::resolver::netlink;
use crate::resolver::{SocketEntry, SocketEntryView};
use crate::text;

verus! {

/// Number of columns that a row needs for its inode to be readable.
pub const PROC_NET_MIN_COLUMNS: usize = 10;

/// Number of hexadecimal digits of an IPv4 address.
pub const PROC_IPV4_HEX_LEN: usize = 8;

/// Number of hexadecimal digits of an IPv6 address.
pub const PROC_IPV6_HEX_LEN: usize = 32;

/// User id given to every socket read from the tables.
pub const UNKNOWN_UID: u32 = 0;

/// Why the tables could not be read.
#[derive(Clone, Debug)]
pub enum FallbackError {
    FileOpen { path: String, source: String },
    ParseLine { file: String, line: String },
}

/// A [`FallbackError`] with its texts as characters.
pub enum FallbackErrorView {
    FileOpen { path: Seq<char>, source: Seq<char> },
    ParseLine { file: Seq<char>, line: Seq<char> },
}

impl View for FallbackError {
    type V = FallbackErrorView;

    open spec fn view(&self) -> FallbackErrorView {
        match *self {
            FallbackError::FileOpen { path, source } => FallbackErrorView::FileOpen {
                path: path@,
                source: source@,
            },
            FallbackError::ParseLine { file, line } => FallbackErrorView::ParseLine {
                file: file@,
                line: line@,
            },
        }
    }
}

/// The message of an error.
pub open spec fn fallback_message(error: FallbackErrorView) -> Seq<char> {
    match error {
        FallbackErrorView::FileOpen { path, source } => "could not open "@ + path + ": "@ + source,
        FallbackErrorView::ParseLine { file, line } => "could not parse line in "@ + file
            + ": \""@ + line + "\""@,
    }
}

impl FallbackError {
    /// The message shown for the error.
    pub fn message(&self) -> (text: String)
        ensures
            text@ == fallback_message(self@),
    {
        let mut text = String::new();
        match self {
            FallbackError::FileOpen { path, source } => {
                text.append("could not open ");
                text.append(path.as_str());
                text.append(": ");
                text.append(source.as_str());
            },
            FallbackError::ParseLine { file, line } => {
                text.append("could not parse line in ");
                text.append(file.as_str());
                text.append(": \"");
                text.append(line.as_str());
                text.append("\"");
            },
        }
        assert(text@ =~= fallback_message(self@));
        text
    }
}

// ---------------------------------------------------------------------------
// One row
// ---------------------------------------------------------------------------

/// `word` with its four bytes in the opposite order.
pub open spec fn swapped(word: int) -> int {
    (word % 256) * 0x100_0000 + (word / 256 % 256) * 0x1_0000 + (word / 0x1_0000 % 256) * 256
        + word / 0x100_0000
}

/// The value of a little-endian word written as eight hexadecimal digits.
pub open spec fn hex_word(s: Seq<char>) -> Option<int> {
    match number::numeral(s, 16, u32::MAX as nat) {
        Some(raw) => Some(swapped(raw as int)),
        None => None,
    }
}

/// The IPv4 address that eight hexadecimal digits stand for.
pub open spec fn hex_ipv4(s: Seq<char>) -> Option<IpAddr> {
    if s.len() != PROC_IPV4_HEX_LEN {
        None
    } else {
        match hex_word(s) {
            Some(word) => Some(IpAddr::V4(word as u32)),
            None => None,
        }
    }
}

/// The IPv6 address that four words of eight hexadecimal digits stand for.
pub open spec fn hex_ipv6(s: Seq<char>) -> Option<IpAddr> {
    if s.len() != PROC_IPV6_HEX_LEN {
        None
    } else {
        match (
            hex_word(s.subrange(0, 8)),
            hex_word(s.subrange(8, 16)),
            hex_word(s.subrange(16, 24)),
            hex_word(s.subrange(24, 32)),
        ) {
            (Some(a), Some(b), Some(c), Some(d)) => Some(
                IpAddr::V6(
                    (a * 0x1_0000_0000_0000_0000_0000_0000 + b * 0x1_0000_0000_0000_0000 + c
                        * 0x1_0000_0000 + d) as u128,
                ),
            ),
            _ => None,
        }
    }
}

/// The endpoint that `address:port`, both in hexadecimal, stands for.
pub open spec fn proc_endpoint(s: Seq<char>, is_ipv4: bool) -> Option<SocketAddr> {
    let pieces = text::split_on(s, ':');
    if pieces.len() < 2 {
        None
    } else {
        let ip = if is_ipv4 {
            hex_ipv4(pieces[0])
        } else {
            hex_ipv6(pieces[0])
        };
        match (ip, number::numeral(pieces[1], 16, u16::MAX as nat)) {
            (Some(ip), Some(port)) => Some(SocketAddr { ip, port: port as u16 }),
            _ => None,
        }
    }
}

/// The name of the state that a row gives.
pub open spec fn proc_state(s: Seq<char>, kind: Protocol) -> Seq<char> {
    if kind != Protocol::Tcp {
        "UNCONN"@
    } else {
        match number::numeral(s, 16, u8::MAX as nat) {
            Some(state) => netlink::state_name(state as u8),
            None => "UNKNOWN"@,
        }
    }
}

/// The socket that a row describes.
#[verifier::opaque]
pub open spec fn proc_row(row: Seq<char>, kind: Protocol, is_ipv4: bool) -> Option<
    SocketEntryView,
> {
    let columns = text::words(row);
    if columns.len() < PROC_NET_MIN_COLUMNS {
        None
    } else {
        match (
            proc_endpoint(columns[1], is_ipv4),
            proc_endpoint(columns[2], is_ipv4),
            number::numeral(columns[9], 10, u64::MAX as nat),
        ) {
            (Some(local_addr), Some(remote_addr), Some(inode)) => Some(
                SocketEntryView {
                    inode: inode as u64,
                    local_addr,
                    remote_addr,
                    state: proc_state(columns[3], kind),
                    uid: UNKNOWN_UID,
                    protocol: kind,
                },
            ),
            _ => None,
        }
    }
}

/// Reads eight hexadecimal digits as a little-endian word.
fn read_hex_word(s: &[char]) -> (word: Option<u32>)
    ensures
        match word {
            Some(word) => hex_word(s@) == Some(word as int),
            None => hex_word(s@) is None,
        },
{
    match number::read_numeral(s, 16, u32::MAX as u64) {
        Some(value) => {
            let raw: u32 = value as u32;
            Some(
                (raw % 256) * 0x100_0000 + (raw / 256 % 256) * 0x1_0000 + (raw / 0x1_0000 % 256)
                    * 256 + raw / 0x100_0000,
            )
        },
        None => None,
    }
}

/// Reads an endpoint.
pub fn parse_proc_socket_addr(endpoint_text: &[char], is_ipv4: bool) -> (endpoint: Option<
    SocketAddr,
>)
    ensures
        endpoint == proc_endpoint(endpoint_text@, is_ipv4),
{
    let pieces = text::split_chars_on(endpoint_text, ':');
    assert(forall|i: int| 0 <= i < pieces@.len() ==> text::texts(pieces@)[i] == pieces@[i]@);
    if pieces.len() < 2 {
        return None;
    }
    let ip_hex = pieces[0].as_slice();
    let port: u16 = match number::read_numeral(pieces[1].as_slice(), 16, u16::MAX as u64) {
        Some(port) => port as u16,
        None => {
            return None;
        },
    };
    if is_ipv4 {
        if ip_hex.len() != PROC_IPV4_HEX_LEN {
            return None;
        }
        return match read_hex_word(ip_hex) {
            Some(word) => Some(SocketAddr { ip: IpAddr::V4(word), port }),
            None => None,
        };
    }
    if ip_hex.len() != PROC_IPV6_HEX_LEN {
        return None;
    }
    let first = read_hex_word(slice_subrange(ip_hex, 0, 8));
    let second = read_hex_word(slice_subrange(ip_hex, 8, 16));
    let third = read_hex_word(slice_subrange(ip_hex, 16, 24));
    let fourth = read_hex_word(slice_subrange(ip_hex, 24, 32));
    match (first, second, third, fourth) {
        (Some(a), Some(b), Some(c), Some(d)) => {
            let number: u128 = (a as u128) * 0x1_0000_0000_0000_0000_0000_0000 + (b as u128)
                * 0x1_0000_0000_0000_0000 + (c as u128) * 0x1_0000_0000 + (d as u128);
            Some(SocketAddr { ip: IpAddr::V6(number), port })
        },
        _ => None,
    }
}

/// Names the state that a row gives.
pub fn parse_tcp_state(state_hex: &[char], protocol: Protocol) -> (name: &'static str)
    ensures
        name@ == proc_state(state_hex@, protocol),
{
    if protocol != Protocol::Tcp {
        return "UNCONN";
    }
    match number::read_numeral(state_hex, 16, u8::MAX as u64) {
        Some(state) => netlink::tcp_state_to_str(state as u8),
        None => "UNKNOWN",
    }
}

/// Reads one row.
pub fn parse_proc_row(row: &[char], protocol: Protocol, is_ipv4: bool) -> (entry: Option<
    SocketEntry,
>)
    ensures
        match entry {
            Some(entry) => proc_row(row@, protocol, is_ipv4) == Some(entry@),
            None => proc_row(row@, protocol, is_ipv4) is None,
        },
{
    reveal(proc_row);
    let columns = text::words_of(row);
    assert(forall|i: int| 0 <= i < columns@.len() ==> text::texts(columns@)[i] == columns@[i]@);
    if columns.len() < PROC_NET_MIN_COLUMNS {
        return None;
    }
    let local_addr = match parse_proc_socket_addr(columns[1].as_slice(), is_ipv4) {
        Some(addr) => addr,
        None => {
            return None;
        },
    };
    let remote_addr = match parse_proc_socket_addr(columns[2].as_slice(), is_ipv4) {
        Some(addr) => addr,
        None => {
            return None;
        },
    };
    let state = parse_tcp_state(columns[3].as_slice(), protocol);
    match number::read_numeral(columns[9].as_slice(), 10, u64::MAX) {
        Some(inode) => Some(
            SocketEntry {
                inode,
                local_addr,
                remote_addr,
                state: state.to_string(),
                uid: UNKNOWN_UID,
                protocol,
            },
        ),
        None => None,
    }
}

// ---------------------------------------------------------------------------
// Whole tables
// ---------------------------------------------------------------------------

/// What reading gives: sockets by inode, or the first error.
pub type TableView = Result<Map<u64, SocketEntryView>, FallbackErrorView>;

/// The rows of a table: its lines without the heading.
pub open spec fn table_rows(content: Seq<char>) -> Seq<Seq<char>> {
    let all = text::lines(content);
    if all.len() == 0 {
        all
    } else {
        all.skip(1)
    }
}

/// The sockets of the rows on top of those already known; a later row replaces
/// an earlier one with the same inode. The first row that cannot be read is an
/// error.
pub open spec fn rows_read(
    file: Seq<char>,
    rows: Seq<Seq<char>>,
    kind: Protocol,
    is_ipv4: bool,
    known: Map<u64, SocketEntryView>,
) -> TableView
    decreases rows.len(),
{
    if rows.len() == 0 {
        Ok(known)
    } else {
        match rows_read(file, rows.drop_last(), kind, is_ipv4, known) {
            Ok(sockets) => match proc_row(rows.last(), kind, is_ipv4) {
                Some(entry) => Ok(sockets.insert(entry.inode, entry)),
                None => Err(FallbackErrorView::ParseLine { file, line: rows.last() }),
            },
            Err(error) => Err(error),
        }
    }
}

/// The result of reading one table after others. `content` is its text, or why
/// it could not be opened.
pub open spec fn table_read(
    before: TableView,
    path: Seq<char>,
    content: Result<Seq<char>, Seq<char>>,
    kind: Protocol,
    is_ipv4: bool,
) -> TableView {
    match (before, content) {
        (Err(error), _) => Err(error),
        (Ok(_), Err(source)) => Err(FallbackErrorView::FileOpen { path, source }),
        (Ok(known), Ok(text)) => rows_read(path, table_rows(text), kind, is_ipv4, known),
    }
}

/// The result of a read with its text as characters.
pub open spec fn content_view(content: Result<String, String>) -> Result<Seq<char>, Seq<char>> {
    match content {
        Ok(text) => Ok(text@),
        Err(source) => Err(source@),
    }
}

/// The result of reading all four tables, in their order.
pub open spec fn tables_read(files: ProcNetFiles) -> TableView {
    let start = Ok::<Map<u64, SocketEntryView>, FallbackErrorView>(
        Map::<u64, SocketEntryView>::empty(),
    );
    let tcp = table_read(
        start,
        "/proc/net/tcp"@,
        content_view(files.tcp),
        Protocol::Tcp,
        true,
    );
    let tcp6 = table_read(
        tcp,
        "/proc/net/tcp6"@,
        content_view(files.tcp6),
        Protocol::Tcp,
        false,
    );
    let udp = table_read(
        tcp6,
        "/proc/net/udp"@,
        content_view(files.udp),
        Protocol::Udp,
        true,
    );
    table_read(udp, "/proc/net/udp6"@, content_view(files.udp6), Protocol::Udp, false)
}

/// The result of reading with its texts as characters.
pub open spec fn outcome_view(
    outcome: Result<HashMap<u64, SocketEntry>, FallbackError>,
) -> TableView {
    match outcome {
        Ok(sockets) => Ok(resolver::entries(sockets@)),
        Err(error) => Err(error@),
    }
}

/// What reading each of the four files gave: its text, or why it could not be
/// opened.
#[derive(Debug)]
pub struct ProcNetFiles {
    pub tcp: Result<String, String>,
    pub tcp6: Result<String, String>,
    pub udp: Result<String, String>,
    pub udp6: Result<String, String>,
}

/// An error among the first rows is the error of all of them.
proof fn lemma_rows_error(
    file: Seq<char>,
    rows: Seq<Seq<char>>,
    n: int,
    kind: Protocol,
    is_ipv4: bool,
    known: Map<u64, SocketEntryView>,
)
    requires
        0 <= n <= rows.len(),
        rows_read(file, rows.take(n), kind, is_ipv4, known) is Err,
    ensures
        rows_read(file, rows, kind, is_ipv4, known) == rows_read(
            file,
            rows.take(n),
            kind,
            is_ipv4,
            known,
        ),
    decreases rows.len() - n,
{
    if n < rows.len() {
        assert(rows.take(n + 1).drop_last() =~= rows.take(n));
        lemma_rows_error(file, rows, n + 1, kind, is_ipv4, known);
    } else {
        assert(rows.take(n) =~= rows);
    }
}

/// Reads the rows of a table, from the one at `from` on.
fn read_rows(
    file_path: &str,
    lines: &Vec<Vec<char>>,
    from: usize,
    protocol: Protocol,
    is_ipv4: bool,
    known: HashMap<u64, SocketEntry>,
) -> (outcome: Result<HashMap<u64, SocketEntry>, FallbackError>)
    requires
        from <= lines@.len(),
    ensures
        outcome_view(outcome) == rows_read(
            file_path@,
            text::texts(lines@).skip(from as int),
            protocol,
            is_ipv4,
            resolver::entries(known@),
        ),
{
    broadcast use vstd::std_specs::hash::group_hash_axioms;

    let ghost start = resolver::entries(known@);
    let ghost rows = text::texts(lines@).skip(from as int);
    let mut sockets = known;
    let mut i: usize = from;
    assert(rows.take(0) =~= Seq::empty());
    while i < lines.len()
        invariant
            from <= i <= lines@.len(),
            start == resolver::entries(known@),
            rows == text::texts(lines@).skip(from as int),
            rows_read(file_path@, rows.take(i - from), protocol, is_ipv4, start) == Ok::<
                Map<u64, SocketEntryView>,
                FallbackErrorView,
            >(resolver::entries(sockets@)),
        decreases lines@.len() - i,
    {
        let line = lines[i].as_slice();
        assert(rows.take(i + 1 - from).drop_last() =~= rows.take(i - from));
        assert(rows.take(i + 1 - from).last() == line@);
        match parse_proc_row(line, protocol, is_ipv4) {
            Some(entry) => {
                proof {
                    resolver::lemma_entries_insert(sockets@, entry.inode, entry);
                }
                sockets.insert(entry.inode, entry);
            },
            None => {
                proof {
                    lemma_rows_error(file_path@, rows, i + 1 - from, protocol, is_ipv4, start);
                }
                return Err(
                    FallbackError::ParseLine {
                        file: file_path.to_string(),
                        line: text::string_of(line),
                    },
                );
            },
        }
        i += 1;
    }
    assert(rows.take(i - from) =~= rows);
    Ok(sockets)
}

/// Reads one table after others.
pub fn read_proc_file(
    file_path: &str,
    content: &Result<String, String>,
    protocol: Protocol,
    is_ipv4: bool,
    known: HashMap<u64, SocketEntry>,
) -> (outcome: Result<HashMap<u64, SocketEntry>, FallbackError>)
    ensures
        outcome_view(outcome) == table_read(
            Ok(resolver::entries(known@)),
            file_path@,
            content_view(*content),
            protocol,
            is_ipv4,
        ),
{
    let content = match content {
        Ok(content) => content,
        Err(source) => {
            return Err(
                FallbackError::FileOpen { path: file_path.to_string(), source: source.clone() },
            );
        },
    };
    let chars = text::chars_of(content.as_str());
    let lines = text::lines_of(chars.as_slice());
    let from: usize = if lines.len() > 0 {
        1
    } else {
        0
    };
    assert(text::texts(lines@).skip(from as int) =~= table_rows(content@));
    read_rows(file_path, &lines, from, protocol, is_ipv4, known)
}

/// Reads the four tables in their order.
pub fn read_proc_net(files: &ProcNetFiles) -> (outcome: Result<
    HashMap<u64, SocketEntry>,
    FallbackError,
>)
    ensures
        outcome_view(outcome) == tables_read(*files),
{
    broadcast use vstd::std_specs::hash::group_hash_axioms;

    let start: HashMap<u64, SocketEntry> = HashMap::new();
    assert(resolver::entries(start@) =~= Map::<u64, SocketEntryView>::empty());
    let tcp = match read_proc_file("/proc/net/tcp", &files.tcp, Protocol::Tcp, true, start) {
        Ok(sockets) => sockets,
        Err(error) => {
            return Err(error);
        },
    };
    let tcp6 = match read_proc_file("/proc/net/tcp6", &files.tcp6, Protocol::Tcp, false, tcp) {
        Ok(sockets) => sockets,
        Err(error) => {
            return Err(error);
        },
    };
    let udp = match read_proc_file("/proc/net/udp", &files.udp, Protocol::Udp, true, tcp6) {
        Ok(sockets) => sockets,
        Err(error) => {
            return Err(error);
        },
    };
    read_proc_file("/proc/net/udp6", &files.udp6, Protocol::Udp, false, udp)
}

/// Reading rows files every socket under its own inode.
pub proof fn rows_are_keyed_by_inode(
    file: Seq<char>,
    rows: Seq<Seq<char>>,
    kind: Protocol,
    is_ipv4: bool,
    known: Map<u64, SocketEntryView>,
)
    requires
        resolver::keyed_by_inode(known),
    ensures
        rows_read(file, rows, kind, is_ipv4, known) matches Ok(sockets)
            ==> resolver::keyed_by_inode(sockets),
    decreases rows.len(),
{
    if rows.len() > 0 {
        rows_are_keyed_by_inode(file, rows.drop_last(), kind, is_ipv4, known);
    }
}

/// The four tables together file every socket under its own inode.
pub proof fn tables_are_keyed_by_inode(files: ProcNetFiles)
    ensures
        tables_read(files) matches Ok(sockets) ==> resolver::keyed_by_inode(sockets),
{
    assert forall|
        before: TableView,
        path: Seq<char>,
        content: Result<Seq<char>, Seq<char>>,
        kind: Protocol,
        is_ipv4: bool,
    |
        (before matches Ok(known) ==> resolver::keyed_by_inode(known)) implies (
    #[trigger] table_read(before, path, content, kind, is_ipv4) matches Ok(sockets)
        ==> resolver::keyed_by_inode(sockets)) by {
        if let (Ok(known), Ok(text)) = (before, content) {
            rows_are_keyed_by_inode(path, table_rows(text), kind, is_ipv4, known);
        }
    }
}

/// Swapping the bytes of a word twice gives the word back.
pub proof fn swapping_twice_gives_the_word(word: int)
    requires
        0 <= word <= u32::MAX,
    ensures
        0 <= swapped(word) <= u32::MAX,
        swapped(swapped(word)) == word,
{
    let (a, b, c, d) = (
        word % 256,
        word / 256 % 256,
        word / 0x1_0000 % 256,
        word / 0x100_0000,
    );
    assert(0 <= d < 256);
    assert(word == a + 256 * b + 0x1_0000 * c + 0x100_0000 * d) by {
        assert(word / 256 / 256 == word / 0x1_0000);
        assert(word / 0x1_0000 / 256 == word / 0x100_0000);
    }
    let turned = swapped(word);
    assert(turned == d + 256 * c + 0x1_0000 * b + 0x100_0000 * a);
    assert(turned / 256 == c + 256 * b + 0x1_0000 * a);
    assert(turned / 0x1_0000 == b + 256 * a);
    assert(turned / 0x100_0000 == a);
}

/// How the kernel writes an address word: eight hexadecimal digits, the bytes
/// in little-endian order.
pub open spec fn word_text(word: u32) -> Seq<char> {
    number::hex_digits(swapped(word as int) as nat, 8)
}

proof fn lemma_word_text(word: u32)
    ensures
        word_text(word).len() == 8,
        hex_word(word_text(word)) == Some(word as int),
        text::free_of(word_text(word), ':'),
{
    reveal_with_fuel(number::hex_range, 9);
    swapping_twice_gives_the_word(word as int);
    number::lemma_hex_digits(swapped(word as int) as nat, 8);
    number::lemma_hex_read_back(swapped(word as int) as nat, 8, u32::MAX as nat);
}

/// An address and a number behind a colon split into the two, and the number
/// reads back.
proof fn lemma_endpoint_text(address: Seq<char>, port: u16)
    requires
        text::free_of(address, ':'),
    ensures
        ({
            let port_text = number::hex_digits(port as nat, 4);
            let pieces = text::split_on(address.push(':') + port_text, ':');
            &&& pieces == seq![address, port_text]
            &&& number::numeral(port_text, 16, u16::MAX as nat) == Some(port as nat)
        }),
{
    reveal_with_fuel(number::hex_range, 5);
    let port_text = number::hex_digits(port as nat, 4);
    number::lemma_hex_digits(port as nat, 4);
    number::lemma_hex_read_back(port as nat, 4, u16::MAX as nat);
    text::lemma_split_at(address, ':', port_text);
    text::lemma_split_free(address, ':');
    text::lemma_split_free(port_text, ':');
    assert(text::split_on(address.push(':') + port_text, ':') =~= seq![address, port_text]);
}

/// An IPv4 endpoint reads back from the way the kernel writes it.
pub proof fn ipv4_endpoints_read_back(ip: u32, port: u16)
    ensures
        proc_endpoint(
            word_text(ip).push(':') + number::hex_digits(port as nat, 4),
            true,
        ) == Some(SocketAddr { ip: IpAddr::V4(ip), port }),
{
    lemma_word_text(ip);
    lemma_endpoint_text(word_text(ip), port);
}

/// The number of an IPv6 address with the given four words.
pub open spec fn ipv6_number(a: u32, b: u32, c: u32, d: u32) -> u128 {
    (a * 0x1_0000_0000_0000_0000_0000_0000 + b * 0x1_0000_0000_0000_0000 + c * 0x1_0000_0000
        + d) as u128
}

proof fn lemma_ipv6_text(a: u32, b: u32, c: u32, d: u32)
    ensures
        ({
            let address = word_text(a) + word_text(b) + word_text(c) + word_text(d);
            &&& text::free_of(address, ':')
            &&& hex_ipv6(address) == Some(IpAddr::V6(ipv6_number(a, b, c, d)))
        }),
{
    lemma_word_text(a);
    lemma_word_text(b);
    lemma_word_text(c);
    lemma_word_text(d);
    let address = word_text(a) + word_text(b) + word_text(c) + word_text(d);
    assert(address.subrange(0, 8) =~= word_text(a));
    assert(address.subrange(8, 16) =~= word_text(b));
    assert(address.subrange(16, 24) =~= word_text(c));
    assert(address.subrange(24, 32) =~= word_text(d));
}

/// An IPv6 endpoint reads back from the way the kernel writes it: its four
/// words one after the other.
pub proof fn ipv6_endpoints_read_back(a: u32, b: u32, c: u32, d: u32, port: u16)
    ensures
        proc_endpoint(
            (word_text(a) + word_text(b) + word_text(c) + word_text(d)).push(':')
                + number::hex_digits(port as nat, 4),
            false,
        ) == Some(SocketAddr { ip: IpAddr::V6(ipv6_number(a, b, c, d)), port }),
{
    lemma_ipv6_text(a, b, c, d);
    lemma_endpoint_text(word_text(a) + word_text(b) + word_text(c) + word_text(d), port);
}

/// The text tables and the kernel's answers name the states of TCP sockets
/// alike.
pub proof fn both_sources_name_states_alike(state: u8)
    ensures
        proc_state(number::hex_digits(state as nat, 2), Protocol::Tcp) == netlink::state_name(
            state,
        ),
{
    reveal_with_fuel(number::hex_range, 3);
    number::lemma_hex_read_back(state as nat, 2, u8::MAX as nat);
}

} // verus!
