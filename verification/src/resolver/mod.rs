//! Ownership of sockets: which process and which user a flow belongs to.

pub mod laws;
pub mod netlink;
pub mod pid_map;
pub mod proc_fallback;

use std::collections::HashMap;

use vstd::prelude::*;

use crate::capture::{FlowKey, Protocol};
use crate::collections;
use crate::net::SocketAddr;
use crate::number;
use crate::text;

use netlink::NetlinkError;
use pid_map::{InodePidEntry, InodePidEntryView, ProcessScan};
use proc_fallback::ProcNetFiles;

verus! {

broadcast use vstd::std_specs::hash::group_hash_axioms;

/// How long a scan of the sockets stays fresh, in nanoseconds.
pub const RESOLVER_REFRESH_PERIOD: u64 = 1_000_000_000;

/// How far back a new cache dates its last scan, in nanoseconds.
pub const RESOLVER_INITIAL_AGE: u64 = 5_000_000_000;

/// Name of a process or user that is not known.
pub const UNKNOWN_LABEL: &'static str = "[unknown]";

/// What the kernel knows about one socket.
#[derive(Clone, Debug)]
pub struct SocketEntry {
    pub inode: u64,
    pub local_addr: SocketAddr,
    pub remote_addr: SocketAddr,
    pub state: String,
    pub uid: u32,
    pub protocol: Protocol,
}

/// A socket entry with its text as characters.
pub struct SocketEntryView {
    pub inode: u64,
    pub local_addr: SocketAddr,
    pub remote_addr: SocketAddr,
    pub state: Seq<char>,
    pub uid: u32,
    pub protocol: Protocol,
}

impl View for SocketEntry {
    type V = SocketEntryView;

    open spec fn view(&self) -> SocketEntryView {
        SocketEntryView {
            inode: self.inode,
            local_addr: self.local_addr,
            remote_addr: self.remote_addr,
            state: self.state@,
            uid: self.uid,
            protocol: self.protocol,
        }
    }
}

/// Socket entries by inode, with their texts as characters.
pub open spec fn entries(m: Map<u64, SocketEntry>) -> Map<u64, SocketEntryView> {
    m.map_values(|e: SocketEntry| e@)
}

/// Inserting an entry inserts what it shows.
pub proof fn lemma_entries_insert(m: Map<u64, SocketEntry>, inode: u64, entry: SocketEntry)
    ensures
        entries(m.insert(inode, entry)) == entries(m).insert(inode, entry@),
{
    assert(entries(m.insert(inode, entry)) =~= entries(m).insert(inode, entry@));
}

/// Every entry is filed under its own inode.
pub open spec fn keyed_by_inode(m: Map<u64, SocketEntryView>) -> bool {
    forall|inode: u64| #[trigger] m.contains_key(inode) ==> m[inode].inode == inode
}

/// Sockets, each filed under its own inode.
#[derive(Debug)]
pub struct SocketTable {
    sockets: HashMap<u64, SocketEntry>,
}

impl View for SocketTable {
    type V = Map<u64, SocketEntryView>;

    closed spec fn view(&self) -> Map<u64, SocketEntryView> {
        entries(self.sockets@)
    }
}

impl SocketTable {
    #[verifier::type_invariant]
    spec fn filed(&self) -> bool {
        keyed_by_inode(entries(self.sockets@))
    }

    /// Makes a table of sockets that are filed under their own inodes.
    pub(crate) fn of(sockets: HashMap<u64, SocketEntry>) -> (table: SocketTable)
        requires
            keyed_by_inode(entries(sockets@)),
        ensures
            table@ == entries(sockets@),
    {
        SocketTable { sockets }
    }

    /// A table without sockets.
    pub fn new() -> (table: SocketTable)
        ensures
            table@ == Map::<u64, SocketEntryView>::empty(),
    {
        let sockets: HashMap<u64, SocketEntry> = HashMap::new();
        assert(entries(sockets@) =~= Map::<u64, SocketEntryView>::empty());
        SocketTable { sockets }
    }

    /// Files a socket under its inode.
    pub fn insert(&mut self, entry: SocketEntry)
        ensures
            final(self)@ == old(self)@.insert(entry.inode, entry@),
    {
        proof {
            use_type_invariant(&*self);
            lemma_entries_insert(self.sockets@, entry.inode, entry);
        }
        let mut sockets: HashMap<u64, SocketEntry> = HashMap::new();
        assert(entries(sockets@) =~= Map::<u64, SocketEntryView>::empty());
        std::mem::swap(&mut self.sockets, &mut sockets);
        sockets.insert(entry.inode, entry);
        self.sockets = sockets;
    }

    /// Number of sockets.
    pub fn len(&self) -> (count: usize)
        ensures
            count == self@.dom().len(),
    {
        assert(self@.dom() =~= self.sockets@.dom());
        self.sockets.len()
    }

    /// Hands the sockets out.
    pub fn into_sockets(self) -> (sockets: HashMap<u64, SocketEntry>)
        ensures
            entries(sockets@) == self@,
            keyed_by_inode(self@),
    {
        proof {
            use_type_invariant(&self);
        }
        self.sockets
    }
}

// ---------------------------------------------------------------------------
// Processes and connections
// ---------------------------------------------------------------------------

/// The thread, process and user that traffic belongs to.
#[derive(Clone, Debug)]
pub struct ProcessInfo {
    pub pid: u32,
    pub tid: u32,
    pub name: String,
    pub thread_name: String,
    pub uid: u32,
    pub username: String,
}

/// A [`ProcessInfo`] with its texts as characters.
pub struct ProcessInfoView {
    pub pid: u32,
    pub tid: u32,
    pub name: Seq<char>,
    pub thread_name: Seq<char>,
    pub uid: u32,
    pub username: Seq<char>,
}

impl View for ProcessInfo {
    type V = ProcessInfoView;

    open spec fn view(&self) -> ProcessInfoView {
        ProcessInfoView {
            pid: self.pid,
            tid: self.tid,
            name: self.name@,
            thread_name: self.thread_name@,
            uid: self.uid,
            username: self.username@,
        }
    }
}

/// The owner of traffic that no process is known for.
pub open spec fn unknown_process() -> ProcessInfoView {
    ProcessInfoView {
        pid: 0,
        tid: 0,
        name: UNKNOWN_LABEL@,
        thread_name: UNKNOWN_LABEL@,
        uid: 0,
        username: UNKNOWN_LABEL@,
    }
}

impl ProcessInfo {
    /// The owner of traffic that no process is known for.
    pub fn unknown() -> (info: ProcessInfo)
        ensures
            info@ == unknown_process(),
    {
        ProcessInfo {
            pid: 0,
            tid: 0,
            name: UNKNOWN_LABEL.to_string(),
            thread_name: UNKNOWN_LABEL.to_string(),
            uid: 0,
            username: UNKNOWN_LABEL.to_string(),
        }
    }

    /// A second copy of the same values.
    pub fn duplicate(&self) -> (copy: ProcessInfo)
        ensures
            copy@ == self@,
    {
        ProcessInfo {
            pid: self.pid,
            tid: self.tid,
            name: self.name.clone(),
            thread_name: self.thread_name.clone(),
            uid: self.uid,
            username: self.username.clone(),
        }
    }
}

/// A socket together with the thread that holds it.
#[derive(Clone, Debug)]
pub struct ResolvedConnection {
    pub local_addr: SocketAddr,
    pub remote_addr: SocketAddr,
    pub protocol: Protocol,
    pub state: String,
    pub inode: u64,
    pub pid: u32,
    pub tid: u32,
    pub process: String,
    pub thread_name: String,
    pub uid: u32,
    pub username: String,
}

/// A [`ResolvedConnection`] with its texts as characters.
pub struct ResolvedConnectionView {
    pub local_addr: SocketAddr,
    pub remote_addr: SocketAddr,
    pub protocol: Protocol,
    pub state: Seq<char>,
    pub inode: u64,
    pub pid: u32,
    pub tid: u32,
    pub process: Seq<char>,
    pub thread_name: Seq<char>,
    pub uid: u32,
    pub username: Seq<char>,
}

impl View for ResolvedConnection {
    type V = ResolvedConnectionView;

    open spec fn view(&self) -> ResolvedConnectionView {
        ResolvedConnectionView {
            local_addr: self.local_addr,
            remote_addr: self.remote_addr,
            protocol: self.protocol,
            state: self.state@,
            inode: self.inode,
            pid: self.pid,
            tid: self.tid,
            process: self.process@,
            thread_name: self.thread_name@,
            uid: self.uid,
            username: self.username@,
        }
    }
}

impl ResolvedConnection {
    /// A second copy of the same values.
    pub fn duplicate(&self) -> (copy: ResolvedConnection)
        ensures
            copy@ == self@,
    {
        ResolvedConnection {
            local_addr: self.local_addr,
            remote_addr: self.remote_addr,
            protocol: self.protocol,
            state: self.state.clone(),
            inode: self.inode,
            pid: self.pid,
            tid: self.tid,
            process: self.process.clone(),
            thread_name: self.thread_name.clone(),
            uid: self.uid,
            username: self.username.clone(),
        }
    }
}

/// Process infos by inode, with their texts as characters.
pub open spec fn infos(m: Map<u64, ProcessInfo>) -> Map<u64, ProcessInfoView> {
    m.map_values(|info: ProcessInfo| info@)
}

/// Connections with their texts as characters.
pub open spec fn connection_views(s: Seq<ResolvedConnection>) -> Seq<ResolvedConnectionView> {
    s.map_values(|c: ResolvedConnection| c@)
}

/// User names by id, with their texts as characters.
pub open spec fn user_names(m: Map<u32, String>) -> Map<u32, Seq<char>> {
    m.map_values(|name: String| name@)
}

/// The name of a user.
pub open spec fn name_of_user(users: Map<u32, Seq<char>>, uid: u32) -> Seq<char> {
    if users.contains_key(uid) {
        users[uid]
    } else {
        UNKNOWN_LABEL@
    }
}

/// The owner of the socket with an inode.
pub open spec fn owner_of(
    inode: u64,
    held: Map<u64, InodePidEntryView>,
    users: Map<u32, Seq<char>>,
) -> ProcessInfoView {
    if held.contains_key(inode) {
        let holder = held[inode];
        ProcessInfoView {
            pid: holder.pid,
            tid: holder.tid,
            name: holder.process_name,
            thread_name: holder.thread_name,
            uid: holder.uid,
            username: name_of_user(users, holder.uid),
        }
    } else {
        unknown_process()
    }
}

/// The owners of the given sockets, by inode.
pub open spec fn owners_of(
    sockets: Map<u64, SocketEntryView>,
    held: Map<u64, InodePidEntryView>,
    users: Map<u32, Seq<char>>,
) -> Map<u64, ProcessInfoView> {
    Map::new(
        |inode: u64| sockets.contains_key(inode),
        |inode: u64| owner_of(inode, held, users),
    )
}

/// The connection that a socket makes. Where nothing is known to hold the
/// socket, the user is the one that the socket itself names.
pub open spec fn connection_of(
    socket: SocketEntryView,
    held: Map<u64, InodePidEntryView>,
    users: Map<u32, Seq<char>>,
) -> ResolvedConnectionView {
    let holder = if held.contains_key(socket.inode) {
        held[socket.inode]
    } else {
        InodePidEntryView {
            pid: 0,
            tid: 0,
            process_name: UNKNOWN_LABEL@,
            thread_name: UNKNOWN_LABEL@,
            uid: socket.uid,
        }
    };
    ResolvedConnectionView {
        local_addr: socket.local_addr,
        remote_addr: socket.remote_addr,
        protocol: socket.protocol,
        state: socket.state,
        inode: socket.inode,
        pid: holder.pid,
        tid: holder.tid,
        process: holder.process_name,
        thread_name: holder.thread_name,
        uid: holder.uid,
        username: name_of_user(users, holder.uid),
    }
}

/// The connections of the sockets, taken in the given order.
pub open spec fn connections_in_order(
    order: Seq<u64>,
    sockets: Map<u64, SocketEntryView>,
    held: Map<u64, InodePidEntryView>,
    users: Map<u32, Seq<char>>,
) -> Seq<ResolvedConnectionView> {
    order.map_values(|inode: u64| connection_of(sockets[inode], held, users))
}

/// `rows` holds one connection for each socket, in some order.
pub open spec fn connections_of(
    rows: Seq<ResolvedConnectionView>,
    sockets: Map<u64, SocketEntryView>,
    held: Map<u64, InodePidEntryView>,
    users: Map<u32, Seq<char>>,
) -> bool {
    exists|order: Seq<u64>| #[trigger]
        collections::lists_keys(order, sockets) && rows == connections_in_order(
            order,
            sockets,
            held,
            users,
        )
}

/// Looks a user name up.
fn user_name(uid_map: &HashMap<u32, String>, uid: u32) -> (name: String)
    ensures
        name@ == name_of_user(user_names(uid_map@), uid),
{
    match uid_map.get(&uid) {
        Some(name) => name.clone(),
        None => UNKNOWN_LABEL.to_string(),
    }
}

/// Joins sockets with their holders and users.
pub fn build_inode_process_map(
    socket_entries: &HashMap<u64, SocketEntry>,
    inode_pid_map: &HashMap<u64, InodePidEntry>,
    uid_map: &HashMap<u32, String>,
) -> (inode_to_process: HashMap<u64, ProcessInfo>)
    ensures
        infos(inode_to_process@) == owners_of(
            entries(socket_entries@),
            pid_map::holders(inode_pid_map@),
            user_names(uid_map@),
        ),
{
    let keys = collections::key_list(socket_entries);
    let ghost held = pid_map::holders(inode_pid_map@);
    let ghost users = user_names(uid_map@);
    let mut inode_to_process: HashMap<u64, ProcessInfo> = HashMap::new();
    let mut i: usize = 0;
    while i < keys.len()
        invariant
            i <= keys@.len(),
            keys@.no_duplicates(),
            held == pid_map::holders(inode_pid_map@),
            users == user_names(uid_map@),
            forall|inode: u64| #[trigger]
                inode_to_process@.contains_key(inode) <==> keys@.take(i as int).contains(inode),
            forall|inode: u64| #[trigger]
                inode_to_process@.contains_key(inode) ==> inode_to_process@[inode]@ == owner_of(
                    inode,
                    held,
                    users,
                ),
        decreases keys@.len() - i,
    {
        let inode: u64 = keys[i];
        assert(keys@.take(i + 1) =~= keys@.take(i as int).push(inode));
        let info = match inode_pid_map.get(&inode) {
            Some(holder) => ProcessInfo {
                pid: holder.pid,
                tid: holder.tid,
                name: holder.process_name.clone(),
                thread_name: holder.thread_name.clone(),
                uid: holder.uid,
                username: user_name(uid_map, holder.uid),
            },
            None => ProcessInfo::unknown(),
        };
        assert(info@ == owner_of(inode, held, users));
        proof {
            assert forall|other: u64|
                keys@.take(i + 1).contains(other) <==> (keys@.take(i as int).contains(other)
                    || other == inode) by {
                let seen = keys@.take(i as int);
                if seen.contains(other) {
                    let at = choose|at: int| 0 <= at < seen.len() && seen[at] == other;
                    assert(seen.push(inode)[at] == other);
                }
                assert(seen.push(inode)[i as int] == inode);
            }
        }
        inode_to_process.insert(inode, info);
        i += 1;
    }
    proof {
        assert(keys@.take(keys@.len() as int) =~= keys@);
        let goal = owners_of(entries(socket_entries@), held, users);
        let made = infos(inode_to_process@);
        assert forall|inode: u64| made.contains_key(inode) == goal.contains_key(inode) by {
            collections::lemma_listed(keys@, socket_entries@, inode);
            assert(inode_to_process@.contains_key(inode) <==> keys@.contains(inode));
        }
        assert(made =~= goal);
    }
    inode_to_process
}

/// Joins one socket with its holder and user.
fn build_connection(
    socket_entry: &SocketEntry,
    inode_pid_map: &HashMap<u64, InodePidEntry>,
    uid_map: &HashMap<u32, String>,
) -> (connection: ResolvedConnection)
    ensures
        connection@ == connection_of(
            socket_entry@,
            pid_map::holders(inode_pid_map@),
            user_names(uid_map@),
        ),
{
    let (pid, tid, process, thread_name, uid) = match inode_pid_map.get(&socket_entry.inode) {
        Some(holder) => (
            holder.pid,
            holder.tid,
            holder.process_name.clone(),
            holder.thread_name.clone(),
            holder.uid,
        ),
        None => (
            0u32,
            0u32,
            UNKNOWN_LABEL.to_string(),
            UNKNOWN_LABEL.to_string(),
            socket_entry.uid,
        ),
    };
    ResolvedConnection {
        local_addr: socket_entry.local_addr,
        remote_addr: socket_entry.remote_addr,
        protocol: socket_entry.protocol,
        state: socket_entry.state.clone(),
        inode: socket_entry.inode,
        pid,
        tid,
        process,
        thread_name,
        uid,
        username: user_name(uid_map, uid),
    }
}

/// Lists the connections that the sockets make, in some order.
pub fn build_connections(
    socket_entries: &HashMap<u64, SocketEntry>,
    inode_pid_map: &HashMap<u64, InodePidEntry>,
    uid_map: &HashMap<u32, String>,
) -> (connections: Vec<ResolvedConnection>)
    ensures
        connections_of(
            connection_views(connections@),
            entries(socket_entries@),
            pid_map::holders(inode_pid_map@),
            user_names(uid_map@),
        ),
{
    let keys = collections::key_list(socket_entries);
    let ghost sockets = entries(socket_entries@);
    let ghost held = pid_map::holders(inode_pid_map@);
    let ghost users = user_names(uid_map@);
    let ghost goal = connections_in_order(keys@, sockets, held, users);
    let mut connections: Vec<ResolvedConnection> = Vec::new();
    let mut i: usize = 0;
    while i < keys.len()
        invariant
            i <= keys@.len(),
            collections::lists_keys(keys@, socket_entries@),
            sockets == entries(socket_entries@),
            held == pid_map::holders(inode_pid_map@),
            users == user_names(uid_map@),
            goal == connections_in_order(keys@, sockets, held, users),
            connections@.len() == i,
            forall|j: int| 0 <= j < i ==> (#[trigger] connections@[j])@ == goal[j],
        decreases keys@.len() - i,
    {
        let inode: u64 = keys[i];
        proof {
            collections::lemma_listed(keys@, socket_entries@, inode);
            assert(keys@.contains(inode));
        }
        if let Some(socket_entry) = socket_entries.get(&inode) {
            let connection = build_connection(socket_entry, inode_pid_map, uid_map);
            assert(connection@ == goal[i as int]);
            connections.push(connection);
        }
        i += 1;
    }
    proof {
        assert(connection_views(connections@) =~= goal);
        assert(sockets.dom() =~= socket_entries@.dom());
        assert(collections::lists_keys(keys@, sockets));
    }
    connections
}

/// The user that a line of the password file names: its id and name.
pub open spec fn passwd_entry(line: Seq<char>) -> Option<(u32, Seq<char>)> {
    let parts = text::split_on(line, ':');
    if parts.len() < 3 {
        None
    } else {
        match number::numeral(parts[2], 10, u32::MAX as nat) {
            Some(uid) => Some((uid as u32, parts[0])),
            None => None,
        }
    }
}

/// The users that the lines name; a later line replaces an earlier one.
pub open spec fn passwd_users(lines: Seq<String>) -> Map<u32, Seq<char>>
    decreases lines.len(),
{
    if lines.len() == 0 {
        Map::empty()
    } else {
        let before = passwd_users(lines.drop_last());
        match passwd_entry(lines.last()@) {
            Some((uid, name)) => before.insert(uid, name),
            None => before,
        }
    }
}

/// Reads the user names out of the lines of the password file.
pub fn load_uid_map(lines: &Vec<String>) -> (uid_map: HashMap<u32, String>)
    ensures
        user_names(uid_map@) == passwd_users(lines@),
{
    let mut uid_map: HashMap<u32, String> = HashMap::new();
    let mut i: usize = 0;
    assert(lines@.take(0) =~= Seq::empty());
    assert(user_names(uid_map@) =~= Map::empty());
    while i < lines.len()
        invariant
            i <= lines@.len(),
            user_names(uid_map@) == passwd_users(lines@.take(i as int)),
        decreases lines@.len() - i,
    {
        assert(lines@.take(i + 1).drop_last() =~= lines@.take(i as int));
        assert(lines@.take(i + 1).last() == lines@[i as int]);
        let chars = text::chars_of(lines[i].as_str());
        let parts = text::split_chars_on(chars.as_slice(), ':');
        assert(forall|j: int| 0 <= j < parts@.len() ==> text::texts(parts@)[j] == parts@[j]@);
        if parts.len() >= 3 {
            match number::read_numeral(parts[2].as_slice(), 10, u32::MAX as u64) {
                Some(uid) => {
                    let name = text::string_of(parts[0].as_slice());
                    assert(user_names(uid_map@.insert(uid as u32, name)) =~= user_names(
                        uid_map@,
                    ).insert(uid as u32, name@));
                    uid_map.insert(uid as u32, name);
                },
                None => {},
            }
        }
        i += 1;
    }
    assert(lines@.take(lines@.len() as int) =~= lines@);
    uid_map
}

// ---------------------------------------------------------------------------
// The cache
// ---------------------------------------------------------------------------

/// Where a scan found the sockets.
#[derive(Debug)]
pub enum SocketSource {
    /// The kernel's answer to a socket query.
    Netlink(SocketTable),
    /// The text tables, read because the kernel did not answer.
    ProcNet(ProcNetFiles),
}

/// How a scan goes on after the kernel was asked for the sockets.
#[derive(Debug)]
pub enum SourceChoice {
    /// The kernel's answer is used.
    Use(SocketSource),
    /// The four text tables are read, because the kernel gave no answer.
    ReadTables(NetlinkError),
}

/// Decides where the sockets of a scan come from: from the kernel's answer if
/// there is one, and from the text tables only where there is none.
pub fn choose_source(answer: Result<SocketTable, NetlinkError>) -> (choice: SourceChoice)
    ensures
        choice == (match answer {
            Ok(table) => SourceChoice::Use(SocketSource::Netlink(table)),
            Err(error) => SourceChoice::ReadTables(error),
        }),
{
    match answer {
        Ok(table) => SourceChoice::Use(SocketSource::Netlink(table)),
        Err(error) => SourceChoice::ReadTables(error),
    }
}

/// What a scan of the machine found.
#[derive(Debug)]
pub struct Scan {
    /// The sockets.
    pub source: SocketSource,
    /// The open files of every process.
    pub processes: Vec<ProcessScan>,
}

/// The sockets that a source gives.
pub open spec fn source_sockets(source: SocketSource) -> proc_fallback::TableView {
    match source {
        SocketSource::Netlink(table) => Ok(table@),
        SocketSource::ProcNet(files) => proc_fallback::tables_read(files),
    }
}

/// Why the resolver failed.
#[derive(Clone, Debug)]
pub enum ResolverError {
    Io(String),
    Fallback(String),
}

/// The message of an error whose cause reads `cause`.
pub open spec fn resolver_message(error: ResolverError) -> Seq<char> {
    match error {
        ResolverError::Io(cause) => "io error: "@ + cause@,
        ResolverError::Fallback(cause) => "fallback resolver error: "@ + cause@,
    }
}

impl ResolverError {
    /// The message shown for the error.
    pub fn message(&self) -> (text: String)
        ensures
            text@ == resolver_message(*self),
    {
        let mut text = String::new();
        match self {
            ResolverError::Io(cause) => {
                text.append("io error: ");
                text.append(cause.as_str());
            },
            ResolverError::Fallback(cause) => {
                text.append("fallback resolver error: ");
                text.append(cause.as_str());
            },
        }
        assert(text@ =~= resolver_message(*self));
        text
    }
}

/// Says that no resolver could be created.
pub fn resolver_failure_status(error: &ResolverError) -> (status: String)
    ensures
        status@ == "Resolver initialization failed: "@ + resolver_message(*error),
{
    let message = error.message();
    text::followed_by("Resolver initialization failed: ", message.as_str())
}

/// The endpoints of a connection are those of a flow, in either direction, and
/// the protocols agree.
pub open spec fn carries(
    local_addr: SocketAddr,
    remote_addr: SocketAddr,
    protocol: Protocol,
    flow: FlowKey,
) -> bool {
    let src = SocketAddr { ip: flow.src_ip, port: flow.src_port };
    let dst = SocketAddr { ip: flow.dst_ip, port: flow.dst_port };
    &&& protocol == flow.protocol
    &&& (local_addr == src && remote_addr == dst) || (local_addr == dst && remote_addr == src)
}

/// Decides whether a connection carries a flow.
pub fn carries_flow(
    local_addr: &SocketAddr,
    remote_addr: &SocketAddr,
    protocol: Protocol,
    flow: &FlowKey,
) -> (found: bool)
    ensures
        found == carries(*local_addr, *remote_addr, protocol, *flow),
{
    if protocol != flow.protocol {
        return false;
    }
    let forward_match = local_addr.ip == flow.src_ip && local_addr.port == flow.src_port
        && remote_addr.ip == flow.dst_ip && remote_addr.port == flow.dst_port;
    let reverse_match = local_addr.ip == flow.dst_ip && local_addr.port == flow.dst_port
        && remote_addr.ip == flow.src_ip && remote_addr.port == flow.src_port;
    forward_match || reverse_match
}

/// The socket filed under `key` carries the flow, and its owner is known.
pub open spec fn owned_carrier(
    key: u64,
    sockets: Map<u64, SocketEntryView>,
    owners: Map<u64, ProcessInfoView>,
    flow: FlowKey,
) -> bool {
    &&& sockets.contains_key(key)
    &&& carries(sockets[key].local_addr, sockets[key].remote_addr, sockets[key].protocol, flow)
    &&& owners.contains_key(sockets[key].inode)
}

/// `owner` is the owner of a flow, as far as the sockets and owners tell.
pub open spec fn is_flow_owner(
    owner: Option<ProcessInfo>,
    sockets: Map<u64, SocketEntryView>,
    owners: Map<u64, ProcessInfoView>,
    flow: FlowKey,
) -> bool {
    match owner {
        Some(info) => exists|key: u64| #[trigger]
            owned_carrier(key, sockets, owners, flow) && info@ == owners[sockets[key].inode],
        None => forall|key: u64| !#[trigger] owned_carrier(key, sockets, owners, flow),
    }
}

/// `found` is what the owners tell of a process.
pub open spec fn is_process(
    found: Option<ProcessInfo>,
    owners: Map<u64, ProcessInfoView>,
    pid: u32,
) -> bool {
    match found {
        Some(info) => info.pid == pid && exists|inode: u64| #[trigger]
            owners.contains_key(inode) && owners[inode] == info@,
        None => forall|inode: u64| #[trigger]
            owners.contains_key(inode) ==> owners[inode].pid != pid,
    }
}

/// `after` holds what a scan found: its sockets, their owners, and one
/// connection per socket.
pub open spec fn scan_taken_in(
    before: ResolverCache,
    after: ResolverCache,
    scan: Scan,
    now: u64,
) -> bool {
    let held = pid_map::held_by_all(scan.processes@);
    match source_sockets(scan.source) {
        Ok(sockets) => {
            &&& after.users() == before.users()
            &&& after.sockets() == sockets
            &&& after.owners() == owners_of(sockets, held, before.users())
            &&& connections_of(after.rows(), sockets, held, before.users())
            &&& after.refreshed_at() == now
        },
        Err(_) => after == before,
    }
}

/// `after` is `before`, brought up to date if it was too old and a scan was
/// made. A scan that could not read the sockets changes nothing.
pub open spec fn brought_up_to_date(
    before: ResolverCache,
    after: ResolverCache,
    scan: Option<Scan>,
    now: u64,
) -> bool {
    if now - before.refreshed_at() < RESOLVER_REFRESH_PERIOD {
        after == before
    } else {
        match scan {
            Some(scan) => scan_taken_in(before, after, scan, now),
            None => after == before,
        }
    }
}

/// What becomes of a scan: the error that a failed one gives, and why.
pub open spec fn scan_result(result: Result<(), ResolverError>, scan: Scan) -> bool {
    match source_sockets(scan.source) {
        Ok(_) => result is Ok,
        Err(error) => result matches Err(ResolverError::Fallback(cause)) && cause@
            == proc_fallback::fallback_message(error),
    }
}

/// The sockets found by the last scan, joined with their owners.
#[derive(Debug)]
pub struct ResolverCache {
    uid_map: HashMap<u32, String>,
    inode_to_process: HashMap<u64, ProcessInfo>,
    socket_entries: HashMap<u64, SocketEntry>,
    connections: Vec<ResolvedConnection>,
    last_refresh: u64,
}

/// Sockets and owners fit together: every socket is filed under its own inode,
/// and exactly the sockets have owners.
pub open spec fn joined(
    sockets: Map<u64, SocketEntryView>,
    owners: Map<u64, ProcessInfoView>,
) -> bool {
    &&& keyed_by_inode(sockets)
    &&& owners.dom() == sockets.dom()
}

impl ResolverCache {
    #[verifier::type_invariant]
    spec fn sound(&self) -> bool {
        joined(entries(self.socket_entries@), infos(self.inode_to_process@))
    }

    /// User names by id.
    pub closed spec fn users(&self) -> Map<u32, Seq<char>> {
        user_names(self.uid_map@)
    }

    /// Owners by inode.
    pub closed spec fn owners(&self) -> Map<u64, ProcessInfoView> {
        infos(self.inode_to_process@)
    }

    /// Sockets by inode.
    pub closed spec fn sockets(&self) -> Map<u64, SocketEntryView> {
        entries(self.socket_entries@)
    }

    /// Connections in the order in which they are listed.
    pub closed spec fn rows(&self) -> Seq<ResolvedConnectionView> {
        connection_views(self.connections@)
    }

    /// Time of the last scan.
    pub closed spec fn refreshed_at(&self) -> u64 {
        self.last_refresh
    }

    /// Creates an empty cache with the users that the password file names.
    /// `passwd` holds the readable lines of the file, or why it could not be
    /// opened. The cache counts as stale from the start.
    pub fn new(passwd: &Result<Vec<String>, String>, now: u64) -> (cache: Result<
        ResolverCache,
        ResolverError,
    >)
        requires
            now >= RESOLVER_INITIAL_AGE,
        ensures
            match (cache, *passwd) {
                (Ok(cache), Ok(lines)) => {
                    &&& cache.users() == passwd_users(lines@)
                    &&& cache.owners() == Map::<u64, ProcessInfoView>::empty()
                    &&& cache.sockets() == Map::<u64, SocketEntryView>::empty()
                    &&& cache.rows() == Seq::<ResolvedConnectionView>::empty()
                    &&& cache.refreshed_at() == now - RESOLVER_INITIAL_AGE
                },
                (Err(ResolverError::Io(cause)), Err(source)) => cause@ == source@,
                _ => false,
            },
    {
        let lines = match passwd {
            Ok(lines) => lines,
            Err(source) => {
                return Err(ResolverError::Io(source.clone()));
            },
        };
        let inode_to_process: HashMap<u64, ProcessInfo> = HashMap::new();
        let socket_entries: HashMap<u64, SocketEntry> = HashMap::new();
        assert(infos(inode_to_process@) =~= Map::<u64, ProcessInfoView>::empty());
        assert(entries(socket_entries@) =~= Map::<u64, SocketEntryView>::empty());
        let cache = ResolverCache {
            uid_map: load_uid_map(lines),
            inode_to_process,
            socket_entries,
            connections: Vec::new(),
            last_refresh: now - RESOLVER_INITIAL_AGE,
        };
        assert(cache.rows() =~= Seq::<ResolvedConnectionView>::empty());
        Ok(cache)
    }

    /// Takes in what a scan found. If the sockets could not be read, the cache
    /// stays as it was.
    pub fn refresh(&mut self, scan: Scan, now: u64) -> (result: Result<(), ResolverError>)
        ensures
            scan_taken_in(*old(self), *final(self), scan, now),
            scan_result(result, scan),
            joined(final(self).sockets(), final(self).owners()),
    {
        let socket_entries = match scan.source {
            SocketSource::Netlink(table) => table.into_sockets(),
            SocketSource::ProcNet(files) => match proc_fallback::read_proc_net(&files) {
                Ok(sockets) => {
                    proof {
                        proc_fallback::tables_are_keyed_by_inode(files);
                    }
                    sockets
                },
                Err(error) => {
                    proof {
                        use_type_invariant(&*self);
                    }
                    return Err(ResolverError::Fallback(error.message()));
                },
            },
        };
        let inode_pid_map = pid_map::build_inode_pid_map(&scan.processes);
        let inode_to_process = build_inode_process_map(
            &socket_entries,
            &inode_pid_map,
            &self.uid_map,
        );
        let connections = build_connections(&socket_entries, &inode_pid_map, &self.uid_map);
        proof {
            use_type_invariant(&*self);
            assert(infos(inode_to_process@).dom() =~= entries(socket_entries@).dom());
        }
        let mut uid_map: HashMap<u32, String> = HashMap::new();
        std::mem::swap(&mut self.uid_map, &mut uid_map);
        *self = ResolverCache {
            uid_map,
            inode_to_process,
            socket_entries,
            connections,
            last_refresh: now,
        };
        Ok(())
    }

    /// The owner of the socket with an inode.
    pub fn lookup(&self, inode: u64) -> (info: Option<&ProcessInfo>)
        ensures
            match info {
                Some(info) => self.owners().contains_key(inode) && info@ == self.owners()[inode],
                None => !self.owners().contains_key(inode),
            },
    {
        self.inode_to_process.get(&inode)
    }

    /// Whether the last scan is too old to be used.
    pub fn needs_refresh(&self, now: u64) -> (stale: bool)
        ensures
            stale == (now - self.refreshed_at() >= RESOLVER_REFRESH_PERIOD),
    {
        now >= self.last_refresh && now - self.last_refresh >= RESOLVER_REFRESH_PERIOD
    }

    /// Takes in what a scan found if the last one is too old.
    pub fn refresh_if_needed(&mut self, scan: Scan, now: u64) -> (result: Result<
        (),
        ResolverError,
    >)
        ensures
            brought_up_to_date(*old(self), *final(self), Some(scan), now),
            joined(final(self).sockets(), final(self).owners()),
            if now - old(self).refreshed_at() < RESOLVER_REFRESH_PERIOD {
                result is Ok
            } else {
                scan_result(result, scan)
            },
    {
        proof {
            use_type_invariant(&*self);
        }
        if !self.needs_refresh(now) {
            return Ok(());
        }
        self.refresh(scan, now)
    }

    /// Brings the cache up to date, if it is too old and a scan was made. That
    /// a scan failed goes unmentioned: the cache answers with what it holds.
    fn bring_up_to_date(&mut self, scan: Option<Scan>, now: u64)
        ensures
            brought_up_to_date(*old(self), *final(self), scan, now),
            joined(final(self).sockets(), final(self).owners()),
    {
        proof {
            use_type_invariant(&*self);
        }
        if let Some(scan) = scan {
            let _ = self.refresh_if_needed(scan, now);
        }
    }

    /// The owner of a socket that carries the flow. Where several sockets do,
    /// it is the owner of one of them.
    fn flow_owner(&self, flow: &FlowKey) -> (owner: Option<ProcessInfo>)
        ensures
            is_flow_owner(owner, self.sockets(), self.owners(), *flow),
    {
        let keys = collections::key_list(&self.socket_entries);
        let mut i: usize = 0;
        while i < keys.len()
            invariant
                i <= keys@.len(),
                collections::lists_keys(keys@, self.socket_entries@),
                forall|j: int|
                    0 <= j < i ==> !owned_carrier(
                        #[trigger] keys@[j],
                        self.sockets(),
                        self.owners(),
                        *flow,
                    ),
            decreases keys@.len() - i,
        {
            if let Some(socket_entry) = self.socket_entries.get(&keys[i]) {
                if carries_flow(
                    &socket_entry.local_addr,
                    &socket_entry.remote_addr,
                    socket_entry.protocol,
                    flow,
                ) {
                    if let Some(info) = self.lookup(socket_entry.inode) {
                        let found = info.duplicate();
                        assert(owned_carrier(
                            keys@[i as int],
                            self.sockets(),
                            self.owners(),
                            *flow,
                        ));
                        return Some(found);
                    }
                }
            }
            i += 1;
        }
        proof {
            assert forall|key: u64| !#[trigger] owned_carrier(
                key,
                self.sockets(),
                self.owners(),
                *flow,
            ) by {
                if self.socket_entries@.contains_key(key) {
                    collections::lemma_listed(keys@, self.socket_entries@, key);
                    let at = choose|at: int| 0 <= at < keys@.len() && keys@[at] == key;
                    assert(!owned_carrier(keys@[at], self.sockets(), self.owners(), *flow));
                }
            }
        }
        None
    }

    /// The connections found by the last scan.
    fn connections(&self) -> (connections: Vec<ResolvedConnection>)
        ensures
            connection_views(connections@) == self.rows(),
    {
        let mut connections: Vec<ResolvedConnection> = Vec::new();
        let mut i: usize = 0;
        while i < self.connections.len()
            invariant
                i <= self.connections@.len(),
                connections@.len() == i,
                forall|j: int|
                    0 <= j < i ==> (#[trigger] connections@[j])@ == self.connections@[j]@,
            decreases self.connections@.len() - i,
        {
            connections.push(self.connections[i].duplicate());
            i += 1;
        }
        assert(connection_views(connections@) =~= self.rows());
        connections
    }

    /// The info of a process, as one of its sockets gives it.
    fn process_info(&self, pid: u32) -> (found: Option<ProcessInfo>)
        ensures
            is_process(found, self.owners(), pid),
    {
        let keys = collections::key_list(&self.inode_to_process);
        let mut i: usize = 0;
        while i < keys.len()
            invariant
                i <= keys@.len(),
                collections::lists_keys(keys@, self.inode_to_process@),
                forall|j: int|
                    0 <= j < i ==> self.inode_to_process@[#[trigger] keys@[j]].pid != pid,
            decreases keys@.len() - i,
        {
            proof {
                collections::lemma_listed(keys@, self.inode_to_process@, keys@[i as int]);
                assert(keys@.contains(keys@[i as int]));
            }
            if let Some(info) = self.inode_to_process.get(&keys[i]) {
                if info.pid == pid {
                    let found = info.duplicate();
                    assert(self.owners().contains_key(keys@[i as int]));
                    return Some(found);
                }
            }
            i += 1;
        }
        proof {
            assert forall|inode: u64| #[trigger]
                self.owners().contains_key(inode) implies self.owners()[inode].pid != pid by {
                collections::lemma_listed(keys@, self.inode_to_process@, inode);
                let at = choose|at: int| 0 <= at < keys@.len() && keys@[at] == inode;
                assert(self.inode_to_process@[keys@[at]].pid != pid);
            }
        }
        None
    }

    /// The owner of a socket that carries the flow, once the cache is up to
    /// date.
    pub fn resolve_flow_owner(&mut self, flow: &FlowKey, scan: Option<Scan>, now: u64) -> (owner:
        Option<ProcessInfo>)
        ensures
            brought_up_to_date(*old(self), *final(self), scan, now),
            joined(final(self).sockets(), final(self).owners()),
            is_flow_owner(owner, final(self).sockets(), final(self).owners(), *flow),
    {
        self.bring_up_to_date(scan, now);
        self.flow_owner(flow)
    }

    /// The connections, once the cache is up to date.
    pub fn list_connections(&mut self, scan: Option<Scan>, now: u64) -> (connections: Vec<
        ResolvedConnection,
    >)
        ensures
            brought_up_to_date(*old(self), *final(self), scan, now),
            joined(final(self).sockets(), final(self).owners()),
            connection_views(connections@) == final(self).rows(),
    {
        self.bring_up_to_date(scan, now);
        self.connections()
    }

    /// The info of a process, once the cache is up to date.
    pub fn process_by_pid(&mut self, pid: u32, scan: Option<Scan>, now: u64) -> (found: Option<
        ProcessInfo,
    >)
        ensures
            brought_up_to_date(*old(self), *final(self), scan, now),
            joined(final(self).sockets(), final(self).owners()),
            is_process(found, final(self).owners(), pid),
    {
        self.bring_up_to_date(scan, now);
        self.process_info(pid)
    }
}

/// Answers which process traffic belongs to.
#[derive(Debug)]
pub struct Resolver {
    cache: ResolverCache,
}

impl Resolver {
    /// The cache behind the answers.
    pub closed spec fn cached(&self) -> ResolverCache {
        self.cache
    }

    /// Creates a resolver with an empty cache.
    pub fn new(passwd: &Result<Vec<String>, String>, now: u64) -> (resolver: Result<
        Resolver,
        ResolverError,
    >)
        requires
            now >= RESOLVER_INITIAL_AGE,
        ensures
            match (resolver, *passwd) {
                (Ok(resolver), Ok(lines)) => {
                    &&& resolver.cached().users() == passwd_users(lines@)
                    &&& resolver.cached().owners() == Map::<u64, ProcessInfoView>::empty()
                    &&& resolver.cached().sockets() == Map::<u64, SocketEntryView>::empty()
                    &&& resolver.cached().rows() == Seq::<ResolvedConnectionView>::empty()
                    &&& resolver.cached().refreshed_at() == now - RESOLVER_INITIAL_AGE
                },
                (Err(ResolverError::Io(cause)), Err(source)) => cause@ == source@,
                _ => false,
            },
    {
        match ResolverCache::new(passwd, now) {
            Ok(cache) => Ok(Resolver { cache }),
            Err(error) => Err(error),
        }
    }

    /// Whether the last scan is too old to be used.
    pub fn needs_refresh(&self, now: u64) -> (stale: bool)
        ensures
            stale == (now - self.cached().refreshed_at() >= RESOLVER_REFRESH_PERIOD),
    {
        self.cache.needs_refresh(now)
    }

    /// Takes in what a scan found if the last one is too old.
    pub fn refresh_if_needed(&mut self, scan: Scan, now: u64) -> (result: Result<
        (),
        ResolverError,
    >)
        ensures
            brought_up_to_date(old(self).cached(), final(self).cached(), Some(scan), now),
            joined(final(self).cached().sockets(), final(self).cached().owners()),
            if now - old(self).cached().refreshed_at() < RESOLVER_REFRESH_PERIOD {
                result is Ok
            } else {
                scan_result(result, scan)
            },
    {
        self.cache.refresh_if_needed(scan, now)
    }

    /// The owner of a flow, once the cache is up to date.
    pub fn resolve_flow_owner(&mut self, flow: &FlowKey, scan: Option<Scan>, now: u64) -> (owner:
        Option<ProcessInfo>)
        ensures
            brought_up_to_date(old(self).cached(), final(self).cached(), scan, now),
            joined(final(self).cached().sockets(), final(self).cached().owners()),
            is_flow_owner(
                owner,
                final(self).cached().sockets(),
                final(self).cached().owners(),
                *flow,
            ),
    {
        self.cache.resolve_flow_owner(flow, scan, now)
    }

    /// The connections, once the cache is up to date.
    pub fn list_connections(&mut self, scan: Option<Scan>, now: u64) -> (connections: Vec<
        ResolvedConnection,
    >)
        ensures
            brought_up_to_date(old(self).cached(), final(self).cached(), scan, now),
            joined(final(self).cached().sockets(), final(self).cached().owners()),
            connection_views(connections@) == final(self).cached().rows(),
    {
        self.cache.list_connections(scan, now)
    }

    /// The info of a process, once the cache is up to date.
    pub fn process_by_pid(&mut self, pid: u32, scan: Option<Scan>, now: u64) -> (found: Option<
        ProcessInfo,
    >)
        ensures
            brought_up_to_date(old(self).cached(), final(self).cached(), scan, now),
            joined(final(self).cached().sockets(), final(self).cached().owners()),
            is_process(found, final(self).cached().owners(), pid),
    {
        self.cache.process_by_pid(pid, scan, now)
    }
}

/// Resolves one flow from a single scan.
pub fn resolve(
    passwd: &Result<Vec<String>, String>,
    scan: Scan,
    now: u64,
    flow: &FlowKey,
) -> (owner: Option<ProcessInfo>)
    requires
        now >= RESOLVER_INITIAL_AGE,
    ensures
        match (*passwd, source_sockets(scan.source)) {
            (Ok(lines), Ok(sockets)) => is_flow_owner(
                owner,
                sockets,
                owners_of(sockets, pid_map::held_by_all(scan.processes@), passwd_users(lines@)),
                *flow,
            ),
            _ => owner is None,
        },
{
    let mut resolver = match Resolver::new(passwd, now) {
        Ok(resolver) => resolver,
        Err(_) => {
            return None;
        },
    };
    let _ = resolver.refresh_if_needed(scan, now);
    resolver.resolve_flow_owner(flow, None, now)
}

/// The connections of one process.
pub open spec fn of_process(
    rows: Seq<ResolvedConnectionView>,
    pid: u32,
) -> Seq<ResolvedConnectionView> {
    rows.filter(|c: ResolvedConnectionView| c.pid == pid)
}

/// Lists the connections of one process from a single scan, in some order.
pub fn scan_connections_for_pid(
    passwd: &Result<Vec<String>, String>,
    scan: Scan,
    now: u64,
    pid: u32,
) -> (connections: Vec<ResolvedConnection>)
    requires
        now >= RESOLVER_INITIAL_AGE,
    ensures
        match (*passwd, source_sockets(scan.source)) {
            (Ok(lines), Ok(sockets)) => exists|rows: Seq<ResolvedConnectionView>| #[trigger]
                connections_of(
                    rows,
                    sockets,
                    pid_map::held_by_all(scan.processes@),
                    passwd_users(lines@),
                ) && connection_views(connections@) == of_process(rows, pid),
            _ => connections@.len() == 0,
        },
{
    let mut resolver = match Resolver::new(passwd, now) {
        Ok(resolver) => resolver,
        Err(_) => {
            return Vec::new();
        },
    };
    let _ = resolver.refresh_if_needed(scan, now);
    let all = resolver.list_connections(None, now);
    let ghost rows = connection_views(all@);
    let ghost kept = |c: ResolvedConnectionView| c.pid == pid;
    let mut connections: Vec<ResolvedConnection> = Vec::new();
    let mut i: usize = 0;
    proof {
        reveal(Seq::filter);
        assert(rows.take(0) =~= Seq::empty());
        assert(connection_views(connections@) =~= Seq::empty());
    }
    while i < all.len()
        invariant
            i <= all@.len(),
            rows == connection_views(all@),
            kept == (|c: ResolvedConnectionView| c.pid == pid),
            connection_views(connections@) == rows.take(i as int).filter(kept),
        decreases all@.len() - i,
    {
        proof {
            reveal(Seq::filter);
            assert(rows.take(i + 1).drop_last() =~= rows.take(i as int));
            assert(rows.take(i + 1).last() == all@[i as int]@);
        }
        if all[i].pid == pid {
            let connection = all[i].duplicate();
            assert(connection_views(connections@.push(connection)) =~= connection_views(
                connections@,
            ).push(connection@));
            connections.push(connection);
        }
        i += 1;
    }
    assert(rows.take(rows.len() as int) =~= rows);
    connections
}

// ---------------------------------------------------------------------------
// Laws
// ---------------------------------------------------------------------------

/// The flow that answers a flow.
pub open spec fn answering(flow: FlowKey) -> FlowKey {
    FlowKey {
        src_ip: flow.dst_ip,
        dst_ip: flow.src_ip,
        src_port: flow.dst_port,
        dst_port: flow.src_port,
        protocol: flow.protocol,
    }
}

/// The socket filed under `inode` carries the flow.
pub open spec fn is_carrier(
    inode: u64,
    sockets: Map<u64, SocketEntryView>,
    flow: FlowKey,
) -> bool {
    &&& sockets.contains_key(inode)
    &&& carries(
        sockets[inode].local_addr,
        sockets[inode].remote_addr,
        sockets[inode].protocol,
        flow,
    )
}

/// Every cache owns what it knows: a flow has an owner exactly if some socket
/// carries it.
pub proof fn every_carried_flow_has_an_owner(
    sockets: Map<u64, SocketEntryView>,
    owners: Map<u64, ProcessInfoView>,
    flow: FlowKey,
    owner: Option<ProcessInfo>,
)
    requires
        joined(sockets, owners),
        is_flow_owner(owner, sockets, owners, flow),
    ensures
        owner is Some <==> exists|inode: u64| #[trigger] is_carrier(inode, sockets, flow),
{
    if exists|inode: u64| #[trigger] is_carrier(inode, sockets, flow) {
        let inode = choose|inode: u64| #[trigger] is_carrier(inode, sockets, flow);
        assert(owners.dom().contains(inode));
        assert(owned_carrier(inode, sockets, owners, flow));
    }
    if owner is Some {
        let key = choose|key: u64| #[trigger] owned_carrier(key, sockets, owners, flow);
        assert(is_carrier(key, sockets, flow));
    }
}

/// Where one socket alone carries a flow, the flow belongs to the owner of that
/// socket.
pub proof fn a_lone_carrier_names_the_owner(
    sockets: Map<u64, SocketEntryView>,
    owners: Map<u64, ProcessInfoView>,
    flow: FlowKey,
    owner: Option<ProcessInfo>,
    inode: u64,
)
    requires
        joined(sockets, owners),
        is_flow_owner(owner, sockets, owners, flow),
        is_carrier(inode, sockets, flow),
        forall|other: u64| #[trigger] is_carrier(other, sockets, flow) ==> other == inode,
    ensures
        owner matches Some(info) && info@ == owners[inode],
{
    assert(owners.dom().contains(inode));
    assert(owned_carrier(inode, sockets, owners, flow));
    assert forall|key: u64| #[trigger]
        owned_carrier(key, sockets, owners, flow) implies key == inode by {
        assert(is_carrier(key, sockets, flow));
    }
}

/// Where at most one socket carries a flow, the flow and the one that answers
/// it have the same owner, or neither has one.
pub proof fn both_directions_have_one_owner(
    sockets: Map<u64, SocketEntryView>,
    owners: Map<u64, ProcessInfoView>,
    flow: FlowKey,
    there: Option<ProcessInfo>,
    back: Option<ProcessInfo>,
)
    requires
        joined(sockets, owners),
        is_flow_owner(there, sockets, owners, flow),
        is_flow_owner(back, sockets, owners, answering(flow)),
        forall|a: u64, b: u64| #[trigger]
            is_carrier(a, sockets, flow) && #[trigger] is_carrier(b, sockets, flow) ==> a == b,
    ensures
        match (there, back) {
            (Some(there), Some(back)) => there@ == back@,
            (None, None) => true,
            _ => false,
        },
{
    assert(forall|inode: u64|
        is_carrier(inode, sockets, flow) == #[trigger] is_carrier(
            inode,
            sockets,
            answering(flow),
        ));
    every_carried_flow_has_an_owner(sockets, owners, flow, there);
    every_carried_flow_has_an_owner(sockets, owners, answering(flow), back);
    if exists|inode: u64| #[trigger] is_carrier(inode, sockets, flow) {
        let inode = choose|inode: u64| #[trigger] is_carrier(inode, sockets, flow);
        assert(is_carrier(inode, sockets, answering(flow)));
        a_lone_carrier_names_the_owner(sockets, owners, flow, there, inode);
        a_lone_carrier_names_the_owner(sockets, owners, answering(flow), back, inode);
    } else {
        assert(!exists|inode: u64| #[trigger] is_carrier(inode, sockets, answering(flow)));
    }
}

/// A socket that no process holds has an owner too: nobody known.
pub proof fn sockets_without_holders_belong_to_nobody(
    sockets: Map<u64, SocketEntryView>,
    held: Map<u64, InodePidEntryView>,
    users: Map<u32, Seq<char>>,
    inode: u64,
)
    requires
        sockets.contains_key(inode),
        !held.contains_key(inode),
    ensures
        owners_of(sockets, held, users).contains_key(inode),
        owners_of(sockets, held, users)[inode] == unknown_process(),
{
}

/// A user's line in the password file gives the user's id and name, whatever
/// follows them.
pub proof fn password_lines_give_users(
    name: Seq<char>,
    password: Seq<char>,
    uid: u32,
    rest: Seq<char>,
)
    requires
        text::free_of(name, ':'),
        text::free_of(password, ':'),
    ensures
        passwd_entry(
            name.push(':') + (password.push(':') + (number::decimal(uid as nat).push(':') + rest)),
        ) == Some((uid, name)),
{
    let digits = number::decimal(uid as nat);
    let tail = digits.push(':') + rest;
    let middle = password.push(':') + tail;
    let line = name.push(':') + middle;
    number::lemma_decimal_digits(uid as nat);
    text::lemma_split_at(name, ':', middle);
    text::lemma_split_at(password, ':', tail);
    text::lemma_split_at(digits, ':', rest);
    text::lemma_split_free(name, ':');
    text::lemma_split_free(password, ':');
    text::lemma_split_free(digits, ':');
    text::lemma_split_nonempty(rest, text::is_char(':'));
    let parts = text::split_on(line, ':');
    assert(parts[0] == name);
    assert(parts[2] == digits);
    number::lemma_decimal_read_back(uid as nat, u32::MAX as nat);
}

/// A connection carries a flow exactly if it carries the flow that answers it.
pub proof fn carries_either_direction(
    local_addr: SocketAddr,
    remote_addr: SocketAddr,
    protocol: Protocol,
    flow: FlowKey,
)
    ensures
        carries(local_addr, remote_addr, protocol, flow) == carries(
            local_addr,
            remote_addr,
            protocol,
            answering(flow),
        ),
{
}

/// The owner of a socket and the connection it makes name the same thread
/// wherever a holder of the socket is known.
pub proof fn owner_and_connection_agree(
    socket: SocketEntryView,
    held: Map<u64, InodePidEntryView>,
    users: Map<u32, Seq<char>>,
)
    requires
        held.contains_key(socket.inode),
    ensures
        ({
            let owner = owner_of(socket.inode, held, users);
            let row = connection_of(socket, held, users);
            &&& row.pid == owner.pid
            &&& row.tid == owner.tid
            &&& row.process == owner.name
            &&& row.thread_name == owner.thread_name
            &&& row.uid == owner.uid
            &&& row.username == owner.username
        }),
{
}

} // verus!
