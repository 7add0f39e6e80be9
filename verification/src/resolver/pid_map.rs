//! Which thread holds which socket: the open files of every thread, as the
//! symbolic links under `/proc/<PID>/task/<TID>/fd` show them.

use std::collections::HashMap;

use vstd::prelude::*;
use vstd::slice::slice_subrange;

use crate::number;
use crate::text;

verus! {

broadcast use vstd::std_specs::hash::group_hash_axioms;

/// The thread that holds a socket.
#[derive(Clone, Debug)]
pub struct InodePidEntry {
    pub pid: u32,
    pub tid: u32,
    pub process_name: String,
    pub thread_name: String,
    pub uid: u32,
}

/// An [`InodePidEntry`] with its texts as characters.
pub struct InodePidEntryView {
    pub pid: u32,
    pub tid: u32,
    pub process_name: Seq<char>,
    pub thread_name: Seq<char>,
    pub uid: u32,
}

impl View for InodePidEntry {
    type V = InodePidEntryView;

    open spec fn view(&self) -> InodePidEntryView {
        InodePidEntryView {
            pid: self.pid,
            tid: self.tid,
            process_name: self.process_name@,
            thread_name: self.thread_name@,
            uid: self.uid,
        }
    }
}

/// What a thread's directory holds.
#[derive(Debug)]
pub struct TaskScan {
    /// Name of the directory.
    pub dir_name: String,
    /// Text of `comm`, if it could be read.
    pub comm: Option<String>,
    /// Targets of the links under `fd` that could be read.
    pub fd_targets: Vec<String>,
}

/// What a process's directory holds.
#[derive(Debug)]
pub struct ProcessScan {
    /// Name of the directory.
    pub dir_name: String,
    /// Text of `comm`, if it could be read.
    pub comm: Option<String>,
    /// Text of `status`, if it could be read.
    pub status: Option<String>,
    /// The threads' directories, if `task` could be read.
    pub tasks: Option<Vec<TaskScan>>,
    /// Targets of the links under the process's own `fd`.
    pub fd_targets: Vec<String>,
}

// ---------------------------------------------------------------------------
// Single texts
// ---------------------------------------------------------------------------

/// The inode in a link target of the form `socket:[<inode>]`.
pub open spec fn socket_inode(target: Seq<char>) -> Option<u64> {
    let prefix = "socket:["@;
    if text::begins_with(target, prefix) && text::ends_in(target, "]"@) && prefix.len() + 1
        <= target.len() {
        match number::numeral(
            target.subrange(prefix.len() as int, target.len() - 1),
            10,
            u64::MAX as nat,
        ) {
            Some(inode) => Some(inode as u64),
            None => None,
        }
    } else {
        None
    }
}

/// The effective user id in one `Uid:` line of a status text, if the line has
/// a column for it: `Some(None)` where that column is no number.
pub open spec fn uid_in_line(line: Seq<char>) -> Option<Option<u32>> {
    let prefix = "Uid:"@;
    if text::begins_with(line, prefix) {
        let columns = text::words(line.skip(prefix.len() as int));
        if columns.len() >= 2 {
            match number::numeral(columns[1], 10, u32::MAX as nat) {
                Some(uid) => Some(Some(uid as u32)),
                None => Some(None),
            }
        } else {
            None
        }
    } else {
        None
    }
}

/// The effective user id that the first line to give one gives.
pub open spec fn uid_in_lines(lines: Seq<Seq<char>>) -> Option<u32>
    decreases lines.len(),
{
    if lines.len() == 0 {
        None
    } else {
        match uid_in_line(lines.first()) {
            Some(uid) => uid,
            None => uid_in_lines(lines.drop_first()),
        }
    }
}

/// The process or thread id that a directory name spells.
pub open spec fn dir_id(name: Seq<char>) -> Option<u32> {
    match number::numeral(name, 10, u32::MAX as nat) {
        Some(id) => Some(id as u32),
        None => None,
    }
}

/// Reads the inode out of a link target.
pub fn parse_socket_inode(target: &str) -> (inode: Option<u64>)
    ensures
        inode == socket_inode(target@),
{
    let chars = text::chars_of(target);
    let prefix = text::chars_of("socket:[");
    let suffix = text::chars_of("]");
    proof {
        reveal_strlit("socket:[");
        reveal_strlit("]");
    }
    if !text::starts_with_chars(chars.as_slice(), prefix.as_slice()) || !text::ends_with_chars(
        chars.as_slice(),
        suffix.as_slice(),
    ) || chars.len() < prefix.len() + 1 {
        return None;
    }
    number::read_numeral(
        slice_subrange(chars.as_slice(), prefix.len(), chars.len() - 1),
        10,
        u64::MAX,
    )
}

/// Reads the effective user id out of a status text.
pub fn read_process_effective_uid(status: &str) -> (uid: Option<u32>)
    ensures
        uid == uid_in_lines(text::lines(status@)),
{
    let chars = text::chars_of(status);
    let lines = text::lines_of(chars.as_slice());
    let prefix = text::chars_of("Uid:");
    let ghost all = text::lines(status@);
    assert(all =~= text::texts(lines@));
    let mut i: usize = 0;
    assert(all.skip(0) =~= all);
    while i < lines.len()
        invariant
            i <= lines@.len(),
            all == text::texts(lines@),
            all == text::lines(status@),
            prefix@ == "Uid:"@,
            uid_in_lines(all) == uid_in_lines(all.skip(i as int)),
        decreases lines@.len() - i,
    {
        let line = lines[i].as_slice();
        let ghost rest = all.skip(i as int);
        assert(rest.first() == line@);
        assert(rest.drop_first() =~= all.skip(i + 1));
        if text::starts_with_chars(line, prefix.as_slice()) {
            let tail = slice_subrange(line, prefix.len(), line.len());
            assert(tail@ =~= line@.skip(prefix@.len() as int));
            let columns = text::words_of(tail);
            assert(forall|j: int|
                0 <= j < columns@.len() ==> text::texts(columns@)[j] == columns@[j]@);
            if columns.len() >= 2 {
                return match number::read_numeral(columns[1].as_slice(), 10, u32::MAX as u64) {
                    Some(uid) => Some(uid as u32),
                    None => None,
                };
            }
        }
        i += 1;
    }
    assert(all.skip(all.len() as int) =~= Seq::empty());
    None
}

/// Reads a process or thread name: the text without the whitespace around it.
pub fn read_comm(comm: &str) -> (name: String)
    ensures
        name@ == text::trimmed(comm@),
{
    let chars = text::chars_of(comm);
    text::string_of(text::trim_chars(chars.as_slice()))
}

/// Reads a process or thread id out of a directory name.
pub fn parse_dir_id(name: &str) -> (id: Option<u32>)
    ensures
        id == dir_id(name@),
{
    let chars = text::chars_of(name);
    match number::read_numeral(chars.as_slice(), 10, u32::MAX as u64) {
        Some(id) => Some(id as u32),
        None => None,
    }
}

// ---------------------------------------------------------------------------
// The whole scan
// ---------------------------------------------------------------------------

/// Socket holders by inode, with their texts as characters.
pub open spec fn holders(m: Map<u64, InodePidEntry>) -> Map<u64, InodePidEntryView> {
    m.map_values(|e: InodePidEntry| e@)
}

/// `known` with `owner` as the holder of every socket among the targets.
pub open spec fn held(
    targets: Seq<String>,
    owner: InodePidEntryView,
    known: Map<u64, InodePidEntryView>,
) -> Map<u64, InodePidEntryView>
    decreases targets.len(),
{
    if targets.len() == 0 {
        known
    } else {
        let before = held(targets.drop_last(), owner, known);
        match socket_inode(targets.last()@) {
            Some(inode) => before.insert(inode, owner),
            None => before,
        }
    }
}

/// The name a thread goes by: its own, or that of its process.
pub open spec fn thread_name(comm: Option<String>, process_name: Seq<char>) -> Seq<char> {
    match comm {
        Some(comm) => text::trimmed(comm@),
        None => process_name,
    }
}

/// `known` with the sockets of one thread. A directory whose name is no number
/// is no thread.
pub open spec fn held_by_task(
    task: TaskScan,
    pid: u32,
    process_name: Seq<char>,
    uid: u32,
    known: Map<u64, InodePidEntryView>,
) -> Map<u64, InodePidEntryView> {
    match dir_id(task.dir_name@) {
        Some(tid) => held(
            task.fd_targets@,
            InodePidEntryView {
                pid,
                tid,
                process_name,
                thread_name: thread_name(task.comm, process_name),
                uid,
            },
            known,
        ),
        None => known,
    }
}

/// `known` with the sockets of several threads of one process.
pub open spec fn held_by_tasks(
    tasks: Seq<TaskScan>,
    pid: u32,
    process_name: Seq<char>,
    uid: u32,
    known: Map<u64, InodePidEntryView>,
) -> Map<u64, InodePidEntryView>
    decreases tasks.len(),
{
    if tasks.len() == 0 {
        known
    } else {
        held_by_task(
            tasks.last(),
            pid,
            process_name,
            uid,
            held_by_tasks(tasks.drop_last(), pid, process_name, uid, known),
        )
    }
}

/// The user id that a status text gives, if it could be read.
pub open spec fn status_uid(status: Option<String>) -> Option<u32> {
    match status {
        Some(status) => uid_in_lines(text::lines(status@)),
        None => None,
    }
}

/// `known` with the sockets of one process. A directory whose name is no
/// number is no process, and a process without a readable name or user id is
/// left out. Where the threads cannot be listed, the open files of the process
/// itself count for its main thread.
pub open spec fn held_by_process(
    process: ProcessScan,
    known: Map<u64, InodePidEntryView>,
) -> Map<u64, InodePidEntryView> {
    match (dir_id(process.dir_name@), process.comm, status_uid(process.status)) {
        (Some(pid), Some(comm), Some(uid)) => {
            let name = text::trimmed(comm@);
            match process.tasks {
                Some(tasks) => held_by_tasks(tasks@, pid, name, uid, known),
                None => held(
                    process.fd_targets@,
                    InodePidEntryView {
                        pid,
                        tid: pid,
                        process_name: name,
                        thread_name: name,
                        uid,
                    },
                    known,
                ),
            }
        },
        _ => known,
    }
}

/// The sockets of all processes; a later holder replaces an earlier one.
pub open spec fn held_by_all(processes: Seq<ProcessScan>) -> Map<u64, InodePidEntryView>
    decreases processes.len(),
{
    if processes.len() == 0 {
        Map::empty()
    } else {
        held_by_process(processes.last(), held_by_all(processes.drop_last()))
    }
}

/// Enters the sockets of one directory of open files.
fn scan_fd_targets(
    targets: &Vec<String>,
    pid: u32,
    tid: u32,
    process_name: &str,
    thread_name: &str,
    uid: u32,
    inode_to_pid: &mut HashMap<u64, InodePidEntry>,
)
    ensures
        holders(final(inode_to_pid)@) == held(
            targets@,
            InodePidEntryView {
                pid,
                tid,
                process_name: process_name@,
                thread_name: thread_name@,
                uid,
            },
            holders(old(inode_to_pid)@),
        ),
{
    let ghost owner = InodePidEntryView {
        pid,
        tid,
        process_name: process_name@,
        thread_name: thread_name@,
        uid,
    };
    let ghost known = holders(inode_to_pid@);
    let mut i: usize = 0;
    assert(targets@.take(0) =~= Seq::empty());
    while i < targets.len()
        invariant
            i <= targets@.len(),
            owner == (InodePidEntryView {
                pid,
                tid,
                process_name: process_name@,
                thread_name: thread_name@,
                uid,
            }),
            holders(inode_to_pid@) == held(targets@.take(i as int), owner, known),
        decreases targets@.len() - i,
    {
        assert(targets@.take(i + 1).drop_last() =~= targets@.take(i as int));
        assert(targets@.take(i + 1).last() == targets@[i as int]);
        match parse_socket_inode(targets[i].as_str()) {
            Some(inode) => {
                let entry = InodePidEntry {
                    pid,
                    tid,
                    process_name: process_name.to_string(),
                    thread_name: thread_name.to_string(),
                    uid,
                };
                assert(entry@ == owner);
                assert(holders(inode_to_pid@.insert(inode, entry)) =~= holders(
                    inode_to_pid@,
                ).insert(inode, owner));
                inode_to_pid.insert(inode, entry);
            },
            None => {},
        }
        i += 1;
    }
    assert(targets@.take(targets@.len() as int) =~= targets@);
}

/// Enters the sockets of one thread.
fn scan_task(
    task: &TaskScan,
    pid: u32,
    process_name: &str,
    uid: u32,
    inode_to_pid: &mut HashMap<u64, InodePidEntry>,
)
    ensures
        holders(final(inode_to_pid)@) == held_by_task(
            *task,
            pid,
            process_name@,
            uid,
            holders(old(inode_to_pid)@),
        ),
{
    match parse_dir_id(task.dir_name.as_str()) {
        Some(tid) => {
            let name = match &task.comm {
                Some(comm) => read_comm(comm.as_str()),
                None => process_name.to_string(),
            };
            scan_fd_targets(
                &task.fd_targets,
                pid,
                tid,
                process_name,
                name.as_str(),
                uid,
                inode_to_pid,
            );
        },
        None => {},
    }
}

/// Enters the sockets of one process.
fn scan_process(process: &ProcessScan, inode_to_pid: &mut HashMap<u64, InodePidEntry>)
    ensures
        holders(final(inode_to_pid)@) == held_by_process(*process, holders(old(inode_to_pid)@)),
{
    let pid = match parse_dir_id(process.dir_name.as_str()) {
        Some(pid) => pid,
        None => {
            return;
        },
    };
    let process_name = match &process.comm {
        Some(comm) => read_comm(comm.as_str()),
        None => {
            return;
        },
    };
    let uid = match &process.status {
        Some(status) => match read_process_effective_uid(status.as_str()) {
            Some(uid) => uid,
            None => {
                return;
            },
        },
        None => {
            return;
        },
    };
    let tasks = match &process.tasks {
        Some(tasks) => tasks,
        None => {
            scan_fd_targets(
                &process.fd_targets,
                pid,
                pid,
                process_name.as_str(),
                process_name.as_str(),
                uid,
                inode_to_pid,
            );
            return;
        },
    };
    let ghost known = holders(inode_to_pid@);
    let mut i: usize = 0;
    assert(tasks@.take(0) =~= Seq::empty());
    while i < tasks.len()
        invariant
            i <= tasks@.len(),
            holders(inode_to_pid@) == held_by_tasks(
                tasks@.take(i as int),
                pid,
                process_name@,
                uid,
                known,
            ),
        decreases tasks@.len() - i,
    {
        assert(tasks@.take(i + 1).drop_last() =~= tasks@.take(i as int));
        assert(tasks@.take(i + 1).last() == tasks@[i as int]);
        scan_task(&tasks[i], pid, process_name.as_str(), uid, inode_to_pid);
        i += 1;
    }
    assert(tasks@.take(tasks@.len() as int) =~= tasks@);
}

/// Finds the holder of every socket that the processes have open.
pub fn build_inode_pid_map(processes: &Vec<ProcessScan>) -> (inode_to_pid: HashMap<
    u64,
    InodePidEntry,
>)
    ensures
        holders(inode_to_pid@) == held_by_all(processes@),
{
    let mut inode_to_pid: HashMap<u64, InodePidEntry> = HashMap::new();
    let mut i: usize = 0;
    assert(processes@.take(0) =~= Seq::empty());
    assert(holders(inode_to_pid@) =~= Map::empty());
    while i < processes.len()
        invariant
            i <= processes@.len(),
            holders(inode_to_pid@) == held_by_all(processes@.take(i as int)),
        decreases processes@.len() - i,
    {
        assert(processes@.take(i + 1).drop_last() =~= processes@.take(i as int));
        assert(processes@.take(i + 1).last() == processes@[i as int]);
        scan_process(&processes[i], &mut inode_to_pid);
        i += 1;
    }
    assert(processes@.take(processes@.len() as int) =~= processes@);
    inode_to_pid
}

/// The link target of a socket gives back the socket's inode.
pub proof fn socket_link_gives_inode(inode: u64)
    ensures
        socket_inode("socket:["@ + number::decimal(inode as nat) + "]"@) == Some(inode),
{
    reveal_strlit("socket:[");
    reveal_strlit("]");
    let digits = number::decimal(inode as nat);
    let target = "socket:["@ + digits + "]"@;
    assert(target.take(8) =~= "socket:["@);
    assert(target.skip(target.len() - 1) =~= "]"@);
    assert(target.subrange(8, target.len() - 1) =~= digits);
    number::lemma_decimal_read_back(inode as nat, u64::MAX as nat);
}

} // verus!
