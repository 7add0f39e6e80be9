//! Control actions as conversations: each names what it needs done next, takes
//! in how that went, and says in the end whether the action succeeded.

use std::collections::BTreeSet;
use std::collections::HashMap;

use vstd::prelude::*;

use crate::controller;
use crate::controller::ports;
use crate::controller::rules;
use crate::controller::{CommandOutcome, ScriptOutcome};
use crate::number;
use crate::text;

verus! {

broadcast use vstd::std_specs::hash::group_hash_axioms;

/// Number of socket tables that are read for the ports of a process.
pub const PORT_TABLES: usize = 4;

// ---------------------------------------------------------------------------
// The book of rules
// ---------------------------------------------------------------------------

/// The handles of the rules in place, by process.
#[derive(Debug)]
pub struct RuleBook {
    rules: HashMap<u32, Vec<u64>>,
}

impl View for RuleBook {
    type V = Map<u32, Seq<u64>>;

    closed spec fn view(&self) -> Map<u32, Seq<u64>> {
        self.rules@.map_values(|handles: Vec<u64>| handles@)
    }
}

impl RuleBook {
    /// A book without rules.
    pub fn new() -> (book: RuleBook)
        ensures
            book@ == Map::<u32, Seq<u64>>::empty(),
    {
        let book = RuleBook { rules: HashMap::new() };
        assert(book@ =~= Map::<u32, Seq<u64>>::empty());
        book
    }

    /// The handles in the book for a process.
    pub fn handles(&self, pid: u32) -> (handles: Option<&Vec<u64>>)
        ensures
            match handles {
                Some(handles) => self@.contains_key(pid) && handles@ == self@[pid],
                None => !self@.contains_key(pid),
            },
    {
        self.rules.get(&pid)
    }

    /// Takes the handles of a process out of the book.
    fn take(&mut self, pid: u32) -> (handles: Vec<u64>)
        ensures
            handles@ == booked(old(self)@, pid),
            final(self)@ == old(self)@.remove(pid),
    {
        let ghost before = self@;
        let found = self.rules.remove(&pid);
        assert(self@ =~= before.remove(pid));
        match found {
            Some(handles) => handles,
            None => Vec::new(),
        }
    }

    /// Enters the handles of a process.
    fn enter(&mut self, pid: u32, handles: Vec<u64>)
        ensures
            final(self)@ == old(self)@.insert(pid, handles@),
    {
        let ghost before = self@;
        let ghost entered = handles@;
        self.rules.insert(pid, handles);
        assert(self@ =~= before.insert(pid, entered));
    }

    /// Empties the book.
    fn clear(&mut self)
        ensures
            final(self)@ == Map::<u32, Seq<u64>>::empty(),
    {
        self.rules.clear();
        assert(self@ =~= Map::<u32, Seq<u64>>::empty());
    }
}

/// The handles in the book for a process; none if it is not there.
pub open spec fn booked(book: Map<u32, Seq<u64>>, pid: u32) -> Seq<u64> {
    if book.contains_key(pid) {
        book[pid]
    } else {
        Seq::empty()
    }
}

// ---------------------------------------------------------------------------
// Sessions
// ---------------------------------------------------------------------------

/// What a session is for.
#[derive(Clone, Copy, Debug, PartialEq, Eq, Structural)]
pub enum Goal {
    Setup,
    Block,
    Unblock,
    UnblockAll,
    /// Delete the rules that are made here and leave all others in place.
    Release,
}

/// Where a session stands.
#[derive(Debug)]
enum Step {
    AddTable,
    AddChain,
    ListTracked,
    Delete { handles: Vec<u64>, at: usize },
    ReadPorts { table: usize, tcp: BTreeSet<u16>, udp: BTreeSet<u16> },
    InsertRules { script: String },
    ListInserted,
    Flush,
    Done { result: Result<(), String> },
}

/// Where a session stands, as a mathematical value.
#[verifier::ext_equal]
pub enum StepView {
    /// Create the table.
    AddTable,
    /// Create the chain.
    AddChain,
    /// List the chain to find the rules to be deleted.
    ListTracked,
    /// Delete the rule with the handle at position `at`.
    Delete { handles: Seq<u64>, at: int },
    /// Read the socket table at position `table`; the ports found so far.
    ReadPorts { table: int, tcp: Set<u16>, udp: Set<u16> },
    /// Insert the rules.
    InsertRules { script: Seq<char> },
    /// List the chain to find the handles of the inserted rules.
    ListInserted,
    /// Empty the chain.
    Flush,
    /// Nothing is left to be done.
    Done { result: Result<(), Seq<char>> },
}

/// A control action under way.
#[derive(Debug)]
pub struct Session {
    goal: Goal,
    pid: u32,
    name: String,
    step: Step,
}

/// A [`Session`] as a mathematical value.
#[verifier::ext_equal]
pub struct SessionView {
    pub goal: Goal,
    pub pid: u32,
    pub name: Seq<char>,
    pub step: StepView,
}

/// What a session needs done next.
#[derive(Debug)]
pub enum Request {
    /// Run `nft` with these arguments.
    Command(Vec<String>),
    /// Run `nft` on this script.
    Script(String),
    /// Read this file.
    ReadFile(String),
    /// Nothing: the session has ended.
    Finished(Result<(), String>),
}

/// A [`Request`] with its texts as characters.
#[verifier::ext_equal]
pub enum RequestView {
    Command(Seq<Seq<char>>),
    Script(Seq<char>),
    ReadFile(Seq<char>),
    Finished(Result<(), Seq<char>>),
}

impl View for Request {
    type V = RequestView;

    open spec fn view(&self) -> RequestView {
        match *self {
            Request::Command(args) => RequestView::Command(text::string_texts(args@)),
            Request::Script(script) => RequestView::Script(script@),
            Request::ReadFile(path) => RequestView::ReadFile(path@),
            Request::Finished(result) => RequestView::Finished(result_view(result)),
        }
    }
}

/// How a request went.
#[derive(Debug)]
pub enum Reply {
    Command(CommandOutcome),
    Script(ScriptOutcome),
    /// The text of the file, if it could be read.
    File(Option<String>),
}

/// A result with its text as characters.
pub open spec fn result_view(result: Result<(), String>) -> Result<(), Seq<char>> {
    match result {
        Ok(()) => Ok(()),
        Err(reason) => Err(reason@),
    }
}

/// The step as a mathematical value.
spec fn step_view(step: Step) -> StepView {
    match step {
        Step::AddTable => StepView::AddTable,
        Step::AddChain => StepView::AddChain,
        Step::ListTracked => StepView::ListTracked,
        Step::Delete { handles, at } => StepView::Delete { handles: handles@, at: at as int },
        Step::ReadPorts { table, tcp, udp } => StepView::ReadPorts {
            table: table as int,
            tcp: tcp@,
            udp: udp@,
        },
        Step::InsertRules { script } => StepView::InsertRules { script: script@ },
        Step::ListInserted => StepView::ListInserted,
        Step::Flush => StepView::Flush,
        Step::Done { result } => StepView::Done { result: result_view(result) },
    }
}

impl View for Session {
    type V = SessionView;

    closed spec fn view(&self) -> SessionView {
        SessionView {
            goal: self.goal,
            pid: self.pid,
            name: self.name@,
            step: step_view(self.step),
        }
    }
}

/// The positions that a step holds lie in their ranges.
pub open spec fn step_sound(step: StepView) -> bool {
    match step {
        StepView::Delete { handles, at } => 0 <= at < handles.len(),
        StepView::ReadPorts { table, .. } => 0 <= table < PORT_TABLES,
        _ => true,
    }
}

/// The name of the socket table at a position. The first two are for TCP, the
/// others for UDP.
pub open spec fn port_table(table: int) -> Seq<char> {
    if table == 0 {
        "tcp"@
    } else if table == 1 {
        "tcp6"@
    } else if table == 2 {
        "udp"@
    } else {
        "udp6"@
    }
}

/// The path of a socket table of a process.
pub open spec fn port_table_path(pid: u32, table: int) -> Seq<char> {
    "/proc/"@ + number::decimal(pid as nat) + "/net/"@ + port_table(table)
}

/// What a session needs done next.
pub open spec fn request_of(session: SessionView) -> RequestView {
    match session.step {
        StepView::AddTable => RequestView::Command(rules::add_table_args()),
        StepView::AddChain => RequestView::Command(rules::add_chain_args()),
        StepView::ListTracked => RequestView::Command(rules::list_handles_args()),
        StepView::Delete { handles, at } => RequestView::Command(rules::delete_args(handles[at])),
        StepView::ReadPorts { table, .. } => RequestView::ReadFile(
            port_table_path(session.pid, table),
        ),
        StepView::InsertRules { script } => RequestView::Script(script),
        StepView::ListInserted => RequestView::Command(rules::list_handles_args()),
        StepView::Flush => RequestView::Command(rules::flush_args()),
        StepView::Done { result } => RequestView::Finished(result),
    }
}

/// The reply is of the kind that the session waits for.
pub open spec fn reply_fits(session: SessionView, reply: Reply) -> bool {
    match (request_of(session), reply) {
        (RequestView::Command(_), Reply::Command(_)) => true,
        (RequestView::Script(_), Reply::Script(_)) => true,
        (RequestView::ReadFile(_), Reply::File(_)) => true,
        _ => false,
    }
}

/// A session at another step.
pub open spec fn at_step(session: SessionView, step: StepView) -> SessionView {
    SessionView { step, ..session }
}

/// A session that has ended.
pub open spec fn ended(session: SessionView, result: Result<(), Seq<char>>) -> SessionView {
    at_step(session, StepView::Done { result })
}

/// The first step of removing a process's rules: the handles in the book are
/// deleted; without any, the chain is listed.
pub open spec fn removal_step(handles: Seq<u64>) -> StepView {
    if handles.len() == 0 {
        StepView::ListTracked
    } else {
        StepView::Delete { handles, at: 0 }
    }
}

/// What follows the setup of table and chain: a session that blocks goes on
/// with removing old rules, however the setup went.
pub open spec fn after_setup(
    session: SessionView,
    result: Result<(), Seq<char>>,
    book: Map<u32, Seq<u64>>,
) -> (SessionView, Map<u32, Seq<u64>>) {
    if session.goal == Goal::Block {
        (at_step(session, removal_step(booked(book, session.pid))), book.remove(session.pid))
    } else {
        (ended(session, result), book)
    }
}

/// What follows the removal of old rules: a session that blocks goes on with
/// looking for ports, however the removal went. Once all own rules are gone,
/// the book is empty.
pub open spec fn after_removal(
    session: SessionView,
    result: Result<(), Seq<char>>,
    book: Map<u32, Seq<u64>>,
) -> (SessionView, Map<u32, Seq<u64>>) {
    if session.goal == Goal::Block {
        (
            at_step(
                session,
                StepView::ReadPorts { table: 0, tcp: Set::empty(), udp: Set::empty() },
            ),
            book,
        )
    } else if session.goal == Goal::Release && result is Ok {
        (ended(session, result), Map::empty())
    } else {
        (ended(session, result), book)
    }
}

/// The handles of the rules that a session is to delete, as a listing gives
/// them.
pub open spec fn handles_to_delete(session: SessionView, outcome: CommandOutcome) -> Result<
    Seq<u64>,
    Seq<char>,
> {
    if session.goal == Goal::Release {
        controller::own_handles_result(outcome)
    } else {
        controller::handles_result(outcome, session.pid)
    }
}

/// What follows the last socket table.
pub open spec fn after_ports(session: SessionView, tcp: Set<u16>, udp: Set<u16>) -> SessionView {
    if tcp == Set::<u16>::empty() && udp == Set::<u16>::empty() {
        ended(
            session,
            Err("No TCP/UDP ports found for PID "@ + number::decimal(session.pid as nat)),
        )
    } else {
        at_step(
            session,
            StepView::InsertRules {
                script: rules::block_ruleset(
                    tcp,
                    udp,
                    rules::rule_comment(session.pid, session.name),
                ),
            },
        )
    }
}

/// What a reply makes of a session and of the book.
pub open spec fn advanced(
    session: SessionView,
    reply: Reply,
    book: Map<u32, Seq<u64>>,
) -> (SessionView, Map<u32, Seq<u64>>) {
    match (session.step, reply) {
        (StepView::AddTable, Reply::Command(outcome)) => match controller::command_result(
            outcome,
            true,
        ) {
            Ok(()) => (at_step(session, StepView::AddChain), book),
            Err(reason) => after_setup(session, Err(reason), book),
        },
        (StepView::AddChain, Reply::Command(outcome)) => after_setup(
            session,
            controller::command_result(outcome, true),
            book,
        ),
        (StepView::ListTracked, Reply::Command(outcome)) => match handles_to_delete(
            session,
            outcome,
        ) {
            Ok(handles) => if handles.len() == 0 {
                after_removal(session, Ok(()), book)
            } else {
                (at_step(session, StepView::Delete { handles, at: 0 }), book)
            },
            Err(reason) => after_removal(session, Err(reason), book),
        },
        (
            StepView::Delete { handles, at },
            Reply::Command(outcome),
        ) => match controller::command_result(outcome, false) {
            Ok(()) => if at + 1 < handles.len() {
                (at_step(session, StepView::Delete { handles, at: at + 1 }), book)
            } else {
                after_removal(session, Ok(()), book)
            },
            Err(reason) => after_removal(session, Err(reason), book),
        },
        (StepView::ReadPorts { table, tcp, udp }, Reply::File(content)) => {
            let found = ports::table_ports(content);
            let tcp = if table < 2 {
                tcp.union(found)
            } else {
                tcp
            };
            let udp = if table < 2 {
                udp
            } else {
                udp.union(found)
            };
            if table + 1 < PORT_TABLES {
                (at_step(session, StepView::ReadPorts { table: table + 1, tcp, udp }), book)
            } else {
                (after_ports(session, tcp, udp), book)
            }
        },
        (StepView::InsertRules { .. }, Reply::Script(outcome)) => match controller::script_result(
            outcome,
        ) {
            Ok(()) => (at_step(session, StepView::ListInserted), book),
            Err(reason) => (ended(session, Err(reason)), book),
        },
        (StepView::ListInserted, Reply::Command(outcome)) => match controller::handles_result(
            outcome,
            session.pid,
        ) {
            Ok(handles) => if handles.len() == 0 {
                (ended(session, Err("Inserted rules but could not find nft handles"@)), book)
            } else {
                (ended(session, Ok(())), book.insert(session.pid, handles))
            },
            Err(reason) => (ended(session, Err(reason)), book),
        },
        (StepView::Flush, Reply::Command(outcome)) => match controller::command_result(
            outcome,
            false,
        ) {
            Ok(()) => (ended(session, Ok(())), Map::empty()),
            Err(reason) => (ended(session, Err(reason)), book),
        },
        _ => (session, book),
    }
}

/// Begins the creation of table and chain.
pub fn setup_nftables() -> (session: Session)
    ensures
        session.well_formed(),
        session@ == (SessionView {
            goal: Goal::Setup,
            pid: 0,
            name: Seq::empty(),
            step: StepView::AddTable,
        }),
{
    let session = Session { goal: Goal::Setup, pid: 0, name: String::new(), step: Step::AddTable };
    assert(session@.name =~= Seq::empty());
    session
}

/// Begins the blocking of a process.
pub fn block_process(pid: u32, process_name: &str) -> (session: Session)
    ensures
        session.well_formed(),
        session@ == (SessionView {
            goal: Goal::Block,
            pid,
            name: process_name@,
            step: StepView::AddTable,
        }),
{
    Session { goal: Goal::Block, pid, name: process_name.to_string(), step: Step::AddTable }
}

/// Begins the removal of a process's rules. They leave the book at once.
pub fn unblock_process(pid: u32, book: &mut RuleBook) -> (session: Session)
    ensures
        session.well_formed(),
        session@ == (SessionView {
            goal: Goal::Unblock,
            pid,
            name: Seq::empty(),
            step: removal_step(booked(old(book)@, pid)),
        }),
        final(book)@ == old(book)@.remove(pid),
{
    let step = begin_removal(pid, book);
    let session = Session { goal: Goal::Unblock, pid, name: String::new(), step };
    assert(session@.name =~= Seq::empty());
    session
}

/// Begins the removal of all rules.
pub fn unblock_all() -> (session: Session)
    ensures
        session.well_formed(),
        session@ == (SessionView {
            goal: Goal::UnblockAll,
            pid: 0,
            name: Seq::empty(),
            step: StepView::Flush,
        }),
{
    let session = Session {
        goal: Goal::UnblockAll,
        pid: 0,
        name: String::new(),
        step: Step::Flush,
    };
    assert(session@.name =~= Seq::empty());
    session
}

/// Begins the removal of the rules that are made here, whatever process they
/// are for. All other rules of the chain stay.
pub fn release_rules() -> (session: Session)
    ensures
        session.well_formed(),
        session@ == (SessionView {
            goal: Goal::Release,
            pid: 0,
            name: Seq::empty(),
            step: StepView::ListTracked,
        }),
{
    let session = Session {
        goal: Goal::Release,
        pid: 0,
        name: String::new(),
        step: Step::ListTracked,
    };
    assert(session@.name =~= Seq::empty());
    session
}

/// Takes a process's handles out of the book, to be deleted.
fn begin_removal(pid: u32, book: &mut RuleBook) -> (step: Step)
    ensures
        step_view(step) == removal_step(booked(old(book)@, pid)),
        final(book)@ == old(book)@.remove(pid),
{
    let handles = book.take(pid);
    if handles.len() == 0 {
        Step::ListTracked
    } else {
        Step::Delete { handles, at: 0 }
    }
}

/// Writes the path of a socket table of a process.
fn build_port_table_path(pid: u32, table: usize) -> (path: String)
    requires
        table < PORT_TABLES,
    ensures
        path@ == port_table_path(pid, table as int),
{
    let name = match table {
        0 => "tcp",
        1 => "tcp6",
        2 => "udp",
        _ => "udp6",
    };
    let mut path = "/proc/".to_string();
    number::push_decimal(&mut path, pid as u64);
    path.append("/net/");
    path.append(name);
    path
}

/// A second copy of a result.
fn copy_result(result: &Result<(), String>) -> (copy: Result<(), String>)
    ensures
        result_view(copy) == result_view(*result),
{
    match result {
        Ok(()) => Ok(()),
        Err(reason) => Err(reason.clone()),
    }
}

impl Session {
    /// The positions that the session holds lie in their ranges.
    pub closed spec fn well_formed(&self) -> bool {
        step_sound(self@.step)
    }

    /// What the session needs done next.
    pub fn request(&self) -> (request: Request)
        requires
            self.well_formed(),
        ensures
            request@ == request_of(self@),
    {
        match &self.step {
            Step::AddTable => Request::Command(rules::add_table_command()),
            Step::AddChain => Request::Command(rules::add_chain_command()),
            Step::ListTracked => Request::Command(rules::list_handles_command()),
            Step::Delete { handles, at } => Request::Command(rules::delete_command(handles[*at])),
            Step::ReadPorts { table, .. } => Request::ReadFile(
                build_port_table_path(self.pid, *table),
            ),
            Step::InsertRules { script } => Request::Script(script.clone()),
            Step::ListInserted => Request::Command(rules::list_handles_command()),
            Step::Flush => Request::Command(rules::flush_command()),
            Step::Done { result } => Request::Finished(copy_result(result)),
        }
    }

    /// The step after the setup of table and chain.
    fn step_after_setup(&self, result: Result<(), String>, book: &mut RuleBook) -> (step: Step)
        ensures
            ({
                let (session, rules) = after_setup(self@, result_view(result), old(book)@);
                &&& session == at_step(self@, step_view(step))
                &&& final(book)@ == rules
            }),
    {
        if self.goal == Goal::Block {
            begin_removal(self.pid, book)
        } else {
            Step::Done { result }
        }
    }

    /// The step after the removal of old rules.
    fn step_after_removal(&self, result: Result<(), String>, book: &mut RuleBook) -> (step: Step)
        ensures
            ({
                let (session, rules) = after_removal(self@, result_view(result), old(book)@);
                &&& session == at_step(self@, step_view(step))
                &&& final(book)@ == rules
            }),
    {
        if self.goal == Goal::Block {
            return Step::ReadPorts { table: 0, tcp: BTreeSet::new(), udp: BTreeSet::new() };
        }
        if self.goal == Goal::Release && result.is_ok() {
            book.clear();
        }
        Step::Done { result }
    }

    /// The step after the last socket table.
    fn step_after_ports(&self, tcp: &BTreeSet<u16>, udp: &BTreeSet<u16>) -> (step: Step)
        ensures
            after_ports(self@, tcp@, udp@) == at_step(self@, step_view(step)),
    {
        if ports::no_ports(tcp) && ports::no_ports(udp) {
            let mut reason = "No TCP/UDP ports found for PID ".to_string();
            number::push_decimal(&mut reason, self.pid as u64);
            return Step::Done { result: Err(reason) };
        }
        let comment = rules::build_rule_comment(self.pid, self.name.as_str());
        Step::InsertRules { script: rules::build_block_ruleset(tcp, udp, comment.as_str()) }
    }

    /// The step after one socket table.
    fn step_after_table(
        &self,
        table: usize,
        tcp: BTreeSet<u16>,
        udp: BTreeSet<u16>,
        content: &Option<String>,
    ) -> (step: Step)
        requires
            table < PORT_TABLES,
        ensures
            step_sound(step_view(step)),
            advanced(
                at_step(
                    self@,
                    StepView::ReadPorts { table: table as int, tcp: tcp@, udp: udp@ },
                ),
                Reply::File(*content),
                Map::empty(),
            ).0 == at_step(self@, step_view(step)),
    {
        let mut tcp = tcp;
        let mut udp = udp;
        if table < 2 {
            ports::collect_table_ports(content, &mut tcp);
        } else {
            ports::collect_table_ports(content, &mut udp);
        }
        if table + 1 < PORT_TABLES {
            Step::ReadPorts { table: table + 1, tcp, udp }
        } else {
            self.step_after_ports(&tcp, &udp)
        }
    }

    /// The step after a listing that looks for rules to be deleted.
    fn step_after_listing(&self, outcome: &CommandOutcome, book: &mut RuleBook) -> (step: Step)
        ensures
            step_sound(step_view(step)),
            ({
                let (session, rules) = advanced(
                    at_step(self@, StepView::ListTracked),
                    Reply::Command(*outcome),
                    old(book)@,
                );
                &&& session == at_step(self@, step_view(step))
                &&& final(book)@ == rules
            }),
    {
        let found = if self.goal == Goal::Release {
            controller::find_own_rule_handles(outcome)
        } else {
            controller::find_rule_handles_for_pid(outcome, self.pid)
        };
        match found {
            Ok(handles) => {
                if handles.len() == 0 {
                    self.step_after_removal(Ok(()), book)
                } else {
                    Step::Delete { handles, at: 0 }
                }
            },
            Err(reason) => self.step_after_removal(Err(reason), book),
        }
    }

    /// The step after the listing that looks for the inserted rules.
    fn step_after_insertion(&self, outcome: &CommandOutcome, book: &mut RuleBook) -> (step: Step)
        ensures
            ({
                let (session, rules) = advanced(
                    at_step(self@, StepView::ListInserted),
                    Reply::Command(*outcome),
                    old(book)@,
                );
                &&& session == at_step(self@, step_view(step))
                &&& final(book)@ == rules
            }),
    {
        match controller::find_rule_handles_for_pid(outcome, self.pid) {
            Ok(handles) => {
                if handles.len() == 0 {
                    return Step::Done {
                        result: Err("Inserted rules but could not find nft handles".to_string()),
                    };
                }
                book.enter(self.pid, handles);
                Step::Done { result: Ok(()) }
            },
            Err(reason) => Step::Done { result: Err(reason) },
        }
    }

    /// Takes in how the request went. A reply to another kind of request changes
    /// nothing.
    pub fn advance(self, reply: &Reply, book: &mut RuleBook) -> (next: Session)
        requires
            self.well_formed(),
        ensures
            next.well_formed(),
            next@ == advanced(self@, *reply, old(book)@).0,
            final(book)@ == advanced(self@, *reply, old(book)@).1,
    {
        let mut session = self;
        let mut step = Step::Flush;
        std::mem::swap(&mut session.step, &mut step);
        let next = match (step, reply) {
            (Step::AddTable, Reply::Command(outcome)) => match controller::judge_nft_command(
                outcome,
                true,
            ) {
                Ok(()) => Step::AddChain,
                Err(reason) => session.step_after_setup(Err(reason), book),
            },
            (Step::AddChain, Reply::Command(outcome)) => {
                let result = controller::judge_nft_command(outcome, true);
                session.step_after_setup(result, book)
            },
            (Step::ListTracked, Reply::Command(outcome)) => session.step_after_listing(
                outcome,
                book,
            ),
            (
                Step::Delete { handles, at },
                Reply::Command(outcome),
            ) => match controller::judge_nft_command(outcome, false) {
                Ok(()) => {
                    let count: usize = handles.len();
                    if at + 1 < count {
                        Step::Delete { handles, at: at + 1 }
                    } else {
                        session.step_after_removal(Ok(()), book)
                    }
                },
                Err(reason) => session.step_after_removal(Err(reason), book),
            },
            (Step::ReadPorts { table, tcp, udp }, Reply::File(content)) => session.step_after_table(
                table,
                tcp,
                udp,
                content,
            ),
            (Step::InsertRules { .. }, Reply::Script(outcome)) => match controller::judge_nft_script(
                outcome,
            ) {
                Ok(()) => Step::ListInserted,
                Err(reason) => Step::Done { result: Err(reason) },
            },
            (Step::ListInserted, Reply::Command(outcome)) => session.step_after_insertion(
                outcome,
                book,
            ),
            (Step::Flush, Reply::Command(outcome)) => match controller::judge_nft_command(
                outcome,
                false,
            ) {
                Ok(()) => {
                    book.clear();
                    Step::Done { result: Ok(()) }
                },
                Err(reason) => Step::Done { result: Err(reason) },
            },
            (step, _) => step,
        };
        session.step = next;
        session
    }
}

// ---------------------------------------------------------------------------
// Laws
// ---------------------------------------------------------------------------

/// How many kinds of step a session still has before it at most.
pub open spec fn phases_left(step: StepView) -> nat {
    match step {
        StepView::AddTable => 7,
        StepView::AddChain => 6,
        StepView::ListTracked => 5,
        StepView::Delete { .. } => 4,
        StepView::ReadPorts { .. } => 3,
        StepView::InsertRules { .. } => 2,
        StepView::ListInserted => 1,
        StepView::Flush => 1,
        StepView::Done { .. } => 0,
    }
}

/// How many steps of its kind a step still has before it.
pub open spec fn steps_left(step: StepView) -> int {
    match step {
        StepView::Delete { handles, at } => handles.len() - at,
        StepView::ReadPorts { table, .. } => PORT_TABLES - table,
        _ => 0,
    }
}

/// Every reply brings a session closer to its end, so every session ends.
pub proof fn sessions_make_progress(session: SessionView, reply: Reply, book: Map<u32, Seq<u64>>)
    requires
        step_sound(session.step),
        reply_fits(session, reply),
    ensures
        ({
            let next = advanced(session, reply, book).0.step;
            &&& step_sound(next)
            &&& 0 <= steps_left(next)
            &&& {
                ||| phases_left(next) < phases_left(session.step)
                ||| phases_left(next) == phases_left(session.step) && steps_left(next)
                    < steps_left(session.step)
            }
        }),
{
}

/// The session has taken the process's rules out of the book and has not
/// entered new ones.
pub open spec fn between_rules(session: SessionView) -> bool {
    match session.step {
        StepView::ListTracked => true,
        StepView::Delete { .. } => true,
        StepView::ReadPorts { .. } => true,
        StepView::InsertRules { .. } => true,
        StepView::ListInserted => true,
        _ => false,
    }
}

/// The book agrees with the session: while old rules are being removed and new
/// ones are being made the process is not in it, after a failed block it is
/// not in it either, and after a successful one it is, with at least one rule.
pub open spec fn book_agrees(session: SessionView, book: Map<u32, Seq<u64>>) -> bool {
    &&& between_rules(session) ==> !book.contains_key(session.pid)
    &&& session.goal == Goal::Block ==> match session.step {
        StepView::Done { result } => match result {
            Ok(()) => book.contains_key(session.pid) && book[session.pid].len() > 0,
            Err(_) => !book.contains_key(session.pid),
        },
        StepView::Flush => false,
        _ => true,
    }
    &&& session.goal == Goal::Unblock ==> match session.step {
        StepView::Done { .. } => !book.contains_key(session.pid),
        StepView::ListTracked => true,
        StepView::Delete { .. } => true,
        _ => false,
    }
}

/// A session that the book agrees with is one that the book agrees with after
/// every reply.
pub proof fn the_book_keeps_agreeing(session: SessionView, reply: Reply, book: Map<u32, Seq<u64>>)
    requires
        step_sound(session.step),
        book_agrees(session, book),
    ensures
        ({
            let (next, after) = advanced(session, reply, book);
            book_agrees(next, after)
        }),
{
}

/// The book agrees with a session that begins.
pub proof fn the_book_agrees_at_the_start(pid: u32, name: Seq<char>, book: Map<u32, Seq<u64>>)
    ensures
        book_agrees(
            SessionView { goal: Goal::Block, pid, name, step: StepView::AddTable },
            book,
        ),
        book_agrees(
            SessionView {
                goal: Goal::Unblock,
                pid,
                name,
                step: removal_step(booked(book, pid)),
            },
            book.remove(pid),
        ),
{
}

/// A session for one process leaves what the book says of other processes as
/// it is.
pub proof fn sessions_touch_one_process(
    session: SessionView,
    reply: Reply,
    book: Map<u32, Seq<u64>>,
)
    requires
        session.step !is Flush,
        session.goal != Goal::Release,
    ensures
        advanced(session, reply, book).1.remove(session.pid) == book.remove(session.pid),
        advanced(session, reply, book).0.pid == session.pid,
        advanced(session, reply, book).0.goal == session.goal,
{
    assert(advanced(session, reply, book).1.remove(session.pid) =~= book.remove(session.pid));
}

/// Setting up only creates: it asks for the table and for the chain to be
/// added and for nothing else, and leaves the book as it is.
pub proof fn setup_only_creates(session: SessionView, reply: Reply, book: Map<u32, Seq<u64>>)
    requires
        session.goal == Goal::Setup,
        session.step is AddTable || session.step is AddChain || session.step is Done,
    ensures
        ({
            let (next, after) = advanced(session, reply, book);
            &&& next.goal == Goal::Setup
            &&& next.step is AddTable || next.step is AddChain || next.step is Done
            &&& after == book
            &&& match request_of(session) {
                RequestView::Command(args) => args == rules::add_table_args() || args
                    == rules::add_chain_args(),
                RequestView::Finished(_) => true,
                _ => false,
            }
        }),
{
}

/// What replies make of a session and of the book, one after the other.
pub open spec fn run(
    session: SessionView,
    replies: Seq<Reply>,
    book: Map<u32, Seq<u64>>,
) -> (SessionView, Map<u32, Seq<u64>>)
    decreases replies.len(),
{
    if replies.len() == 0 {
        (session, book)
    } else {
        let (next, after) = advanced(session, replies.first(), book);
        run(next, replies.drop_first(), after)
    }
}

/// The reply tells of a command that succeeded.
pub open spec fn command_succeeded(reply: Reply) -> bool {
    match reply {
        Reply::Command(CommandOutcome::Exited { success, .. }) => success,
        _ => false,
    }
}

/// A session that deletes rules asks for the deletion of one handle after the
/// other, each exactly once and in order, as long as the commands succeed.
pub proof fn handles_are_deleted_in_order(
    session: SessionView,
    handles: Seq<u64>,
    replies: Seq<Reply>,
    book: Map<u32, Seq<u64>>,
)
    requires
        session.step == (StepView::Delete { handles, at: 0 }),
        replies.len() < handles.len(),
        forall|i: int| 0 <= i < replies.len() ==> command_succeeded(#[trigger] replies[i]),
    ensures
        run(session, replies, book) == (
            at_step(session, StepView::Delete { handles, at: replies.len() as int }),
            book,
        ),
        request_of(run(session, replies, book).0) == RequestView::Command(
            rules::delete_args(handles[replies.len() as int]),
        ),
{
    lemma_deletions(session, handles, 0, replies, book);
}

proof fn lemma_deletions(
    session: SessionView,
    handles: Seq<u64>,
    from: int,
    replies: Seq<Reply>,
    book: Map<u32, Seq<u64>>,
)
    requires
        0 <= from,
        session.step == (StepView::Delete { handles, at: from }),
        from + replies.len() < handles.len(),
        forall|i: int| 0 <= i < replies.len() ==> command_succeeded(#[trigger] replies[i]),
    ensures
        run(session, replies, book) == (
            at_step(session, StepView::Delete { handles, at: from + replies.len() }),
            book,
        ),
    decreases replies.len(),
{
    if replies.len() > 0 {
        assert(command_succeeded(replies[0]));
        let next = at_step(session, StepView::Delete { handles, at: from + 1 });
        assert(advanced(session, replies.first(), book) == (next, book));
        let rest = replies.drop_first();
        assert forall|i: int| 0 <= i < rest.len() implies command_succeeded(#[trigger] rest[i]) by {
            assert(rest[i] == replies[i + 1]);
        }
        lemma_deletions(next, handles, from + 1, rest, book);
    }
}

/// A block can be undone: unblocking a process with rules in the book deletes
/// exactly these rules and succeeds, if the commands succeed, and the process
/// is no longer in the book.
pub proof fn unblocking_undoes_a_block(
    pid: u32,
    replies: Seq<Reply>,
    book: Map<u32, Seq<u64>>,
)
    requires
        book.contains_key(pid),
        book[pid].len() > 0,
        replies.len() == book[pid].len(),
        forall|i: int| 0 <= i < replies.len() ==> command_succeeded(#[trigger] replies[i]),
    ensures
        ({
            let session = SessionView {
                goal: Goal::Unblock,
                pid,
                name: Seq::empty(),
                step: removal_step(booked(book, pid)),
            };
            &&& forall|n: int|
                0 <= n < replies.len() ==> request_of(
                    run(session, #[trigger] replies.take(n), book.remove(pid)).0,
                ) == RequestView::Command(rules::delete_args(book[pid][n]))
            &&& run(session, replies, book.remove(pid)) == (
                ended(session, Ok(())),
                book.remove(pid),
            )
        }),
{
    let handles = book[pid];
    let rest = book.remove(pid);
    let session = SessionView {
        goal: Goal::Unblock,
        pid,
        name: Seq::empty(),
        step: removal_step(booked(book, pid)),
    };
    assert forall|n: int| 0 <= n < replies.len() implies request_of(
        run(session, #[trigger] replies.take(n), rest).0,
    ) == RequestView::Command(rules::delete_args(book[pid][n])) by {
        assert forall|i: int| 0 <= i < n implies command_succeeded(
            #[trigger] replies.take(n)[i],
        ) by {
            assert(replies.take(n)[i] == replies[i]);
        }
        handles_are_deleted_in_order(session, handles, replies.take(n), rest);
    }
    let last = replies.len() - 1;
    let first = replies.take(last);
    assert forall|i: int| 0 <= i < first.len() implies command_succeeded(#[trigger] first[i]) by {
        assert(first[i] == replies[i]);
    }
    handles_are_deleted_in_order(session, handles, first, rest);
    assert(command_succeeded(replies[last]));
    lemma_run_last(session, replies, rest);
    assert(replies.drop_last() =~= first);
}

/// Releasing removes every rule that is made here and no other one: as long as
/// the commands succeed, the session asks for the deletion of exactly the own
/// rules that the chain lists, one after the other, and ends in success with an
/// empty book.
pub proof fn releasing_removes_own_rules(
    listing: CommandOutcome,
    handles: Seq<u64>,
    replies: Seq<Reply>,
    book: Map<u32, Seq<u64>>,
)
    requires
        controller::own_handles_result(listing) == Ok::<Seq<u64>, Seq<char>>(handles),
        replies.len() == handles.len(),
        forall|i: int| 0 <= i < replies.len() ==> command_succeeded(#[trigger] replies[i]),
    ensures
        ({
            let session = SessionView {
                goal: Goal::Release,
                pid: 0,
                name: Seq::empty(),
                step: StepView::ListTracked,
            };
            let (listed, after) = advanced(session, Reply::Command(listing), book);
            &&& request_of(session) == RequestView::Command(rules::list_handles_args())
            &&& forall|n: int|
                0 <= n < replies.len() ==> request_of(
                    run(listed, #[trigger] replies.take(n), after).0,
                ) == RequestView::Command(rules::delete_args(handles[n]))
            &&& run(listed, replies, after) == (
                ended(session, Ok(())),
                Map::<u32, Seq<u64>>::empty(),
            )
        }),
{
    let session = SessionView {
        goal: Goal::Release,
        pid: 0,
        name: Seq::empty(),
        step: StepView::ListTracked,
    };
    let (listed, after) = advanced(session, Reply::Command(listing), book);
    if handles.len() > 0 {
        assert forall|n: int| 0 <= n < replies.len() implies request_of(
            run(listed, #[trigger] replies.take(n), after).0,
        ) == RequestView::Command(rules::delete_args(handles[n])) by {
            assert forall|i: int| 0 <= i < n implies command_succeeded(
                #[trigger] replies.take(n)[i],
            ) by {
                assert(replies.take(n)[i] == replies[i]);
            }
            handles_are_deleted_in_order(listed, handles, replies.take(n), after);
        }
        let last = replies.len() - 1;
        let first = replies.take(last);
        assert forall|i: int| 0 <= i < first.len() implies command_succeeded(
            #[trigger] first[i],
        ) by {
            assert(first[i] == replies[i]);
        }
        handles_are_deleted_in_order(listed, handles, first, after);
        assert(command_succeeded(replies[last]));
        lemma_run_last(listed, replies, after);
        assert(replies.drop_last() =~= first);
    }
}

/// The last of several replies is taken in after the others.
proof fn lemma_run_last(session: SessionView, replies: Seq<Reply>, book: Map<u32, Seq<u64>>)
    requires
        replies.len() > 0,
    ensures
        ({
            let (before, rules) = run(session, replies.drop_last(), book);
            run(session, replies, book) == advanced(before, replies.last(), rules)
        }),
    decreases replies.len(),
{
    let (next, after) = advanced(session, replies.first(), book);
    if replies.len() == 1 {
        assert(replies.drop_first() =~= Seq::empty());
        assert(replies.drop_last() =~= Seq::empty());
        assert(run(next, Seq::empty(), after) == (next, after));
        assert(run(session, Seq::empty(), book) == (session, book));
    } else {
        lemma_run_last(next, replies.drop_first(), after);
        assert(replies.drop_first().drop_last() =~= replies.drop_last().drop_first());
        assert(replies.drop_first().last() == replies.last());
        assert(replies.drop_last().first() == replies.first());
    }
}

/// Replies can be taken in in two goes.
proof fn lemma_run_in_two(
    session: SessionView,
    first: Seq<Reply>,
    rest: Seq<Reply>,
    book: Map<u32, Seq<u64>>,
)
    ensures
        ({
            let (between, rules) = run(session, first, book);
            run(session, first + rest, book) == run(between, rest, rules)
        }),
    decreases first.len(),
{
    if first.len() == 0 {
        assert(first + rest =~= rest);
    } else {
        let (next, after) = advanced(session, first.first(), book);
        assert((first + rest).first() == first.first());
        assert((first + rest).drop_first() =~= first.drop_first() + rest);
        lemma_run_in_two(next, first.drop_first(), rest, after);
    }
}

/// Taking in a single reply.
proof fn lemma_run_one(session: SessionView, reply: Reply, book: Map<u32, Seq<u64>>)
    ensures
        run(session, seq![reply], book) == advanced(session, reply, book),
{
    let (next, after) = advanced(session, reply, book);
    assert(seq![reply].drop_first() =~= Seq::empty());
    assert(run(next, Seq::empty(), after) == (next, after));
}

/// Taking in two replies.
proof fn lemma_run_two(
    session: SessionView,
    first: Reply,
    second: Reply,
    book: Map<u32, Seq<u64>>,
)
    ensures
        ({
            let (next, after) = advanced(session, first, book);
            run(session, seq![first, second], book) == advanced(next, second, after)
        }),
{
    let (next, after) = advanced(session, first, book);
    assert(seq![first, second].drop_first() =~= seq![second]);
    lemma_run_one(next, second, after);
}

/// A session that begins to block a process.
pub open spec fn block_begun(pid: u32, name: Seq<char>) -> SessionView {
    SessionView { goal: Goal::Block, pid, name, step: StepView::AddTable }
}

/// The replies to a blocking session up to where the old rules are known: the
/// chain is listed only where the book holds no rules of the process.
pub open spec fn opening_replies(
    pid: u32,
    book: Map<u32, Seq<u64>>,
    table: CommandOutcome,
    chain: CommandOutcome,
    listing: CommandOutcome,
) -> Seq<Reply> {
    let setup = seq![Reply::Command(table), Reply::Command(chain)];
    if booked(book, pid).len() == 0 {
        setup + seq![Reply::Command(listing)]
    } else {
        setup
    }
}

/// The old rules of a process: those in the book, or without any those that
/// the chain lists.
pub open spec fn old_rules(pid: u32, book: Map<u32, Seq<u64>>, listing: CommandOutcome) -> Seq<
    u64,
> {
    if booked(book, pid).len() != 0 {
        booked(book, pid)
    } else {
        match controller::handles_result(listing, pid) {
            Ok(handles) => handles,
            Err(_) => Seq::empty(),
        }
    }
}

/// The replies to the reading of the four socket tables.
pub open spec fn table_replies(
    tcp: Option<String>,
    tcp6: Option<String>,
    udp: Option<String>,
    udp6: Option<String>,
) -> Seq<Reply> {
    seq![Reply::File(tcp), Reply::File(tcp6)] + seq![Reply::File(udp), Reply::File(udp6)]
}

/// The ports that two socket tables show.
pub open spec fn ports_of_two(first: Option<String>, second: Option<String>) -> Set<u16> {
    ports::table_ports(first).union(ports::table_ports(second))
}

/// The step at which no table has been read.
pub open spec fn reading_begun() -> StepView {
    StepView::ReadPorts { table: 0, tcp: Set::empty(), udp: Set::empty() }
}

proof fn lemma_block_opens(
    pid: u32,
    name: Seq<char>,
    book: Map<u32, Seq<u64>>,
    table: CommandOutcome,
    chain: CommandOutcome,
    listing: CommandOutcome,
)
    requires
        controller::command_result(table, true) is Ok,
        booked(book, pid).len() == 0 ==> controller::handles_result(listing, pid) is Ok,
    ensures
        ({
            let old = old_rules(pid, book, listing);
            let next = if old.len() == 0 {
                reading_begun()
            } else {
                StepView::Delete { handles: old, at: 0 }
            };
            run(block_begun(pid, name), opening_replies(pid, book, table, chain, listing), book)
                == (at_step(block_begun(pid, name), next), book.remove(pid))
        }),
{
    let session = block_begun(pid, name);
    let setup = seq![Reply::Command(table), Reply::Command(chain)];
    lemma_run_two(session, Reply::Command(table), Reply::Command(chain), book);
    if booked(book, pid).len() == 0 {
        let listed = seq![Reply::Command(listing)];
        lemma_run_in_two(session, setup, listed, book);
        lemma_run_one(
            at_step(session, StepView::ListTracked),
            Reply::Command(listing),
            book.remove(pid),
        );
    }
}

proof fn lemma_block_deletes(
    session: SessionView,
    handles: Seq<u64>,
    deletions: Seq<Reply>,
    book: Map<u32, Seq<u64>>,
)
    requires
        session.goal == Goal::Block,
        session.step == (StepView::Delete { handles, at: 0 }),
        handles.len() > 0,
        deletions.len() == handles.len(),
        forall|i: int| 0 <= i < deletions.len() ==> command_succeeded(#[trigger] deletions[i]),
    ensures
        run(session, deletions, book) == (at_step(session, reading_begun()), book),
{
    let last = deletions.len() - 1;
    let first = deletions.drop_last();
    assert forall|i: int| 0 <= i < first.len() implies command_succeeded(#[trigger] first[i]) by {
        assert(first[i] == deletions[i]);
    }
    handles_are_deleted_in_order(session, handles, first, book);
    assert(command_succeeded(deletions[last]));
    lemma_run_last(session, deletions, book);
}

proof fn lemma_block_reads(
    session: SessionView,
    tcp: Option<String>,
    tcp6: Option<String>,
    udp: Option<String>,
    udp6: Option<String>,
    book: Map<u32, Seq<u64>>,
)
    requires
        session.step == reading_begun(),
    ensures
        run(session, table_replies(tcp, tcp6, udp, udp6), book) == (
            after_ports(session, ports_of_two(tcp, tcp6), ports_of_two(udp, udp6)),
            book,
        ),
{
    let none = Set::<u16>::empty();
    let found = ports_of_two(tcp, tcp6);
    assert(none.union(ports::table_ports(tcp)).union(ports::table_ports(tcp6)) =~= found);
    assert(none.union(ports::table_ports(udp)).union(ports::table_ports(udp6)) =~= ports_of_two(
        udp,
        udp6,
    ));
    let half = at_step(session, StepView::ReadPorts { table: 2, tcp: found, udp: none });
    let first = seq![Reply::File(tcp), Reply::File(tcp6)];
    let second = seq![Reply::File(udp), Reply::File(udp6)];
    lemma_run_in_two(session, first, second, book);
    lemma_run_two(session, Reply::File(tcp), Reply::File(tcp6), book);
    assert(run(session, first, book) == (half, book));
    lemma_run_two(half, Reply::File(udp), Reply::File(udp6), book);
}

/// A block that goes well is booked, whatever rules are in place: the old rules
/// of the process are deleted first, each once and in order; one script is asked
/// for, with one rule for each protocol that the process uses; and the session
/// ends in success with the handles in the book that the chain then lists. It
/// goes well where the table can be made, the old rules can be found and
/// deleted, the process uses some port, and the new rules can be inserted and
/// found.
pub proof fn a_block_that_goes_well_is_booked(
    pid: u32,
    name: Seq<char>,
    book: Map<u32, Seq<u64>>,
    table: CommandOutcome,
    chain: CommandOutcome,
    listing: CommandOutcome,
    deletions: Seq<Reply>,
    tcp: Option<String>,
    tcp6: Option<String>,
    udp: Option<String>,
    udp6: Option<String>,
    script: ScriptOutcome,
    inserted: CommandOutcome,
    handles: Seq<u64>,
    port: u16,
)
    requires
        controller::command_result(table, true) is Ok,
        booked(book, pid).len() == 0 ==> controller::handles_result(listing, pid) is Ok,
        deletions.len() == old_rules(pid, book, listing).len(),
        forall|i: int| 0 <= i < deletions.len() ==> command_succeeded(#[trigger] deletions[i]),
        ports_of_two(tcp, tcp6).contains(port) || ports_of_two(udp, udp6).contains(port),
        controller::script_result(script) is Ok,
        controller::handles_result(inserted, pid) == Ok::<Seq<u64>, Seq<char>>(handles),
        handles.len() > 0,
    ensures
        ({
            let session = block_begun(pid, name);
            let opening = opening_replies(pid, book, table, chain, listing);
            let reading = table_replies(tcp, tcp6, udp, udp6);
            let closing = seq![Reply::Script(script), Reply::Command(inserted)];
            &&& forall|n: int|
                0 <= n < deletions.len() ==> request_of(
                    run(session, opening + #[trigger] deletions.take(n), book).0,
                ) == RequestView::Command(
                    rules::delete_args(old_rules(pid, book, listing)[n]),
                )
            &&& request_of(run(session, opening + deletions + reading, book).0)
                == RequestView::Script(
                rules::block_ruleset(
                    ports_of_two(tcp, tcp6),
                    ports_of_two(udp, udp6),
                    rules::rule_comment(pid, name),
                ),
            )
            &&& run(session, opening + deletions + reading + closing, book) == (
                ended(session, Ok(())),
                book.insert(pid, handles),
            )
        }),
{
    let session = block_begun(pid, name);
    let old = old_rules(pid, book, listing);
    let opening = opening_replies(pid, book, table, chain, listing);
    let reading = table_replies(tcp, tcp6, udp, udp6);
    let closing = seq![Reply::Script(script), Reply::Command(inserted)];
    let rest = book.remove(pid);
    let opened = run(session, opening, book).0;
    lemma_block_opens(pid, name, book, table, chain, listing);

    assert forall|n: int| 0 <= n < deletions.len() implies request_of(
        run(session, opening + #[trigger] deletions.take(n), book).0,
    ) == RequestView::Command(rules::delete_args(old[n])) by {
        let done = deletions.take(n);
        assert forall|i: int| 0 <= i < n implies command_succeeded(#[trigger] done[i]) by {
            assert(done[i] == deletions[i]);
        }
        lemma_run_in_two(session, opening, done, book);
        handles_are_deleted_in_order(opened, old, done, rest);
    }

    let cleared = at_step(session, reading_begun());
    lemma_run_in_two(session, opening, deletions, book);
    if old.len() == 0 {
        assert(run(opened, deletions, rest) == (opened, rest));
    } else {
        lemma_block_deletes(opened, old, deletions, rest);
    }
    assert(run(session, opening + deletions, book) == (cleared, rest));

    lemma_run_in_two(session, opening + deletions, reading, book);
    lemma_block_reads(cleared, tcp, tcp6, udp, udp6, rest);
    let ready = after_ports(cleared, ports_of_two(tcp, tcp6), ports_of_two(udp, udp6));
    assert(ready.step is InsertRules);

    lemma_run_in_two(session, opening + deletions + reading, closing, book);
    lemma_run_two(ready, Reply::Script(script), Reply::Command(inserted), rest);
    assert(rest.insert(pid, handles) =~= book.insert(pid, handles));
}

} // verus!
