//! The controls of the window: what they ask for, and what is said when it is
//! done.

use std::collections::HashSet;

use vstd::prelude::*;
use vstd::slice::slice_subrange;

use crate::aggregator;
use crate::aggregator::export;
use crate::aggregator::export::HistoryCsvRow;
use crate::aggregator::{ProcessRow, ProcessRowView};
use crate::capture::control;
use crate::controller;
use crate::number;
use crate::sort;
use crate::text;

verus! {

broadcast use vstd::std_specs::hash::group_hash_axioms;

/// Start of the name of a session's recording.
pub const PCAP_SESSION_PREFIX: &'static str = "netmon_capture_";

/// Start of the name of an exported file.
pub const EXPORT_PREFIX: &'static str = "netmon_export_";

/// Start of the message that a filter is in force.
pub const FILTER_APPLIED_PREFIX: &'static str = "Filter applied: ";

/// Start of the message that the capture has ended by itself.
pub const CAPTURE_STOPPED_PREFIX: &'static str = "Capture stopped:";

// ---------------------------------------------------------------------------
// Capture
// ---------------------------------------------------------------------------

/// What the window knows of the capture.
#[derive(Debug)]
pub struct CaptureState {
    pub is_capturing: bool,
    /// Where the last capture that could be started is recorded.
    pub recording: Option<String>,
    /// The filter that was last applied successfully.
    pub active_filter: String,
}

/// Says that a capture could not be started.
pub open spec fn start_failed(interface: Seq<char>, reason: Seq<char>) -> Seq<char> {
    "Failed to start capture on "@ + interface + ": "@ + reason
}

/// A capture can be started on the selected one of a number of interfaces.
pub open spec fn may_start(is_capturing: bool, interfaces: nat, selected: nat) -> bool {
    !is_capturing && selected < interfaces
}

/// The message says that the capture has ended by itself.
pub open spec fn tells_the_end(message: Seq<char>) -> bool {
    text::begins_with(message, CAPTURE_STOPPED_PREFIX@)
}

/// The active filter after a message.
pub open spec fn filter_after(active: Seq<char>, message: Seq<char>) -> Seq<char> {
    if text::begins_with(message, FILTER_APPLIED_PREFIX@) {
        message.skip(FILTER_APPLIED_PREFIX@.len() as int)
    } else {
        active
    }
}

impl CaptureState {
    /// Nothing is captured, recorded or filtered at first.
    pub fn new() -> (state: CaptureState)
        ensures
            !state.is_capturing,
            state.recording is None,
            state.active_filter@ == Seq::<char>::empty(),
    {
        CaptureState { is_capturing: false, recording: None, active_filter: String::new() }
    }

    /// The interface to capture on: the selected one, unless a capture is
    /// under way already or there is no such interface.
    pub fn start_target(&self, devices: &Vec<String>, selected: usize) -> (target: Option<String>)
        ensures
            match target {
                Some(name) => !self.is_capturing && selected < devices@.len() && name@
                    == devices@[selected as int]@,
                None => self.is_capturing || selected >= devices@.len(),
            },
            target is Some <==> may_start(self.is_capturing, devices@.len(), selected as nat),
    {
        if self.is_capturing || selected >= devices.len() {
            return None;
        }
        Some(devices[selected].clone())
    }

    /// Takes in how the start of a capture went, and says so.
    pub fn started(&mut self, interface: &str, recording: String, failure: &Option<String>) -> (status:
        String)
        ensures
            final(self).active_filter == old(self).active_filter,
            match *failure {
                None => {
                    &&& final(self).is_capturing
                    &&& final(self).recording == Some(recording)
                    &&& status@ == "Capturing on "@ + interface@ + "..."@
                },
                Some(reason) => {
                    &&& final(self).is_capturing == old(self).is_capturing
                    &&& final(self).recording is None
                    &&& status@ == start_failed(interface@, reason@)
                },
            },
    {
        match failure {
            None => {
                self.is_capturing = true;
                self.recording = Some(recording);
                control::capturing_status(interface)
            },
            Some(reason) => {
                self.recording = None;
                let mut status = "Failed to start capture on ".to_string();
                status.append(interface);
                status.append(": ");
                status.append(reason.as_str());
                status
            },
        }
    }

    /// Stops the capture, if there is one, and says so.
    pub fn stop(&mut self) -> (status: Option<&'static str>)
        ensures
            final(self).recording == old(self).recording,
            final(self).active_filter == old(self).active_filter,
            !final(self).is_capturing,
            match status {
                Some(text) => old(self).is_capturing && text@ == "Capture stopped"@,
                None => !old(self).is_capturing,
            },
    {
        if !self.is_capturing {
            return None;
        }
        self.is_capturing = false;
        Some("Capture stopped")
    }

    /// Takes in a message from the capture. A filter that is in force is
    /// remembered; one that was refused leaves the last one in place. Tells
    /// whether the capture has ended by itself.
    pub fn take_message(&mut self, message: &str) -> (ended: bool)
        ensures
            ended == text::begins_with(message@, CAPTURE_STOPPED_PREFIX@),
            final(self).is_capturing == (old(self).is_capturing && !ended),
            final(self).recording == old(self).recording,
            final(self).active_filter@ == (if text::begins_with(
                message@,
                FILTER_APPLIED_PREFIX@,
            ) {
                message@.skip(FILTER_APPLIED_PREFIX@.len() as int)
            } else {
                old(self).active_filter@
            }),
            ended == tells_the_end(message@),
            final(self).active_filter@ == filter_after(old(self).active_filter@, message@),
    {
        let chars = text::chars_of(message);
        let applied = text::chars_of(FILTER_APPLIED_PREFIX);
        let stopped = text::chars_of(CAPTURE_STOPPED_PREFIX);
        if text::starts_with_chars(chars.as_slice(), applied.as_slice()) {
            let rest = slice_subrange(chars.as_slice(), applied.len(), chars.len());
            assert(rest@ =~= message@.skip(applied@.len() as int));
            self.active_filter = text::string_of(rest);
        }
        let ended = text::starts_with_chars(chars.as_slice(), stopped.as_slice());
        if ended {
            self.is_capturing = false;
        }
        ended
    }
}

/// What applying a filter asks for.
#[derive(Debug)]
pub enum FilterRequest {
    /// Hand this expression to the capture.
    Apply(String),
    /// Say why nothing is applied.
    Refuse(&'static str),
}

/// The expression that applying the entered filter hands to the capture, if any.
pub open spec fn requested_filter(capture_there: bool, input: Seq<char>) -> Option<Seq<char>> {
    if capture_there && text::trimmed(input).len() > 0 {
        Some(text::trimmed(input))
    } else {
        None
    }
}

/// Decides what applying the entered filter asks for.
pub fn filter_request(capture_there: bool, input: &str) -> (request: FilterRequest)
    ensures
        match request {
            FilterRequest::Apply(expression) => capture_there && expression@ == text::trimmed(
                input@,
            ) && expression@.len() > 0,
            FilterRequest::Refuse(reason) => {
                ||| capture_there && text::trimmed(input@).len() == 0 && reason@
                    == "Enter a BPF expression before applying it"@
                ||| !capture_there && reason@ == "Cannot apply BPF: capture is not running"@
            },
        },
        match request {
            FilterRequest::Apply(expression) => requested_filter(capture_there, input@) == Some(
                expression@,
            ),
            FilterRequest::Refuse(_) => requested_filter(capture_there, input@) is None,
        },
{
    if !capture_there {
        return FilterRequest::Refuse("Cannot apply BPF: capture is not running");
    }
    let chars = text::chars_of(input);
    let expression = text::trim_chars(chars.as_slice());
    if expression.len() == 0 {
        return FilterRequest::Refuse("Enter a BPF expression before applying it");
    }
    FilterRequest::Apply(text::string_of(expression))
}

/// Says that a filter could not be handed to the capture.
pub fn filter_error_status(reason: &str) -> (status: String)
    ensures
        status@ == "BPF error: "@ + reason@,
{
    text::followed_by("BPF error: ", reason)
}

// ---------------------------------------------------------------------------
// Blocking
// ---------------------------------------------------------------------------

/// A process as it is named in messages.
pub open spec fn process_label(name: Seq<char>, pid: u32) -> Seq<char> {
    name + " (PID "@ + number::decimal(pid as nat) + ")"@
}

/// What is said of an attempt to block a process.
pub open spec fn block_text(pid: u32, name: Seq<char>, result: Result<(), String>) -> Seq<char> {
    match result {
        Ok(()) => "Blocked "@ + process_label(name, pid),
        Err(reason) => "Block failed for PID "@ + number::decimal(pid as nat) + ": "@ + reason@,
    }
}

/// What is said of an attempt to unblock a process.
pub open spec fn unblock_text(pid: u32, result: Result<(), String>) -> Seq<char> {
    match result {
        Ok(()) => "Unblocked PID "@ + number::decimal(pid as nat),
        Err(reason) => "Unblock failed for PID "@ + number::decimal(pid as nat) + ": "@ + reason@,
    }
}

/// Appends a process as it is named in messages.
fn append_label(text: &mut String, name: &str, pid: u32)
    ensures
        final(text)@ == old(text)@ + process_label(name@, pid),
{
    text.append(name);
    text.append(" (PID ");
    number::push_decimal(text, pid as u64);
    text.append(")");
    assert(text@ =~= old(text)@ + process_label(name@, pid));
}

/// The blocked processes after an attempt to block one.
pub open spec fn block_noted(blocked: Set<u32>, pid: u32, success: bool) -> Set<u32> {
    if success {
        blocked.insert(pid)
    } else {
        blocked
    }
}

/// The blocked processes after an attempt to unblock one.
pub open spec fn unblock_noted(blocked: Set<u32>, pid: u32, success: bool) -> Set<u32> {
    if success {
        blocked.remove(pid)
    } else {
        blocked
    }
}

/// Takes in an attempt to block a process, and says how it went.
pub fn note_block(
    blocked: &mut HashSet<u32>,
    pid: u32,
    name: &str,
    result: &Result<(), String>,
) -> (status: String)
    ensures
        final(blocked)@ == (if result is Ok {
            old(blocked)@.insert(pid)
        } else {
            old(blocked)@
        }),
        final(blocked)@ == block_noted(old(blocked)@, pid, result is Ok),
        status@ == block_text(pid, name@, *result),
{
    match result {
        Ok(()) => {
            blocked.insert(pid);
            let mut status = "Blocked ".to_string();
            append_label(&mut status, name, pid);
            status
        },
        Err(reason) => {
            let mut status = "Block failed for PID ".to_string();
            number::push_decimal(&mut status, pid as u64);
            status.append(": ");
            status.append(reason.as_str());
            status
        },
    }
}

/// Takes in an attempt to unblock a process, and says how it went.
pub fn note_unblock(blocked: &mut HashSet<u32>, pid: u32, result: &Result<(), String>) -> (status:
    String)
    ensures
        final(blocked)@ == (if result is Ok {
            old(blocked)@.remove(pid)
        } else {
            old(blocked)@
        }),
        final(blocked)@ == unblock_noted(old(blocked)@, pid, result is Ok),
        status@ == unblock_text(pid, *result),
{
    match result {
        Ok(()) => {
            blocked.remove(&pid);
            let mut status = "Unblocked PID ".to_string();
            number::push_decimal(&mut status, pid as u64);
            status
        },
        Err(reason) => {
            let mut status = "Unblock failed for PID ".to_string();
            number::push_decimal(&mut status, pid as u64);
            status.append(": ");
            status.append(reason.as_str());
            status
        },
    }
}

/// The question whether a process is to be blocked.
pub open spec fn question_text(pid: u32, name: Seq<char>) -> Seq<char> {
    "Block all traffic for "@ + process_label(name, pid)
        + "? This will insert an nftables rule. Confirm?"@
}

/// Asks whether a process is to be blocked.
pub fn block_question(pid: u32, name: &str) -> (question: String)
    ensures
        question@ == question_text(pid, name@),
{
    let mut question = "Block all traffic for ".to_string();
    append_label(&mut question, name, pid);
    question.append("? This will insert an nftables rule. Confirm?");
    question
}

/// The process that is blocked once the user confirms it.
#[derive(Debug)]
pub struct PendingBlock {
    pending: Option<(u32, String)>,
}

impl View for PendingBlock {
    type V = Option<(u32, Seq<char>)>;

    closed spec fn view(&self) -> Option<(u32, Seq<char>)> {
        match self.pending {
            Some((pid, name)) => Some((pid, name@)),
            None => None,
        }
    }
}

impl PendingBlock {
    /// Nothing is pending at first.
    pub fn new() -> (block: PendingBlock)
        ensures
            block@ is None,
    {
        PendingBlock { pending: None }
    }

    /// Puts a process forward for confirmation, in place of one that was.
    pub fn ask(&mut self, pid: u32, name: &str)
        ensures
            final(self)@ == Some((pid, name@)),
    {
        self.pending = Some((pid, name.to_string()));
    }

    /// The question to be answered, if any.
    pub fn question(&self) -> (question: Option<String>)
        ensures
            match (question, self@) {
                (Some(question), Some((pid, name))) => question@ == question_text(pid, name),
                (None, None) => true,
                _ => false,
            },
    {
        match &self.pending {
            Some((pid, name)) => Some(block_question(*pid, name.as_str())),
            None => None,
        }
    }

    /// Takes in a yes: hands out the process that is to be blocked now. Nothing
    /// is pending any more.
    pub fn confirm(&mut self) -> (process: Option<(u32, String)>)
        ensures
            match (process, old(self)@) {
                (Some((pid, name)), Some((asked, asked_name))) => pid == asked && name@
                    == asked_name,
                (None, None) => true,
                _ => false,
            },
            final(self)@ is None,
    {
        self.pending.take()
    }

    /// Takes in a no. Nothing is pending any more.
    pub fn cancel(&mut self)
        ensures
            final(self)@ is None,
    {
        self.pending = None;
    }
}

/// The processes of a user among the rows, each once, with the name that its
/// first row gives.
pub open spec fn user_processes(rows: Seq<ProcessRowView>, username: Seq<char>) -> Seq<
    (u32, Seq<char>),
>
    decreases rows.len(),
{
    if rows.len() == 0 {
        Seq::empty()
    } else {
        let before = user_processes(rows.drop_last(), username);
        let row = rows.last();
        if row.info.username == username && !names_process(before, row.info.pid) {
            before.push((row.info.pid, row.info.name))
        } else {
            before
        }
    }
}

/// Some entry is of the process.
pub open spec fn names_process(processes: Seq<(u32, Seq<char>)>, pid: u32) -> bool {
    exists|i: int| 0 <= i < processes.len() && (#[trigger] processes[i]).0 == pid
}

/// Process ids and names with the names as characters.
pub open spec fn process_views(s: Seq<(u32, String)>) -> Seq<(u32, Seq<char>)> {
    s.map_values(|p: (u32, String)| (p.0, p.1@))
}

/// The blocking of all processes of a user, one after the other.
#[derive(Debug)]
pub struct UserBlock {
    username: String,
    processes: Vec<(u32, String)>,
    at: usize,
    labels: Vec<String>,
    errors: Vec<String>,
}

/// A [`UserBlock`] as a mathematical value.
#[verifier::ext_equal]
pub struct UserBlockView {
    pub username: Seq<char>,
    /// The processes to be blocked.
    pub processes: Seq<(u32, Seq<char>)>,
    /// How many of them have been tried.
    pub at: int,
    /// The processes that could be blocked.
    pub labels: Seq<Seq<char>>,
    /// What went wrong with the others.
    pub errors: Seq<Seq<char>>,
}

impl View for UserBlock {
    type V = UserBlockView;

    closed spec fn view(&self) -> UserBlockView {
        UserBlockView {
            username: self.username@,
            processes: process_views(self.processes@),
            at: self.at as int,
            labels: text::string_texts(self.labels@),
            errors: text::string_texts(self.errors@),
        }
    }
}

/// What an attempt makes of the blocking of a user.
pub open spec fn attempt_noted(block: UserBlockView, result: Result<(), String>) -> UserBlockView {
    let (pid, name) = block.processes[block.at];
    match result {
        Ok(()) => UserBlockView {
            at: block.at + 1,
            labels: block.labels.push(process_label(name, pid)),
            ..block
        },
        Err(reason) => UserBlockView {
            at: block.at + 1,
            errors: block.errors.push(
                "PID "@ + number::decimal(pid as nat) + ": "@ + reason@,
            ),
            ..block
        },
    }
}

/// What is said of the blocking of a user.
pub open spec fn user_block_text(block: UserBlockView) -> Seq<char> {
    if block.labels.len() > 0 && block.errors.len() == 0 {
        "Blocked user "@ + block.username + ": "@ + text::joined(block.labels, ", "@)
    } else if block.labels.len() > 0 {
        "Blocked user "@ + block.username + " with errors: "@ + text::joined(block.errors, "; "@)
    } else if block.errors.len() == 0 {
        "No active processes found for user "@ + block.username
    } else {
        "Failed to block user "@ + block.username + ": "@ + text::joined(block.errors, "; "@)
    }
}

impl UserBlock {
    /// No more processes have been tried than there are.
    pub closed spec fn well_formed(&self) -> bool {
        self.at <= self.processes@.len()
    }

    /// Begins to block the processes of a user among the rows.
    pub fn new(rows: &Vec<ProcessRow>, username: &str) -> (block: UserBlock)
        ensures
            block.well_formed(),
            block@ == (UserBlockView {
                username: username@,
                processes: user_processes(aggregator::row_views(rows@), username@),
                at: 0,
                labels: Seq::empty(),
                errors: Seq::empty(),
            }),
    {
        let ghost views = aggregator::row_views(rows@);
        let mut seen: HashSet<u32> = HashSet::new();
        let mut processes: Vec<(u32, String)> = Vec::new();
        let mut i: usize = 0;
        assert(views.take(0) =~= Seq::empty());
        assert(process_views(processes@) =~= Seq::empty());
        while i < rows.len()
            invariant
                i <= rows@.len(),
                views == aggregator::row_views(rows@),
                process_views(processes@) == user_processes(views.take(i as int), username@),
                forall|pid: u32| #[trigger]
                    seen@.contains(pid) <==> names_process(process_views(processes@), pid),
            decreases rows@.len() - i,
        {
            let row = &rows[i];
            assert(views.take(i + 1).drop_last() =~= views.take(i as int));
            assert(views.take(i + 1).last() == row@);
            if text::same_text(row.info.username.as_str(), username) && seen.insert(row.info.pid) {
                let ghost before = process_views(processes@);
                let process = (row.info.pid, row.info.name.clone());
                assert(process_views(processes@.push(process)) =~= before.push(
                    (process.0, process.1@),
                ));
                processes.push(process);
                proof {
                    let after = process_views(processes@);
                    assert forall|pid: u32| #[trigger]
                        seen@.contains(pid) <==> names_process(after, pid) by {
                        if names_process(before, pid) {
                            let k = choose|k: int|
                                0 <= k < before.len() && (#[trigger] before[k]).0 == pid;
                            assert(after[k].0 == pid);
                        }
                        assert(after[before.len() as int].0 == row.info.pid);
                        if names_process(after, pid) && pid != row.info.pid {
                            let k = choose|k: int|
                                0 <= k < after.len() && (#[trigger] after[k]).0 == pid;
                            assert(before[k].0 == pid);
                        }
                    }
                }
            }
            i += 1;
        }
        assert(views.take(views.len() as int) =~= views);
        let block = UserBlock {
            username: username.to_string(),
            processes,
            at: 0,
            labels: Vec::new(),
            errors: Vec::new(),
        };
        assert(block@.labels =~= Seq::empty());
        assert(block@.errors =~= Seq::empty());
        block
    }

    /// The process to be blocked next, if any is left.
    pub fn next_process(&self) -> (process: Option<(u32, String)>)
        requires
            self.well_formed(),
        ensures
            match process {
                Some((pid, name)) => self@.at < self@.processes.len() && (pid, name@)
                    == self@.processes[self@.at],
                None => self@.at == self@.processes.len(),
            },
    {
        if self.at < self.processes.len() {
            let process = &self.processes[self.at];
            Some((process.0, process.1.clone()))
        } else {
            None
        }
    }

    /// Takes in how the attempt to block that process went.
    pub fn note_attempt(&mut self, result: &Result<(), String>, blocked: &mut HashSet<u32>)
        requires
            old(self).well_formed(),
            old(self)@.at < old(self)@.processes.len(),
        ensures
            final(self).well_formed(),
            final(self)@ == attempt_noted(old(self)@, *result),
            final(blocked)@ == (if result is Ok {
                old(blocked)@.insert(old(self)@.processes[old(self)@.at].0)
            } else {
                old(blocked)@
            }),
            final(blocked)@ == block_noted(
                old(blocked)@,
                old(self)@.processes[old(self)@.at].0,
                result is Ok,
            ),
    {
        let count: usize = self.processes.len();
        assert(self.at < count);
        let pid: u32 = self.processes[self.at].0;
        match result {
            Ok(()) => {
                let mut label = String::new();
                append_label(&mut label, self.processes[self.at].1.as_str(), pid);
                assert(label@ =~= process_label(self@.processes[self@.at].1, pid));
                assert(text::string_texts(self.labels@.push(label)) =~= text::string_texts(
                    self.labels@,
                ).push(label@));
                self.labels.push(label);
                blocked.insert(pid);
            },
            Err(reason) => {
                let mut error = "PID ".to_string();
                number::push_decimal(&mut error, pid as u64);
                error.append(": ");
                error.append(reason.as_str());
                assert(text::string_texts(self.errors@.push(error)) =~= text::string_texts(
                    self.errors@,
                ).push(error@));
                self.errors.push(error);
            },
        }
        self.at += 1;
    }

    /// Says how the blocking went.
    pub fn status(&self) -> (status: String)
        ensures
            status@ == user_block_text(self@),
    {
        let mut status = String::new();
        if self.labels.len() > 0 && self.errors.len() == 0 {
            status.append("Blocked user ");
            status.append(self.username.as_str());
            status.append(": ");
            let labels = text::join_strings(&self.labels, ", ");
            status.append(labels.as_str());
        } else if self.labels.len() > 0 {
            status.append("Blocked user ");
            status.append(self.username.as_str());
            status.append(" with errors: ");
            let errors = text::join_strings(&self.errors, "; ");
            status.append(errors.as_str());
        } else if self.errors.len() == 0 {
            status.append("No active processes found for user ");
            status.append(self.username.as_str());
        } else {
            status.append("Failed to block user ");
            status.append(self.username.as_str());
            status.append(": ");
            let errors = text::join_strings(&self.errors, "; ");
            status.append(errors.as_str());
        }
        assert(status@ =~= user_block_text(self@));
        status
    }
}

// ---------------------------------------------------------------------------
// Rate limits
// ---------------------------------------------------------------------------

/// The rate that an input spells: a positive number.
pub open spec fn entered_rate(input: Seq<char>) -> Option<u32> {
    match number::numeral(text::trimmed(input), 10, u32::MAX as nat) {
        Some(rate) => if rate > 0 {
            Some(rate as u32)
        } else {
            None
        },
        None => None,
    }
}

/// What is said of an attempt to limit the rate of a process.
pub open spec fn limit_text(pid: u32, name: Seq<char>, rate: u32, result: Result<(), String>) -> Seq<
    char,
> {
    match result {
        Ok(()) => "Rate-limited "@ + process_label(name, pid) + " to "@ + number::decimal(
            rate as nat,
        ) + " kbit/s"@,
        Err(reason) => "Rate limit failed for PID "@ + number::decimal(pid as nat) + ": "@
            + reason@,
    }
}

/// Reads the rate that was entered.
pub fn parse_rate(input: &str) -> (rate: Option<u32>)
    ensures
        rate == entered_rate(input@),
{
    let chars = text::chars_of(input);
    match number::read_numeral(text::trim_chars(chars.as_slice()), 10, u32::MAX as u64) {
        Some(rate) => if rate > 0 {
            Some(rate as u32)
        } else {
            None
        },
        None => None,
    }
}

/// Says how an attempt to limit the rate of a process went.
pub fn limit_status(pid: u32, name: &str, rate: u32, result: &Result<(), String>) -> (status:
    String)
    ensures
        status@ == limit_text(pid, name@, rate, *result),
{
    let mut status = String::new();
    match result {
        Ok(()) => {
            status.append("Rate-limited ");
            append_label(&mut status, name, pid);
            status.append(" to ");
            number::push_decimal(&mut status, rate as u64);
            status.append(" kbit/s");
        },
        Err(reason) => {
            status.append("Rate limit failed for PID ");
            number::push_decimal(&mut status, pid as u64);
            status.append(": ");
            status.append(reason.as_str());
        },
    }
    assert(status@ =~= limit_text(pid, name@, rate, *result));
    status
}

/// Limits the rate of a process to the one that was entered, and says how that
/// went.
pub fn limit_bandwidth(pid: u32, name: &str, input: &str) -> (status: String)
    ensures
        match entered_rate(input@) {
            Some(_) => status@ == "Rate limit failed for PID "@ + number::decimal(pid as nat)
                + ": "@ + "rate limiting is not implemented yet"@,
            None => status@ == "Enter a positive kbit/s value before limiting bandwidth"@,
        },
{
    match parse_rate(input) {
        Some(rate) => {
            let result = controller::rate_limit_process(pid, rate);
            limit_status(pid, name, rate, &result)
        },
        None => "Enter a positive kbit/s value before limiting bandwidth".to_string(),
    }
}

// ---------------------------------------------------------------------------
// Exports
// ---------------------------------------------------------------------------

/// How the export of the session's history ended.
#[derive(Debug)]
pub enum CsvOutcome {
    NoHistory,
    CreateFailed(String),
    HeaderFailed,
    RowsFailed,
    Written,
}

/// What is said of the export of the session's history.
pub open spec fn csv_export_text(outcome: CsvOutcome, path: Seq<char>) -> Seq<char> {
    match outcome {
        CsvOutcome::NoHistory => "No session history captured yet"@,
        CsvOutcome::CreateFailed(reason) => "CSV export failed: "@ + reason@,
        CsvOutcome::HeaderFailed => "CSV export failed while writing header"@,
        CsvOutcome::RowsFailed => "CSV export failed while writing rows"@,
        CsvOutcome::Written => "Exported CSV to "@ + path,
    }
}

/// Says how the export of the session's history ended.
pub fn csv_export_status(outcome: &CsvOutcome, path: &str) -> (status: String)
    ensures
        status@ == csv_export_text(*outcome, path@),
{
    match outcome {
        CsvOutcome::NoHistory => "No session history captured yet".to_string(),
        CsvOutcome::CreateFailed(reason) => text::followed_by(
            "CSV export failed: ",
            reason.as_str(),
        ),
        CsvOutcome::HeaderFailed => "CSV export failed while writing header".to_string(),
        CsvOutcome::RowsFailed => "CSV export failed while writing rows".to_string(),
        CsvOutcome::Written => text::followed_by("Exported CSV to ", path),
    }
}

/// What is written to export the session's history: the heading and the lines
/// of the rows. There is nothing to write without any rows.
pub fn csv_document(rows: &Vec<HistoryCsvRow>) -> (document: Option<Vec<String>>)
    ensures
        match document {
            Some(lines) => rows@.len() > 0 && exists|order: Seq<usize>| #[trigger]
                sort::is_stable_sort(order, export::export_keys(rows@), false)
                    && text::string_texts(lines@) == seq![export::CSV_HEADER@]
                    + export::csv_lines_in_order(order, rows@),
            None => rows@.len() == 0,
        },
{
    if rows.len() == 0 {
        return None;
    }
    let mut lines = export::export_lines(rows);
    let ghost body = lines@;
    let ghost order = choose|order: Seq<usize>| #[trigger]
        sort::is_stable_sort(order, export::export_keys(rows@), false) && text::string_texts(body)
            == export::csv_lines_in_order(order, rows@);
    lines.insert(0, export::CSV_HEADER.to_string());
    proof {
        let goal = seq![export::CSV_HEADER@] + export::csv_lines_in_order(order, rows@);
        assert(text::string_texts(lines@) =~= seq![export::CSV_HEADER@] + text::string_texts(body));
        assert(text::string_texts(lines@) == goal);
        assert(sort::is_stable_sort(order, export::export_keys(rows@), false));
    }
    Some(lines)
}

/// What it means that writing the document failed at a line.
pub fn write_failure(at: usize) -> (outcome: CsvOutcome)
    ensures
        outcome == (if at == 0 {
            CsvOutcome::HeaderFailed
        } else {
            CsvOutcome::RowsFailed
        }),
{
    if at == 0 {
        CsvOutcome::HeaderFailed
    } else {
        CsvOutcome::RowsFailed
    }
}

/// Why a recording cannot be exported, if it cannot: there is none, or its file
/// is not there.
pub fn pcap_refusal(recorded: bool, file_there: bool) -> (refusal: Option<&'static str>)
    ensures
        match refusal {
            Some(reason) => {
                ||| !recorded && reason@ == "PCAP export unavailable: start capture first"@
                ||| recorded && !file_there && reason@
                    == "PCAP export unavailable: no recording file yet"@
            },
            None => recorded && file_there,
        },
{
    if !recorded {
        return Some("PCAP export unavailable: start capture first");
    }
    if !file_there {
        return Some("PCAP export unavailable: no recording file yet");
    }
    None
}

/// Says how the export of a recording ended.
pub fn pcap_export_status(failure: &Option<String>, path: &str) -> (status: String)
    ensures
        status@ == (match *failure {
            Some(reason) => "PCAP export failed: "@ + reason@,
            None => "Exported PCAP to "@ + path@,
        }),
{
    match failure {
        Some(reason) => text::followed_by("PCAP export failed: ", reason.as_str()),
        None => text::followed_by("Exported PCAP to ", path),
    }
}

/// Makes up the path of a session's recording.
pub fn recording_path(home: &Option<String>, timestamp: u64) -> (path: String)
    ensures
        path@ == export::output_path(*home, PCAP_SESSION_PREFIX@, timestamp, ".pcap"@),
{
    export::build_output_path(home, PCAP_SESSION_PREFIX, timestamp, ".pcap")
}

/// Makes up the path of an exported history.
pub fn csv_export_path(home: &Option<String>, timestamp: u64) -> (path: String)
    ensures
        path@ == export::output_path(*home, EXPORT_PREFIX@, timestamp, ".csv"@),
{
    export::build_output_path(home, EXPORT_PREFIX, timestamp, ".csv")
}

/// Makes up the path of an exported recording.
pub fn pcap_export_path(home: &Option<String>, timestamp: u64) -> (path: String)
    ensures
        path@ == export::output_path(*home, EXPORT_PREFIX@, timestamp, ".pcap"@),
{
    export::build_output_path(home, EXPORT_PREFIX, timestamp, ".pcap")
}

// ---------------------------------------------------------------------------
// Laws
// ---------------------------------------------------------------------------

/// Blocking a user tries every process of the user among the rows, and no
/// process twice.
pub proof fn a_user_is_blocked_completely(rows: Seq<ProcessRowView>, username: Seq<char>)
    ensures
        forall|i: int|
            0 <= i < rows.len() && rows[i].info.username == username ==> names_process(
                user_processes(rows, username),
                (#[trigger] rows[i]).info.pid,
            ),
        forall|i: int, j: int|
            0 <= i < j < user_processes(rows, username).len() ==> (#[trigger] user_processes(
                rows,
                username,
            )[i]).0 != (#[trigger] user_processes(rows, username)[j]).0,
    decreases rows.len(),
{
    if rows.len() > 0 {
        let shorter = rows.drop_last();
        let before = user_processes(shorter, username);
        let after = user_processes(rows, username);
        a_user_is_blocked_completely(shorter, username);
        assert forall|i: int|
            0 <= i < rows.len() && rows[i].info.username == username implies names_process(
            after,
            (#[trigger] rows[i]).info.pid,
        ) by {
            let pid = rows[i].info.pid;
            if i < shorter.len() {
                assert(shorter[i] == rows[i]);
                assert(names_process(before, pid));
            }
            if names_process(before, pid) {
                let k = choose|k: int| 0 <= k < before.len() && (#[trigger] before[k]).0 == pid;
                assert(after[k].0 == pid);
            } else {
                assert(after.last().0 == pid);
                assert(after[after.len() - 1].0 == pid);
            }
        }
        assert forall|i: int, j: int| 0 <= i < j < after.len() implies (#[trigger] after[i]).0 != (
        #[trigger] after[j]).0 by {
            if j < before.len() {
                assert(before[i].0 != before[j].0);
            } else {
                assert(before[i].0 == after[i].0);
            }
        }
    }
}

/// A filter that was refused leaves the active filter as it was: only a
/// message that a filter is in force changes it.
pub proof fn refused_filters_change_nothing(reason: Seq<char>)
    ensures
        !text::begins_with("BPF error: "@ + reason, FILTER_APPLIED_PREFIX@),
        !text::begins_with("BPF error: "@ + reason, CAPTURE_STOPPED_PREFIX@),
{
    reveal_strlit("BPF error: ");
    reveal_strlit("Filter applied: ");
    reveal_strlit("Capture stopped:");
    let message = "BPF error: "@ + reason;
    assert(message[0] == 'B');
    if text::begins_with(message, FILTER_APPLIED_PREFIX@) {
        assert(message.take(FILTER_APPLIED_PREFIX@.len() as int)[0] == message[0]);
    }
    if text::begins_with(message, CAPTURE_STOPPED_PREFIX@) {
        assert(message.take(CAPTURE_STOPPED_PREFIX@.len() as int)[0] == message[0]);
    }
}

/// A message that a filter is in force gives back the filter.
pub proof fn applied_filters_are_remembered(filter: Seq<char>)
    ensures
        text::begins_with(FILTER_APPLIED_PREFIX@ + filter, FILTER_APPLIED_PREFIX@),
        (FILTER_APPLIED_PREFIX@ + filter).skip(FILTER_APPLIED_PREFIX@.len() as int) == filter,
{
    let message = FILTER_APPLIED_PREFIX@ + filter;
    assert(message.take(FILTER_APPLIED_PREFIX@.len() as int) =~= FILTER_APPLIED_PREFIX@);
    assert(message.skip(FILTER_APPLIED_PREFIX@.len() as int) =~= filter);
}

} // verus!
