//! Decisions of the capture loop.

use vstd::prelude::*;

use super::FlowRecord;

verus! {

/// Join timeout error message for the capture thread.
pub const CAPTURE_THREAD_JOIN_TIMEOUT_MSG: &'static str = "capture thread join timed out";

/// Panic error message for the capture thread.
pub const CAPTURE_THREAD_PANIC_MSG: &'static str = "capture thread panicked";

/// What the rest of the program can ask of a running capture.
#[derive(Clone, Debug)]
pub enum CaptureCommand {
    ApplyFilter(String),
    Stop,
}

/// What can go wrong with a capture. Each variant carries the reason in words.
#[derive(Clone, Debug)]
pub enum CaptureError {
    Pcap(String),
    ChannelSend(String),
    ThreadJoin(String),
}

impl CaptureError {
    /// The error as one line of text.
    pub open spec fn text(&self) -> Seq<char> {
        match *self {
            CaptureError::Pcap(reason) => "pcap error: "@ + reason@,
            CaptureError::ChannelSend(reason) => "capture channel send failed: "@ + reason@,
            CaptureError::ThreadJoin(reason) => "capture thread join failed: "@ + reason@,
        }
    }

    /// The error as one line of text.
    pub fn message(&self) -> (message: String)
        ensures
            message@ == self.text(),
    {
        let mut message = String::new();
        match self {
            CaptureError::Pcap(reason) => {
                message.append("pcap error: ");
                message.append(reason.as_str());
            },
            CaptureError::ChannelSend(reason) => {
                message.append("capture channel send failed: ");
                message.append(reason.as_str());
            },
            CaptureError::ThreadJoin(reason) => {
                message.append("capture thread join failed: ");
                message.append(reason.as_str());
            },
        }
        assert(message@ =~= self.text());
        message
    }
}

/// How waiting for a worker thread ended.
#[derive(Clone, Copy, Debug, PartialEq, Eq, Structural)]
pub enum JoinOutcome {
    Finished,
    Panicked,
    TimedOut,
}

/// Turns the end of the capture thread into the result of joining it.
pub fn capture_join_result(outcome: JoinOutcome) -> (result: Result<(), CaptureError>)
    ensures
        match outcome {
            JoinOutcome::Finished => result is Ok,
            JoinOutcome::Panicked => result matches Err(CaptureError::ThreadJoin(reason))
                && reason@ == CAPTURE_THREAD_PANIC_MSG@,
            JoinOutcome::TimedOut => result matches Err(CaptureError::ThreadJoin(reason))
                && reason@ == CAPTURE_THREAD_JOIN_TIMEOUT_MSG@,
        },
{
    match outcome {
        JoinOutcome::Finished => Ok(()),
        JoinOutcome::Panicked => Err(
            CaptureError::ThreadJoin(CAPTURE_THREAD_PANIC_MSG.to_string()),
        ),
        JoinOutcome::TimedOut => Err(
            CaptureError::ThreadJoin(CAPTURE_THREAD_JOIN_TIMEOUT_MSG.to_string()),
        ),
    }
}

/// The status line of a capture that has just started.
pub fn capturing_status(interface: &str) -> (status: String)
    ensures
        status@ == "Capturing on "@ + interface@ + "..."@,
{
    let mut status = String::new();
    status.append("Capturing on ");
    status.append(interface);
    status.append("...");
    assert(status@ =~= "Capturing on "@ + interface@ + "..."@);
    status
}

/// What the capture loop has just learnt.
#[derive(Debug)]
pub enum CaptureEvent {
    /// The value of the flag that keeps the loop running.
    Running(bool),
    /// A command was waiting.
    Command(CaptureCommand),
    /// No command is waiting.
    NoCommand,
    /// Nobody can send commands any more.
    CommandsClosed,
    /// The expression was installed as the filter.
    FilterSet(String),
    /// The filter expression was refused, for the reason given.
    FilterRefused(String),
    /// A frame was read and parsed.
    Packet(Option<FlowRecord>),
    /// No frame arrived in time.
    ReadTimeout,
    /// Reading from the interface failed.
    ReadFailed,
    /// The record was handed over.
    Delivered,
    /// Nobody takes records any more.
    ReceiverGone,
}

/// What the capture loop has to do next.
#[derive(Debug)]
pub enum CaptureAction {
    /// Read the flag that keeps the loop running.
    CheckRunning,
    /// Look for a waiting command.
    PollCommand,
    /// Install a filter expression.
    SetFilter(String),
    /// Read one frame.
    ReadPacket,
    /// Hand a record over.
    Deliver(FlowRecord),
    /// Leave the loop.
    Exit,
}

/// A reaction of the capture loop: a status line to report, whether to clear
/// the flag that keeps it running, and then the next action.
#[derive(Debug)]
pub struct CaptureStep {
    pub status: Option<String>,
    pub clear_running: bool,
    pub action: CaptureAction,
}

/// The step reports nothing and leaves the flag alone.
pub open spec fn silent(step: CaptureStep) -> bool {
    step.status is None && !step.clear_running
}

/// The step reports exactly `status` and leaves the flag alone.
pub open spec fn reports(step: CaptureStep, status: Seq<char>) -> bool {
    !step.clear_running && (step.status matches Some(line) && line@ == status)
}

/// `step` is how the loop reacts to `event`.
pub open spec fn reaction(event: CaptureEvent, step: CaptureStep) -> bool {
    match event {
        CaptureEvent::Running(running) => silent(step) && step.action == (if running {
            CaptureAction::PollCommand
        } else {
            CaptureAction::Exit
        }),
        CaptureEvent::Command(CaptureCommand::ApplyFilter(expression)) => silent(step)
            && step.action == CaptureAction::SetFilter(expression),
        CaptureEvent::Command(CaptureCommand::Stop) => silent(step) && step.action
            == CaptureAction::Exit,
        CaptureEvent::NoCommand => silent(step) && step.action == CaptureAction::ReadPacket,
        CaptureEvent::CommandsClosed => silent(step) && step.action == CaptureAction::Exit,
        CaptureEvent::FilterSet(expression) => reports(step, "Filter applied: "@ + expression@)
            && step.action == CaptureAction::PollCommand,
        CaptureEvent::FilterRefused(reason) => reports(step, "BPF error: "@ + reason@)
            && step.action == CaptureAction::PollCommand,
        CaptureEvent::Packet(Some(record)) => silent(step) && step.action == CaptureAction::Deliver(
            record,
        ),
        CaptureEvent::Packet(None) | CaptureEvent::ReadTimeout | CaptureEvent::Delivered => silent(
            step,
        ) && step.action == CaptureAction::CheckRunning,
        CaptureEvent::ReadFailed => step.clear_running && step.action == CaptureAction::Exit && (
        step.status matches Some(line) && line@ == CAPTURE_FAILED_MSG@),
        CaptureEvent::ReceiverGone => silent(step) && step.action == CaptureAction::Exit,
    }
}

/// Status line of a capture that the interface has ended.
pub const CAPTURE_FAILED_MSG: &'static str =
    "Capture stopped: interface went down. Select an interface and click Start.";

/// Decides how the capture loop goes on. Commands are drained before the next
/// frame is read, and a failing interface stops the loop instead of spinning.
pub fn capture_step(event: CaptureEvent) -> (step: CaptureStep)
    ensures
        reaction(event, step),
{
    match event {
        CaptureEvent::Running(running) => quiet_step(
            if running {
                CaptureAction::PollCommand
            } else {
                CaptureAction::Exit
            },
        ),
        CaptureEvent::Command(CaptureCommand::ApplyFilter(expression)) => quiet_step(
            CaptureAction::SetFilter(expression),
        ),
        CaptureEvent::Command(CaptureCommand::Stop) => quiet_step(CaptureAction::Exit),
        CaptureEvent::NoCommand => quiet_step(CaptureAction::ReadPacket),
        CaptureEvent::CommandsClosed => quiet_step(CaptureAction::Exit),
        CaptureEvent::FilterSet(expression) => {
            let mut line = String::new();
            line.append("Filter applied: ");
            line.append(expression.as_str());
            assert(line@ =~= "Filter applied: "@ + expression@);
            CaptureStep {
                status: Some(line),
                clear_running: false,
                action: CaptureAction::PollCommand,
            }
        },
        CaptureEvent::FilterRefused(reason) => {
            let mut line = String::new();
            line.append("BPF error: ");
            line.append(reason.as_str());
            assert(line@ =~= "BPF error: "@ + reason@);
            CaptureStep {
                status: Some(line),
                clear_running: false,
                action: CaptureAction::PollCommand,
            }
        },
        CaptureEvent::Packet(Some(record)) => quiet_step(CaptureAction::Deliver(record)),
        CaptureEvent::Packet(None) => quiet_step(CaptureAction::CheckRunning),
        CaptureEvent::ReadTimeout => quiet_step(CaptureAction::CheckRunning),
        CaptureEvent::Delivered => quiet_step(CaptureAction::CheckRunning),
        CaptureEvent::ReadFailed => CaptureStep {
            status: Some(CAPTURE_FAILED_MSG.to_string()),
            clear_running: true,
            action: CaptureAction::Exit,
        },
        CaptureEvent::ReceiverGone => quiet_step(CaptureAction::Exit),
    }
}

/// A step that only goes on to an action.
fn quiet_step(action: CaptureAction) -> (step: CaptureStep)
    ensures
        silent(step),
        step.action == action,
{
    CaptureStep { status: None, clear_running: false, action }
}

/// Frames are read only when no command is waiting.
pub proof fn commands_come_before_frames(event: CaptureEvent, step: CaptureStep)
    requires
        reaction(event, step),
        step.action is ReadPacket,
    ensures
        event is NoCommand,
{
}

/// The loop clears its own flag only when the interface fails, and then it
/// always ends with a status line.
pub proof fn failing_interface_closes_capture(event: CaptureEvent, step: CaptureStep)
    requires
        reaction(event, step),
    ensures
        step.clear_running == (event is ReadFailed),
        step.clear_running ==> step.action is Exit && step.status is Some,
{
}

/// A refused filter neither ends the capture nor stops the commands behind it.
pub proof fn refused_filter_keeps_capturing(reason: String, step: CaptureStep)
    requires
        reaction(CaptureEvent::FilterRefused(reason), step),
    ensures
        step.action is PollCommand,
        !step.clear_running,
        step.status is Some,
{
}

} // verus!
