//! Blocking of processes: rules that drop what a process sends, and the book
//! of the rules that are in place.

pub mod laws;
pub mod ports;
pub mod rules;
pub mod session;

use vstd::prelude::*;

use crate::text;

verus! {

/// Why a control action failed.
#[derive(Clone, Debug)]
pub enum ControllerError {
    Io(String),
    Nft(String),
    Parse(String),
}

/// The message of an error.
pub open spec fn controller_message(error: ControllerError) -> Seq<char> {
    match error {
        ControllerError::Io(cause) => "io error: "@ + cause@,
        ControllerError::Nft(cause) => "nft command failed: "@ + cause@,
        ControllerError::Parse(cause) => "parse error: "@ + cause@,
    }
}

impl ControllerError {
    /// The message shown for the error.
    pub fn message(&self) -> (text: String)
        ensures
            text@ == controller_message(*self),
    {
        let (label, cause) = match self {
            ControllerError::Io(cause) => ("io error: ", cause),
            ControllerError::Nft(cause) => ("nft command failed: ", cause),
            ControllerError::Parse(cause) => ("parse error: ", cause),
        };
        let mut text = label.to_string();
        text.append(cause.as_str());
        text
    }
}

/// How a run of `nft` with arguments ended.
#[derive(Clone, Debug)]
pub enum CommandOutcome {
    /// It could not be run; `not_found` tells that there is no such program.
    Failed { not_found: bool, reason: String },
    /// It ran to its end.
    Exited { success: bool, stdout: String, stderr: String },
}

/// How a run of `nft` on a script ended.
#[derive(Clone, Debug)]
pub enum ScriptOutcome {
    /// It could not be started; `not_found` tells that there is no such program.
    NotStarted { not_found: bool, reason: String },
    /// The script could not be handed over.
    WriteFailed(String),
    /// Its end could not be awaited.
    WaitFailed(String),
    /// It ran to its end.
    Exited { success: bool, stdout: String, stderr: String },
}

/// What is said when `nft` could not be started.
pub open spec fn start_failure(not_found: bool, reason: Seq<char>) -> Seq<char> {
    if not_found {
        "Blocking failed: nft not found. Install with: sudo apt-get install nftables"@
    } else {
        "failed to run nft: "@ + reason
    }
}

/// The result of a command. With `ignore_exists` it is no failure that what
/// should be made is already there.
pub open spec fn command_result(outcome: CommandOutcome, ignore_exists: bool) -> Result<
    (),
    Seq<char>,
> {
    match outcome {
        CommandOutcome::Failed { not_found, reason } => Err(start_failure(not_found, reason@)),
        CommandOutcome::Exited { success, stderr, .. } => if success || (ignore_exists
            && text::occurs(stderr@, "File exists"@)) {
            Ok(())
        } else {
            Err("nft command error: "@ + stderr@)
        },
    }
}

/// The result of a script.
pub open spec fn script_result(outcome: ScriptOutcome) -> Result<(), Seq<char>> {
    match outcome {
        ScriptOutcome::NotStarted { not_found, reason } => Err(start_failure(not_found, reason@)),
        ScriptOutcome::WriteFailed(reason) => Err(
            "failed writing nft ruleset to stdin: "@ + reason@,
        ),
        ScriptOutcome::WaitFailed(reason) => Err("failed waiting on nft: "@ + reason@),
        ScriptOutcome::Exited { success, stdout, stderr } => if success {
            Ok(())
        } else {
            Err("nft failed. stdout: "@ + stdout@ + ". stderr: "@ + stderr@)
        },
    }
}

/// The handles of a process's rules, as a listing of the chain gives them.
pub open spec fn handles_result(outcome: CommandOutcome, pid: u32) -> Result<
    Seq<u64>,
    Seq<char>,
> {
    match outcome {
        CommandOutcome::Failed { reason, .. } => Err("failed to run nft list -a: "@ + reason@),
        CommandOutcome::Exited { success, stdout, stderr } => if success {
            Ok(rules::listed_handles(stdout@, pid))
        } else {
            Err("nft list -a failed: "@ + stderr@)
        },
    }
}

/// The handles of the rules that are made here, as a listing of the chain gives
/// them.
pub open spec fn own_handles_result(outcome: CommandOutcome) -> Result<Seq<u64>, Seq<char>> {
    match outcome {
        CommandOutcome::Failed { reason, .. } => Err("failed to run nft list -a: "@ + reason@),
        CommandOutcome::Exited { success, stdout, stderr } => if success {
            Ok(rules::own_handles(stdout@))
        } else {
            Err("nft list -a failed: "@ + stderr@)
        },
    }
}

/// The lines of the chain, as a listing gives them.
pub open spec fn listing_result(outcome: CommandOutcome) -> Result<Seq<Seq<char>>, Seq<char>> {
    match outcome {
        CommandOutcome::Failed { reason, .. } => Err("failed to run nft: "@ + reason@),
        CommandOutcome::Exited { success, stdout, stderr } => if success {
            Ok(text::lines(stdout@))
        } else {
            Err("nft list failed: "@ + stderr@)
        },
    }
}

/// `result` is `expected` with its text as characters.
pub open spec fn is_result(result: Result<(), String>, expected: Result<(), Seq<char>>) -> bool {
    match (result, expected) {
        (Ok(()), Ok(())) => true,
        (Err(reason), Err(text)) => reason@ == text,
        _ => false,
    }
}

/// Says that `nft` could not be started.
pub fn map_nft_spawn_error(not_found: bool, reason: &str) -> (text: String)
    ensures
        text@ == start_failure(not_found, reason@),
{
    if not_found {
        return "Blocking failed: nft not found. Install with: sudo apt-get install nftables".to_string();
    }
    text::followed_by("failed to run nft: ", reason)
}

/// Decides whether a command succeeded.
pub fn judge_nft_command(outcome: &CommandOutcome, ignore_exists: bool) -> (result: Result<
    (),
    String,
>)
    ensures
        is_result(result, command_result(*outcome, ignore_exists)),
{
    match outcome {
        CommandOutcome::Failed { not_found, reason } => Err(
            map_nft_spawn_error(*not_found, reason.as_str()),
        ),
        CommandOutcome::Exited { success, stderr, .. } => {
            if *success {
                return Ok(());
            }
            if ignore_exists {
                let errors = text::chars_of(stderr.as_str());
                let exists = text::chars_of("File exists");
                if text::contains_chars(errors.as_slice(), exists.as_slice()) {
                    return Ok(());
                }
            }
            Err(text::followed_by("nft command error: ", stderr.as_str()))
        },
    }
}

/// Decides whether a script succeeded.
pub fn judge_nft_script(outcome: &ScriptOutcome) -> (result: Result<(), String>)
    ensures
        is_result(result, script_result(*outcome)),
{
    match outcome {
        ScriptOutcome::NotStarted { not_found, reason } => Err(
            map_nft_spawn_error(*not_found, reason.as_str()),
        ),
        ScriptOutcome::WriteFailed(reason) => Err(
            text::followed_by("failed writing nft ruleset to stdin: ", reason.as_str()),
        ),
        ScriptOutcome::WaitFailed(reason) => Err(
            text::followed_by("failed waiting on nft: ", reason.as_str()),
        ),
        ScriptOutcome::Exited { success, stdout, stderr } => {
            if *success {
                return Ok(());
            }
            let mut text = "nft failed. stdout: ".to_string();
            text.append(stdout.as_str());
            text.append(". stderr: ");
            text.append(stderr.as_str());
            Err(text)
        },
    }
}

/// Finds the handles of a process's rules in a listing of the chain.
pub fn find_rule_handles_for_pid(outcome: &CommandOutcome, pid: u32) -> (result: Result<
    Vec<u64>,
    String,
>)
    ensures
        match (result, handles_result(*outcome, pid)) {
            (Ok(handles), Ok(expected)) => handles@ == expected,
            (Err(reason), Err(expected)) => reason@ == expected,
            _ => false,
        },
{
    match outcome {
        CommandOutcome::Failed { reason, .. } => Err(
            text::followed_by("failed to run nft list -a: ", reason.as_str()),
        ),
        CommandOutcome::Exited { success, stdout, stderr } => {
            if !*success {
                return Err(text::followed_by("nft list -a failed: ", stderr.as_str()));
            }
            Ok(rules::find_rule_handles(stdout.as_str(), pid))
        },
    }
}

/// Finds the handles of the rules that are made here in a listing of the chain.
pub fn find_own_rule_handles(outcome: &CommandOutcome) -> (result: Result<Vec<u64>, String>)
    ensures
        match (result, own_handles_result(*outcome)) {
            (Ok(handles), Ok(expected)) => handles@ == expected,
            (Err(reason), Err(expected)) => reason@ == expected,
            _ => false,
        },
{
    match outcome {
        CommandOutcome::Failed { reason, .. } => Err(
            text::followed_by("failed to run nft list -a: ", reason.as_str()),
        ),
        CommandOutcome::Exited { success, stdout, stderr } => {
            if !*success {
                return Err(text::followed_by("nft list -a failed: ", stderr.as_str()));
            }
            Ok(rules::find_own_handles(stdout.as_str()))
        },
    }
}

/// The lines of the chain, for display. `outcome` is that of the listing
/// command.
pub fn list_rules(outcome: &CommandOutcome) -> (result: Result<Vec<String>, String>)
    ensures
        match (result, listing_result(*outcome)) {
            (Ok(lines), Ok(expected)) => text::string_texts(lines@) == expected,
            (Err(reason), Err(expected)) => reason@ == expected,
            _ => false,
        },
{
    match outcome {
        CommandOutcome::Failed { reason, .. } => Err(
            text::followed_by("failed to run nft: ", reason.as_str()),
        ),
        CommandOutcome::Exited { success, stdout, stderr } => {
            if !*success {
                return Err(text::followed_by("nft list failed: ", stderr.as_str()));
            }
            let chars = text::chars_of(stdout.as_str());
            Ok(text::strings_of(&text::lines_of(chars.as_slice())))
        },
    }
}

/// Limits the rate of a process. No limit can be set yet, whatever the process
/// and the rate.
pub fn rate_limit_process(pid: u32, rate_kbps: u32) -> (result: Result<(), String>)
    ensures
        result matches Err(reason) && reason@ == "rate limiting is not implemented yet"@,
{
    let _ = (pid, rate_kbps);
    Err("rate limiting is not implemented yet".to_string())
}

} // verus!
