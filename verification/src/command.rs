//! What the end of an external command means.
//!
//! Commands are run by the caller. A short command is waited for, and its captured
//! output decides; a long command runs in the foreground while the caller also listens
//! for an interrupt, and `spawn_step` says what to do on each event.
use vstd::prelude::*;
use vstd::string::StringExecFns;

verus! {

/// How a command that was waited for ended.
pub enum Completion {
    /// The process ran and exited.
    Exited { success: bool, stdout: String, stderr: String },
    /// The process could not be run or waited for; the text says why.
    Failed(String),
}

/// The result of a short command as texts: its output where it exited with success,
/// its error output where it exited otherwise, and a message where it did not run.
pub open spec fn run_outcome(completion: Completion) -> Result<Seq<char>, Seq<char>> {
    match completion {
        Completion::Exited { success, stdout, stderr } => if success {
            Ok(stdout@)
        } else {
            Err(stderr@)
        },
        Completion::Failed(reason) => Err("\u{1f6d1} Failed to check result: "@ + reason@),
    }
}

/// The result of a short command: its output, or what it printed as errors.
pub fn run_result(completion: Completion) -> (r: Result<String, String>)
    ensures
        match r {
            Ok(out) => run_outcome(completion) == Ok::<Seq<char>, Seq<char>>(out@),
            Err(e) => run_outcome(completion) == Err::<Seq<char>, Seq<char>>(e@),
        },
{
    match completion {
        Completion::Exited { success, stdout, stderr } => if success {
            Ok(stdout)
        } else {
            Err(stderr)
        },
        Completion::Failed(reason) => {
            let mut message = "\u{1f6d1} Failed to check result: ".to_owned();
            message.append(reason.as_str());
            Err(message)
        },
    }
}

/// The result of a long command as texts: nothing where it exited with success, else
/// a message.
pub open spec fn spawn_outcome(completion: Completion) -> Result<(), Seq<char>> {
    match completion {
        Completion::Exited { success, stdout, stderr } => if success {
            Ok(())
        } else {
            Err("\u{1f6d1} Command failed"@)
        },
        Completion::Failed(reason) => Err("\u{1f6d1} Failed to get command status: "@ + reason@),
    }
}

/// The result of a long command that ran to its end.
pub fn spawn_result(completion: Completion) -> (r: Result<(), String>)
    ensures
        match r {
            Ok(_) => spawn_outcome(completion) == Ok::<(), Seq<char>>(()),
            Err(e) => spawn_outcome(completion) == Err::<(), Seq<char>>(e@),
        },
{
    match completion {
        Completion::Exited { success, stdout, stderr } => if success {
            Ok(())
        } else {
            Err("\u{1f6d1} Command failed".to_owned())
        },
        Completion::Failed(reason) => {
            let mut message = "\u{1f6d1} Failed to get command status: ".to_owned();
            message.append(reason.as_str());
            Err(message)
        },
    }
}

/// Where a foreground command stands.
#[derive(Debug, Clone, Copy, PartialEq, Eq, Structural)]
pub enum SpawnState {
    /// The child runs and nothing has happened.
    Running,
    /// An interrupt came and the child is being terminated.
    Terminating,
    /// The command is over.
    Over,
}

/// What happened while a foreground command ran.
#[derive(Debug, Clone, Copy, PartialEq, Eq, Structural)]
pub enum SpawnEvent {
    /// The user interrupted the program.
    Interrupted,
    /// The request to terminate the child was made, with or without success.
    Terminated { success: bool },
    /// The child exited by itself, with or without success.
    Exited { success: bool },
}

/// What the caller does next for a foreground command.
#[derive(Debug, Clone, Copy, PartialEq, Eq, Structural)]
pub enum SpawnAction {
    /// Go on waiting.
    Wait,
    /// Terminate the child.
    Terminate,
    /// End the whole program with this status.
    ExitProgram(i32),
    /// The command is over; the flag says whether it succeeded.
    Return { success: bool },
}

/// The state and the action that follow an event: an interrupt has the child
/// terminated, and once that is done the program ends, with status 0 where the child
/// could be terminated and 1 where not; a child that exits by itself ends the command
/// with its own success or failure.
pub open spec fn spawn_next(state: SpawnState, event: SpawnEvent) -> (SpawnState, SpawnAction) {
    match (state, event) {
        (SpawnState::Running, SpawnEvent::Interrupted) => (
            SpawnState::Terminating,
            SpawnAction::Terminate,
        ),
        (SpawnState::Running, SpawnEvent::Exited { success }) => (
            SpawnState::Over,
            SpawnAction::Return { success },
        ),
        (SpawnState::Terminating, SpawnEvent::Terminated { success }) => (
            SpawnState::Over,
            SpawnAction::ExitProgram(
                if success {
                    0i32
                } else {
                    1i32
                },
            ),
        ),
        _ => (state, SpawnAction::Wait),
    }
}

/// Takes one event of a foreground command.
pub fn spawn_step(state: SpawnState, event: SpawnEvent) -> (r: (SpawnState, SpawnAction))
    ensures
        r == spawn_next(state, event),
{
    match state {
        SpawnState::Running => match event {
            SpawnEvent::Interrupted => (SpawnState::Terminating, SpawnAction::Terminate),
            SpawnEvent::Exited { success } => (SpawnState::Over, SpawnAction::Return { success }),
            SpawnEvent::Terminated { success } => (state, SpawnAction::Wait),
        },
        SpawnState::Terminating => match event {
            SpawnEvent::Terminated { success } => if success {
                (SpawnState::Over, SpawnAction::ExitProgram(0))
            } else {
                (SpawnState::Over, SpawnAction::ExitProgram(1))
            },
            _ => (state, SpawnAction::Wait),
        },
        SpawnState::Over => (state, SpawnAction::Wait),
    }
}

/// The status with which the program ends after its foreground command: 0 where the
/// command succeeded, 1 where it failed.
pub fn exit_code(success: bool) -> (r: i32)
    ensures
        r == if success {
            0i32
        } else {
            1i32
        },
{
    if success {
        0
    } else {
        1
    }
}

} // verus!
