//! The life of one tool invocation: how the child is set up, and how the way
//! it started and ended is turned into a result.
//!
//! Starting the child, reading its error stream and waiting for it are done
//! by the caller. The functions here say what to set up beforehand and what
//! each outcome means. The command is handed over as the text that shows it
//! in messages, the program as the text of its path.

use vstd::prelude::*;
use vstd::string::*;
use crate::error::{
    failure, io_cause_of, io_error_cause, io_error_debug_text, Error, ErrorKind, ErrorView,
    IoCause,
};
use crate::forwarder::{
    feed_lines, lemma_feed_finishes_iff_stream_ends, lemma_finished_is_idle, lines_view,
    stream_goes_on, ReadOutcome, StderrForwarder,
};
use crate::output::{debug_lines, texts_view, CargoOutput, DebugOutput, StdioKind};

verus! {

/// How the attempt to start the child ended.
pub enum SpawnOutcome {
    /// The child runs.
    Started,
    /// The program could not be found.
    NotFound,
    /// The child could not be started for another reason, shown by the text.
    Failed(String),
}

/// How waiting for the child ended.
pub enum WaitOutcome {
    /// The child has exited.
    Exited {
        /// Whether it exited with status code zero.
        success: bool,
        /// The text that shows its exit status.
        status: String,
    },
    /// Its status could not be obtained, for the reason shown by the text.
    Failed(String),
}

/// What is set up before the child is started.
pub struct SpawnSetup {
    /// Where the child's error stream goes.
    pub stderr: StdioKind,
    /// Where the child's standard output goes.
    pub stdout: StdioKind,
    /// Where the command's error stream is pointed once the attempt to start
    /// the child is over, whether it succeeded or not.
    pub stderr_after: StdioKind,
    /// The diagnostic lines that announce the command.
    pub debug: DebugOutput,
}

/// What waiting for the child amounts to.
pub struct Waited {
    /// Whether the invocation succeeded.
    pub result: Result<(), Error>,
    /// The diagnostic lines that show the exit status.
    pub debug: DebugOutput,
}

/// The outcome that a failed attempt to start the child amounts to, from its
/// cause and the text that shows the failure.
pub open spec fn failed_spawn(cause: IoCause, text: String) -> SpawnOutcome {
    if cause == IoCause::NotFound {
        SpawnOutcome::NotFound
    } else {
        SpawnOutcome::Failed(text)
    }
}

impl SpawnOutcome {
    /// The outcome of a failed attempt to start the child.
    pub fn of_failure(cause: IoCause, text: String) -> (outcome: SpawnOutcome)
        ensures
            outcome == failed_spawn(cause, text),
    {
        match cause {
            IoCause::NotFound => SpawnOutcome::NotFound,
            _ => SpawnOutcome::Failed(text),
        }
    }

    /// The outcome of an attempt to start the child: started where there is
    /// no error, else what the error amounts to.
    pub fn of_spawn(attempt: Result<(), std::io::Error>) -> (outcome: SpawnOutcome)
        ensures
            (attempt is Ok) == (outcome is Started),
            attempt matches Err(error) ==> (outcome is NotFound) == (io_cause_of(error)
                == IoCause::NotFound),
    {
        match attempt {
            Ok(_) => SpawnOutcome::Started,
            Err(error) => {
                let cause = io_error_cause(&error);
                let text = io_error_debug_text(&error);
                SpawnOutcome::of_failure(cause, text)
            },
        }
    }
}

/// The message for a program that could not be found.
pub open spec fn not_found_message(program: Seq<char>, on_windows: bool) -> Seq<char> {
    let base = "Failed to find tool. Is `"@ + program + "` installed?"@;
    if on_windows {
        base + " (see https://docs.rs/cc/latest/cc/#compile-time-requirements for help)"@
    } else {
        base
    }
}

/// The message for a child that could not be started.
pub open spec fn start_failure_message(cmd: Seq<char>, program: Seq<char>, cause: Seq<char>) -> Seq<
    char,
> {
    "Command "@ + cmd + " with args "@ + program + " failed to start: "@ + cause
}

/// The message for a child whose status could not be obtained.
pub open spec fn wait_failure_message(cmd: Seq<char>, program: Seq<char>, cause: Seq<char>) -> Seq<
    char,
> {
    "Failed to wait on spawned child process, command "@ + cmd + " with args "@ + program + ": "@
        + cause + "."@
}

/// The message for a child that exited without success.
pub open spec fn exit_failure_message(cmd: Seq<char>, program: Seq<char>, status: Seq<char>) -> Seq<
    char,
> {
    "Command "@ + cmd + " with args "@ + program + " did not execute successfully (status code "@
        + status + ")."@
}

/// The error, if any, that the attempt to start the child ends in.
pub open spec fn spawn_failure(
    cmd: Seq<char>,
    program: Seq<char>,
    outcome: SpawnOutcome,
    on_windows: bool,
) -> Option<ErrorView> {
    match outcome {
        SpawnOutcome::Started => None,
        SpawnOutcome::NotFound => Some(
            ErrorView {
                kind: ErrorKind::ToolNotFound,
                message: not_found_message(program, on_windows),
            },
        ),
        SpawnOutcome::Failed(cause) => Some(
            ErrorView {
                kind: ErrorKind::ToolExecError,
                message: start_failure_message(cmd, program, cause@),
            },
        ),
    }
}

/// The error, if any, that waiting for the child ends in.
pub open spec fn wait_failure(cmd: Seq<char>, program: Seq<char>, outcome: WaitOutcome) -> Option<
    ErrorView,
> {
    match outcome {
        WaitOutcome::Exited { success, status } => if success {
            None
        } else {
            Some(
                ErrorView {
                    kind: ErrorKind::ToolExecError,
                    message: exit_failure_message(cmd, program, status@),
                },
            )
        },
        WaitOutcome::Failed(cause) => Some(
            ErrorView {
                kind: ErrorKind::ToolExecError,
                message: wait_failure_message(cmd, program, cause@),
            },
        ),
    }
}

/// What to set up before the child is started: its error stream is captured
/// where warnings are forwarded and discarded otherwise, its standard output
/// is this process's own, and the command is announced on the diagnostic
/// channel. After the attempt the command's error stream is pointed back to
/// this process's own, so that no writing end of a pipe is left open.
pub fn prepare_spawn(cmd: &str, cargo_output: &CargoOutput, announced: bool) -> (setup: SpawnSetup)
    ensures
        setup.stderr == (if cargo_output.warnings {
            StdioKind::Piped
        } else {
            StdioKind::Null
        }),
        setup.stdout == StdioKind::Inherit,
        setup.stderr_after == StdioKind::Inherit,
        texts_view(setup.debug.lines) == debug_lines(
            *cargo_output,
            announced,
            "running: "@ + cmd@,
        ),
        setup.debug.announced == (announced || cargo_output.metadata),
{
    let line = String::from_str("running: ").concat(cmd);
    let debug = cargo_output.print_debug(announced, line.as_str());
    SpawnSetup {
        stderr: cargo_output.stdio_for_warnings(),
        stdout: cargo_output.stdio_for_output(),
        stderr_after: StdioKind::Inherit,
        debug,
    }
}

/// Turns the outcome of starting the child into a result: success where it
/// runs, `ToolNotFound` where the program was not found (on Windows with a
/// pointer to help), `ToolExecError` with command and cause otherwise.
pub fn spawn(cmd: &str, program: &str, outcome: &SpawnOutcome, on_windows: bool) -> (result: Result<
    (),
    Error,
>)
    ensures
        failure(result) == spawn_failure(cmd@, program@, *outcome, on_windows),
{
    match outcome {
        SpawnOutcome::Started => Ok(()),
        SpawnOutcome::NotFound => {
            let base = String::from_str("Failed to find tool. Is `").concat(program).concat(
                "` installed?",
            );
            let message = if on_windows {
                base.concat(
                    " (see https://docs.rs/cc/latest/cc/#compile-time-requirements for help)",
                )
            } else {
                base
            };
            Err(Error::new(ErrorKind::ToolNotFound, message))
        },
        SpawnOutcome::Failed(cause) => {
            let message = String::from_str("Command ").concat(cmd).concat(" with args ").concat(
                program,
            ).concat(" failed to start: ").concat(cause.as_str());
            Err(Error::new(ErrorKind::ToolExecError, message))
        },
    }
}

/// Turns the outcome of waiting for the child into a result, once its error
/// stream has been forwarded to the end: success where it exited with status
/// zero, else `ToolExecError` with the command and the status or the cause.
/// The exit status, where there is one, goes to the diagnostic channel.
pub fn wait_on_child(
    cmd: &str,
    program: &str,
    forwarder: &StderrForwarder,
    outcome: &WaitOutcome,
    cargo_output: &CargoOutput,
    announced: bool,
) -> (waited: Waited)
    requires
        forwarder@ is None,
    ensures
        failure(waited.result) == wait_failure(cmd@, program@, *outcome),
        texts_view(waited.debug.lines) == (match *outcome {
            WaitOutcome::Exited { success, status } => debug_lines(
                *cargo_output,
                announced,
                status@,
            ),
            WaitOutcome::Failed(_) => Seq::empty(),
        }),
        waited.debug.announced == (announced || (cargo_output.metadata && outcome is Exited)),
{
    match outcome {
        WaitOutcome::Failed(cause) => {
            let message = String::from_str(
                "Failed to wait on spawned child process, command ",
            ).concat(cmd).concat(" with args ").concat(program).concat(": ").concat(
                cause.as_str(),
            ).concat(".");
            let lines: Vec<String> = Vec::new();
            assert(texts_view(lines) =~= Seq::<Seq<char>>::empty());
            Waited {
                result: Err(Error::new(ErrorKind::ToolExecError, message)),
                debug: DebugOutput { lines, announced },
            }
        },
        WaitOutcome::Exited { success, status } => {
            let debug = cargo_output.print_debug(announced, status.as_str());
            if *success {
                Waited { result: Ok(()), debug }
            } else {
                let message = String::from_str("Command ").concat(cmd).concat(
                    " with args ",
                ).concat(program).concat(" did not execute successfully (status code ").concat(
                    status.as_str(),
                ).concat(").");
                Waited { result: Err(Error::new(ErrorKind::ToolExecError, message)), debug }
            }
        },
    }
}

/// What one invocation amounts to.
pub struct Invocation {
    /// Whether the invocation succeeded.
    pub result: Result<(), Error>,
    /// The lines of the child's error stream that were forwarded, in order.
    pub warnings: Vec<Vec<u8>>,
    /// The diagnostic lines, in order.
    pub debug: DebugOutput,
}

/// The state in which the forwarder of a child starts: ready where the
/// child's error stream is captured, finished where it is not.
pub open spec fn forwarder_start(cargo_output: CargoOutput) -> Option<Seq<u8>> {
    if cargo_output.warnings {
        Some(Seq::empty())
    } else {
        None
    }
}

/// The diagnostic lines of an invocation: the command, then the exit status
/// if the child was started and waited for with success.
pub open spec fn run_debug_lines(
    cmd: Seq<char>,
    cargo_output: CargoOutput,
    announced: bool,
    spawned: SpawnOutcome,
    waited: WaitOutcome,
) -> Seq<Seq<char>> {
    let first = debug_lines(cargo_output, announced, "running: "@ + cmd);
    match (spawned, waited) {
        (SpawnOutcome::Started, WaitOutcome::Exited { success, status }) => first + debug_lines(
            cargo_output,
            announced || cargo_output.metadata,
            status@,
        ),
        _ => first,
    }
}

/// One invocation from its outcomes, in the order in which they occur: the
/// child is started; its error stream is forwarded to the end; only then is
/// the child waited for and its exit status turned into the result. Where
/// the child could not be started nothing is read or waited for, and the
/// result is the error of that attempt. Where the stream is captured, one of
/// the reads must end it, as one of a child that exits does; reads that
/// would block before that are waited out.
pub fn run(
    cmd: &str,
    program: &str,
    cargo_output: &CargoOutput,
    announced: bool,
    on_windows: bool,
    spawned: &SpawnOutcome,
    reads: &[ReadOutcome],
    waited: &WaitOutcome,
) -> (invocation: Invocation)
    requires
        *spawned is Started && cargo_output.warnings ==> !stream_goes_on(reads@),
    ensures
        failure(invocation.result) == (if *spawned is Started {
            wait_failure(cmd@, program@, *waited)
        } else {
            spawn_failure(cmd@, program@, *spawned, on_windows)
        }),
        lines_view(invocation.warnings) == (if *spawned is Started {
            feed_lines(forwarder_start(*cargo_output), reads@)
        } else {
            Seq::empty()
        }),
        texts_view(invocation.debug.lines) == run_debug_lines(
            cmd@,
            *cargo_output,
            announced,
            *spawned,
            *waited,
        ),
        invocation.debug.announced == (announced || cargo_output.metadata),
{
    let setup = prepare_spawn(cmd, cargo_output, announced);
    let started = spawn(cmd, program, spawned, on_windows);
    match started {
        Err(error) => {
            let warnings: Vec<Vec<u8>> = Vec::new();
            assert(lines_view(warnings) =~= Seq::<Seq<u8>>::empty());
            Invocation { result: Err(error), warnings, debug: setup.debug }
        },
        Ok(_) => {
            let mut forwarder = StderrForwarder::new(setup.stderr == StdioKind::Piped);
            proof {
                lemma_feed_finishes_iff_stream_ends(Seq::empty(), reads@);
                lemma_finished_is_idle(reads@);
            }
            let warnings = forwarder.forward_all(reads).lines;
            let end = wait_on_child(
                cmd,
                program,
                &forwarder,
                waited,
                cargo_output,
                setup.debug.announced,
            );
            let mut lines = setup.debug.lines;
            let mut more = end.debug.lines;
            let ghost first = texts_view(lines);
            let ghost second = texts_view(more);
            lines.append(&mut more);
            assert(texts_view(lines) =~= first + second);
            assert(first + Seq::<Seq<char>>::empty() =~= first);
            Invocation {
                result: end.result,
                warnings,
                debug: DebugOutput { lines, announced: end.debug.announced },
            }
        },
    }
}

} // verus!
