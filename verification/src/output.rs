//! How the output of a child process is routed, and what is printed for
//! diagnosis.

use vstd::prelude::*;
use vstd::string::*;

verus! {

/// What is done with the child's standard output.
#[derive(Clone, Copy, Debug, PartialEq, Eq, Structural)]
pub enum OutputKind {
    /// It goes to this process's own standard output.
    Forward,
}

/// Where one of the child's streams is connected.
#[derive(Clone, Copy, Debug, PartialEq, Eq, Structural)]
pub enum StdioKind {
    /// To the stream of the same name of this process.
    Inherit,
    /// To a pipe that this process reads.
    Piped,
    /// Nowhere: what is written is discarded.
    Null,
}

/// The routing of a child's output and the switch for diagnostic printing.
#[derive(Clone, Copy, Debug, PartialEq, Eq, Structural)]
pub struct CargoOutput {
    /// Directives for the build orchestrator are printed.
    pub metadata: bool,
    /// The child's error stream is captured and forwarded as warnings.
    pub warnings: bool,
    /// Diagnostic lines are printed.
    pub debug: bool,
    /// What is done with the child's standard output.
    pub output: OutputKind,
}

/// What one diagnostic message leads to.
pub struct DebugOutput {
    /// The lines to print, in order.
    pub lines: Vec<String>,
    /// Whether the directive has been printed by now.
    pub announced: bool,
}

/// The contents of a sequence of texts.
pub open spec fn texts_of(texts: Seq<String>) -> Seq<Seq<char>> {
    Seq::new(texts.len(), |i: int| texts[i]@)
}

/// The contents of a list of texts.
pub open spec fn texts_view(texts: Vec<String>) -> Seq<Seq<char>> {
    texts_of(texts@)
}

/// The directive that tells the orchestrator which environment variable
/// switches diagnostic printing on.
pub open spec fn debug_directive() -> Seq<char> {
    "cargo:rerun-if-env-changed=CC_ENABLE_DEBUG_OUTPUT"@
}

/// The lines printed for the diagnostic message `arg`: first the directive,
/// where directives are printed and this one has not been yet, then the
/// message, where diagnostic printing is on.
pub open spec fn debug_lines(policy: CargoOutput, announced: bool, arg: Seq<char>) -> Seq<
    Seq<char>,
> {
    let first = if policy.metadata && !announced {
        seq![debug_directive()]
    } else {
        Seq::empty()
    };
    if policy.debug {
        first.push(arg)
    } else {
        first
    }
}

impl CargoOutput {
    /// The usual routing: directives and warnings on, standard output
    /// forwarded. `debug` says whether diagnostic printing was asked for.
    pub fn new(debug: bool) -> (policy: CargoOutput)
        ensures
            policy == (CargoOutput {
                metadata: true,
                warnings: true,
                debug,
                output: OutputKind::Forward,
            }),
    {
        CargoOutput { metadata: true, warnings: true, debug, output: OutputKind::Forward }
    }

    /// The lines to print for one diagnostic message. `announced` says
    /// whether the directive was printed before; the answer says whether it
    /// has been printed now, so that it is printed at most once.
    pub fn print_debug(&self, announced: bool, arg: &str) -> (out: DebugOutput)
        ensures
            texts_view(out.lines) == debug_lines(*self, announced, arg@),
            out.announced == (announced || self.metadata),
    {
        let mut lines: Vec<String> = Vec::new();
        if self.metadata && !announced {
            lines.push(String::from_str("cargo:rerun-if-env-changed=CC_ENABLE_DEBUG_OUTPUT"));
        }
        if self.debug {
            lines.push(String::from_str(arg));
        }
        assert(texts_view(lines) =~= debug_lines(*self, announced, arg@));
        DebugOutput { lines, announced: announced || self.metadata }
    }

    /// Where the child's error stream goes: into a pipe where warnings are
    /// forwarded, else nowhere.
    pub fn stdio_for_warnings(&self) -> (stdio: StdioKind)
        ensures
            stdio == (if self.warnings {
                StdioKind::Piped
            } else {
                StdioKind::Null
            }),
    {
        if self.warnings {
            StdioKind::Piped
        } else {
            StdioKind::Null
        }
    }

    /// Where the child's standard output goes.
    pub fn stdio_for_output(&self) -> (stdio: StdioKind)
        ensures
            stdio == StdioKind::Inherit,
    {
        match self.output {
            OutputKind::Forward => StdioKind::Inherit,
        }
    }
}

} // verus!
