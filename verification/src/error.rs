//! The errors that running a tool can end in.

use vstd::prelude::*;
use vstd::string::*;

verus! {

/// The kinds of error that can occur.
#[derive(Clone, Copy, Debug, PartialEq, Eq, Structural)]
pub enum ErrorKind {
    /// Input or output failed, apart from any particular tool.
    IOError,
    /// A tool was started, or should have been, and did not run to success.
    ToolExecError,
    /// A tool could not be found.
    ToolNotFound,
}

/// The causes of a failed input or output operation that are told apart.
#[derive(Clone, Copy, Debug, PartialEq, Eq, Structural)]
pub enum IoCause {
    /// Nothing is available right now, on a stream that does not block.
    WouldBlock,
    /// The operation was interrupted and can be tried again.
    Interrupted,
    /// What was asked for does not exist.
    NotFound,
    /// Anything else.
    Other,
}

/// An error with its kind and an explanation for a human reader.
#[derive(Clone, Debug)]
pub struct Error {
    kind: ErrorKind,
    message: String,
}

/// Declares the error type of the standard library's input and output, so
/// that it can be taken as an argument. Nothing is known of its contents.
#[verifier::external_type_specification]
#[verifier::external_body]
pub struct ExIoError(std::io::Error);

/// What an error holds.
pub struct ErrorView {
    pub kind: ErrorKind,
    pub message: Seq<char>,
}

/// The name under which a kind is shown.
pub open spec fn kind_name(kind: ErrorKind) -> Seq<char> {
    match kind {
        ErrorKind::IOError => "IOError"@,
        ErrorKind::ToolExecError => "ToolExecError"@,
        ErrorKind::ToolNotFound => "ToolNotFound"@,
    }
}

/// The text that shows an error: its kind, a colon and a space, its
/// message.
pub open spec fn error_text(error: ErrorView) -> Seq<char> {
    kind_name(error.kind) + ": "@ + error.message
}

/// The error of a result, if it is one.
pub open spec fn failure(result: Result<(), Error>) -> Option<ErrorView> {
    match result {
        Ok(_) => None,
        Err(error) => Some(error@),
    }
}

impl View for Error {
    type V = ErrorView;

    closed spec fn view(&self) -> ErrorView {
        ErrorView { kind: self.kind, message: self.message@ }
    }
}

impl Error {
    /// An error of the given kind with the given message.
    pub fn new(kind: ErrorKind, message: String) -> (error: Error)
        ensures
            error@ == (ErrorView { kind, message: message@ }),
    {
        Error { kind, message }
    }

    /// An input or output failure, described by `text`.
    pub fn from_io(text: String) -> (error: Error)
        ensures
            error@ == (ErrorView { kind: ErrorKind::IOError, message: text@ }),
    {
        Error::new(ErrorKind::IOError, text)
    }

    /// The kind of the error.
    pub fn kind(&self) -> (kind: ErrorKind)
        ensures
            kind == self@.kind,
    {
        self.kind
    }

    /// The explanation of the error.
    pub fn message(&self) -> (message: &str)
        ensures
            message@ == self@.message,
    {
        self.message.as_str()
    }

    /// The text that shows the error.
    pub fn to_text(&self) -> (text: String)
        ensures
            text@ == error_text(self@),
    {
        let name = match self.kind {
            ErrorKind::IOError => "IOError",
            ErrorKind::ToolExecError => "ToolExecError",
            ErrorKind::ToolNotFound => "ToolNotFound",
        };
        String::from_str(name).concat(": ").concat(self.message.as_str())
    }
}

/// The text that `std::fmt::Display` gives for an input or output error.
/// Nothing is claimed of it: the text of an error of the operating system
/// depends on the platform.
#[verifier::external_body]
pub(crate) fn io_error_text(error: &std::io::Error) -> (text: String) {
    format!("{}", error)
}

/// The text that `std::fmt::Debug` gives for an input or output error.
/// Nothing is claimed of it.
#[verifier::external_body]
pub(crate) fn io_error_debug_text(error: &std::io::Error) -> (text: String) {
    format!("{:?}", error)
}

/// The cause of an input or output error: what `std::io::Error::kind` gives
/// for it, with every kind that is not told apart taken as `Other`. The kind
/// is fixed by the error alone.
pub uninterp spec fn io_cause_of(error: std::io::Error) -> IoCause;

/// The cause of an input or output error, as `std::io::Error::kind` gives
/// it: the result is the cause that the error has, and nothing more is
/// claimed of it.
#[verifier::external_body]
pub(crate) fn io_error_cause(error: &std::io::Error) -> (cause: IoCause)
    ensures
        cause == io_cause_of(*error),
{
    match error.kind() {
        std::io::ErrorKind::WouldBlock => IoCause::WouldBlock,
        std::io::ErrorKind::Interrupted => IoCause::Interrupted,
        std::io::ErrorKind::NotFound => IoCause::NotFound,
        _ => IoCause::Other,
    }
}

impl vstd::std_specs::convert::FromSpecImpl<std::io::Error> for Error {
    open spec fn obeys_from_spec() -> bool {
        false
    }

    open spec fn from_spec(error: std::io::Error) -> Error {
        arbitrary()
    }
}

impl From<std::io::Error> for Error {
    /// An input or output failure becomes an `IOError` whose message is the
    /// text that shows the failure.
    fn from(error: std::io::Error) -> (converted: Error)
        ensures
            converted@.kind == ErrorKind::IOError,
    {
        let text = io_error_text(&error);
        Error::from_io(text)
    }
}

} // verus!
