//! The error taxonomy of the interpreter.

use vstd::prelude::*;
use vstd::string::*;

verus! {

/// What can go wrong while a line is parsed or executed.
///
/// Callers tell the kinds apart by matching on the variant, never by reading
/// the message text.
#[derive(Debug, PartialEq, Eq)]
pub enum ShellError {
    /// A filesystem or pipe failure, with the message of the operating system.
    Io(String),
    /// A failure of the line editor.
    LineEditor(String),
    /// The program of a command could not be found.
    CommandNotFound { program: String },
    /// A program was found but could not be started.
    ExecFailed { program: String, message: String },
    /// Parse errors, empty commands, malformed redirects, failed pipeline
    /// stages and failed expansions.
    Other(String),
}

/// The mathematical value of a [`ShellError`].
pub ghost enum ErrorView {
    Io(Seq<char>),
    LineEditor(Seq<char>),
    CommandNotFound { program: Seq<char> },
    ExecFailed { program: Seq<char>, message: Seq<char> },
    Other(Seq<char>),
}

impl View for ShellError {
    type V = ErrorView;

    open spec fn view(&self) -> ErrorView {
        match self {
            ShellError::Io(m) => ErrorView::Io(m@),
            ShellError::LineEditor(m) => ErrorView::LineEditor(m@),
            ShellError::CommandNotFound { program } => ErrorView::CommandNotFound { program: program@ },
            ShellError::ExecFailed { program, message } => ErrorView::ExecFailed {
                program: program@,
                message: message@,
            },
            ShellError::Other(m) => ErrorView::Other(m@),
        }
    }
}

impl ErrorView {
    /// The text shown to the user for this error.
    pub open spec fn message(self) -> Seq<char> {
        match self {
            ErrorView::Io(m) => m,
            ErrorView::LineEditor(m) => m,
            ErrorView::CommandNotFound { program } => "command not found: "@ + program,
            ErrorView::ExecFailed { program, message } => program + ": "@ + message,
            ErrorView::Other(m) => m,
        }
    }

    /// The exit status that a failed start of a foreground program maps to:
    /// 127 when the program was not found, 126 when it could not be started,
    /// 1 for anything else.
    pub open spec fn spawn_status(self) -> int {
        match self {
            ErrorView::CommandNotFound { .. } => 127,
            ErrorView::ExecFailed { .. } => 126,
            _ => 1,
        }
    }
}

impl ShellError {
    /// Builds the generic error that carries only a message.
    pub fn other(message: &str) -> (e: ShellError)
        ensures
            e@ == ErrorView::Other(message@),
    {
        ShellError::Other(message.to_owned())
    }

    /// A copy of this error.
    pub fn duplicate(&self) -> (copy: ShellError)
        ensures
            copy@ == self@,
    {
        match self {
            ShellError::Io(m) => ShellError::Io(m.clone()),
            ShellError::LineEditor(m) => ShellError::LineEditor(m.clone()),
            ShellError::CommandNotFound { program } => ShellError::CommandNotFound {
                program: program.clone(),
            },
            ShellError::ExecFailed { program, message } => ShellError::ExecFailed {
                program: program.clone(),
                message: message.clone(),
            },
            ShellError::Other(m) => ShellError::Other(m.clone()),
        }
    }

    /// The text shown to the user for this error.
    pub fn message(&self) -> (text: String)
        ensures
            text@ == self@.message(),
    {
        match self {
            ShellError::Io(m) => m.clone(),
            ShellError::LineEditor(m) => m.clone(),
            ShellError::CommandNotFound { program } => {
                let mut text = "command not found: ".to_owned();
                text.append(program.as_str());
                text
            },
            ShellError::ExecFailed { program, message } => {
                let mut text = program.clone();
                text.append(": ");
                text.append(message.as_str());
                text
            },
            ShellError::Other(m) => m.clone(),
        }
    }

    /// The exit status reported for a foreground program that failed to start.
    pub fn spawn_status(&self) -> (status: i32)
        ensures
            status == self@.spawn_status(),
    {
        match self {
            ShellError::CommandNotFound { .. } => 127,
            ShellError::ExecFailed { .. } => 126,
            _ => 1,
        }
    }
}

} // verus!
