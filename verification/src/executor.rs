//! The executor's decisions: which action a command tree asks for next, and
//! what its status is once the outside world has answered.
//!
//! The executor never touches a process or a file. It is a function from a
//! tree and the events so far to the next action or to the final status: the
//! caller performs the action, appends the event that came of it, and asks
//! again. Run this way, a tree is evaluated strictly from left to right.

use vstd::prelude::*;
use vstd::string::*;

use crate::builtins::{BuiltinResult, BuiltinView};
use crate::error::{ErrorView, ShellError};
use crate::expand::{append_range, find_char, span_until};
use crate::numbers::{decimal, parse_unsigned, parse_usize, push_decimal, signed_decimal, format_signed};
use crate::parser::{CommandPart, TreeView};
use crate::text::{
    chars_of, join_spaced, join_words, push_char, same_text, string_of, texts, trim, trim_text,
};

verus! {

/// Something that the outside world is asked to do.
#[derive(Debug, PartialEq, Eq)]
pub enum Action {
    /// Print a line on standard output.
    Say { text: String },
    /// Print a line on the diagnostic stream.
    Complain { text: String },
    /// Hand an error to the diagnostics collaborator.
    Report { error: ShellError },
    /// Print all aliases.
    ListAliases,
    /// Define an alias and store the table.
    SetAlias { name: String, value: String },
    /// Remove an alias; answered by [`Event::Removed`].
    RemoveAlias { name: String },
    /// Sweep the job table and print the jobs that are left.
    ListJobs,
    /// Take the process handle of a job out of the table; answered by
    /// [`Event::Child`].
    TakeJob { id: usize },
    /// Wait for a process; answered by [`Event::Exited`].
    Wait { pid: u32 },
    /// Enter a started background process in the job table; answered by
    /// [`Event::Registered`].
    Register { command: String, pid: u32 },
    /// Ask the builtin dispatcher; answered by [`Event::Builtin`].
    Builtin { argv: Vec<String> },
    /// Run a program in the foreground on the interpreter's own streams;
    /// answered by [`Event::Exited`].
    Run { argv: Vec<String> },
    /// Start a program in the background; answered by [`Event::Started`].
    Spawn { argv: Vec<String> },
    /// Run a program to its end and collect its standard output, with
    /// `stdin` on its standard input where there is one; answered by
    /// [`Event::Captured`].
    Capture { argv: Vec<String>, stdin: Option<Vec<u8>> },
    /// Run a program with `input` on its standard input and its output on the
    /// interpreter's own streams; answered by [`Event::Exited`].
    Feed { argv: Vec<String>, input: Vec<u8> },
    /// Write `data` to a file, created where it is missing, at its end where
    /// `append` is set and in place of its contents otherwise.
    Write { file: String, append: bool, data: Vec<u8> },
    /// Read a whole file; answered by [`Event::Content`].
    Read { file: String },
    /// Start the clock for a timed command.
    StartTimer,
    /// Stop the clock and print the timing report.
    ReportTimer,
}

/// The mathematical value of an [`Action`].
pub ghost enum ActionView {
    Say { text: Seq<char> },
    Complain { text: Seq<char> },
    Report { error: ErrorView },
    ListAliases,
    SetAlias { name: Seq<char>, value: Seq<char> },
    RemoveAlias { name: Seq<char> },
    ListJobs,
    TakeJob { id: int },
    Wait { pid: u32 },
    Register { command: Seq<char>, pid: u32 },
    Builtin { argv: Seq<Seq<char>> },
    Run { argv: Seq<Seq<char>> },
    Spawn { argv: Seq<Seq<char>> },
    Capture { argv: Seq<Seq<char>>, stdin: Option<Seq<u8>> },
    Feed { argv: Seq<Seq<char>>, input: Seq<u8> },
    Write { file: Seq<char>, append: bool, data: Seq<u8> },
    Read { file: Seq<char> },
    StartTimer,
    ReportTimer,
}

impl View for Action {
    type V = ActionView;

    open spec fn view(&self) -> ActionView {
        match self {
            Action::Say { text } => ActionView::Say { text: text@ },
            Action::Complain { text } => ActionView::Complain { text: text@ },
            Action::Report { error } => ActionView::Report { error: error@ },
            Action::ListAliases => ActionView::ListAliases,
            Action::SetAlias { name, value } => ActionView::SetAlias { name: name@, value: value@ },
            Action::RemoveAlias { name } => ActionView::RemoveAlias { name: name@ },
            Action::ListJobs => ActionView::ListJobs,
            Action::TakeJob { id } => ActionView::TakeJob { id: *id as int },
            Action::Wait { pid } => ActionView::Wait { pid: *pid },
            Action::Register { command, pid } => ActionView::Register {
                command: command@,
                pid: *pid,
            },
            Action::Builtin { argv } => ActionView::Builtin { argv: texts(argv@) },
            Action::Run { argv } => ActionView::Run { argv: texts(argv@) },
            Action::Spawn { argv } => ActionView::Spawn { argv: texts(argv@) },
            Action::Capture { argv, stdin } => ActionView::Capture {
                argv: texts(argv@),
                stdin: match stdin {
                    Some(bytes) => Some(bytes@),
                    None => None,
                },
            },
            Action::Feed { argv, input } => ActionView::Feed { argv: texts(argv@), input: input@ },
            Action::Write { file, append, data } => ActionView::Write {
                file: file@,
                append: *append,
                data: data@,
            },
            Action::Read { file } => ActionView::Read { file: file@ },
            Action::StartTimer => ActionView::StartTimer,
            Action::ReportTimer => ActionView::ReportTimer,
        }
    }
}

/// What came of an action.
#[derive(Debug, PartialEq, Eq)]
pub enum Event {
    /// The action was carried out and has nothing to report.
    Done,
    /// The process ran to its end: its exit code, `None` where it has none.
    Exited(Option<i32>),
    /// The answer of the builtin dispatcher.
    Builtin(BuiltinResult),
    /// The process ran to its end with its output collected.
    Captured { success: bool, code: Option<i32>, output: Vec<u8> },
    /// The background process was started, with this process id.
    Started(u32),
    /// The job was entered in the table under this id.
    Registered(usize),
    /// The process id of the handle that was taken out of the job table, or
    /// `None` where there was none to take.
    Child(Option<u32>),
    /// Whether the alias was there to be removed.
    Removed(bool),
    /// The contents of the file.
    Content(Vec<u8>),
    /// The action failed.
    Failed(ShellError),
}

/// The mathematical value of an [`Event`].
pub ghost enum EventView {
    Done,
    Exited(Option<i32>),
    Builtin(BuiltinView),
    Captured { success: bool, code: Option<i32>, output: Seq<u8> },
    Started(u32),
    Registered(int),
    Child(Option<u32>),
    Removed(bool),
    Content(Seq<u8>),
    Failed(ErrorView),
}

impl View for Event {
    type V = EventView;

    open spec fn view(&self) -> EventView {
        match self {
            Event::Done => EventView::Done,
            Event::Exited(code) => EventView::Exited(*code),
            Event::Builtin(answer) => EventView::Builtin(answer@),
            Event::Captured { success, code, output } => EventView::Captured {
                success: *success,
                code: *code,
                output: output@,
            },
            Event::Started(pid) => EventView::Started(*pid),
            Event::Registered(id) => EventView::Registered(*id as int),
            Event::Child(pid) => EventView::Child(*pid),
            Event::Removed(was) => EventView::Removed(*was),
            Event::Content(bytes) => EventView::Content(bytes@),
            Event::Failed(error) => EventView::Failed(error@),
        }
    }
}

/// The values of the events of `v`, in order.
pub open spec fn event_views(v: Seq<Event>) -> Seq<EventView> {
    v.map_values(|e: Event| e@)
}

/// Where an evaluation stands: it has a value and has used up the first
/// `used` events; or it asks for an action; or it has failed.
pub ghost enum Flow<T> {
    Value { value: T, used: nat },
    Ask(ActionView),
    Fail(ErrorView),
}

/// Where an evaluation stands.
#[derive(Debug, PartialEq, Eq)]
pub enum Step<T> {
    /// It is finished with this value, and has used up the first `used` events.
    Value { value: T, used: usize },
    /// It needs this action to be performed and its event appended.
    Ask(Action),
    /// It has failed.
    Fail(ShellError),
}

/// The value of a step that yields a status.
pub open spec fn status_flow(step: Step<i32>) -> Flow<int> {
    match step {
        Step::Value { value, used } => Flow::Value { value: value as int, used: used as nat },
        Step::Ask(action) => Flow::Ask(action@),
        Step::Fail(error) => Flow::Fail(error@),
    }
}

/// The value of a step that yields bytes.
pub open spec fn bytes_flow(step: Step<Vec<u8>>) -> Flow<Seq<u8>> {
    match step {
        Step::Value { value, used } => Flow::Value { value: value@, used: used as nat },
        Step::Ask(action) => Flow::Ask(action@),
        Step::Fail(error) => Flow::Fail(error@),
    }
}

/// The error for an event that does not answer the action that was asked for.
pub open spec fn unexpected() -> ErrorView {
    ErrorView::Other("unexpected event"@)
}

/// An action that only has to be carried out: once it is, the status is
/// `status`.
pub open spec fn confirm(events: Seq<EventView>, k: nat, action: ActionView, status: int) -> Flow<
    int,
> {
    if k >= events.len() {
        Flow::Ask(action)
    } else {
        match events[k as int] {
            EventView::Done => Flow::Value { value: status, used: k + 1 },
            EventView::Failed(error) => Flow::Fail(error),
            _ => Flow::Fail(unexpected()),
        }
    }
}

/// Whether the right side of a chain runs after the left side ended with
/// `status`: after success for `&&`, after failure for `||`.
pub open spec fn runs_right(and: bool, status: int) -> bool {
    if and {
        status == 0
    } else {
        status != 0
    }
}

/// `value` without one layer of quotes, where it has at least two characters
/// and starts and ends with the same quote character.
pub open spec fn strip_quotes(value: Seq<char>) -> Seq<char> {
    if value.len() >= 2 && ((value[0] == '\'' && value.last() == '\'') || (value[0] == '"'
        && value.last() == '"')) {
        value.subrange(1, value.len() - 1)
    } else {
        value
    }
}

/// The name and the value that the arguments of `alias` define, once they are
/// joined by spaces: the name stands before the first `=`, the value after
/// it, both without white space at their ends, the value without one layer of
/// quotes. Without a `=` nothing is defined.
pub open spec fn alias_definition(definition: Seq<char>) -> Option<(Seq<char>, Seq<char>)> {
    let eq = span_until(definition, 0, '=') as int;
    if eq >= definition.len() {
        None
    } else {
        Some((trim(definition.take(eq)), strip_quotes(trim(definition.skip(eq + 1)))))
    }
}

/// The id that `fg` means: its first argument where that is a number, else 1.
pub open spec fn foreground_id(argv: Seq<Seq<char>>, from: int) -> int {
    if from + 1 < argv.len() {
        match parse_unsigned(argv[from + 1], usize::MAX as nat) {
            Some(n) => n as int,
            None => 1,
        }
    } else {
        1
    }
}

/// The text under which a background command is entered in the job table:
/// the program, a space, and the arguments with spaces between them.
pub open spec fn job_text(argv: Seq<Seq<char>>) -> Seq<char> {
    argv[0] + seq![' '] + join_spaced(argv.skip(1))
}

/// The notice printed for a job that was started in the background.
pub open spec fn job_notice(id: int, command: Seq<char>) -> Seq<char> {
    seq!['['] + decimal(id as nat) + seq![']', ' '] + command
}

/// The message of a buffering stage that ended with a status other than 0.
pub open spec fn stage_failure(code: Option<i32>) -> ErrorView {
    ErrorView::Other(
        "command failed with status "@ + signed_decimal(
            match code {
                Some(c) => c as int,
                None => -1,
            },
        ),
    )
}

/// The exit code of a process, or `fallback` where it has none.
pub open spec fn code_or(code: Option<i32>, fallback: int) -> int {
    match code {
        Some(c) => c as int,
        None => fallback,
    }
}

/// The arguments of `unalias` from position `i` on: each name is removed,
/// and each name that was no alias is complained of and makes the status 1.
pub open spec fn unalias_flow(
    argv: Seq<Seq<char>>,
    i: int,
    events: Seq<EventView>,
    k: nat,
    status: int,
) -> Flow<int>
    decreases argv.len() - i,
{
    if i < 0 || i >= argv.len() {
        Flow::Value { value: status, used: k }
    } else if k >= events.len() {
        Flow::Ask(ActionView::RemoveAlias { name: argv[i] })
    } else {
        match events[k as int] {
            EventView::Removed(true) => unalias_flow(argv, i + 1, events, k + 1, status),
            EventView::Removed(false) => match confirm(
                events,
                k + 1,
                ActionView::Complain { text: "unalias: "@ + argv[i] + ": not found"@ },
                1,
            ) {
                Flow::Value { used, .. } => unalias_flow(argv, i + 1, events, used, 1),
                other => other,
            },
            EventView::Failed(error) => Flow::Fail(error),
            _ => Flow::Fail(unexpected()),
        }
    }
}

/// A program that is no builtin: in the background it is started, entered in
/// the job table and announced, and the status is 0 at once; in the
/// foreground its status is its exit code, or 127 where it was not found, 126
/// where it could not be started.
pub open spec fn external_flow(
    argv: Seq<Seq<char>>,
    background: bool,
    events: Seq<EventView>,
    k: nat,
) -> Flow<int> {
    if background {
        if k >= events.len() {
            Flow::Ask(ActionView::Spawn { argv })
        } else {
            match events[k as int] {
                EventView::Started(pid) => if k + 1 >= events.len() {
                    Flow::Ask(ActionView::Register { command: job_text(argv), pid })
                } else {
                    match events[k as int + 1] {
                        EventView::Registered(id) => confirm(
                            events,
                            k + 2,
                            ActionView::Say { text: job_notice(id, job_text(argv)) },
                            0,
                        ),
                        EventView::Failed(error) => Flow::Fail(error),
                        _ => Flow::Fail(unexpected()),
                    }
                },
                EventView::Failed(error) => Flow::Fail(error),
                _ => Flow::Fail(unexpected()),
            }
        }
    } else {
        if k >= events.len() {
            Flow::Ask(ActionView::Run { argv })
        } else {
            match events[k as int] {
                EventView::Exited(code) => Flow::Value { value: code_or(code, 0), used: k + 1 },
                EventView::Failed(error) => confirm(
                    events,
                    k + 1,
                    ActionView::Report { error },
                    error.spawn_status(),
                ),
                _ => Flow::Fail(unexpected()),
            }
        }
    }
}

/// The job that `fg` brings to the foreground: its handle is taken out of the
/// table and its process waited for; the status is the exit code, or 1 where
/// there is none. Without a job to take the status is 1.
pub open spec fn foreground_flow(id: int, events: Seq<EventView>, k: nat) -> Flow<int> {
    if k >= events.len() {
        Flow::Ask(ActionView::TakeJob { id })
    } else {
        match events[k as int] {
            EventView::Child(Some(pid)) => if k + 1 >= events.len() {
                Flow::Ask(ActionView::Wait { pid })
            } else {
                match events[k as int + 1] {
                    EventView::Exited(code) => Flow::Value { value: code_or(code, 1), used: k + 2 },
                    EventView::Failed(error) => Flow::Fail(error),
                    _ => Flow::Fail(unexpected()),
                }
            },
            EventView::Child(None) => confirm(
                events,
                k + 1,
                ActionView::Complain {
                    text: "fg: job "@ + decimal(id as nat) + " not found"@,
                },
                1,
            ),
            EventView::Failed(error) => Flow::Fail(error),
            _ => Flow::Fail(unexpected()),
        }
    }
}

/// The simple command whose words are those of `argv` from position `from`
/// on, run on the interpreter's own streams. The first rule that fits
/// decides: `time`, then `alias` and `unalias`, then `jobs`, `fg` and `bg`,
/// then the builtin dispatcher, then an external program.
pub open spec fn simple_flow(
    argv: Seq<Seq<char>>,
    from: int,
    background: bool,
    events: Seq<EventView>,
    k: nat,
) -> Flow<int>
    decreases argv.len() - from,
{
    if from < 0 || from >= argv.len() {
        Flow::Value { value: 0, used: k }
    } else if argv[from] == "time"@ {
        if from + 1 >= argv.len() {
            confirm(events, k, ActionView::Complain { text: "time: missing command"@ }, 1)
        } else {
            match confirm(events, k, ActionView::StartTimer, 0) {
                Flow::Value { used, .. } => match simple_flow(
                    argv,
                    from + 1,
                    background,
                    events,
                    used,
                ) {
                    Flow::Value { value, used: after } => confirm(
                        events,
                        after,
                        ActionView::ReportTimer,
                        value,
                    ),
                    other => other,
                },
                other => other,
            }
        }
    } else if argv[from] == "alias"@ {
        if from + 1 >= argv.len() {
            confirm(events, k, ActionView::ListAliases, 0)
        } else {
            let definition = join_spaced(argv.skip(from + 1));
            match alias_definition(definition) {
                Some((name, value)) => confirm(events, k, ActionView::SetAlias { name, value }, 0),
                None => confirm(
                    events,
                    k,
                    ActionView::Complain { text: "alias: invalid format: "@ + definition },
                    1,
                ),
            }
        }
    } else if argv[from] == "unalias"@ {
        if from + 1 >= argv.len() {
            confirm(events, k, ActionView::Complain { text: "unalias: missing alias name"@ }, 1)
        } else {
            unalias_flow(argv, from + 1, events, k, 0)
        }
    } else if argv[from] == "jobs"@ {
        confirm(events, k, ActionView::ListJobs, 0)
    } else if argv[from] == "fg"@ {
        foreground_flow(foreground_id(argv, from), events, k)
    } else if argv[from] == "bg"@ {
        Flow::Value { value: 0, used: k }
    } else if k >= events.len() {
        Flow::Ask(ActionView::Builtin { argv: argv.skip(from) })
    } else {
        match events[k as int] {
            EventView::Builtin(BuiltinView::Handled(status)) => Flow::Value {
                value: status,
                used: k + 1,
            },
            EventView::Builtin(BuiltinView::HandledWithOutput(status, _)) => Flow::Value {
                value: status,
                used: k + 1,
            },
            EventView::Builtin(BuiltinView::NotHandled) => external_flow(
                argv.skip(from),
                background,
                events,
                k + 1,
            ),
            EventView::Failed(error) => Flow::Fail(error),
            _ => Flow::Fail(unexpected()),
        }
    }
}

/// The outcome of a program whose output is collected: its output where it
/// succeeded; a failure that carries its status where it did not.
pub open spec fn captured(events: Seq<EventView>, k: nat, action: ActionView) -> Flow<Seq<u8>> {
    if k >= events.len() {
        Flow::Ask(action)
    } else {
        match events[k as int] {
            EventView::Captured { success, code, output } => if success {
                Flow::Value { value: output, used: k + 1 }
            } else {
                Flow::Fail(stage_failure(code))
            },
            EventView::Failed(error) => Flow::Fail(error),
            _ => Flow::Fail(unexpected()),
        }
    }
}

/// The output of the simple command `argv` when it is a buffering stage
/// with `stdin` on its standard input where there is one: the output of the
/// builtin, or of the program once it has run to its end.
pub open spec fn capture_simple(
    argv: Seq<Seq<char>>,
    stdin: Option<Seq<u8>>,
    events: Seq<EventView>,
    k: nat,
) -> Flow<Seq<u8>> {
    if argv.len() == 0 {
        Flow::Value { value: Seq::empty(), used: k }
    } else if k >= events.len() {
        Flow::Ask(ActionView::Builtin { argv })
    } else {
        match events[k as int] {
            EventView::Builtin(BuiltinView::Handled(_)) => Flow::Value {
                value: Seq::empty(),
                used: k + 1,
            },
            EventView::Builtin(BuiltinView::HandledWithOutput(_, output)) => Flow::Value {
                value: output,
                used: k + 1,
            },
            EventView::Builtin(BuiltinView::NotHandled) => captured(
                events,
                k + 1,
                ActionView::Capture { argv, stdin },
            ),
            EventView::Failed(error) => Flow::Fail(error),
            _ => Flow::Fail(unexpected()),
        }
    }
}

/// The output that flows on once a redirection has written `data`, the
/// output of its command, to its file: nothing, since the output went to the
/// file.
pub open spec fn written(
    events: Seq<EventView>,
    k: nat,
    file: Seq<char>,
    append: bool,
    data: Seq<u8>,
) -> Flow<Seq<u8>> {
    match confirm(events, k, ActionView::Write { file, append, data }, 0) {
        Flow::Value { used, .. } => Flow::Value { value: Seq::empty(), used },
        Flow::Ask(action) => Flow::Ask(action),
        Flow::Fail(error) => Flow::Fail(error),
    }
}

/// The output of `tree` when it is a buffering stage, with `stdin` on its
/// standard input where there is one.
///
/// The left side of a pipe is buffered in full before the right side runs on
/// it; a stage that ends with a status other than 0 fails the whole
/// evaluation. An output redirection writes the output of its command to
/// its file and lets nothing flow on. An input redirection reads its file
/// and runs its command on the contents instead. Of a chain only the left
/// side counts.
pub open spec fn capture_flow(
    tree: TreeView,
    stdin: Option<Seq<u8>>,
    events: Seq<EventView>,
    k: nat,
) -> Flow<Seq<u8>>
    decreases tree,
{
    match tree {
        TreeView::Simple { argv, .. } => capture_simple(argv, stdin, events, k),
        TreeView::Pipe { left, right } => match capture_flow(*left, stdin, events, k) {
            Flow::Value { value, used } => capture_flow(*right, Some(value), events, used),
            other => other,
        },
        TreeView::RedirectOut { cmd, file, append } => match capture_flow(
            *cmd,
            stdin,
            events,
            k,
        ) {
            Flow::Value { value, used } => written(events, used, file, append, value),
            other => other,
        },
        TreeView::RedirectIn { cmd, file } => if k >= events.len() {
            Flow::Ask(ActionView::Read { file })
        } else {
            match events[k as int] {
                EventView::Content(bytes) => capture_flow(*cmd, Some(bytes), events, k + 1),
                EventView::Failed(error) => Flow::Fail(error),
                _ => Flow::Fail(unexpected()),
            }
        },
        TreeView::Chain { left, .. } => capture_flow(*left, stdin, events, k),
    }
}

/// The status of the simple command `argv` run with `input` on its standard
/// input.
pub open spec fn feed_simple(
    argv: Seq<Seq<char>>,
    input: Seq<u8>,
    events: Seq<EventView>,
    k: nat,
) -> Flow<int> {
    if argv.len() == 0 {
        Flow::Value { value: 0, used: k }
    } else if k >= events.len() {
        Flow::Ask(ActionView::Builtin { argv })
    } else {
        match events[k as int] {
            EventView::Builtin(BuiltinView::Handled(status)) => Flow::Value {
                value: status,
                used: k + 1,
            },
            EventView::Builtin(BuiltinView::HandledWithOutput(status, _)) => Flow::Value {
                value: status,
                used: k + 1,
            },
            EventView::Builtin(BuiltinView::NotHandled) => if k + 1 >= events.len() {
                Flow::Ask(ActionView::Feed { argv, input })
            } else {
                match events[k as int + 1] {
                    EventView::Exited(code) => Flow::Value { value: code_or(code, 1), used: k + 2 },
                    EventView::Failed(error) => Flow::Fail(error),
                    _ => Flow::Fail(unexpected()),
                }
            },
            EventView::Failed(error) => Flow::Fail(error),
            _ => Flow::Fail(unexpected()),
        }
    }
}

/// The status once the output `flow` of a command was written to a file:
/// 0 where the writing went well.
pub open spec fn redirected(
    flow: Flow<Seq<u8>>,
    events: Seq<EventView>,
    file: Seq<char>,
    append: bool,
) -> Flow<int> {
    match flow {
        Flow::Value { value, used } => confirm(
            events,
            used,
            ActionView::Write { file, append, data: value },
            0,
        ),
        Flow::Ask(action) => Flow::Ask(action),
        Flow::Fail(error) => Flow::Fail(error),
    }
}

/// The status of `tree` run with `input` on its standard input.
///
/// A pipe buffers its left side, which gets the input, and feeds the output
/// to its right side. An output redirection buffers the output of its
/// command, which gets the input, and writes it to its file; its status is
/// 0. An input redirection reads its file and feeds the contents to its
/// command in place of the input. A chain gives the same input to each side
/// that runs.
pub open spec fn feed_flow(tree: TreeView, input: Seq<u8>, events: Seq<EventView>, k: nat) -> Flow<
    int,
>
    decreases tree,
{
    match tree {
        TreeView::Simple { argv, .. } => feed_simple(argv, input, events, k),
        TreeView::Pipe { left, right } => match capture_flow(*left, Some(input), events, k) {
            Flow::Value { value, used } => feed_flow(*right, value, events, used),
            Flow::Ask(action) => Flow::Ask(action),
            Flow::Fail(error) => Flow::Fail(error),
        },
        TreeView::RedirectOut { cmd, file, append } => redirected(
            capture_flow(*cmd, Some(input), events, k),
            events,
            file,
            append,
        ),
        TreeView::RedirectIn { cmd, file } => if k >= events.len() {
            Flow::Ask(ActionView::Read { file })
        } else {
            match events[k as int] {
                EventView::Content(bytes) => feed_flow(*cmd, bytes, events, k + 1),
                EventView::Failed(error) => Flow::Fail(error),
                _ => Flow::Fail(unexpected()),
            }
        },
        TreeView::Chain { left, right, and } => match feed_flow(*left, input, events, k) {
            Flow::Value { value, used } => if runs_right(and, value) {
                feed_flow(*right, input, events, used)
            } else {
                Flow::Value { value, used }
            },
            other => other,
        },
    }
}

/// The status of `tree` run on the interpreter's own streams.
///
/// A pipe buffers the output of its left side and then runs its right side on
/// it. An output redirection buffers the output of its command and writes it
/// to the file; its status is 0. An input redirection reads the file and runs
/// its command on the contents. A chain runs its left side, and its right
/// side only after success for `&&` and only after failure for `||`; where
/// the right side does not run, the status is that of the left side. A
/// redirection means the same wherever it stands in the tree.
pub open spec fn command_flow(tree: TreeView, events: Seq<EventView>, k: nat) -> Flow<int>
    decreases tree,
{
    match tree {
        TreeView::Simple { argv, background } => simple_flow(argv, 0, background, events, k),
        TreeView::Pipe { left, right } => match capture_flow(*left, None, events, k) {
            Flow::Value { value, used } => feed_flow(*right, value, events, used),
            Flow::Ask(action) => Flow::Ask(action),
            Flow::Fail(error) => Flow::Fail(error),
        },
        TreeView::RedirectOut { cmd, file, append } => redirected(
            capture_flow(*cmd, None, events, k),
            events,
            file,
            append,
        ),
        TreeView::RedirectIn { cmd, file } => if k >= events.len() {
            Flow::Ask(ActionView::Read { file })
        } else {
            match events[k as int] {
                EventView::Content(bytes) => feed_flow(*cmd, bytes, events, k + 1),
                EventView::Failed(error) => Flow::Fail(error),
                _ => Flow::Fail(unexpected()),
            }
        },
        TreeView::Chain { left, right, and } => match command_flow(*left, events, k) {
            Flow::Value { value, used } => if runs_right(and, value) {
                command_flow(*right, events, used)
            } else {
                Flow::Value { value, used }
            },
            other => other,
        },
    }
}

/// Short circuit: where the left side of a chain has ended and its status
/// rules the right side out, the chain has ended with that status, and with
/// the same events used up. No action of the right side is ever asked for.
pub proof fn lemma_chain_short_circuit(
    left: TreeView,
    right: TreeView,
    and: bool,
    events: Seq<EventView>,
    k: nat,
)
    requires
        command_flow(left, events, k) matches Flow::Value { value, .. } && !runs_right(and, value),
    ensures
        command_flow(
            TreeView::Chain { left: Box::new(left), right: Box::new(right), and },
            events,
            k,
        ) == command_flow(left, events, k),
{
}

/// Fail fast: where the left side of a pipe fails while its output is
/// buffered, the pipe fails in the same way, whatever its right side is.
pub proof fn lemma_pipe_fails_fast(
    left: TreeView,
    right: TreeView,
    events: Seq<EventView>,
    k: nat,
)
    requires
        capture_flow(left, None, events, k) is Fail,
    ensures
        command_flow(TreeView::Pipe { left: Box::new(left), right: Box::new(right) }, events, k)
            is Fail,
        command_flow(TreeView::Pipe { left: Box::new(left), right: Box::new(right) }, events, k)
            ->Fail_0 == capture_flow(left, None, events, k)->Fail_0,
{
}

/// A redirection at the end of a pipeline is honoured: once the left side
/// has given its output and the last stage, run on that output, has given
/// its own, the pipeline asks for that output to be written to the file, and
/// ends with status 0 once it is.
pub proof fn lemma_last_stage_redirects(
    left: TreeView,
    cmd: TreeView,
    file: Seq<char>,
    append: bool,
    events: Seq<EventView>,
    k: nat,
)
    requires
        capture_flow(left, None, events, k) is Value,
        capture_flow(
            cmd,
            Some(capture_flow(left, None, events, k)->value),
            events,
            capture_flow(left, None, events, k)->used,
        ) is Value,
    ensures
        ({
            let between = capture_flow(left, None, events, k);
            let output = capture_flow(cmd, Some(between->value), events, between->used);
            let stage = TreeView::RedirectOut { cmd: Box::new(cmd), file, append };
            let pipeline = TreeView::Pipe { left: Box::new(left), right: Box::new(stage) };
            command_flow(pipeline, events, k) == confirm(
                events,
                output->used,
                ActionView::Write { file, append, data: output->value },
                0,
            )
        }),
{
}

/// Whether an evaluation has come to its end with the events it was given:
/// it has a value or has failed, and asks for nothing.
pub open spec fn settled<T>(flow: Flow<T>) -> bool {
    !(flow is Ask)
}

/// What holds of an evaluation that started at event `k` and has come to its
/// end: a value uses up events from `k` on and not more than there are.
pub open spec fn within<T>(flow: Flow<T>, events: Seq<EventView>, k: nat) -> bool {
    flow matches Flow::Value { used, .. } ==> k <= used <= events.len()
}

/// An action that was confirmed stays confirmed when more events follow.
pub proof fn lemma_confirm_stable(
    events: Seq<EventView>,
    more: Seq<EventView>,
    k: nat,
    action: ActionView,
    status: int,
)
    requires
        k <= events.len(),
        settled(confirm(events, k, action, status)),
    ensures
        confirm(events + more, k, action, status) == confirm(events, k, action, status),
        within(confirm(events, k, action, status), events, k),
{
    assert((events + more)[k as int] == events[k as int]);
}

/// The outcome of `unalias` stays as it is when more events follow.
pub proof fn lemma_unalias_stable(
    argv: Seq<Seq<char>>,
    i: int,
    events: Seq<EventView>,
    more: Seq<EventView>,
    k: nat,
    status: int,
)
    requires
        k <= events.len(),
        settled(unalias_flow(argv, i, events, k, status)),
    ensures
        unalias_flow(argv, i, events + more, k, status) == unalias_flow(argv, i, events, k, status),
        within(unalias_flow(argv, i, events, k, status), events, k),
    decreases argv.len() - i,
{
    if 0 <= i < argv.len() {
        assert(k < events.len());
        assert((events + more)[k as int] == events[k as int]);
        match events[k as int] {
            EventView::Removed(true) => {
                lemma_unalias_stable(argv, i + 1, events, more, k + 1, status);
            },
            EventView::Removed(false) => {
                let text = "unalias: "@ + argv[i] + ": not found"@;
                let asked = ActionView::Complain { text };
                if k + 1 <= events.len() && settled(confirm(events, k + 1, asked, 1)) {
                    lemma_confirm_stable(events, more, k + 1, asked, 1);
                    match confirm(events, k + 1, asked, 1) {
                        Flow::Value { used, .. } => {
                            lemma_unalias_stable(argv, i + 1, events, more, used, 1);
                        },
                        _ => {},
                    }
                }
            },
            _ => {},
        }
    }
}

/// The outcome of an external program stays as it is when more events follow.
pub proof fn lemma_external_stable(
    argv: Seq<Seq<char>>,
    background: bool,
    events: Seq<EventView>,
    more: Seq<EventView>,
    k: nat,
)
    requires
        k <= events.len(),
        settled(external_flow(argv, background, events, k)),
    ensures
        external_flow(argv, background, events + more, k) == external_flow(
            argv,
            background,
            events,
            k,
        ),
        within(external_flow(argv, background, events, k), events, k),
{
    assert(k < events.len());
    assert((events + more)[k as int] == events[k as int]);
    if background {
        match events[k as int] {
            EventView::Started(pid) => {
                assert(k + 1 < events.len());
                assert((events + more)[k as int + 1] == events[k as int + 1]);
                match events[k as int + 1] {
                    EventView::Registered(id) => {
                        lemma_confirm_stable(
                            events,
                            more,
                            k + 2,
                            ActionView::Say { text: job_notice(id, job_text(argv)) },
                            0,
                        );
                    },
                    _ => {},
                }
            },
            _ => {},
        }
    } else {
        match events[k as int] {
            EventView::Failed(error) => {
                lemma_confirm_stable(
                    events,
                    more,
                    k + 1,
                    ActionView::Report { error },
                    error.spawn_status(),
                );
            },
            _ => {},
        }
    }
}

/// The outcome of `fg` stays as it is when more events follow.
pub proof fn lemma_foreground_stable(
    id: int,
    events: Seq<EventView>,
    more: Seq<EventView>,
    k: nat,
)
    requires
        k <= events.len(),
        settled(foreground_flow(id, events, k)),
    ensures
        foreground_flow(id, events + more, k) == foreground_flow(id, events, k),
        within(foreground_flow(id, events, k), events, k),
{
    assert(k < events.len());
    assert((events + more)[k as int] == events[k as int]);
    match events[k as int] {
        EventView::Child(Some(pid)) => {
            assert(k + 1 < events.len());
            assert((events + more)[k as int + 1] == events[k as int + 1]);
        },
        EventView::Child(None) => {
            lemma_confirm_stable(
                events,
                more,
                k + 1,
                ActionView::Complain { text: "fg: job "@ + decimal(id as nat) + " not found"@ },
                1,
            );
        },
        _ => {},
    }
}

/// The outcome of a simple command stays as it is when more events follow.
pub proof fn lemma_simple_stable(
    argv: Seq<Seq<char>>,
    from: int,
    background: bool,
    events: Seq<EventView>,
    more: Seq<EventView>,
    k: nat,
)
    requires
        k <= events.len(),
        settled(simple_flow(argv, from, background, events, k)),
    ensures
        simple_flow(argv, from, background, events + more, k) == simple_flow(
            argv,
            from,
            background,
            events,
            k,
        ),
        within(simple_flow(argv, from, background, events, k), events, k),
    decreases argv.len() - from,
{
    if 0 <= from < argv.len() {
        if argv[from] == "time"@ {
            if from + 1 >= argv.len() {
                lemma_confirm_stable(
                    events,
                    more,
                    k,
                    ActionView::Complain { text: "time: missing command"@ },
                    1,
                );
            } else {
                lemma_confirm_stable(events, more, k, ActionView::StartTimer, 0);
                match confirm(events, k, ActionView::StartTimer, 0) {
                    Flow::Value { used, .. } => {
                        lemma_simple_stable(argv, from + 1, background, events, more, used);
                        match simple_flow(argv, from + 1, background, events, used) {
                            Flow::Value { value, used: after } => {
                                lemma_confirm_stable(
                                    events,
                                    more,
                                    after,
                                    ActionView::ReportTimer,
                                    value,
                                );
                            },
                            _ => {},
                        }
                    },
                    _ => {},
                }
            }
        } else if argv[from] == "alias"@ {
            if from + 1 >= argv.len() {
                lemma_confirm_stable(events, more, k, ActionView::ListAliases, 0);
            } else {
                let definition = join_spaced(argv.skip(from + 1));
                match alias_definition(definition) {
                    Some((name, value)) => {
                        lemma_confirm_stable(
                            events,
                            more,
                            k,
                            ActionView::SetAlias { name, value },
                            0,
                        );
                    },
                    None => {
                        lemma_confirm_stable(
                            events,
                            more,
                            k,
                            ActionView::Complain { text: "alias: invalid format: "@ + definition },
                            1,
                        );
                    },
                }
            }
        } else if argv[from] == "unalias"@ {
            if from + 1 >= argv.len() {
                lemma_confirm_stable(
                    events,
                    more,
                    k,
                    ActionView::Complain { text: "unalias: missing alias name"@ },
                    1,
                );
            } else {
                lemma_unalias_stable(argv, from + 1, events, more, k, 0);
            }
        } else if argv[from] == "jobs"@ {
            lemma_confirm_stable(events, more, k, ActionView::ListJobs, 0);
        } else if argv[from] == "fg"@ {
            lemma_foreground_stable(foreground_id(argv, from), events, more, k);
        } else if argv[from] == "bg"@ {
        } else {
            assert(k < events.len());
            assert((events + more)[k as int] == events[k as int]);
            match events[k as int] {
                EventView::Builtin(BuiltinView::NotHandled) => {
                    lemma_external_stable(argv.skip(from), background, events, more, k + 1);
                },
                _ => {},
            }
        }
    }
}

/// The outcome of a program whose output is collected stays as it is when
/// more events follow.
pub proof fn lemma_captured_stable(
    events: Seq<EventView>,
    more: Seq<EventView>,
    k: nat,
    action: ActionView,
)
    requires
        k <= events.len(),
        settled(captured(events, k, action)),
    ensures
        captured(events + more, k, action) == captured(events, k, action),
        within(captured(events, k, action), events, k),
{
    assert((events + more)[k as int] == events[k as int]);
}

/// The output of a buffering stage stays as it is when more events follow.
pub proof fn lemma_capture_stable(
    tree: TreeView,
    stdin: Option<Seq<u8>>,
    events: Seq<EventView>,
    more: Seq<EventView>,
    k: nat,
)
    requires
        k <= events.len(),
        settled(capture_flow(tree, stdin, events, k)),
    ensures
        capture_flow(tree, stdin, events + more, k) == capture_flow(tree, stdin, events, k),
        within(capture_flow(tree, stdin, events, k), events, k),
    decreases tree,
{
    match tree {
        TreeView::Simple { argv, .. } => {
            if argv.len() > 0 {
                assert(k < events.len());
                assert((events + more)[k as int] == events[k as int]);
                match events[k as int] {
                    EventView::Builtin(BuiltinView::NotHandled) => {
                        lemma_captured_stable(
                            events,
                            more,
                            k + 1,
                            ActionView::Capture { argv, stdin },
                        );
                    },
                    _ => {},
                }
            }
        },
        TreeView::Pipe { left, right } => {
            lemma_capture_stable(*left, stdin, events, more, k);
            match capture_flow(*left, stdin, events, k) {
                Flow::Value { value, used } => {
                    lemma_capture_stable(*right, Some(value), events, more, used);
                },
                _ => {},
            }
        },
        TreeView::RedirectOut { cmd, file, append } => {
            lemma_capture_stable(*cmd, stdin, events, more, k);
            match capture_flow(*cmd, stdin, events, k) {
                Flow::Value { value, used } => {
                    lemma_confirm_stable(
                        events,
                        more,
                        used,
                        ActionView::Write { file, append, data: value },
                        0,
                    );
                },
                _ => {},
            }
        },
        TreeView::RedirectIn { cmd, .. } => {
            assert(k < events.len());
            assert((events + more)[k as int] == events[k as int]);
            match events[k as int] {
                EventView::Content(bytes) => {
                    lemma_capture_stable(*cmd, Some(bytes), events, more, k + 1);
                },
                _ => {},
            }
        },
        TreeView::Chain { left, .. } => {
            lemma_capture_stable(*left, stdin, events, more, k);
        },
    }
}

/// The status of a command that runs on given input stays as it is when more
/// events follow.
pub proof fn lemma_feed_stable(
    tree: TreeView,
    input: Seq<u8>,
    events: Seq<EventView>,
    more: Seq<EventView>,
    k: nat,
)
    requires
        k <= events.len(),
        settled(feed_flow(tree, input, events, k)),
    ensures
        feed_flow(tree, input, events + more, k) == feed_flow(tree, input, events, k),
        within(feed_flow(tree, input, events, k), events, k),
    decreases tree,
{
    match tree {
        TreeView::Simple { argv, .. } => {
            if argv.len() > 0 {
                assert(k < events.len());
                assert((events + more)[k as int] == events[k as int]);
                match events[k as int] {
                    EventView::Builtin(BuiltinView::NotHandled) => {
                        assert(k + 1 < events.len());
                        assert((events + more)[k as int + 1] == events[k as int + 1]);
                    },
                    _ => {},
                }
            }
        },
        TreeView::Pipe { left, right } => {
            lemma_capture_stable(*left, Some(input), events, more, k);
            match capture_flow(*left, Some(input), events, k) {
                Flow::Value { value, used } => {
                    lemma_feed_stable(*right, value, events, more, used);
                },
                _ => {},
            }
        },
        TreeView::RedirectOut { cmd, file, append } => {
            lemma_capture_stable(*cmd, Some(input), events, more, k);
            match capture_flow(*cmd, Some(input), events, k) {
                Flow::Value { value, used } => {
                    lemma_confirm_stable(
                        events,
                        more,
                        used,
                        ActionView::Write { file, append, data: value },
                        0,
                    );
                },
                _ => {},
            }
        },
        TreeView::RedirectIn { cmd, .. } => {
            assert(k < events.len());
            assert((events + more)[k as int] == events[k as int]);
            match events[k as int] {
                EventView::Content(bytes) => {
                    lemma_feed_stable(*cmd, bytes, events, more, k + 1);
                },
                _ => {},
            }
        },
        TreeView::Chain { left, right, and } => {
            lemma_feed_stable(*left, input, events, more, k);
            match feed_flow(*left, input, events, k) {
                Flow::Value { value, used } => {
                    if runs_right(and, value) {
                        lemma_feed_stable(*right, input, events, more, used);
                    }
                },
                _ => {},
            }
        },
    }
}

/// Events only ever add: once a command has come to its end, with a status
/// or with a failure, it stays at that end whatever events follow; and it
/// has used up no more events than there were.
pub proof fn lemma_command_stable(
    tree: TreeView,
    events: Seq<EventView>,
    more: Seq<EventView>,
    k: nat,
)
    requires
        k <= events.len(),
        settled(command_flow(tree, events, k)),
    ensures
        command_flow(tree, events + more, k) == command_flow(tree, events, k),
        within(command_flow(tree, events, k), events, k),
    decreases tree,
{
    match tree {
        TreeView::Simple { argv, background } => {
            lemma_simple_stable(argv, 0, background, events, more, k);
        },
        TreeView::Pipe { left, right } => {
            lemma_capture_stable(*left, None, events, more, k);
            match capture_flow(*left, None, events, k) {
                Flow::Value { value, used } => {
                    lemma_feed_stable(*right, value, events, more, used);
                },
                _ => {},
            }
        },
        TreeView::RedirectOut { cmd, file, append } => {
            lemma_capture_stable(*cmd, None, events, more, k);
            match capture_flow(*cmd, None, events, k) {
                Flow::Value { value, used } => {
                    lemma_confirm_stable(
                        events,
                        more,
                        used,
                        ActionView::Write { file, append, data: value },
                        0,
                    );
                },
                _ => {},
            }
        },
        TreeView::RedirectIn { cmd, file } => {
            assert(k < events.len());
            assert((events + more)[k as int] == events[k as int]);
            match events[k as int] {
                EventView::Content(bytes) => {
                    lemma_feed_stable(*cmd, bytes, events, more, k + 1);
                },
                _ => {},
            }
        },
        TreeView::Chain { left, right, and } => {
            lemma_command_stable(*left, events, more, k);
            match command_flow(*left, events, k) {
                Flow::Value { value, used } => {
                    if runs_right(and, value) {
                        lemma_command_stable(*right, events, more, used);
                    }
                },
                _ => {},
            }
        },
    }
}

/// A copy of `bytes`.
pub fn copy_bytes(bytes: &Vec<u8>) -> (copy: Vec<u8>)
    ensures
        copy@ == bytes@,
{
    let mut copy: Vec<u8> = Vec::new();
    let mut i: usize = 0;
    while i < bytes.len()
        invariant
            i <= bytes.len(),
            copy@ == bytes@.take(i as int),
        decreases bytes.len() - i,
    {
        copy.push(bytes[i]);
        assert(copy@ =~= bytes@.take(i + 1));
        i += 1;
    }
    assert(bytes@.take(i as int) =~= bytes@);
    copy
}

/// A copy of the strings of `words` from position `from` on.
pub fn copy_words(words: &Vec<String>, from: usize) -> (copy: Vec<String>)
    requires
        from <= words.len(),
    ensures
        texts(copy@) == texts(words@).skip(from as int),
{
    let mut copy: Vec<String> = Vec::new();
    let mut i: usize = from;
    assert(texts(copy@) =~= texts(words@).subrange(from as int, from as int));
    while i < words.len()
        invariant
            from <= i <= words.len(),
            texts(copy@) == texts(words@).subrange(from as int, i as int),
        decreases words.len() - i,
    {
        let word = words[i].clone();
        proof {
            assert(texts(copy@.push(word)) =~= texts(copy@).push(word@));
            assert(texts(words@)[i as int] == words@[i as int]@);
            assert(texts(words@).subrange(from as int, i + 1) =~= texts(words@).subrange(
                from as int,
                i as int,
            ).push(word@));
        }
        copy.push(word);
        i += 1;
    }
    assert(texts(words@).subrange(from as int, i as int) =~= texts(words@).skip(from as int));
    copy
}

/// The failure for an event that does not answer the action asked for.
fn out_of_turn<T>() -> (step: Step<T>)
    ensures
        step matches Step::Fail(error) && error@ == unexpected(),
{
    Step::Fail(ShellError::other("unexpected event"))
}

/// Asks for an action that only has to be carried out.
fn confirm_step(events: &Vec<Event>, k: usize, action: Action, status: i32) -> (step: Step<i32>)
    ensures
        status_flow(step) == confirm(event_views(events@), k as nat, action@, status as int),
{
    if k >= events.len() {
        return Step::Ask(action);
    }
    assert(event_views(events@)[k as int] == events@[k as int]@);
    match &events[k] {
        Event::Done => Step::Value { value: status, used: k + 1 },
        Event::Failed(error) => Step::Fail(error.duplicate()),
        _ => out_of_turn(),
    }
}

/// Whether the right side of a chain runs after the left side ended with
/// `status`.
pub fn should_run_right(and: bool, status: i32) -> (runs: bool)
    ensures
        runs == runs_right(and, status as int),
{
    if and {
        status == 0
    } else {
        status != 0
    }
}

/// Reads the definition that the arguments of `alias` spell out.
pub fn parse_alias_definition(definition: &str) -> (r: Option<(String, String)>)
    ensures
        match r {
            Some((name, value)) => alias_definition(definition@) == Some((name@, value@)),
            None => alias_definition(definition@) is None,
        },
{
    let chars = chars_of(definition);
    let eq = find_char(&chars, 0, '=');
    if eq >= chars.len() {
        return None;
    }
    let raw_name = string_of(&chars, 0, eq);
    assert(chars@.subrange(0, eq as int) =~= chars@.take(eq as int));
    let name = trim_text(raw_name.as_str());
    let raw_value = string_of(&chars, eq + 1, chars.len());
    assert(chars@.subrange(eq + 1, chars.len() as int) =~= chars@.skip(eq + 1));
    let trimmed = trim_text(raw_value.as_str());
    let v = chars_of(trimmed.as_str());
    let n = v.len();
    let value = if n >= 2 && ((v[0] == '\'' && v[n - 1] == '\'') || (v[0] == '"' && v[n - 1]
        == '"')) {
        string_of(&v, 1, n - 1)
    } else {
        trimmed
    };
    Some((name, value))
}

/// The text under which a background command is entered in the job table.
pub fn job_command(argv: &Vec<String>) -> (text: String)
    requires
        argv.len() > 0,
    ensures
        text@ == job_text(texts(argv@)),
{
    let mut text = argv[0].clone();
    push_char(&mut text, ' ');
    let rest = join_words(argv, 1);
    text.append(rest.as_str());
    assert(texts(argv@)[0] == argv@[0]@);
    assert(text@ =~= argv@[0]@ + seq![' '] + rest@);
    text
}

/// The notice printed for a job that was started in the background.
pub fn job_started(id: usize, command: &str) -> (text: String)
    ensures
        text@ == job_notice(id as int, command@),
{
    let mut text = String::new();
    push_char(&mut text, '[');
    push_decimal(&mut text, id as u64);
    push_char(&mut text, ']');
    push_char(&mut text, ' ');
    text.append(command);
    assert(text@ =~= seq!['['] + decimal(id as nat) + seq![']', ' '] + command@);
    text
}

/// The error of a buffering stage that ended with a status other than 0.
pub fn stage_failed(code: Option<i32>) -> (error: ShellError)
    ensures
        error@ == stage_failure(code),
{
    let mut text = "command failed with status ".to_owned();
    let shown: i32 = match code {
        Some(c) => c,
        None => -1,
    };
    let number = format_signed(shown);
    text.append(number.as_str());
    ShellError::Other(text)
}

/// The arguments of `unalias` from position `i` on.
fn execute_unalias(argv: &Vec<String>, i: usize, events: &Vec<Event>, k: usize, status: i32) -> (step:
    Step<i32>)
    ensures
        status_flow(step) == unalias_flow(
            texts(argv@),
            i as int,
            event_views(events@),
            k as nat,
            status as int,
        ),
    decreases argv.len() - i,
{
    if i >= argv.len() {
        return Step::Value { value: status, used: k };
    }
    assert(texts(argv@)[i as int] == argv@[i as int]@);
    if k >= events.len() {
        return Step::Ask(Action::RemoveAlias { name: argv[i].clone() });
    }
    assert(event_views(events@)[k as int] == events@[k as int]@);
    match &events[k] {
        Event::Removed(true) => execute_unalias(argv, i + 1, events, k + 1, status),
        Event::Removed(false) => {
            let mut text = "unalias: ".to_owned();
            text.append(argv[i].as_str());
            text.append(": not found");
            match confirm_step(events, k + 1, Action::Complain { text }, 1) {
                Step::Value { used, .. } => execute_unalias(argv, i + 1, events, used, 1),
                other => other,
            }
        },
        Event::Failed(error) => Step::Fail(error.duplicate()),
        _ => out_of_turn(),
    }
}

/// A program that is no builtin, in the background or in the foreground.
fn execute_external(argv: &Vec<String>, from: usize, background: bool, events: &Vec<Event>, k: usize) -> (step:
    Step<i32>)
    requires
        from < argv.len(),
    ensures
        status_flow(step) == external_flow(
            texts(argv@).skip(from as int),
            background,
            event_views(events@),
            k as nat,
        ),
{
    let words = copy_words(argv, from);
    if k >= events.len() {
        return if background {
            Step::Ask(Action::Spawn { argv: words })
        } else {
            Step::Ask(Action::Run { argv: words })
        };
    }
    assert(event_views(events@)[k as int] == events@[k as int]@);
    if background {
        match &events[k] {
            Event::Started(pid) => {
                assert(texts(words@).len() > 0);
                let command = job_command(&words);
                if k + 1 >= events.len() {
                    return Step::Ask(Action::Register { command, pid: *pid });
                }
                assert(event_views(events@)[k + 1] == events@[k + 1]@);
                match &events[k + 1] {
                    Event::Registered(id) => confirm_step(
                        events,
                        k + 2,
                        Action::Say { text: job_started(*id, command.as_str()) },
                        0,
                    ),
                    Event::Failed(error) => Step::Fail(error.duplicate()),
                    _ => out_of_turn(),
                }
            },
            Event::Failed(error) => Step::Fail(error.duplicate()),
            _ => out_of_turn(),
        }
    } else {
        match &events[k] {
            Event::Exited(code) => Step::Value {
                value: match code {
                    Some(c) => *c,
                    None => 0,
                },
                used: k + 1,
            },
            Event::Failed(error) => confirm_step(
                events,
                k + 1,
                Action::Report { error: error.duplicate() },
                error.spawn_status(),
            ),
            _ => out_of_turn(),
        }
    }
}

/// The job that `fg` brings to the foreground.
fn execute_foreground(id: usize, events: &Vec<Event>, k: usize) -> (step: Step<i32>)
    ensures
        status_flow(step) == foreground_flow(id as int, event_views(events@), k as nat),
{
    if k >= events.len() {
        return Step::Ask(Action::TakeJob { id });
    }
    assert(event_views(events@)[k as int] == events@[k as int]@);
    match &events[k] {
        Event::Child(Some(pid)) => {
            if k + 1 >= events.len() {
                return Step::Ask(Action::Wait { pid: *pid });
            }
            assert(event_views(events@)[k + 1] == events@[k + 1]@);
            match &events[k + 1] {
                Event::Exited(code) => Step::Value {
                    value: match code {
                        Some(c) => *c,
                        None => 1,
                    },
                    used: k + 2,
                },
                Event::Failed(error) => Step::Fail(error.duplicate()),
                _ => out_of_turn(),
            }
        },
        Event::Child(None) => {
            let mut text = "fg: job ".to_owned();
            push_decimal(&mut text, id as u64);
            text.append(" not found");
            confirm_step(events, k + 1, Action::Complain { text }, 1)
        },
        Event::Failed(error) => Step::Fail(error.duplicate()),
        _ => out_of_turn(),
    }
}

/// Runs the simple command whose words are those of `argv` from position
/// `from` on, on the interpreter's own streams. The first rule that fits
/// decides: `time`, then `alias` and `unalias`, then `jobs`, `fg` and `bg`,
/// then the builtin dispatcher, then an external program.
pub fn execute_simple(argv: &Vec<String>, from: usize, background: bool, events: &Vec<Event>, k: usize) -> (step:
    Step<i32>)
    ensures
        status_flow(step) == simple_flow(
            texts(argv@),
            from as int,
            background,
            event_views(events@),
            k as nat,
        ),
    decreases argv.len() - from,
{
    if from >= argv.len() {
        return Step::Value { value: 0, used: k };
    }
    assert(texts(argv@)[from as int] == argv@[from as int]@);
    let first = argv[from].as_str();
    let alone = from + 1 >= argv.len();
    if same_text(first, "time") {
        if alone {
            return confirm_step(
                events,
                k,
                Action::Complain { text: "time: missing command".to_owned() },
                1,
            );
        }
        match confirm_step(events, k, Action::StartTimer, 0) {
            Step::Value { used, .. } => match execute_simple(
                argv,
                from + 1,
                background,
                events,
                used,
            ) {
                Step::Value { value, used: after } => confirm_step(
                    events,
                    after,
                    Action::ReportTimer,
                    value,
                ),
                other => other,
            },
            other => other,
        }
    } else if same_text(first, "alias") {
        if alone {
            return confirm_step(events, k, Action::ListAliases, 0);
        }
        let definition = join_words(argv, from + 1);
        match parse_alias_definition(definition.as_str()) {
            Some((name, value)) => confirm_step(events, k, Action::SetAlias { name, value }, 0),
            None => {
                let mut text = "alias: invalid format: ".to_owned();
                text.append(definition.as_str());
                confirm_step(events, k, Action::Complain { text }, 1)
            },
        }
    } else if same_text(first, "unalias") {
        if alone {
            return confirm_step(
                events,
                k,
                Action::Complain { text: "unalias: missing alias name".to_owned() },
                1,
            );
        }
        execute_unalias(argv, from + 1, events, k, 0)
    } else if same_text(first, "jobs") {
        confirm_step(events, k, Action::ListJobs, 0)
    } else if same_text(first, "fg") {
        let id: usize = if alone {
            1
        } else {
            assert(texts(argv@)[from + 1] == argv@[from + 1]@);
            match parse_usize(argv[from + 1].as_str()) {
                Some(n) => n,
                None => 1,
            }
        };
        execute_foreground(id, events, k)
    } else if same_text(first, "bg") {
        Step::Value { value: 0, used: k }
    } else {
        if k >= events.len() {
            return Step::Ask(Action::Builtin { argv: copy_words(argv, from) });
        }
        assert(event_views(events@)[k as int] == events@[k as int]@);
        match &events[k] {
            Event::Builtin(BuiltinResult::Handled(status)) => Step::Value {
                value: *status,
                used: k + 1,
            },
            Event::Builtin(BuiltinResult::HandledWithOutput(status, _)) => Step::Value {
                value: *status,
                used: k + 1,
            },
            Event::Builtin(BuiltinResult::NotHandled) => execute_external(
                argv,
                from,
                background,
                events,
                k + 1,
            ),
            Event::Failed(error) => Step::Fail(error.duplicate()),
            _ => out_of_turn(),
        }
    }
}

/// The outcome of a program whose output is collected.
fn captured_step(events: &Vec<Event>, k: usize, action: Action) -> (step: Step<Vec<u8>>)
    ensures
        bytes_flow(step) == captured(event_views(events@), k as nat, action@),
{
    if k >= events.len() {
        return Step::Ask(action);
    }
    assert(event_views(events@)[k as int] == events@[k as int]@);
    match &events[k] {
        Event::Captured { success, code, output } => {
            if *success {
                Step::Value { value: copy_bytes(output), used: k + 1 }
            } else {
                Step::Fail(stage_failed(*code))
            }
        },
        Event::Failed(error) => Step::Fail(error.duplicate()),
        _ => out_of_turn(),
    }
}

/// The value of the bytes on the standard input of a stage, where there are
/// any.
pub open spec fn stdin_view(stdin: Option<&Vec<u8>>) -> Option<Seq<u8>> {
    match stdin {
        Some(bytes) => Some(bytes@),
        None => None,
    }
}

/// A copy of the bytes on the standard input of a stage.
fn copy_stdin(stdin: Option<&Vec<u8>>) -> (copy: Option<Vec<u8>>)
    ensures
        match copy {
            Some(bytes) => stdin_view(stdin) == Some(bytes@),
            None => stdin_view(stdin) is None,
        },
{
    match stdin {
        Some(bytes) => Some(copy_bytes(bytes)),
        None => None,
    }
}

/// The output of a simple command that is a buffering stage.
fn capture_simple_step(
    argv: &Vec<String>,
    stdin: Option<&Vec<u8>>,
    events: &Vec<Event>,
    k: usize,
) -> (step: Step<Vec<u8>>)
    ensures
        bytes_flow(step) == capture_simple(
            texts(argv@),
            stdin_view(stdin),
            event_views(events@),
            k as nat,
        ),
{
    if argv.len() == 0 {
        assert(texts(argv@).len() == 0);
        return Step::Value { value: Vec::new(), used: k };
    }
    assert(texts(argv@).len() > 0);
    assert(texts(argv@).skip(0) =~= texts(argv@));
    if k >= events.len() {
        return Step::Ask(Action::Builtin { argv: copy_words(argv, 0) });
    }
    assert(event_views(events@)[k as int] == events@[k as int]@);
    match &events[k] {
        Event::Builtin(BuiltinResult::Handled(_)) => Step::Value { value: Vec::new(), used: k + 1 },
        Event::Builtin(BuiltinResult::HandledWithOutput(_, output)) => Step::Value {
            value: copy_bytes(output),
            used: k + 1,
        },
        Event::Builtin(BuiltinResult::NotHandled) => captured_step(
            events,
            k + 1,
            Action::Capture { argv: copy_words(argv, 0), stdin: copy_stdin(stdin) },
        ),
        Event::Failed(error) => Step::Fail(error.duplicate()),
        _ => out_of_turn(),
    }
}

/// Writes the output of a redirected stage to its file; nothing flows on.
fn written_step(events: &Vec<Event>, k: usize, file: &String, append: bool, data: Vec<u8>) -> (step:
    Step<Vec<u8>>)
    ensures
        bytes_flow(step) == written(event_views(events@), k as nat, file@, append, data@),
{
    match confirm_step(events, k, Action::Write { file: file.clone(), append, data }, 0) {
        Step::Value { used, .. } => Step::Value { value: Vec::new(), used },
        Step::Ask(action) => Step::Ask(action),
        Step::Fail(error) => Step::Fail(error),
    }
}

/// Evaluates `cmd` as a buffering stage, with `stdin` on its standard input
/// where there is one: asks for the actions that produce its output, and
/// yields the output once the events hold it.
pub fn capture_output(
    cmd: &CommandPart,
    stdin: Option<&Vec<u8>>,
    events: &Vec<Event>,
    k: usize,
) -> (step: Step<Vec<u8>>)
    ensures
        bytes_flow(step) == capture_flow(cmd@, stdin_view(stdin), event_views(events@), k as nat),
    decreases cmd,
{
    match cmd {
        CommandPart::Simple { argv, .. } => capture_simple_step(argv, stdin, events, k),
        CommandPart::Pipe { left, right } => match capture_output(&**left, stdin, events, k) {
            Step::Value { value, used } => capture_output(&**right, Some(&value), events, used),
            other => other,
        },
        CommandPart::RedirectOut { cmd: inner, file, append } => match capture_output(
            &**inner,
            stdin,
            events,
            k,
        ) {
            Step::Value { value, used } => written_step(events, used, file, *append, value),
            other => other,
        },
        CommandPart::RedirectIn { cmd: inner, file } => {
            if k >= events.len() {
                return Step::Ask(Action::Read { file: file.clone() });
            }
            assert(event_views(events@)[k as int] == events@[k as int]@);
            match &events[k] {
                Event::Content(bytes) => capture_output(&**inner, Some(bytes), events, k + 1),
                Event::Failed(error) => Step::Fail(error.duplicate()),
                _ => out_of_turn(),
            }
        },
        CommandPart::Chain { left, .. } => capture_output(&**left, stdin, events, k),
    }
}

/// The status of a simple command run with `input` on its standard input.
fn feed_simple_step(argv: &Vec<String>, input: &Vec<u8>, events: &Vec<Event>, k: usize) -> (step:
    Step<i32>)
    ensures
        status_flow(step) == feed_simple(texts(argv@), input@, event_views(events@), k as nat),
{
    if argv.len() == 0 {
        assert(texts(argv@).len() == 0);
        return Step::Value { value: 0, used: k };
    }
    assert(texts(argv@).len() > 0);
    assert(texts(argv@).skip(0) =~= texts(argv@));
    if k >= events.len() {
        return Step::Ask(Action::Builtin { argv: copy_words(argv, 0) });
    }
    assert(event_views(events@)[k as int] == events@[k as int]@);
    match &events[k] {
        Event::Builtin(BuiltinResult::Handled(status)) => Step::Value {
            value: *status,
            used: k + 1,
        },
        Event::Builtin(BuiltinResult::HandledWithOutput(status, _)) => Step::Value {
            value: *status,
            used: k + 1,
        },
        Event::Builtin(BuiltinResult::NotHandled) => {
            if k + 1 >= events.len() {
                return Step::Ask(
                    Action::Feed { argv: copy_words(argv, 0), input: copy_bytes(input) },
                );
            }
            assert(event_views(events@)[k + 1] == events@[k + 1]@);
            match &events[k + 1] {
                Event::Exited(code) => Step::Value {
                    value: match code {
                        Some(c) => *c,
                        None => 1,
                    },
                    used: k + 2,
                },
                Event::Failed(error) => Step::Fail(error.duplicate()),
                _ => out_of_turn(),
            }
        },
        Event::Failed(error) => Step::Fail(error.duplicate()),
        _ => out_of_turn(),
    }
}

/// Turns a step that yields bytes and has not finished into one that yields a
/// status.
fn unfinished(step: Step<Vec<u8>>) -> (r: Step<i32>)
    requires
        !(step is Value),
    ensures
        match bytes_flow(step) {
            Flow::Ask(action) => status_flow(r) == Flow::<int>::Ask(action),
            Flow::Fail(error) => status_flow(r) == Flow::<int>::Fail(error),
            _ => false,
        },
{
    match step {
        Step::Ask(action) => Step::Ask(action),
        Step::Fail(error) => Step::Fail(error),
        Step::Value { .. } => out_of_turn(),
    }
}

/// Writes the output of a command to the file of its redirection, once there
/// is any; the status is 0.
fn redirected_step(output: Step<Vec<u8>>, events: &Vec<Event>, file: &String, append: bool) -> (step:
    Step<i32>)
    ensures
        status_flow(step) == redirected(bytes_flow(output), event_views(events@), file@, append),
{
    match output {
        Step::Value { value, used } => confirm_step(
            events,
            used,
            Action::Write { file: file.clone(), append, data: value },
            0,
        ),
        other => unfinished(other),
    }
}

/// Evaluates `cmd` with `input` on its standard input.
pub fn execute_with_input(cmd: &CommandPart, input: &Vec<u8>, events: &Vec<Event>, k: usize) -> (step:
    Step<i32>)
    ensures
        status_flow(step) == feed_flow(cmd@, input@, event_views(events@), k as nat),
    decreases cmd,
{
    match cmd {
        CommandPart::Simple { argv, .. } => feed_simple_step(argv, input, events, k),
        CommandPart::Pipe { left, right } => match capture_output(
            &**left,
            Some(input),
            events,
            k,
        ) {
            Step::Value { value, used } => execute_with_input(&**right, &value, events, used),
            other => unfinished(other),
        },
        CommandPart::RedirectOut { cmd: inner, file, append } => redirected_step(
            capture_output(&**inner, Some(input), events, k),
            events,
            file,
            *append,
        ),
        CommandPart::RedirectIn { cmd: inner, file } => {
            if k >= events.len() {
                return Step::Ask(Action::Read { file: file.clone() });
            }
            assert(event_views(events@)[k as int] == events@[k as int]@);
            match &events[k] {
                Event::Content(bytes) => execute_with_input(&**inner, bytes, events, k + 1),
                Event::Failed(error) => Step::Fail(error.duplicate()),
                _ => out_of_turn(),
            }
        },
        CommandPart::Chain { left, right, and } => match execute_with_input(
            &**left,
            input,
            events,
            k,
        ) {
            Step::Value { value, used } => {
                if should_run_right(*and, value) {
                    execute_with_input(&**right, input, events, used)
                } else {
                    Step::Value { value, used }
                }
            },
            other => other,
        },
    }
}

/// Evaluates `cmd` on the interpreter's own streams, given the events that
/// answered the actions asked for so far, from event `k` on: the result is
/// the next action to perform, or the final status, or the failure.
pub fn execute_command(cmd: &CommandPart, events: &Vec<Event>, k: usize) -> (step: Step<i32>)
    ensures
        status_flow(step) == command_flow(cmd@, event_views(events@), k as nat),
    decreases cmd,
{
    match cmd {
        CommandPart::Simple { argv, background } => execute_simple(
            argv,
            0,
            *background,
            events,
            k,
        ),
        CommandPart::Pipe { left, right } => match capture_output(&**left, None, events, k) {
            Step::Value { value, used } => execute_with_input(&**right, &value, events, used),
            other => unfinished(other),
        },
        CommandPart::RedirectOut { cmd: inner, file, append } => redirected_step(
            capture_output(&**inner, None, events, k),
            events,
            file,
            *append,
        ),
        CommandPart::RedirectIn { cmd: inner, file } => {
            if k >= events.len() {
                return Step::Ask(Action::Read { file: file.clone() });
            }
            assert(event_views(events@)[k as int] == events@[k as int]@);
            match &events[k] {
                Event::Content(bytes) => execute_with_input(&**inner, bytes, events, k + 1),
                Event::Failed(error) => Step::Fail(error.duplicate()),
                _ => out_of_turn(),
            }
        },
        CommandPart::Chain { left, right, and } => match execute_command(&**left, events, k) {
            Step::Value { value, used } => {
                if should_run_right(*and, value) {
                    execute_command(&**right, events, used)
                } else {
                    Step::Value { value, used }
                }
            },
            other => other,
        },
    }
}

} // verus!
