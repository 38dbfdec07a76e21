use squish::builtins::BuiltinResult;
use squish::error::ShellError;
use squish::executor::{
    capture_output, copy_bytes, copy_words, execute_command, execute_simple, execute_with_input,
    job_command, job_started, parse_alias_definition, should_run_right, stage_failed, Action,
    Event, Step,
};
use squish::parser::CommandPart;
use squish::shell::Shell;
use squish::shell_config::ShellConfig;

fn words(list: &[&str]) -> Vec<String> {
    list.iter().map(|w| w.to_string()).collect()
}

fn simple(list: &[&str]) -> CommandPart {
    CommandPart::Simple { argv: words(list), background: false }
}

fn background(list: &[&str]) -> CommandPart {
    CommandPart::Simple { argv: words(list), background: true }
}

fn pipe(left: CommandPart, right: CommandPart) -> CommandPart {
    CommandPart::Pipe { left: Box::new(left), right: Box::new(right) }
}

fn chain(left: CommandPart, right: CommandPart, and: bool) -> CommandPart {
    CommandPart::Chain { left: Box::new(left), right: Box::new(right), and }
}

fn out(cmd: CommandPart, file: &str, append: bool) -> CommandPart {
    CommandPart::RedirectOut { cmd: Box::new(cmd), file: file.to_string(), append }
}

fn input(cmd: CommandPart, file: &str) -> CommandPart {
    CommandPart::RedirectIn { cmd: Box::new(cmd), file: file.to_string() }
}

fn value(status: i32, used: usize) -> Step<i32> {
    Step::Value { value: status, used }
}

fn ask(action: Action) -> Step<i32> {
    Step::Ask(action)
}

fn builtin(list: &[&str]) -> Action {
    Action::Builtin { argv: words(list) }
}

fn not_builtin() -> Event {
    Event::Builtin(BuiltinResult::NotHandled)
}

fn other(message: &str) -> ShellError {
    ShellError::Other(message.to_string())
}

fn run(cmd: &CommandPart, events: Vec<Event>) -> Step<i32> {
    execute_command(cmd, &events, 0)
}

#[test]
fn exec_external_command_asks_the_dispatcher_first() {
    let cmd = simple(&["ls", "-l"]);
    assert_eq!(run(&cmd, vec![]), ask(builtin(&["ls", "-l"])));
    assert_eq!(run(&cmd, vec![not_builtin()]), ask(Action::Run { argv: words(&["ls", "-l"]) }));
    assert_eq!(run(&cmd, vec![not_builtin(), Event::Exited(Some(3))]), value(3, 2));
    assert_eq!(run(&cmd, vec![not_builtin(), Event::Exited(None)]), value(0, 2));
}

#[test]
fn exec_builtin_status_is_the_status() {
    let cmd = simple(&["cd", "/"]);
    assert_eq!(run(&cmd, vec![Event::Builtin(BuiltinResult::Handled(1))]), value(1, 1));
    assert_eq!(run(&cmd, vec![Event::Builtin(BuiltinResult::HandledWithOutput(0, vec![65]))]), value(0, 1));
}

#[test]
fn exec_dispatcher_failure_fails() {
    let cmd = simple(&["ls"]);
    assert_eq!(run(&cmd, vec![Event::Failed(other("boom"))]), Step::Fail(other("boom")));
}

#[test]
fn exec_unexpected_event_fails() {
    let cmd = simple(&["ls"]);
    assert_eq!(run(&cmd, vec![Event::Done]), Step::Fail(other("unexpected event")));
    assert_eq!(run(&cmd, vec![not_builtin(), Event::Started(4)]), Step::Fail(other("unexpected event")));
}

#[test]
fn exec_command_not_found_is_127() {
    let cmd = simple(&["nope"]);
    let missing = ShellError::CommandNotFound { program: "nope".to_string() };
    assert_eq!(
        run(&cmd, vec![not_builtin(), Event::Failed(ShellError::CommandNotFound { program: "nope".to_string() })]),
        ask(Action::Report { error: missing })
    );
    assert_eq!(
        run(&cmd, vec![not_builtin(), Event::Failed(ShellError::CommandNotFound { program: "nope".to_string() }), Event::Done]),
        value(127, 3)
    );
}

#[test]
fn exec_spawn_failure_is_126() {
    let cmd = simple(&["x"]);
    let failed = || Event::Failed(ShellError::ExecFailed { program: "x".to_string(), message: "denied".to_string() });
    assert_eq!(run(&cmd, vec![not_builtin(), failed(), Event::Done]), value(126, 3));
    assert_eq!(run(&cmd, vec![not_builtin(), Event::Failed(other("odd")), Event::Done]), value(1, 3));
}

#[test]
fn exec_background_registers_the_job_and_returns_zero() {
    let cmd = background(&["sleep", "5"]);
    let mut shell = Shell::new(ShellConfig::default());
    let mut events: Vec<Event> = vec![];
    assert_eq!(run(&cmd, vec![]), ask(builtin(&["sleep", "5"])));
    events.push(not_builtin());
    assert_eq!(execute_command(&cmd, &events, 0), ask(Action::Spawn { argv: words(&["sleep", "5"]) }));
    events.push(Event::Started(4242));
    let register = Action::Register { command: "sleep 5".to_string(), pid: 4242 };
    assert_eq!(execute_command(&cmd, &events, 0), ask(Action::Register { command: "sleep 5".to_string(), pid: 4242 }));
    let registered = shell.perform(&register).unwrap();
    assert_eq!(registered, Event::Registered(1));
    events.push(registered);
    assert_eq!(execute_command(&cmd, &events, 0), ask(Action::Say { text: "[1] sleep 5".to_string() }));
    events.push(Event::Done);
    assert_eq!(execute_command(&cmd, &events, 0), value(0, 4));
    assert_eq!(shell.jobs.list_jobs().len(), 1);
    assert_eq!(shell.jobs.list_jobs()[0].id, 1);
    assert_eq!(shell.jobs.list_jobs()[0].child, Some(4242));
}

#[test]
fn exec_background_spawn_failure_fails() {
    let cmd = background(&["x"]);
    let failed = ShellError::ExecFailed { program: "x".to_string(), message: "no".to_string() };
    assert_eq!(
        run(&cmd, vec![not_builtin(), Event::Failed(ShellError::ExecFailed { program: "x".to_string(), message: "no".to_string() })]),
        Step::Fail(failed)
    );
}

#[test]
fn exec_and_chain_short_circuits_on_failure() {
    let cmd = chain(simple(&["false"]), simple(&["echo", "hi"]), true);
    assert_eq!(run(&cmd, vec![not_builtin(), Event::Exited(Some(1))]), value(1, 2));
}

#[test]
fn exec_and_chain_runs_right_on_success() {
    let cmd = chain(simple(&["true"]), simple(&["echo", "hi"]), true);
    assert_eq!(run(&cmd, vec![not_builtin(), Event::Exited(Some(0))]), ask(builtin(&["echo", "hi"])));
    assert_eq!(
        run(&cmd, vec![not_builtin(), Event::Exited(Some(0)), not_builtin(), Event::Exited(Some(5))]),
        value(5, 4)
    );
}

#[test]
fn exec_or_chain_runs_right_on_failure() {
    let cmd = chain(simple(&["false"]), simple(&["echo", "hi"]), false);
    assert_eq!(run(&cmd, vec![not_builtin(), Event::Exited(Some(1))]), ask(builtin(&["echo", "hi"])));
    assert_eq!(
        run(&cmd, vec![not_builtin(), Event::Exited(Some(1)), not_builtin(), Event::Exited(Some(0))]),
        value(0, 4)
    );
}

#[test]
fn exec_or_chain_short_circuits_on_success() {
    let cmd = chain(simple(&["true"]), simple(&["echo", "hi"]), false);
    assert_eq!(run(&cmd, vec![not_builtin(), Event::Exited(Some(0))]), value(0, 2));
}

#[test]
fn exec_mixed_chain_goes_left_to_right() {
    let cmd = chain(chain(simple(&["a"]), simple(&["b"]), true), simple(&["c"]), false);
    assert_eq!(run(&cmd, vec![not_builtin(), Event::Exited(Some(2))]), ask(builtin(&["c"])));
    assert_eq!(
        run(&cmd, vec![not_builtin(), Event::Exited(Some(0)), not_builtin(), Event::Exited(Some(0))]),
        value(0, 4)
    );
}

#[test]
fn exec_pipe_buffers_left_then_feeds_right() {
    let cmd = pipe(simple(&["ls"]), simple(&["wc"]));
    assert_eq!(run(&cmd, vec![]), ask(builtin(&["ls"])));
    assert_eq!(run(&cmd, vec![not_builtin()]), ask(Action::Capture { argv: words(&["ls"]), stdin: None }));
    let captured = || Event::Captured { success: true, code: Some(0), output: vec![97, 10] };
    assert_eq!(run(&cmd, vec![not_builtin(), captured()]), ask(builtin(&["wc"])));
    assert_eq!(
        run(&cmd, vec![not_builtin(), captured(), not_builtin()]),
        ask(Action::Feed { argv: words(&["wc"]), input: vec![97, 10] })
    );
    assert_eq!(run(&cmd, vec![not_builtin(), captured(), not_builtin(), Event::Exited(Some(0))]), value(0, 4));
    assert_eq!(run(&cmd, vec![not_builtin(), captured(), not_builtin(), Event::Exited(None)]), value(1, 4));
}

#[test]
fn exec_pipe_fails_fast() {
    let cmd = pipe(simple(&["ls"]), simple(&["wc"]));
    let failed = Event::Captured { success: false, code: Some(2), output: vec![1] };
    assert_eq!(run(&cmd, vec![not_builtin(), failed]), Step::Fail(other("command failed with status 2")));
    let killed = Event::Captured { success: false, code: None, output: vec![] };
    assert_eq!(run(&cmd, vec![not_builtin(), killed]), Step::Fail(other("command failed with status -1")));
}

#[test]
fn exec_pipe_of_builtin_output() {
    let cmd = pipe(simple(&["ll"]), simple(&["wc"]));
    assert_eq!(
        run(&cmd, vec![Event::Builtin(BuiltinResult::HandledWithOutput(0, vec![1, 2])), not_builtin()]),
        ask(Action::Feed { argv: words(&["wc"]), input: vec![1, 2] })
    );
    assert_eq!(
        run(&cmd, vec![Event::Builtin(BuiltinResult::Handled(0)), not_builtin()]),
        ask(Action::Feed { argv: words(&["wc"]), input: vec![] })
    );
}

#[test]
fn exec_three_stage_pipe() {
    let cmd = pipe(pipe(simple(&["a"]), simple(&["b"])), simple(&["c"]));
    let first = || Event::Captured { success: true, code: Some(0), output: vec![1] };
    assert_eq!(run(&cmd, vec![not_builtin(), first()]), ask(builtin(&["b"])));
    assert_eq!(
        run(&cmd, vec![not_builtin(), first(), not_builtin()]),
        ask(Action::Capture { argv: words(&["b"]), stdin: Some(vec![1]) })
    );
    let second = || Event::Captured { success: true, code: Some(0), output: vec![2] };
    assert_eq!(run(&cmd, vec![not_builtin(), first(), not_builtin(), second()]), ask(builtin(&["c"])));
    assert_eq!(
        run(&cmd, vec![not_builtin(), first(), not_builtin(), second(), not_builtin()]),
        ask(Action::Feed { argv: words(&["c"]), input: vec![2] })
    );
    assert_eq!(
        run(&cmd, vec![not_builtin(), first(), not_builtin(), second(), not_builtin(), Event::Exited(Some(0))]),
        value(0, 6)
    );
}

#[test]
fn exec_builtin_in_a_middle_stage_is_honoured() {
    let cmd = pipe(pipe(simple(&["a"]), simple(&["ll"])), simple(&["c"]));
    let first = Event::Captured { success: true, code: Some(0), output: vec![1] };
    let listing = Event::Builtin(BuiltinResult::HandledWithOutput(0, vec![7, 8]));
    assert_eq!(
        run(&cmd, vec![not_builtin(), first, listing, not_builtin()]),
        ask(Action::Feed { argv: words(&["c"]), input: vec![7, 8] })
    );
}

#[test]
fn exec_redirect_in_the_last_stage_of_a_pipe_is_written() {
    let cmd = pipe(simple(&["ls"]), out(simple(&["grep", "foo"]), "out.txt", false));
    let listed = || Event::Captured { success: true, code: Some(0), output: vec![102, 111, 111, 10, 98, 10] };
    assert_eq!(
        run(&cmd, vec![not_builtin(), listed(), not_builtin()]),
        ask(Action::Capture { argv: words(&["grep", "foo"]), stdin: Some(vec![102, 111, 111, 10, 98, 10]) })
    );
    let found = || Event::Captured { success: true, code: Some(0), output: vec![102, 111, 111, 10] };
    assert_eq!(
        run(&cmd, vec![not_builtin(), listed(), not_builtin(), found()]),
        ask(Action::Write { file: "out.txt".to_string(), append: false, data: vec![102, 111, 111, 10] })
    );
    assert_eq!(run(&cmd, vec![not_builtin(), listed(), not_builtin(), found(), Event::Done]), value(0, 5));
    assert_eq!(
        run(&cmd, vec![not_builtin(), listed(), not_builtin(), found(), Event::Failed(other("cannot open out.txt: denied"))]),
        Step::Fail(other("cannot open out.txt: denied"))
    );
}

#[test]
fn exec_redirect_in_the_last_stage_fails_with_its_command() {
    let cmd = pipe(simple(&["ls"]), out(simple(&["grep", "foo"]), "out.txt", true));
    let listed = Event::Captured { success: true, code: Some(0), output: vec![1] };
    let nothing = Event::Captured { success: false, code: Some(1), output: vec![] };
    assert_eq!(
        run(&cmd, vec![not_builtin(), listed, not_builtin(), nothing]),
        Step::Fail(other("command failed with status 1"))
    );
}

#[test]
fn exec_redirect_in_a_middle_stage_lets_nothing_flow_on() {
    let cmd = pipe(pipe(simple(&["a"]), out(simple(&["b"]), "f", false)), simple(&["c"]));
    let first = || Event::Captured { success: true, code: Some(0), output: vec![1] };
    assert_eq!(
        run(&cmd, vec![not_builtin(), first(), not_builtin()]),
        ask(Action::Capture { argv: words(&["b"]), stdin: Some(vec![1]) })
    );
    let second = || Event::Captured { success: true, code: Some(0), output: vec![2] };
    assert_eq!(
        run(&cmd, vec![not_builtin(), first(), not_builtin(), second()]),
        ask(Action::Write { file: "f".to_string(), append: false, data: vec![2] })
    );
    assert_eq!(
        run(&cmd, vec![not_builtin(), first(), not_builtin(), second(), Event::Done, not_builtin()]),
        ask(Action::Feed { argv: words(&["c"]), input: vec![] })
    );
}

#[test]
fn exec_redirect_in_on_the_first_stage_of_a_pipe_is_read() {
    let cmd = pipe(input(simple(&["sort"]), "in.txt"), simple(&["uniq"]));
    assert_eq!(run(&cmd, vec![]), ask(Action::Read { file: "in.txt".to_string() }));
    assert_eq!(
        run(&cmd, vec![Event::Content(vec![3, 1]), not_builtin()]),
        ask(Action::Capture { argv: words(&["sort"]), stdin: Some(vec![3, 1]) })
    );
    let sorted = Event::Captured { success: true, code: Some(0), output: vec![1, 3] };
    assert_eq!(
        run(&cmd, vec![Event::Content(vec![3, 1]), not_builtin(), sorted, not_builtin()]),
        ask(Action::Feed { argv: words(&["uniq"]), input: vec![1, 3] })
    );
}

#[test]
fn exec_redirect_in_on_a_fed_stage_replaces_the_input() {
    let cmd = pipe(simple(&["a"]), input(simple(&["b"]), "g"));
    let first = || Event::Captured { success: true, code: Some(0), output: vec![1] };
    assert_eq!(run(&cmd, vec![not_builtin(), first()]), ask(Action::Read { file: "g".to_string() }));
    assert_eq!(
        run(&cmd, vec![not_builtin(), first(), Event::Content(vec![7]), not_builtin()]),
        ask(Action::Feed { argv: words(&["b"]), input: vec![7] })
    );
}

#[test]
fn exec_both_redirects_on_one_command() {
    let cmd = input(out(simple(&["tr"]), "o", false), "i");
    assert_eq!(run(&cmd, vec![]), ask(Action::Read { file: "i".to_string() }));
    assert_eq!(
        run(&cmd, vec![Event::Content(vec![4]), not_builtin()]),
        ask(Action::Capture { argv: words(&["tr"]), stdin: Some(vec![4]) })
    );
    let done = Event::Captured { success: true, code: Some(0), output: vec![5] };
    assert_eq!(
        run(&cmd, vec![Event::Content(vec![4]), not_builtin(), done]),
        ask(Action::Write { file: "o".to_string(), append: false, data: vec![5] })
    );
}

#[test]
fn exec_capture_pipe_with_empty_right_gives_nothing() {
    let cmd = pipe(simple(&["a"]), CommandPart::Simple { argv: vec![], background: false });
    let events = vec![not_builtin(), Event::Captured { success: true, code: Some(0), output: vec![9] }];
    assert_eq!(capture_output(&cmd, None, &events, 0), Step::Value { value: vec![], used: 2 });
}

#[test]
fn exec_redirect_out_writes_the_output() {
    let cmd = out(simple(&["ls"]), "o.txt", false);
    let captured = || Event::Captured { success: true, code: Some(0), output: vec![7] };
    assert_eq!(
        run(&cmd, vec![not_builtin(), captured()]),
        ask(Action::Write { file: "o.txt".to_string(), append: false, data: vec![7] })
    );
    assert_eq!(run(&cmd, vec![not_builtin(), captured(), Event::Done]), value(0, 3));
    assert_eq!(
        run(&cmd, vec![not_builtin(), captured(), Event::Failed(other("cannot open o.txt: denied"))]),
        Step::Fail(other("cannot open o.txt: denied"))
    );
}

#[test]
fn exec_redirect_append() {
    let cmd = out(simple(&["ls"]), "o.txt", true);
    let captured = Event::Captured { success: true, code: Some(0), output: vec![] };
    assert_eq!(
        run(&cmd, vec![not_builtin(), captured]),
        ask(Action::Write { file: "o.txt".to_string(), append: true, data: vec![] })
    );
}

#[test]
fn exec_redirect_in_reads_then_feeds() {
    let cmd = input(simple(&["sort"]), "in.txt");
    assert_eq!(run(&cmd, vec![]), ask(Action::Read { file: "in.txt".to_string() }));
    assert_eq!(run(&cmd, vec![Event::Content(vec![3, 1])]), ask(builtin(&["sort"])));
    assert_eq!(
        run(&cmd, vec![Event::Content(vec![3, 1]), not_builtin()]),
        ask(Action::Feed { argv: words(&["sort"]), input: vec![3, 1] })
    );
    assert_eq!(run(&cmd, vec![Event::Content(vec![3, 1]), not_builtin(), Event::Exited(Some(0))]), value(0, 3));
    assert_eq!(
        run(&cmd, vec![Event::Failed(other("cannot open in.txt: missing"))]),
        Step::Fail(other("cannot open in.txt: missing"))
    );
}

#[test]
fn exec_with_input_gives_each_side_of_a_chain_the_input() {
    let cmd = chain(simple(&["a"]), simple(&["b"]), false);
    let input = vec![9];
    let events = vec![not_builtin(), Event::Exited(Some(1)), not_builtin()];
    assert_eq!(
        execute_with_input(&cmd, &input, &events, 0),
        ask(Action::Feed { argv: words(&["b"]), input: vec![9] })
    );
}

#[test]
fn exec_capture_of_a_chain_takes_the_left_side() {
    let cmd = chain(simple(&["a"]), simple(&["b"]), true);
    let events = vec![not_builtin(), Event::Captured { success: true, code: Some(0), output: vec![5] }];
    assert_eq!(capture_output(&cmd, None, &events, 0), Step::Value { value: vec![5], used: 2 });
}

#[test]
fn exec_capture_of_a_redirect_writes_and_reads() {
    let cmd = input(out(simple(&["a"]), "f", false), "g");
    let stdin = vec![0];
    assert_eq!(capture_output(&cmd, Some(&stdin), &vec![], 0), Step::Ask(Action::Read { file: "g".to_string() }));
    let events = vec![Event::Content(vec![6]), Event::Builtin(BuiltinResult::HandledWithOutput(3, vec![8]))];
    assert_eq!(
        capture_output(&cmd, Some(&stdin), &events, 0),
        Step::Ask(Action::Write { file: "f".to_string(), append: false, data: vec![8] })
    );
    let events = vec![Event::Content(vec![6]), Event::Builtin(BuiltinResult::HandledWithOutput(3, vec![8])), Event::Done];
    assert_eq!(capture_output(&cmd, Some(&stdin), &events, 0), Step::Value { value: vec![], used: 3 });
}

#[test]
fn exec_capture_hands_the_input_to_the_program() {
    let cmd = simple(&["wc"]);
    let stdin = vec![1, 2];
    assert_eq!(
        capture_output(&cmd, Some(&stdin), &vec![not_builtin()], 0),
        Step::Ask(Action::Capture { argv: words(&["wc"]), stdin: Some(vec![1, 2]) })
    );
    assert_eq!(
        capture_output(&cmd, None, &vec![not_builtin()], 0),
        Step::Ask(Action::Capture { argv: words(&["wc"]), stdin: None })
    );
}

#[test]
fn exec_with_input_feeds_the_first_stage_of_a_pipe() {
    let cmd = pipe(simple(&["a"]), simple(&["b"]));
    let input = vec![3];
    assert_eq!(
        execute_with_input(&cmd, &input, &vec![not_builtin()], 0),
        ask(Action::Capture { argv: words(&["a"]), stdin: Some(vec![3]) })
    );
}

#[test]
fn exec_with_input_honours_an_output_redirection() {
    let cmd = out(simple(&["a"]), "f", true);
    let input = vec![3];
    let events = vec![not_builtin(), Event::Captured { success: true, code: Some(0), output: vec![4] }];
    assert_eq!(
        execute_with_input(&cmd, &input, &events, 0),
        ask(Action::Write { file: "f".to_string(), append: true, data: vec![4] })
    );
}

#[test]
fn exec_from_a_later_event() {
    let cmd = simple(&["ls"]);
    let events = vec![Event::Done, not_builtin(), Event::Exited(Some(4))];
    assert_eq!(execute_command(&cmd, &events, 1), value(4, 3));
}

#[test]
fn exec_empty_command_is_zero() {
    let cmd = CommandPart::Simple { argv: vec![], background: false };
    assert_eq!(run(&cmd, vec![]), value(0, 0));
    assert_eq!(execute_simple(&words(&["a"]), 1, false, &vec![], 0), value(0, 0));
}

#[test]
fn exec_time_without_command() {
    let cmd = simple(&["time"]);
    assert_eq!(run(&cmd, vec![]), ask(Action::Complain { text: "time: missing command".to_string() }));
    assert_eq!(run(&cmd, vec![Event::Done]), value(1, 1));
}

#[test]
fn exec_time_wraps_the_command() {
    let cmd = simple(&["time", "ls"]);
    assert_eq!(run(&cmd, vec![]), ask(Action::StartTimer));
    assert_eq!(run(&cmd, vec![Event::Done]), ask(builtin(&["ls"])));
    assert_eq!(run(&cmd, vec![Event::Done, not_builtin(), Event::Exited(Some(2))]), ask(Action::ReportTimer));
    assert_eq!(run(&cmd, vec![Event::Done, not_builtin(), Event::Exited(Some(2)), Event::Done]), value(2, 4));
}

#[test]
fn exec_time_of_an_alias_command_is_handled_here() {
    let cmd = simple(&["time", "alias", "a=b"]);
    assert_eq!(
        run(&cmd, vec![Event::Done]),
        ask(Action::SetAlias { name: "a".to_string(), value: "b".to_string() })
    );
}

#[test]
fn exec_alias_lists_without_arguments() {
    let cmd = simple(&["alias"]);
    assert_eq!(run(&cmd, vec![]), ask(Action::ListAliases));
    assert_eq!(run(&cmd, vec![Event::Done]), value(0, 1));
}

#[test]
fn exec_alias_defines() {
    let cmd = simple(&["alias", "ll=ls -la"]);
    assert_eq!(run(&cmd, vec![]), ask(Action::SetAlias { name: "ll".to_string(), value: "ls -la".to_string() }));
    let cmd = simple(&["alias", "ll=ls", "-la"]);
    assert_eq!(run(&cmd, vec![]), ask(Action::SetAlias { name: "ll".to_string(), value: "ls -la".to_string() }));
    assert_eq!(run(&cmd, vec![Event::Done]), value(0, 1));
}

#[test]
fn exec_alias_invalid_format() {
    let cmd = simple(&["alias", "ll", "x"]);
    assert_eq!(run(&cmd, vec![]), ask(Action::Complain { text: "alias: invalid format: ll x".to_string() }));
    assert_eq!(run(&cmd, vec![Event::Done]), value(1, 1));
}

#[test]
fn exec_alias_definition_strips_one_layer_of_quotes() {
    let pair = |n: &str, v: &str| Some((n.to_string(), v.to_string()));
    assert_eq!(parse_alias_definition("a='b c'"), pair("a", "b c"));
    assert_eq!(parse_alias_definition("a=\"b c\""), pair("a", "b c"));
    assert_eq!(parse_alias_definition("a=''b''"), pair("a", "'b'"));
    assert_eq!(parse_alias_definition("a='b\""), pair("a", "'b\""));
    assert_eq!(parse_alias_definition(" a = 'b' "), pair("a", "b"));
    assert_eq!(parse_alias_definition("a='"), pair("a", "'"));
    assert_eq!(parse_alias_definition("a=''"), pair("a", ""));
    assert_eq!(parse_alias_definition("a=b=c"), pair("a", "b=c"));
    assert_eq!(parse_alias_definition("=b"), pair("", "b"));
    assert_eq!(parse_alias_definition("a"), None);
    assert_eq!(parse_alias_definition(""), None);
}

#[test]
fn exec_unalias_without_name() {
    let cmd = simple(&["unalias"]);
    assert_eq!(run(&cmd, vec![]), ask(Action::Complain { text: "unalias: missing alias name".to_string() }));
    assert_eq!(run(&cmd, vec![Event::Done]), value(1, 1));
}

#[test]
fn exec_unalias_removes_each_name() {
    let cmd = simple(&["unalias", "a", "b"]);
    assert_eq!(run(&cmd, vec![]), ask(Action::RemoveAlias { name: "a".to_string() }));
    assert_eq!(run(&cmd, vec![Event::Removed(true)]), ask(Action::RemoveAlias { name: "b".to_string() }));
    assert_eq!(run(&cmd, vec![Event::Removed(true), Event::Removed(true)]), value(0, 2));
}

#[test]
fn exec_unalias_complains_of_unknown_names() {
    let cmd = simple(&["unalias", "a", "b"]);
    assert_eq!(
        run(&cmd, vec![Event::Removed(false)]),
        ask(Action::Complain { text: "unalias: a: not found".to_string() })
    );
    assert_eq!(run(&cmd, vec![Event::Removed(false), Event::Done]), ask(Action::RemoveAlias { name: "b".to_string() }));
    assert_eq!(run(&cmd, vec![Event::Removed(false), Event::Done, Event::Removed(true)]), value(1, 3));
}

#[test]
fn exec_jobs_lists() {
    let cmd = simple(&["jobs"]);
    assert_eq!(run(&cmd, vec![]), ask(Action::ListJobs));
    assert_eq!(run(&cmd, vec![Event::Done]), value(0, 1));
}

#[test]
fn exec_fg_takes_the_job_and_waits() {
    let cmd = simple(&["fg", "2"]);
    assert_eq!(run(&cmd, vec![]), ask(Action::TakeJob { id: 2 }));
    assert_eq!(run(&cmd, vec![Event::Child(Some(77))]), ask(Action::Wait { pid: 77 }));
    assert_eq!(run(&cmd, vec![Event::Child(Some(77)), Event::Exited(Some(9))]), value(9, 2));
    assert_eq!(run(&cmd, vec![Event::Child(Some(77)), Event::Exited(None)]), value(1, 2));
}

#[test]
fn exec_fg_defaults_to_job_one() {
    assert_eq!(run(&simple(&["fg"]), vec![]), ask(Action::TakeJob { id: 1 }));
    assert_eq!(run(&simple(&["fg", "x"]), vec![]), ask(Action::TakeJob { id: 1 }));
    assert_eq!(run(&simple(&["fg", "-3"]), vec![]), ask(Action::TakeJob { id: 1 }));
}

#[test]
fn exec_fg_without_job() {
    let cmd = simple(&["fg", "5"]);
    assert_eq!(
        run(&cmd, vec![Event::Child(None)]),
        ask(Action::Complain { text: "fg: job 5 not found".to_string() })
    );
    assert_eq!(run(&cmd, vec![Event::Child(None), Event::Done]), value(1, 2));
}

#[test]
fn exec_bg_does_nothing() {
    assert_eq!(run(&simple(&["bg", "1"]), vec![]), value(0, 0));
}

#[test]
fn exec_should_run_right() {
    assert!(should_run_right(true, 0));
    assert!(!should_run_right(true, 1));
    assert!(!should_run_right(false, 0));
    assert!(should_run_right(false, 1));
    assert!(should_run_right(false, -1));
}

#[test]
fn exec_job_texts() {
    assert_eq!(job_command(&words(&["sleep", "5"])), "sleep 5");
    assert_eq!(job_command(&words(&["top"])), "top ");
    assert_eq!(job_command(&words(&["a", "b", "c"])), "a b c");
    assert_eq!(job_started(12, "sleep 5"), "[12] sleep 5");
}

#[test]
fn exec_stage_failure_message() {
    assert_eq!(stage_failed(Some(1)), other("command failed with status 1"));
    assert_eq!(stage_failed(Some(-7)), other("command failed with status -7"));
    assert_eq!(stage_failed(None), other("command failed with status -1"));
}

#[test]
fn exec_copies() {
    assert_eq!(copy_bytes(&vec![1, 2, 3]), vec![1, 2, 3]);
    assert_eq!(copy_words(&words(&["a", "b", "c"]), 1), words(&["b", "c"]));
    assert_eq!(copy_words(&words(&["a"]), 1), Vec::<String>::new());
}
