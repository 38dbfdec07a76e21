//! The builtin dispatcher: what it answers for a command, and what each
//! builtin command is to do.
//!
//! The dispatcher decides here; changing the directory, the environment and
//! the like is left to the caller.

use vstd::prelude::*;
use vstd::string::*;

use crate::expand::{expand_tilde, find_char, lookup, span_until, tilde_spec, Environment};
use crate::numbers::{parse_i32, parse_signed};
use crate::text::{chars_of, has_prefix_at, same_text, starts_with, string_of, texts};

verus! {

/// The answer of the builtin dispatcher for one command.
#[derive(Debug, PartialEq, Eq)]
pub enum BuiltinResult {
    /// The command is a builtin and ran with this status, without output.
    Handled(i32),
    /// The command is a builtin and ran with this status and this output.
    HandledWithOutput(i32, Vec<u8>),
    /// The command is no builtin.
    NotHandled,
}

/// The mathematical value of a [`BuiltinResult`].
pub ghost enum BuiltinView {
    Handled(int),
    HandledWithOutput(int, Seq<u8>),
    NotHandled,
}

impl View for BuiltinResult {
    type V = BuiltinView;

    open spec fn view(&self) -> BuiltinView {
        match self {
            BuiltinResult::Handled(status) => BuiltinView::Handled(*status as int),
            BuiltinResult::HandledWithOutput(status, output) => BuiltinView::HandledWithOutput(
                *status as int,
                output@,
            ),
            BuiltinResult::NotHandled => BuiltinView::NotHandled,
        }
    }
}

/// One argument of `export`.
#[derive(Debug, PartialEq, Eq)]
pub enum ExportStep {
    /// `name=value`: the variable is to be set.
    Assign { name: String, value: String },
    /// An argument without `=`: it is to be complained of.
    Invalid { text: String },
}

/// The mathematical value of an [`ExportStep`].
pub ghost enum ExportView {
    Assign { name: Seq<char>, value: Seq<char> },
    Invalid { text: Seq<char> },
}

impl View for ExportStep {
    type V = ExportView;

    open spec fn view(&self) -> ExportView {
        match self {
            ExportStep::Assign { name, value } => ExportView::Assign { name: name@, value: value@ },
            ExportStep::Invalid { text } => ExportView::Invalid { text: text@ },
        }
    }
}

/// The values of the steps of `v`, in order.
pub open spec fn export_views(v: Seq<ExportStep>) -> Seq<ExportView> {
    v.map_values(|s: ExportStep| s@)
}

/// What a command asks of the builtin dispatcher.
#[derive(Debug, PartialEq, Eq)]
pub enum BuiltinPlan {
    /// Nothing is to be done; the status is given.
    Status(i32),
    /// `export` alone: print the environment.
    ListEnvironment,
    /// `export` with arguments: carry out the steps; the status is 1 where
    /// an argument is invalid, else 0.
    Export { steps: Vec<ExportStep>, status: i32 },
    /// `unset` alone: complain that a name is missing; the status is 1.
    UnsetMissing,
    /// `unset` with arguments: remove these variables.
    Unset { names: Vec<String> },
    /// `cd`: change to this directory.
    ChangeDir { target: String },
    /// `ll`: list this directory.
    List { target: String },
    /// `freqs`: show how often each directory was visited.
    Frequencies,
    /// `help` alone: show the overview.
    HelpOverview,
    /// `help` with an argument: show the help of this command.
    Help { command: String },
    /// `exit`: leave with this code.
    Exit { code: i32 },
    /// The command is no builtin.
    NotHandled,
}

/// The mathematical value of a [`BuiltinPlan`].
pub ghost enum PlanView {
    Status(int),
    ListEnvironment,
    Export { steps: Seq<ExportView>, status: int },
    UnsetMissing,
    Unset { names: Seq<Seq<char>> },
    ChangeDir { target: Seq<char> },
    List { target: Seq<char> },
    Frequencies,
    HelpOverview,
    Help { command: Seq<char> },
    Exit { code: int },
    NotHandled,
}

impl View for BuiltinPlan {
    type V = PlanView;

    open spec fn view(&self) -> PlanView {
        match self {
            BuiltinPlan::Status(s) => PlanView::Status(*s as int),
            BuiltinPlan::ListEnvironment => PlanView::ListEnvironment,
            BuiltinPlan::Export { steps, status } => PlanView::Export {
                steps: export_views(steps@),
                status: *status as int,
            },
            BuiltinPlan::UnsetMissing => PlanView::UnsetMissing,
            BuiltinPlan::Unset { names } => PlanView::Unset { names: texts(names@) },
            BuiltinPlan::ChangeDir { target } => PlanView::ChangeDir { target: target@ },
            BuiltinPlan::List { target } => PlanView::List { target: target@ },
            BuiltinPlan::Frequencies => PlanView::Frequencies,
            BuiltinPlan::HelpOverview => PlanView::HelpOverview,
            BuiltinPlan::Help { command } => PlanView::Help { command: command@ },
            BuiltinPlan::Exit { code } => PlanView::Exit { code: *code as int },
            BuiltinPlan::NotHandled => PlanView::NotHandled,
        }
    }
}

/// What one argument of `export` asks for: the text before its first `=` is
/// the name, the text after it the value.
pub open spec fn export_step(arg: Seq<char>) -> ExportView {
    let eq = span_until(arg, 0, '=') as int;
    if eq >= arg.len() {
        ExportView::Invalid { text: arg }
    } else {
        ExportView::Assign { name: arg.take(eq), value: arg.skip(eq + 1) }
    }
}

/// What the arguments of `export` ask for, in order.
pub open spec fn export_steps(args: Seq<Seq<char>>) -> Seq<ExportView> {
    args.map_values(|a: Seq<char>| export_step(a))
}

/// Whether one of the steps is invalid.
pub open spec fn any_invalid(steps: Seq<ExportView>) -> bool {
    exists|i: int| 0 <= i < steps.len() && #[trigger] steps[i] is Invalid
}

/// The directory that `cd` changes to: its argument, or the home directory
/// where it has none, or `/` where none is known; with a leading tilde
/// replaced.
pub open spec fn cd_target(argv: Seq<Seq<char>>, env: Seq<(Seq<char>, Seq<char>)>) -> Seq<char> {
    let home = lookup(env, "HOME"@);
    let raw = if argv.len() > 1 {
        argv[1]
    } else {
        match home {
            Some(h) => h,
            None => "/"@,
        }
    };
    tilde_spec(raw, home)
}

/// What the builtin dispatcher is to do for the command `argv`.
pub open spec fn plan_spec(argv: Seq<Seq<char>>, env: Seq<(Seq<char>, Seq<char>)>) -> PlanView {
    if argv.len() == 0 {
        PlanView::Status(0)
    } else if argv[0] == "export"@ {
        if argv.len() == 1 {
            PlanView::ListEnvironment
        } else {
            PlanView::Export {
                steps: export_steps(argv.skip(1)),
                status: if any_invalid(export_steps(argv.skip(1))) {
                    1
                } else {
                    0
                },
            }
        }
    } else if argv[0] == "unset"@ {
        if argv.len() < 2 {
            PlanView::UnsetMissing
        } else {
            PlanView::Unset { names: argv.skip(1) }
        }
    } else if argv[0] == "cd"@ {
        PlanView::ChangeDir { target: cd_target(argv, env) }
    } else if argv[0] == "ll"@ {
        PlanView::List {
            target: tilde_spec(
                if argv.len() > 1 {
                    argv[1]
                } else {
                    "."@
                },
                lookup(env, "HOME"@),
            ),
        }
    } else if argv[0] == "freqs"@ {
        PlanView::Frequencies
    } else if argv[0] == "help"@ {
        if argv.len() > 1 {
            PlanView::Help { command: argv[1] }
        } else {
            PlanView::HelpOverview
        }
    } else if argv[0] == "exit"@ {
        PlanView::Exit {
            code: if argv.len() > 1 {
                match parse_signed(argv[1], i32::MIN as int, i32::MAX as int) {
                    Some(c) => c,
                    None => 0,
                }
            } else {
                0
            },
        }
    } else {
        PlanView::NotHandled
    }
}

/// What one argument of `export` asks for.
pub fn parse_export(arg: &str) -> (step: ExportStep)
    ensures
        step@ == export_step(arg@),
{
    let chars = chars_of(arg);
    let eq = find_char(&chars, 0, '=');
    if eq >= chars.len() {
        ExportStep::Invalid { text: arg.to_owned() }
    } else {
        let name = string_of(&chars, 0, eq);
        let value = string_of(&chars, eq + 1, chars.len());
        proof {
            assert(chars@.subrange(0, eq as int) =~= chars@.take(eq as int));
            assert(chars@.subrange(eq + 1, chars.len() as int) =~= chars@.skip(eq + 1));
        }
        ExportStep::Assign { name, value }
    }
}

/// Decides what the builtin dispatcher is to do for the command `argv`,
/// given the environment.
pub fn try_handle_builtin(argv: &Vec<String>, env: &Environment) -> (plan: BuiltinPlan)
    ensures
        plan@ == plan_spec(texts(argv@), env@),
{
    if argv.len() == 0 {
        return BuiltinPlan::Status(0);
    }
    assert(texts(argv@)[0] == argv@[0]@);
    let first = argv[0].as_str();
    if same_text(first, "export") {
        if argv.len() == 1 {
            return BuiltinPlan::ListEnvironment;
        }
        let ghost args = texts(argv@).skip(1);
        let mut steps: Vec<ExportStep> = Vec::new();
        let mut status: i32 = 0;
        let mut i: usize = 1;
        assert(export_views(steps@) =~= export_steps(args).take(0));
        while i < argv.len()
            invariant
                1 <= i <= argv.len(),
                args == texts(argv@).skip(1),
                export_views(steps@) == export_steps(args).take(i - 1),
                status == if any_invalid(export_steps(args).take(i - 1)) {
                    1int
                } else {
                    0int
                },
            decreases argv.len() - i,
        {
            assert(args[i - 1] == argv@[i as int]@);
            let step = parse_export(argv[i].as_str());
            proof {
                let before = export_steps(args).take(i - 1);
                let after = export_steps(args).take(i as int);
                assert(export_steps(args)[i - 1] == export_step(args[i - 1]));
                assert(after[i - 1] == step@);
                assert(export_views(steps@.push(step)) =~= export_views(steps@).push(step@));
                assert(before.push(step@) =~= after);
                if any_invalid(before) {
                    let w = choose|w: int| 0 <= w < before.len() && before[w] is Invalid;
                    assert(after[w] is Invalid);
                }
                if any_invalid(after) && !(step@ is Invalid) {
                    let w = choose|w: int| 0 <= w < after.len() && after[w] is Invalid;
                    assert(before[w] is Invalid);
                }
            }
            match &step {
                ExportStep::Invalid { .. } => {
                    status = 1;
                },
                _ => {},
            }
            steps.push(step);
            i += 1;
        }
        assert(export_steps(args).take(i - 1) =~= export_steps(args));
        BuiltinPlan::Export { steps, status }
    } else if same_text(first, "unset") {
        if argv.len() < 2 {
            return BuiltinPlan::UnsetMissing;
        }
        BuiltinPlan::Unset { names: crate::executor::copy_words(argv, 1) }
    } else if same_text(first, "cd") {
        let target = if argv.len() > 1 {
            assert(texts(argv@)[1] == argv@[1]@);
            expand_tilde(argv[1].as_str(), env)
        } else {
            match env.get("HOME") {
                Some(home) => expand_tilde(home.as_str(), env),
                None => expand_tilde("/", env),
            }
        };
        BuiltinPlan::ChangeDir { target }
    } else if same_text(first, "ll") {
        let target = if argv.len() > 1 {
            assert(texts(argv@)[1] == argv@[1]@);
            expand_tilde(argv[1].as_str(), env)
        } else {
            expand_tilde(".", env)
        };
        BuiltinPlan::List { target }
    } else if same_text(first, "freqs") {
        BuiltinPlan::Frequencies
    } else if same_text(first, "help") {
        if argv.len() > 1 {
            assert(texts(argv@)[1] == argv@[1]@);
            BuiltinPlan::Help { command: argv[1].clone() }
        } else {
            BuiltinPlan::HelpOverview
        }
    } else if same_text(first, "exit") {
        let code: i32 = if argv.len() > 1 {
            assert(texts(argv@)[1] == argv@[1]@);
            match parse_i32(argv[1].as_str()) {
                Some(c) => c,
                None => 0,
            }
        } else {
            0
        };
        BuiltinPlan::Exit { code }
    } else {
        BuiltinPlan::NotHandled
    }
}

/// `path` with the home directory at its start written as `~`.
pub open spec fn collapsed(path: Seq<char>, home: Option<Seq<char>>) -> Seq<char> {
    match home {
        Some(h) => if starts_with(path, h) {
            seq!['~'] + path.skip(h.len() as int)
        } else {
            path
        },
        None => path,
    }
}

/// `path` with the home directory at its start written as `~`.
pub fn collapse_home(path: &str, env: &Environment) -> (short: String)
    ensures
        short@ == collapsed(path@, lookup(env@, "HOME"@)),
{
    match env.get("HOME") {
        None => path.to_owned(),
        Some(home) => {
            let chars = chars_of(path);
            assert(chars@.skip(0) =~= chars@);
            if has_prefix_at(&chars, 0, home.as_str()) {
                let cut = chars_of(home.as_str()).len();
                let mut short = "~".to_owned();
                proof {
                    reveal_strlit("~");
                    assert("~"@ =~= seq!['~']);
                    assert(chars@.subrange(cut as int, chars.len() as int) =~= chars@.skip(
                        cut as int,
                    ));
                }
                crate::expand::append_range(&mut short, &chars, cut, chars.len());
                short
            } else {
                path.to_owned()
            }
        },
    }
}

} // verus!
