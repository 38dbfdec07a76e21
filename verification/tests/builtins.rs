use squish::builtins::{collapse_home, parse_export, try_handle_builtin, BuiltinPlan, ExportStep};
use squish::expand::Environment;

fn env() -> Environment {
    Environment { vars: vec![("HOME".to_string(), "/home/u".to_string())] }
}

fn words(list: &[&str]) -> Vec<String> {
    list.iter().map(|w| w.to_string()).collect()
}

fn plan(list: &[&str]) -> BuiltinPlan {
    try_handle_builtin(&words(list), &env())
}

#[test]
fn builtin_of_nothing_is_done() {
    assert_eq!(plan(&[]), BuiltinPlan::Status(0));
}

#[test]
fn builtin_unknown_is_not_handled() {
    assert_eq!(plan(&["ls", "-l"]), BuiltinPlan::NotHandled);
    assert_eq!(plan(&["jobs"]), BuiltinPlan::NotHandled);
    assert_eq!(plan(&["fg", "1"]), BuiltinPlan::NotHandled);
    assert_eq!(plan(&["bg"]), BuiltinPlan::NotHandled);
    assert_eq!(plan(&["alias"]), BuiltinPlan::NotHandled);
    assert_eq!(plan(&["CD"]), BuiltinPlan::NotHandled);
}

#[test]
fn builtin_export() {
    assert_eq!(plan(&["export"]), BuiltinPlan::ListEnvironment);
    assert_eq!(
        plan(&["export", "A=1", "B=x=y", "C="]),
        BuiltinPlan::Export {
            steps: vec![
                ExportStep::Assign { name: "A".to_string(), value: "1".to_string() },
                ExportStep::Assign { name: "B".to_string(), value: "x=y".to_string() },
                ExportStep::Assign { name: "C".to_string(), value: "".to_string() },
            ],
            status: 0,
        }
    );
}

#[test]
fn builtin_export_with_an_invalid_argument() {
    assert_eq!(
        plan(&["export", "A=1", "oops", "B=2"]),
        BuiltinPlan::Export {
            steps: vec![
                ExportStep::Assign { name: "A".to_string(), value: "1".to_string() },
                ExportStep::Invalid { text: "oops".to_string() },
                ExportStep::Assign { name: "B".to_string(), value: "2".to_string() },
            ],
            status: 1,
        }
    );
    assert_eq!(parse_export("=v"), ExportStep::Assign { name: "".to_string(), value: "v".to_string() });
    assert_eq!(parse_export(""), ExportStep::Invalid { text: "".to_string() });
}

#[test]
fn builtin_unset() {
    assert_eq!(plan(&["unset"]), BuiltinPlan::UnsetMissing);
    assert_eq!(plan(&["unset", "A", "B"]), BuiltinPlan::Unset { names: words(&["A", "B"]) });
}

#[test]
fn builtin_cd() {
    assert_eq!(plan(&["cd", "/tmp"]), BuiltinPlan::ChangeDir { target: "/tmp".to_string() });
    assert_eq!(plan(&["cd"]), BuiltinPlan::ChangeDir { target: "/home/u".to_string() });
    assert_eq!(plan(&["cd", "~"]), BuiltinPlan::ChangeDir { target: "/home/u".to_string() });
    assert_eq!(plan(&["cd", "~/src"]), BuiltinPlan::ChangeDir { target: "/home/u/src".to_string() });
    assert_eq!(plan(&["cd", "a", "b"]), BuiltinPlan::ChangeDir { target: "a".to_string() });
}

#[test]
fn builtin_cd_without_home() {
    let none = Environment::new();
    assert_eq!(try_handle_builtin(&words(&["cd"]), &none), BuiltinPlan::ChangeDir { target: "/".to_string() });
    assert_eq!(try_handle_builtin(&words(&["cd", "~/x"]), &none), BuiltinPlan::ChangeDir { target: "~/x".to_string() });
}

#[test]
fn builtin_ll() {
    assert_eq!(plan(&["ll"]), BuiltinPlan::List { target: ".".to_string() });
    assert_eq!(plan(&["ll", "~/x"]), BuiltinPlan::List { target: "/home/u/x".to_string() });
}

#[test]
fn builtin_freqs_and_help() {
    assert_eq!(plan(&["freqs"]), BuiltinPlan::Frequencies);
    assert_eq!(plan(&["help"]), BuiltinPlan::HelpOverview);
    assert_eq!(plan(&["help", "ls"]), BuiltinPlan::Help { command: "ls".to_string() });
}

#[test]
fn builtin_exit() {
    assert_eq!(plan(&["exit"]), BuiltinPlan::Exit { code: 0 });
    assert_eq!(plan(&["exit", "3"]), BuiltinPlan::Exit { code: 3 });
    assert_eq!(plan(&["exit", "-1"]), BuiltinPlan::Exit { code: -1 });
    assert_eq!(plan(&["exit", "x"]), BuiltinPlan::Exit { code: 0 });
    assert_eq!(plan(&["exit", "99999999999"]), BuiltinPlan::Exit { code: 0 });
}

#[test]
fn collapse_home_writes_a_tilde() {
    assert_eq!(collapse_home("/home/u", &env()), "~");
    assert_eq!(collapse_home("/home/u/src", &env()), "~/src");
    assert_eq!(collapse_home("/home/user2", &env()), "~ser2");
    assert_eq!(collapse_home("/tmp", &env()), "/tmp");
    assert_eq!(collapse_home("/home/u", &Environment::new()), "/home/u");
}
