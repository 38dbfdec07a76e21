use squish::completion::{
    begins_with, cd_argument, cd_order, cd_replacement, classify_match, complete, complete_command,
    find_commands_in_path, history_hint, is_cd_context, Completion, LineHelper, MatchKind,
};
use squish::style::{bold_rgb, plain, rgb, Look, Span};

fn strings(words: &[&str]) -> Vec<String> {
    words.iter().map(|w| w.to_string()).collect()
}

fn span(text: &str, look: Look) -> Span {
    Span { text: text.to_string(), look }
}

fn commands() -> Vec<String> {
    strings(&["git", "grep", "ls", "lsblk", "LSD", "vim"])
}

fn builtin(text: &str) -> Span {
    span(text, bold_rgb(200, 150, 255))
}

#[test]
fn helper_incomplete_lines() {
    let _ = LineHelper::new();
    assert!(LineHelper::is_incomplete_command("echo \"unterminated"));
    assert!(!LineHelper::is_incomplete_command("echo \"unterminated\""));
    assert!(LineHelper::is_incomplete_command("a |"));
}

#[test]
fn helper_command_position() {
    assert!(LineHelper::is_command_position("gi", 2));
    assert!(LineHelper::is_command_position("  gi", 4));
    assert!(LineHelper::is_command_position("gi x", 2));
    assert!(!LineHelper::is_command_position("git st", 6));
    assert!(!LineHelper::is_command_position("./gi", 4));
    assert!(LineHelper::is_command_position("", 0));
    assert!(LineHelper::is_command_position("git ", 4));
}

#[test]
fn helper_word_looks() {
    let c = commands();
    assert_eq!(LineHelper::highlight_word("a/b", &c), rgb(140, 180, 255));
    assert_eq!(LineHelper::highlight_word("~x", &c), rgb(140, 180, 255));
    assert_eq!(LineHelper::highlight_word(".hidden", &c), rgb(140, 180, 255));
    assert_eq!(LineHelper::highlight_word("cd", &c), bold_rgb(200, 150, 255));
    assert_eq!(LineHelper::highlight_word("unalias", &c), bold_rgb(200, 150, 255));
    assert_eq!(LineHelper::highlight_word("$HOME", &c), rgb(255, 220, 150));
    assert_eq!(LineHelper::highlight_word("42", &c), rgb(150, 255, 180));
    assert_eq!(LineHelper::highlight_word("-1.5e3", &c), rgb(150, 255, 180));
    assert_eq!(LineHelper::highlight_word("inf", &c), rgb(150, 255, 180));
    assert_eq!(LineHelper::highlight_word("git", &c), bold_rgb(180, 150, 255));
    assert_eq!(LineHelper::highlight_word("gitx", &c), plain());
    assert_eq!(LineHelper::highlight_word("time", &c), plain());
    assert_eq!(LineHelper::highlight_word("a=b", &strings(&["a=b"])), plain());
}

#[test]
fn helper_line_spans() {
    let c = commands();
    assert_eq!(
        LineHelper::highlight_syntax("git log | grep 'a b' > x", &c),
        vec![
            span("git", bold_rgb(180, 150, 255)),
            span(" ", plain()),
            span("log", plain()),
            span(" ", plain()),
            span("|", bold_rgb(255, 200, 150)),
            span(" ", plain()),
            span("grep", bold_rgb(180, 150, 255)),
            span(" ", plain()),
            span("'", plain()),
            span("a b", rgb(200, 150, 255)),
            span("'", plain()),
            span(" ", plain()),
            span(">", bold_rgb(255, 200, 150)),
            span(" ", plain()),
            span("x", plain()),
        ]
    );
}

#[test]
fn helper_line_spans_with_open_and_empty_quotes() {
    let c = commands();
    assert_eq!(
        LineHelper::highlight_syntax("ls\"a", &c),
        vec![span("ls", bold_rgb(180, 150, 255)), span("\"", plain()), span("a", rgb(200, 150, 255))]
    );
    assert_eq!(
        LineHelper::highlight_syntax("''", &c),
        vec![span("'", plain()), span("", rgb(200, 150, 255)), span("'", plain())]
    );
    assert_eq!(LineHelper::highlight_syntax("", &c), Vec::<Span>::new());
    assert_eq!(
        LineHelper::highlight_syntax("a;b", &c),
        vec![span("a", plain()), span(";", bold_rgb(255, 200, 150)), span("b", plain())]
    );
}

#[test]
fn cd_context_needs_cd_as_the_first_word() {
    assert!(is_cd_context("cd"));
    assert!(is_cd_context("cd "));
    assert!(is_cd_context("  cd\tx"));
    assert!(!is_cd_context("cdx"));
    assert!(!is_cd_context("c"));
    assert!(!is_cd_context("echo cd"));
    assert!(!is_cd_context(""));
}

#[test]
fn match_kinds() {
    assert_eq!(classify_match("ls", "ls", "ls", "ls"), MatchKind::Exact);
    assert_eq!(classify_match("ls", "lsblk", "ls", "lsblk"), MatchKind::Prefix);
    assert_eq!(classify_match("ls", "LSD", "ls", "lsd"), MatchKind::Loose);
    assert_eq!(classify_match("ls", "vim", "ls", "vim"), MatchKind::Not);
    assert!(begins_with("lsblk", "ls"));
    assert!(begins_with("ls", ""));
    assert!(!begins_with("l", "ls"));
}

#[test]
fn commands_for_a_prefix_best_first() {
    assert_eq!(
        find_commands_in_path("ls", &commands()),
        vec![span("ls", bold_rgb(200, 150, 255)), span("lsblk", bold_rgb(180, 150, 255)), span("LSD", rgb(160, 140, 240))]
    );
    assert_eq!(find_commands_in_path("zz", &commands()), Vec::<Span>::new());
}

#[test]
fn commands_for_a_prefix_in_capital_letters() {
    assert_eq!(
        find_commands_in_path("GI", &commands()),
        vec![span("git", rgb(160, 140, 240))]
    );
}

#[test]
fn complete_command_offers_builtins_first() {
    assert_eq!(
        complete_command("e", 1, &strings(&["echo", "env"])),
        Some((0, vec![builtin("export"), builtin("exit"), span("echo", bold_rgb(180, 150, 255)), span("env", bold_rgb(180, 150, 255))]))
    );
}

#[test]
fn complete_command_offers_the_only_other_candidate_alone() {
    assert_eq!(complete_command("gi", 2, &commands()), Some((0, vec![span("git", bold_rgb(180, 150, 255))])));
    assert_eq!(complete_command("a | gr", 6, &commands()), Some((4, vec![span("grep", bold_rgb(180, 150, 255))])));
    assert_eq!(complete_command("ti", 2, &commands()), Some((0, vec![builtin("time")])));
}

#[test]
fn complete_command_with_a_complete_prefix() {
    assert_eq!(complete_command("vim", 3, &commands()), Some((3, vec![])));
    assert_eq!(
        complete_command("fg", 2, &commands()),
        Some((2, vec![]))
    );
    assert_eq!(
        complete_command("ls", 2, &commands()),
        Some((0, vec![span("ls", bold_rgb(200, 150, 255)), span("lsblk", bold_rgb(180, 150, 255)), span("LSD", rgb(160, 140, 240))]))
    );
}

#[test]
fn complete_command_without_a_fit() {
    assert_eq!(complete_command("zz", 2, &commands()), None);
}

#[test]
fn complete_decides_in_order() {
    let c = commands();
    assert_eq!(complete("", 0, &c, None), Completion::Candidates(0, vec![]));
    assert_eq!(complete("   ", 2, &c, None), Completion::Candidates(2, vec![]));
    assert_eq!(complete("cd ", 3, &c, None), Completion::Candidates(3, vec![]));
    assert_eq!(complete("cd sr", 5, &c, None), Completion::Directories);
    let found = vec![span("src/", rgb(140, 180, 255))];
    assert_eq!(
        complete("cd sr", 5, &c, Some(Some((3, vec![span("src/", rgb(140, 180, 255))])))),
        Completion::Candidates(3, found)
    );
    assert_eq!(complete("cd sr", 5, &c, Some(None)), Completion::Filenames);
    assert_eq!(complete("git st", 6, &c, None), Completion::Filenames);
    assert_eq!(complete("gi", 2, &c, None), Completion::Candidates(0, vec![span("git", bold_rgb(180, 150, 255))]));
    assert_eq!(complete("zz", 2, &c, None), Completion::Filenames);
    assert_eq!(complete("./x", 3, &c, None), Completion::Filenames);
}

#[test]
fn history_hint_takes_the_newest_longer_entry() {
    let entries = strings(&["git status", "ls", "git stash", "git", "echo"]);
    assert_eq!(history_hint("git st", &entries), Some("ash".to_string()));
    assert_eq!(history_hint("git", &entries), Some(" stash".to_string()));
    assert_eq!(history_hint("l", &entries), Some("s".to_string()));
    assert_eq!(history_hint("echo", &entries), None);
    assert_eq!(history_hint("x", &entries), None);
    assert_eq!(history_hint("x", &vec![]), None);
}

#[test]
fn cd_argument_up_to_the_cursor() {
    assert_eq!(cd_argument("cd src/ma", 9), Some((3, "src/ma".to_string(), "src/ma".to_string())));
    assert_eq!(cd_argument("  cd   sr more", 9), Some((7, "sr".to_string(), "sr".to_string())));
    assert_eq!(cd_argument("cd a b", 6), Some((3, "a b".to_string(), "a b".to_string())));
    assert_eq!(cd_argument("cd a ", 5), Some((3, "a ".to_string(), "a".to_string())));
    assert_eq!(cd_argument("cd", 2), Some((2, "".to_string(), "".to_string())));
    assert_eq!(cd_argument("cd   x", 3), None);
    assert_eq!(cd_argument("ls x", 4), None);
    assert_eq!(cd_argument("cd x", 9), None);
}

#[test]
fn cd_replacement_replaces_the_partial_name() {
    assert_eq!(cd_replacement("sr", "sr", "src"), "src/");
    assert_eq!(cd_replacement("a/b/sr", "sr", "src"), "a/b/src/");
    assert_eq!(cd_replacement("a/b/", "", "src"), "a/b/src/");
    assert_eq!(cd_replacement("a/b", "", "src"), "a/b/src/");
    assert_eq!(cd_replacement("", "", "src"), "src/");
    assert_eq!(cd_replacement("~/", "", "x"), "~/x/");
    assert_eq!(cd_replacement("s", "longer", "src"), "src/");
}

#[test]
fn cd_order_is_by_visits_then_name() {
    assert!(cd_order(5, "b/", 3, "a/"));
    assert!(!cd_order(3, "a/", 5, "b/"));
    assert!(cd_order(3, "a/", 3, "b/"));
    assert!(!cd_order(3, "b/", 3, "a/"));
    assert!(!cd_order(3, "a/", 3, "a/"));
}
