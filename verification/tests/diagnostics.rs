use squish::diagnostics::{
    builtins, detect_pkg_mgrs, edit_distance, install_hint, install_hint_for, print_error,
    select_found, top_suggestions, truncated_path_note, Label,
};
use squish::error::ShellError;

fn strings(words: &[&str]) -> Vec<String> {
    words.iter().map(|w| w.to_string()).collect()
}

#[test]
fn distance_of_known_pairs() {
    assert_eq!(edit_distance("", ""), 0);
    assert_eq!(edit_distance("abc", ""), 3);
    assert_eq!(edit_distance("", "ab"), 2);
    assert_eq!(edit_distance("kitten", "sitting"), 3);
    assert_eq!(edit_distance("flaw", "lawn"), 2);
    assert_eq!(edit_distance("git", "gti"), 2);
    assert_eq!(edit_distance("same", "same"), 0);
    assert_eq!(edit_distance("a", "b"), 1);
}

#[test]
fn distance_counts_characters() {
    assert_eq!(edit_distance("é", "e"), 1);
    assert_eq!(edit_distance("ñandú", "nandu"), 2);
}

#[test]
fn distance_is_symmetric_on_samples() {
    let samples = ["", "a", "ab", "ba", "abc", "xbz", "hello", "help"];
    for x in samples {
        for y in samples {
            assert_eq!(edit_distance(x, y), edit_distance(y, x));
        }
    }
}

#[test]
fn builtin_names_in_order() {
    assert_eq!(builtins(), strings(&["cd", "ll", "freqs", "help", "export", "unset", "jobs", "fg", "bg", "exit"]));
}

#[test]
fn suggestions_are_near_and_ranked() {
    let candidates = strings(&["git", "gti", "got", "grep", "gi", "vim", "gitk", "git"]);
    assert_eq!(top_suggestions("git", &candidates, 3), strings(&["git", "gi", "gitk"]));
    assert_eq!(top_suggestions("git", &candidates, 10), strings(&["git", "gi", "gitk", "got", "gti", "vim"]));
}

#[test]
fn suggestions_leave_out_what_is_far() {
    let candidates = strings(&["python", "perl", "ruby"]);
    assert_eq!(top_suggestions("ls", &candidates, 3), Vec::<String>::new());
}

#[test]
fn suggestions_of_none_or_for_none() {
    assert_eq!(top_suggestions("ls", &vec![], 3), Vec::<String>::new());
    assert_eq!(top_suggestions("ls", &strings(&["ls"]), 0), Vec::<String>::new());
}

#[test]
fn suggestions_break_ties_by_name() {
    let candidates = strings(&["lz", "la", "lb", "ls"]);
    assert_eq!(top_suggestions("lx", &candidates, 2), strings(&["la", "lb"]));
}

#[test]
fn install_hint_for_known_managers() {
    assert_eq!(install_hint_for("htop", &strings(&["apt"])), Some("try: sudo apt install htop".to_string()));
    assert_eq!(install_hint_for("htop", &strings(&["pacman"])), Some("try: sudo pacman -S htop".to_string()));
    assert_eq!(install_hint_for("htop", &strings(&["dnf"])), Some("try: sudo dnf install htop".to_string()));
    assert_eq!(install_hint_for("htop", &strings(&["zypper"])), Some("try: sudo zypper install htop".to_string()));
    assert_eq!(install_hint_for("htop", &strings(&["brew"])), Some("try: brew install htop".to_string()));
}

#[test]
fn install_hint_for_several_managers() {
    assert_eq!(
        install_hint_for("jq", &strings(&["apt", "nix", "brew"])),
        Some("try: sudo apt install jq  |  try: brew install jq".to_string())
    );
}

#[test]
fn install_hint_for_no_manager() {
    assert_eq!(install_hint_for("jq", &vec![]), None);
    assert_eq!(install_hint_for("jq", &strings(&["nix"])), None);
}

#[test]
fn select_found_keeps_order() {
    let names = strings(&["a", "b", "c"]);
    assert_eq!(select_found(&names, &vec![true, false, true]), strings(&["a", "c"]));
    assert_eq!(select_found(&names, &vec![false, false, false]), Vec::<String>::new());
}

#[test]
fn detected_managers_are_known_ones() {
    let known = strings(&["pacman", "apt", "dnf", "zypper", "brew"]);
    let found = detect_pkg_mgrs();
    let mut at = 0;
    for name in &found {
        while at < known.len() && &known[at] != name {
            at += 1;
        }
        assert!(at < known.len(), "{:?}", found);
        at += 1;
    }
    match install_hint("jq") {
        Some(hint) => assert!(hint.starts_with("try: ") && !found.is_empty()),
        None => assert!(found.is_empty()),
    }
}

#[test]
fn path_note_shows_three_directories() {
    assert_eq!(truncated_path_note(None), None);
    assert_eq!(truncated_path_note(Some("/bin")), Some("searched PATH: /bin".to_string()));
    assert_eq!(truncated_path_note(Some("/a:/b:/c")), Some("searched PATH: /a:/b:/c".to_string()));
    assert_eq!(
        truncated_path_note(Some("/a:/b:/c:/d:/e")),
        Some("searched PATH: /a:/b:/c (+2 more)".to_string())
    );
    assert_eq!(truncated_path_note(Some("")), Some("searched PATH: ".to_string()));
    assert_eq!(truncated_path_note(Some("/a::/c:/d")), Some("searched PATH: /a::/c (+1 more)".to_string()));
}

#[test]
fn report_of_a_missing_command() {
    let error = ShellError::CommandNotFound { program: "gti".to_string() };
    let lines = print_error(
        &error,
        &strings(&["git", "gtk"]),
        Some("try: sudo apt install gti".to_string()),
        Some("searched PATH: /bin".to_string()),
    );
    assert_eq!(
        lines,
        vec![
            (Label::Error, "command not found: gti".to_string()),
            (Label::Help, "did you mean git, gtk".to_string()),
            (Label::Help, "try: sudo apt install gti".to_string()),
            (Label::Note, "searched PATH: /bin".to_string()),
        ]
    );
}

#[test]
fn report_of_a_missing_command_without_extras() {
    let error = ShellError::CommandNotFound { program: "x".to_string() };
    assert_eq!(print_error(&error, &vec![], None, None), vec![(Label::Error, "command not found: x".to_string())]);
}

#[test]
fn report_of_other_errors_is_one_line() {
    let error = ShellError::ExecFailed { program: "x".to_string(), message: "denied".to_string() };
    let lines = print_error(&error, &strings(&["y"]), Some("h".to_string()), Some("n".to_string()));
    assert_eq!(lines, vec![(Label::Error, "x: denied".to_string())]);
    let lines = print_error(&ShellError::Other("empty command".to_string()), &vec![], None, None);
    assert_eq!(lines, vec![(Label::Error, "empty command".to_string())]);
}
