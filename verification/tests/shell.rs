use squish::error::ShellError;
use squish::executor::{Action, Event};
use squish::shell::{get_child_process_times, LineResult, Shell};
use squish::shell_config::ShellConfig;

fn shell() -> Shell {
    Shell::new(ShellConfig::default())
}

#[test]
fn shell_starts_clean() {
    let s = shell();
    assert_eq!(s.last_status, 0);
    assert!(s.jobs.list_jobs().is_empty());
    assert!(s.aliases.list().is_empty());
    assert_eq!(s.config, ShellConfig::default());
}

#[test]
fn shell_prepare_skips_blank_and_comment_lines() {
    let s = shell();
    assert_eq!(s.prepare_line(""), None);
    assert_eq!(s.prepare_line("   \t"), None);
    assert_eq!(s.prepare_line("# note"), None);
    assert_eq!(s.prepare_line("   # note"), None);
}

#[test]
fn shell_prepare_trims_and_expands_aliases() {
    let mut s = shell();
    s.aliases.set("ll".to_string(), "ls -la".to_string());
    assert_eq!(s.prepare_line("  ll /tmp \n"), Some("ls -la /tmp".to_string()));
    assert_eq!(s.prepare_line("  echo  ll "), Some("echo  ll".to_string()));
}

#[test]
fn shell_status_after_a_line() {
    let mut s = shell();
    s.finish_line(&LineResult::Finished(3));
    assert_eq!(s.last_status, 3);
    s.finish_line(&LineResult::Failed(ShellError::Other("x".to_string())));
    assert_eq!(s.last_status, 3);
    s.finish_line(&LineResult::ParseError(ShellError::Other("empty command".to_string())));
    assert_eq!(s.last_status, 1);
    s.finish_line(&LineResult::Finished(0));
    assert_eq!(s.last_status, 0);
}

#[test]
fn shell_timing_threshold() {
    let mut s = shell();
    assert!(!s.shows_timing(49));
    assert!(s.shows_timing(50));
    assert!(s.shows_timing(51));
    s.config.timing_threshold_ms = 0;
    assert!(s.shows_timing(0));
    s.config.show_timing = false;
    assert!(!s.shows_timing(1000));
}

#[test]
fn shell_performs_alias_actions() {
    let mut s = shell();
    let set = Action::SetAlias { name: "a".to_string(), value: "b".to_string() };
    assert_eq!(s.perform(&set), Some(Event::Done));
    assert_eq!(s.aliases.get("a"), Some(&"b".to_string()));
    let remove = Action::RemoveAlias { name: "a".to_string() };
    assert_eq!(s.perform(&remove), Some(Event::Removed(true)));
    assert_eq!(s.perform(&remove), Some(Event::Removed(false)));
    assert_eq!(s.aliases.get("a"), None);
}

#[test]
fn shell_performs_job_actions() {
    let mut s = shell();
    let register = |c: &str, pid: u32| Action::Register { command: c.to_string(), pid };
    assert_eq!(s.perform(&register("a", 10)), Some(Event::Registered(1)));
    assert_eq!(s.perform(&register("b", 11)), Some(Event::Registered(2)));
    assert_eq!(s.perform(&Action::TakeJob { id: 2 }), Some(Event::Child(Some(11))));
    assert_eq!(s.perform(&Action::TakeJob { id: 2 }), Some(Event::Child(None)));
    assert_eq!(s.perform(&Action::TakeJob { id: 9 }), Some(Event::Child(None)));
    assert_eq!(s.job_lines(), vec!["[1] Running a".to_string(), "[2] Done b".to_string()]);
}

#[test]
fn shell_leaves_other_actions_to_the_caller() {
    let mut s = shell();
    assert_eq!(s.perform(&Action::ListJobs), None);
    assert_eq!(s.perform(&Action::ListAliases), None);
    assert_eq!(s.perform(&Action::Run { argv: vec!["ls".to_string()] }), None);
    assert_eq!(s.perform(&Action::Wait { pid: 1 }), None);
    assert_eq!(s.perform(&Action::StartTimer), None);
}

#[test]
fn shell_alias_lines() {
    let mut s = shell();
    s.aliases.set("ll".to_string(), "ls -la".to_string());
    s.aliases.set("g".to_string(), "git".to_string());
    assert_eq!(s.alias_lines(), vec!["alias g='git'".to_string(), "alias ll='ls -la'".to_string()]);
}

#[test]
fn shell_process_times() {
    let line = "1234 (my prog) S 1 2 3 4 5 6 7 8 9 10 11 250 75 0 20 0";
    assert_eq!(get_child_process_times(line), Some((250, 75)));
}

#[test]
fn shell_process_times_need_fourteen_fields_after_the_name() {
    assert_eq!(get_child_process_times("1 (p) S 1 2 3 4 5 6 7 8 9 10 11 12"), None);
    assert_eq!(get_child_process_times("1 (p) S 1 2 3 4 5 6 7 8 9 10 11 12 13"), Some((12, 13)));
    assert_eq!(get_child_process_times("no name here"), None);
    assert_eq!(get_child_process_times("1 (p) S 1 2 3 4 5 6 7 8 9 10 11 x 13"), None);
    assert_eq!(get_child_process_times("1 (p) S 1 2 3 4 5 6 7 8 9 10 11 12 -13"), None);
    assert_eq!(get_child_process_times(""), None);
}
