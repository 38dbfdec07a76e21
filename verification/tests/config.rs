use squish::config::{alias_file, config_dir, config_file, dirfreq_file, history_file, path_join};
use squish::dirfreq::{
    format_freq_line, get_count, increment_dir_usage, parse_freq_line, DirFreqs,
};
use squish::shell_config::{read_bool, PromptColors, ShellConfig};

#[test]
fn config_path_join() {
    assert_eq!(path_join("/home/u", ".config"), "/home/u/.config");
    assert_eq!(path_join("/", ".config"), "/.config");
    assert_eq!(path_join("", ".config"), ".config");
    assert_eq!(path_join("a/", "b"), "a/b");
}

#[test]
fn config_dir_is_below_home() {
    assert_eq!(config_dir(Some("/home/u")), Some("/home/u/.config/squish".to_string()));
    assert_eq!(config_dir(Some("/")), Some("/.config/squish".to_string()));
    assert_eq!(config_dir(None), None);
}

#[test]
fn config_files_are_in_the_directory() {
    let dir = Some("/home/u/.config/squish");
    assert_eq!(history_file(dir), Some("/home/u/.config/squish/history".to_string()));
    assert_eq!(dirfreq_file(dir), Some("/home/u/.config/squish/dirfreq".to_string()));
    assert_eq!(alias_file(dir), Some("/home/u/.config/squish/aliases".to_string()));
    assert_eq!(config_file(dir), Some("/home/u/.config/squish/config".to_string()));
}

#[test]
fn config_files_need_a_directory() {
    assert_eq!(history_file(None), None);
    assert_eq!(dirfreq_file(None), None);
    assert_eq!(alias_file(None), None);
    assert_eq!(config_file(None), None);
}

#[test]
fn dirfreq_counts_start_at_zero() {
    let t = DirFreqs::new();
    assert_eq!(get_count(&t, "/tmp"), 0);
    assert!(t.lines().is_empty());
}

#[test]
fn dirfreq_increment_counts_visits() {
    let mut t = DirFreqs::new();
    increment_dir_usage(&mut t, "/tmp");
    increment_dir_usage(&mut t, "/home");
    increment_dir_usage(&mut t, "/tmp");
    assert_eq!(get_count(&t, "/tmp"), 2);
    assert_eq!(get_count(&t, "/home"), 1);
    assert_eq!(get_count(&t, "/"), 0);
    assert_eq!(t.lines(), vec!["/tmp\t2".to_string(), "/home\t1".to_string()]);
}

#[test]
fn dirfreq_increment_saturates() {
    let mut t = DirFreqs::new();
    t.set_count("/x".to_string(), u64::MAX - 1);
    increment_dir_usage(&mut t, "/x");
    assert_eq!(get_count(&t, "/x"), u64::MAX);
    increment_dir_usage(&mut t, "/x");
    assert_eq!(get_count(&t, "/x"), u64::MAX);
}

#[test]
fn dirfreq_line_has_the_count_after_the_last_tab() {
    assert_eq!(parse_freq_line("/tmp\t12"), Some(("/tmp".to_string(), 12)));
    assert_eq!(parse_freq_line("/a\tb\t3"), Some(("/a\tb".to_string(), 3)));
    assert_eq!(parse_freq_line("\t0"), Some(("".to_string(), 0)));
    assert_eq!(parse_freq_line("/tmp 12"), None);
    assert_eq!(parse_freq_line("/tmp\t"), None);
    assert_eq!(parse_freq_line("/tmp\tx"), None);
    assert_eq!(parse_freq_line("/tmp\t-1"), None);
    assert_eq!(parse_freq_line(""), None);
}

#[test]
fn dirfreq_load_line_replaces_the_count() {
    let mut t = DirFreqs::new();
    assert!(t.load_line("/tmp\t5"));
    assert!(!t.load_line("garbage"));
    assert!(t.load_line("/tmp\t7"));
    assert_eq!(get_count(&t, "/tmp"), 7);
    assert_eq!(t.lines().len(), 1);
}

#[test]
fn dirfreq_format_line() {
    assert_eq!(format_freq_line("/tmp", 12), "/tmp\t12");
    assert_eq!(format_freq_line("", 0), "\t0");
}

#[test]
fn settings_defaults() {
    let c = ShellConfig::default();
    assert_eq!(c.prompt_format, None);
    assert!(c.show_timing);
    assert_eq!(c.timing_threshold_ms, 50);
    assert!(c.fancy_mode);
    assert_eq!(c.prompt_colors, PromptColors::default());
    assert!(c.autostart.is_empty());
    assert_eq!(PromptColors::default().dir_bg, None);
}

#[test]
fn settings_read_bool() {
    assert_eq!(read_bool("true"), Some(true));
    assert_eq!(read_bool("false"), Some(false));
    assert_eq!(read_bool("True"), None);
    assert_eq!(read_bool("1"), None);
    assert_eq!(read_bool(""), None);
}

#[test]
fn settings_lines_set_values() {
    let mut c = ShellConfig::default();
    c.apply_line("prompt = %u@%h ");
    c.apply_line("show_timing=false");
    c.apply_line("  timing_threshold_ms = 250");
    c.apply_line("fancy_mode = false");
    assert_eq!(c.prompt_format, Some("%u@%h".to_string()));
    assert!(!c.show_timing);
    assert_eq!(c.timing_threshold_ms, 250);
    assert!(!c.fancy_mode);
}

#[test]
fn settings_unreadable_values_fall_back() {
    let mut c = ShellConfig::default();
    c.show_timing = false;
    c.fancy_mode = false;
    c.apply_line("show_timing = maybe");
    c.apply_line("fancy_mode = 0");
    c.apply_line("timing_threshold_ms = soon");
    assert!(c.show_timing);
    assert!(c.fancy_mode);
    assert_eq!(c.timing_threshold_ms, 100);
}

#[test]
fn settings_blank_comment_and_unknown_lines_change_nothing() {
    let mut c = ShellConfig::default();
    c.apply_line("");
    c.apply_line("   ");
    c.apply_line("# prompt = x");
    c.apply_line("unknown = 1");
    c.apply_line("prompt.nothing = red");
    c.apply_line("just words");
    assert_eq!(c, ShellConfig::default());
}

#[test]
fn settings_colors() {
    let mut c = ShellConfig::default();
    c.apply_line("prompt.distro_text = red");
    c.apply_line("prompt.distro_bg = 1,2,3");
    c.apply_line("prompt.user_host_text = a");
    c.apply_line("prompt.user_host_bg = b");
    c.apply_line("prompt.dir_text = c");
    c.apply_line("prompt.dir_bg = d");
    c.apply_line("prompt.git_text = e");
    c.apply_line("prompt.git_bg = f");
    c.apply_line("prompt.arrow_success = g");
    c.apply_line("prompt.arrow_error = h");
    let colors = PromptColors {
        distro_text: Some("red".to_string()),
        distro_bg: Some("1,2,3".to_string()),
        user_host_text: Some("a".to_string()),
        user_host_bg: Some("b".to_string()),
        dir_text: Some("c".to_string()),
        dir_bg: Some("d".to_string()),
        git_text: Some("e".to_string()),
        git_bg: Some("f".to_string()),
        arrow_success: Some("g".to_string()),
        arrow_error: Some("h".to_string()),
    };
    assert_eq!(c.prompt_colors, colors);
}

#[test]
fn settings_autostart_in_both_forms() {
    let mut c = ShellConfig::default();
    c.apply_line("autostart = echo hi");
    c.apply_line("autostart ls -la");
    c.apply_line("autostart autostart   pwd ");
    c.apply_line("autostart ");
    c.apply_line("autostart");
    assert_eq!(c.autostart, vec!["echo hi".to_string(), "ls -la".to_string(), "pwd".to_string()]);
}

#[test]
fn settings_value_may_hold_an_equals_sign() {
    let mut c = ShellConfig::default();
    c.apply_line("autostart = export A=1");
    assert_eq!(c.autostart, vec!["export A=1".to_string()]);
}

#[test]
fn settings_apply_setting_directly() {
    let mut c = ShellConfig::default();
    c.apply_setting("timing_threshold_ms", "+7".to_string());
    assert_eq!(c.timing_threshold_ms, 7);
    c.apply_setting("prompt.git_bg", "blue".to_string());
    assert_eq!(c.prompt_colors.git_bg, Some("blue".to_string()));
    let mut colors = PromptColors::default();
    assert!(colors.set("prompt.dir_bg", "x".to_string()));
    assert!(!colors.set("dir_bg", "x".to_string()));
    assert_eq!(colors.dir_bg, Some("x".to_string()));
}

#[test]
fn config_path_join_agrees_with_the_standard_library() {
    for base in ["", "/", "/home/u", "/home/u/", "rel", "rel/"] {
        for name in [".config", "squish", "history"] {
            let mut expected = std::path::PathBuf::from(base);
            expected.push(name);
            assert_eq!(path_join(base, name), expected.to_string_lossy(), "{:?} {:?}", base, name);
        }
    }
}
