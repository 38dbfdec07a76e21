use squish::aliases::AliasManager;

fn table() -> AliasManager {
    let mut t = AliasManager::new();
    t.set("ll".to_string(), "ls -la".to_string());
    t.set("g".to_string(), "git".to_string());
    t
}

fn pairs(t: &AliasManager) -> Vec<(String, String)> {
    t.list().iter().map(|(n, v)| (n.clone(), v.clone())).collect()
}

fn pair(name: &str, value: &str) -> (String, String) {
    (name.to_string(), value.to_string())
}

#[test]
fn alias_new_table_is_empty() {
    let t = AliasManager::new();
    assert!(t.list().is_empty());
    assert_eq!(t.get("ll"), None);
}

#[test]
fn alias_set_then_get() {
    let t = table();
    assert_eq!(t.get("ll"), Some(&"ls -la".to_string()));
    assert_eq!(t.get("g"), Some(&"git".to_string()));
    assert_eq!(t.get("l"), None);
}

#[test]
fn alias_set_replaces() {
    let mut t = table();
    t.set("ll".to_string(), "ls -l".to_string());
    assert_eq!(t.get("ll"), Some(&"ls -l".to_string()));
    assert_eq!(t.list().len(), 2);
}

#[test]
fn alias_unset_says_whether_it_was_there() {
    let mut t = table();
    assert!(t.unset("ll"));
    assert!(!t.unset("ll"));
    assert_eq!(t.get("ll"), None);
    assert_eq!(t.get("g"), Some(&"git".to_string()));
    assert!(!t.unset("nope"));
}

#[test]
fn alias_list_is_sorted_by_name() {
    let mut t = AliasManager::new();
    for name in ["m", "b", "z", "a", "ma", "B"] {
        t.set(name.to_string(), name.to_uppercase());
    }
    assert_eq!(
        pairs(&t),
        vec![pair("B", "B"), pair("a", "A"), pair("b", "B"), pair("m", "M"), pair("ma", "MA"), pair("z", "Z")]
    );
    t.unset("b");
    t.set("m".to_string(), "x".to_string());
    assert_eq!(pairs(&t), vec![pair("B", "B"), pair("a", "A"), pair("m", "x"), pair("ma", "MA"), pair("z", "Z")]);
}

#[test]
fn alias_expand_without_match_leaves_the_line() {
    let t = table();
    assert_eq!(t.expand("ls -la"), "ls -la");
    assert_eq!(t.expand("  echo   ll  "), "  echo   ll  ");
    assert_eq!(t.expand(""), "");
    assert_eq!(t.expand("   "), "   ");
    assert_eq!(AliasManager::new().expand("ll x"), "ll x");
}

#[test]
fn alias_expand_replaces_the_first_word() {
    let t = table();
    assert_eq!(t.expand("ll"), "ls -la");
    assert_eq!(t.expand("ll /tmp"), "ls -la /tmp");
    assert_eq!(t.expand("  ll   a    b  "), "ls -la a b");
    assert_eq!(t.expand("g status"), "git status");
}

#[test]
fn alias_expand_happens_once() {
    let mut t = AliasManager::new();
    t.set("a".to_string(), "b x".to_string());
    t.set("b".to_string(), "c".to_string());
    assert_eq!(t.expand("a y"), "b x y");
}

#[test]
fn alias_definition_line() {
    assert_eq!(AliasManager::parse_alias_line("ll='ls -la'"), Some(pair("ll", "ls -la")));
    assert_eq!(AliasManager::parse_alias_line("ll=\"ls -la\""), Some(pair("ll", "ls -la")));
    assert_eq!(AliasManager::parse_alias_line("g=git"), Some(pair("g", "git")));
    assert_eq!(AliasManager::parse_alias_line(" g = git status "), Some(pair("g", "git status")));
    assert_eq!(AliasManager::parse_alias_line("g"), Some(pair("g", "")));
    assert_eq!(AliasManager::parse_alias_line("g="), Some(pair("g", "")));
}

#[test]
fn alias_definition_line_without_a_name() {
    assert_eq!(AliasManager::parse_alias_line("=x"), None);
    assert_eq!(AliasManager::parse_alias_line(""), None);
    assert_eq!(AliasManager::parse_alias_line(" =x"), Some(pair("", "x")));
}

#[test]
fn alias_definition_line_quote_ends_the_value() {
    assert_eq!(AliasManager::parse_alias_line("a='b' c"), Some(pair("a", "b")));
    assert_eq!(AliasManager::parse_alias_line("a='b"), Some(pair("a", "b")));
    assert_eq!(AliasManager::parse_alias_line("a=' b '"), Some(pair("a", "b")));
    assert_eq!(AliasManager::parse_alias_line("a='it'\\''s'"), Some(pair("a", "it's")));
    assert_eq!(AliasManager::parse_alias_line("a=''\\'''"), Some(pair("a", "'")));
    assert_eq!(AliasManager::parse_alias_line("a='x'\\'y'"), Some(pair("a", "x")));
    assert_eq!(AliasManager::parse_alias_line("a=\"it's\""), Some(pair("a", "it's")));
}

#[test]
fn alias_load_line() {
    let mut t = AliasManager::new();
    assert!(t.load_line("alias ll='ls -la'"));
    assert!(t.load_line("  alias g=git  "));
    assert!(!t.load_line("# alias x=y"));
    assert!(!t.load_line(""));
    assert!(!t.load_line("   "));
    assert!(!t.load_line("aliasx=y"));
    assert!(!t.load_line("alias"));
    assert!(!t.load_line("alias =y"));
    assert!(!t.load_line("export A=1"));
    assert_eq!(pairs(&t), vec![pair("g", "git"), pair("ll", "ls -la")]);
}

#[test]
fn alias_load_line_later_wins() {
    let mut t = AliasManager::new();
    t.load_line("alias a=1");
    t.load_line("alias a=2");
    assert_eq!(pairs(&t), vec![pair("a", "2")]);
}

#[test]
fn alias_format_line() {
    assert_eq!(AliasManager::format_alias("g", "git"), "alias g=git");
    assert_eq!(AliasManager::format_alias("ll", "ls -la"), "alias ll='ls -la'");
    assert_eq!(AliasManager::format_alias("q", "a\"b"), "alias q='a\"b'");
    assert_eq!(AliasManager::format_alias("s", "it's"), "alias s='it'\\''s'");
    assert_eq!(AliasManager::format_alias("e", ""), "alias e=");
}

#[test]
fn alias_save_lines() {
    let t = table();
    assert_eq!(
        t.save_lines(),
        vec![
            "# Squish aliases - auto-generated".to_string(),
            "# Format: alias name='value'".to_string(),
            "".to_string(),
            "alias g=git".to_string(),
            "alias ll='ls -la'".to_string(),
        ]
    );
}

#[test]
fn alias_saved_lines_load_again() {
    let t = table();
    let mut again = AliasManager::new();
    for line in t.save_lines() {
        again.load_line(&line);
    }
    assert_eq!(pairs(&again), pairs(&t));
}

#[test]
fn alias_with_a_quote_in_its_value_loads_as_it_was_saved() {
    let line = AliasManager::format_alias("x", "it's");
    assert_eq!(line, "alias x='it'\\''s'");
    let mut t = AliasManager::new();
    assert!(t.load_line(&line));
    assert_eq!(t.get("x"), Some(&"it's".to_string()));
}

#[test]
fn alias_table_loads_as_it_was_saved() {
    let mut t = AliasManager::new();
    let values = ["it's", "ls -la", "say \"hi\"", "'", "''", "a'\\''b", "plain", "", "x=y", "tab\there", "\\", "'\\'", "# no comment"];
    for (i, value) in values.iter().enumerate() {
        t.set(format!("n{}", i), value.to_string());
    }
    let mut again = AliasManager::new();
    for line in t.save_lines() {
        again.load_line(&line);
    }
    assert_eq!(pairs(&again), pairs(&t));
    assert_eq!(again.list().len(), values.len());
}
