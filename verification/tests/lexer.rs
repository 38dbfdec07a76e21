use squish::lexer::{is_incomplete_command, tokenize, Token};

fn word(text: &str) -> Token {
    Token::Word(text.to_string())
}

#[test]
fn tokenize_keeps_quoted_spaces_in_one_word() {
    let tokens = tokenize("echo \"a b\" c").unwrap();
    assert_eq!(tokens, vec![word("echo"), word("a b"), word("c")]);
}

#[test]
fn tokenize_drops_quote_characters() {
    let tokens = tokenize("say 'it''s' \"x\"y").unwrap();
    assert_eq!(tokens, vec![word("say"), word("its"), word("xy")]);
}

#[test]
fn tokenize_keeps_the_other_quote_inside_quotes() {
    let tokens = tokenize("echo \"it's\" 'a \"b\"'").unwrap();
    assert_eq!(tokens, vec![word("echo"), word("it's"), word("a \"b\"")]);
}

#[test]
fn tokenize_empty_line_has_no_tokens() {
    assert_eq!(tokenize("").unwrap(), Vec::<Token>::new());
    assert_eq!(tokenize("  \t ").unwrap(), Vec::<Token>::new());
}

#[test]
fn tokenize_empty_quotes_give_no_word() {
    assert_eq!(tokenize("echo \"\"").unwrap(), vec![word("echo")]);
}

#[test]
fn tokenize_single_operators() {
    let tokens = tokenize("a|b&c>d<e").unwrap();
    assert_eq!(
        tokens,
        vec![
            word("a"),
            Token::Pipe,
            word("b"),
            Token::Background,
            word("c"),
            Token::RedirectOut,
            word("d"),
            Token::RedirectIn,
            word("e"),
        ]
    );
}

#[test]
fn tokenize_doubled_operators() {
    let tokens = tokenize("a||b&&c>>d").unwrap();
    assert_eq!(
        tokens,
        vec![
            word("a"),
            Token::Or,
            word("b"),
            Token::And,
            word("c"),
            Token::RedirectAppend,
            word("d"),
        ]
    );
}

#[test]
fn tokenize_three_pipes_are_or_then_pipe() {
    assert_eq!(tokenize("|||").unwrap(), vec![Token::Or, Token::Pipe]);
}

#[test]
fn tokenize_doubled_input_redirect_is_two_tokens() {
    assert_eq!(tokenize("<<").unwrap(), vec![Token::RedirectIn, Token::RedirectIn]);
}

#[test]
fn tokenize_operators_inside_quotes_are_text() {
    assert_eq!(tokenize("echo 'a|b' \"c&&d\"").unwrap(), vec![word("echo"), word("a|b"), word("c&&d")]);
}

#[test]
fn tokenize_open_quote_lasts_to_the_end() {
    assert_eq!(tokenize("echo \"a b | c").unwrap(), vec![word("echo"), word("a b | c")]);
}

#[test]
fn tokenize_splits_on_tab_but_not_on_newline() {
    assert_eq!(tokenize("a\tb\nc").unwrap(), vec![word("a"), word("b\nc")]);
}

#[test]
fn tokenize_keeps_characters_beyond_ascii() {
    assert_eq!(tokenize("écho ñ").unwrap(), vec![word("écho"), word("ñ")]);
}

#[test]
fn incomplete_for_unterminated_quote() {
    assert!(is_incomplete_command("echo \"unterminated"));
    assert!(!is_incomplete_command("echo \"unterminated\""));
}

#[test]
fn incomplete_for_open_single_quote() {
    assert!(is_incomplete_command("echo 'abc"));
    assert!(!is_incomplete_command("echo 'abc'"));
}

#[test]
fn incomplete_for_trailing_backslash_and_pipe() {
    assert!(is_incomplete_command("echo a \\"));
    assert!(is_incomplete_command("ls |"));
    assert!(is_incomplete_command("ls |   "));
    assert!(!is_incomplete_command("ls | wc"));
}

#[test]
fn incomplete_ignores_escaped_quote() {
    assert!(!is_incomplete_command("echo \\\"x"));
    assert!(!is_incomplete_command(""));
}

#[test]
fn incomplete_quote_of_the_other_kind_inside_quotes_does_not_count() {
    assert!(!is_incomplete_command("echo \"it's\""));
}
