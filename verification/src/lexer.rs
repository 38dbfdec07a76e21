//! The tokenizer: raw text to a flat, quote-aware token sequence.

use vstd::prelude::*;
use vstd::string::*;

use crate::error::ShellError;
use crate::text::{chars_of, push_char};

verus! {

/// One lexical unit of a command line.
#[derive(Debug, PartialEq, Eq)]
pub enum Token {
    /// A word, with its quote characters removed.
    Word(String),
    /// `|`
    Pipe,
    /// `>`
    RedirectOut,
    /// `>>`
    RedirectAppend,
    /// `<`
    RedirectIn,
    /// `&&`
    And,
    /// `||`
    Or,
    /// `&`
    Background,
}

/// The mathematical value of a [`Token`].
pub ghost enum TokenView {
    Word(Seq<char>),
    Pipe,
    RedirectOut,
    RedirectAppend,
    RedirectIn,
    And,
    Or,
    Background,
}

impl View for Token {
    type V = TokenView;

    open spec fn view(&self) -> TokenView {
        match self {
            Token::Word(w) => TokenView::Word(w@),
            Token::Pipe => TokenView::Pipe,
            Token::RedirectOut => TokenView::RedirectOut,
            Token::RedirectAppend => TokenView::RedirectAppend,
            Token::RedirectIn => TokenView::RedirectIn,
            Token::And => TokenView::And,
            Token::Or => TokenView::Or,
            Token::Background => TokenView::Background,
        }
    }
}

/// The values of the tokens of `ts`, in order.
pub open spec fn token_views(ts: Seq<Token>) -> Seq<TokenView> {
    ts.map_values(|t: Token| t@)
}

/// `tokens` followed by the pending word, where there is one.
pub open spec fn flush(tokens: Seq<TokenView>, word: Seq<char>) -> Seq<TokenView> {
    if word.len() > 0 {
        tokens.push(TokenView::Word(word))
    } else {
        tokens
    }
}

/// Whether `c` starts an operator when it stands outside quotes.
pub open spec fn is_operator(c: char) -> bool {
    c == '|' || c == '&' || c == '>' || c == '<'
}

/// Whether position `i` of `s` holds `c` and the position after it holds `c` too.
pub open spec fn doubled(s: Seq<char>, i: int) -> bool {
    i + 1 < s.len() && s[i + 1] == s[i]
}

/// The operator that starts at position `i` of `s`, which holds an operator
/// character: a doubled `|`, `&` or `>` is one token of two characters.
pub open spec fn operator_at(s: Seq<char>, i: int) -> TokenView {
    if s[i] == '|' {
        if doubled(s, i) {
            TokenView::Or
        } else {
            TokenView::Pipe
        }
    } else if s[i] == '&' {
        if doubled(s, i) {
            TokenView::And
        } else {
            TokenView::Background
        }
    } else if s[i] == '>' {
        if doubled(s, i) {
            TokenView::RedirectAppend
        } else {
            TokenView::RedirectOut
        }
    } else {
        TokenView::RedirectIn
    }
}

/// The number of characters that the operator at position `i` of `s` takes.
pub open spec fn operator_width(s: Seq<char>, i: int) -> int {
    if s[i] != '<' && doubled(s, i) {
        2
    } else {
        1
    }
}

/// The tokens of `s` when scanning resumes at position `i` with `tokens`
/// already emitted, `word` pending, and the two quote flags as given.
///
/// A quote character toggles its own flag unless the other flag is set, and
/// is dropped. Inside quotes every other character joins the pending word.
/// Outside quotes a space or tab ends the pending word, and an operator ends
/// it and is emitted.
pub open spec fn lex_from(
    s: Seq<char>,
    i: int,
    tokens: Seq<TokenView>,
    word: Seq<char>,
    single: bool,
    double: bool,
) -> Seq<TokenView>
    decreases s.len() - i,
{
    if i < 0 || i >= s.len() {
        flush(tokens, word)
    } else if s[i] == '\'' && !double {
        lex_from(s, i + 1, tokens, word, !single, double)
    } else if s[i] == '"' && !single {
        lex_from(s, i + 1, tokens, word, single, !double)
    } else if single || double {
        lex_from(s, i + 1, tokens, word.push(s[i]), single, double)
    } else if s[i] == ' ' || s[i] == '\t' {
        lex_from(s, i + 1, flush(tokens, word), Seq::empty(), single, double)
    } else if is_operator(s[i]) {
        lex_from(
            s,
            i + operator_width(s, i),
            flush(tokens, word).push(operator_at(s, i)),
            Seq::empty(),
            single,
            double,
        )
    } else {
        lex_from(s, i + 1, tokens, word.push(s[i]), single, double)
    }
}

/// The token sequence of the line `s`.
pub open spec fn tokenize_spec(s: Seq<char>) -> Seq<TokenView> {
    lex_from(s, 0, Seq::empty(), Seq::empty(), false, false)
}

/// Whether no word among `tokens` is empty.
pub open spec fn words_nonempty(tokens: Seq<TokenView>) -> bool {
    forall|i: int|
        0 <= i < tokens.len() ==> (#[trigger] tokens[i] matches TokenView::Word(w) ==> w.len() > 0)
}

/// Whether `c` is an ordinary character for the tokenizer: no quote, no
/// space or tab, no operator.
pub open spec fn is_ordinary(c: char) -> bool {
    c != '\'' && c != '"' && c != ' ' && c != '\t' && !is_operator(c)
}

/// Outside quotes a run of ordinary characters joins the pending word.
pub proof fn lemma_lex_ordinary(s: Seq<char>, i: int, tokens: Seq<TokenView>, word: Seq<char>)
    requires
        0 <= i <= s.len(),
        forall|j: int| i <= j < s.len() ==> is_ordinary(#[trigger] s[j]),
    ensures
        lex_from(s, i, tokens, word, false, false) == flush(tokens, word + s.skip(i)),
    decreases s.len() - i,
{
    if i < s.len() {
        lemma_lex_ordinary(s, i + 1, tokens, word.push(s[i]));
        assert(word.push(s[i]) + s.skip(i + 1) =~= word + s.skip(i));
    } else {
        assert(word + s.skip(i) =~= word);
    }
}

/// A line of ordinary characters only is one word, and no token where it is
/// empty.
pub proof fn lemma_tokenize_one_word(s: Seq<char>)
    requires
        forall|j: int| 0 <= j < s.len() ==> is_ordinary(#[trigger] s[j]),
    ensures
        tokenize_spec(s) == if s.len() > 0 {
            seq![TokenView::Word(s)]
        } else {
            Seq::<TokenView>::empty()
        },
{
    lemma_lex_ordinary(s, 0, Seq::empty(), Seq::empty());
    assert(Seq::<char>::empty() + s.skip(0) =~= s);
    assert(Seq::<TokenView>::empty().push(TokenView::Word(s)) =~= seq![TokenView::Word(s)]);
}

/// Emits the pending word, if there is one.
fn flush_word(tokens: Vec<Token>, word: String) -> (out: Vec<Token>)
    requires
        words_nonempty(token_views(tokens@)),
    ensures
        token_views(out@) == flush(token_views(tokens@), word@),
        words_nonempty(token_views(out@)),
{
    let mut out = tokens;
    if !word.as_str().is_empty() {
        proof {
            assert(token_views(out@.push(Token::Word(word))) =~= token_views(out@).push(
                TokenView::Word(word@),
            ));
        }
        out.push(Token::Word(word));
    }
    out
}

/// Emits an operator token.
fn push_operator(tokens: Vec<Token>, op: Token) -> (out: Vec<Token>)
    requires
        words_nonempty(token_views(tokens@)),
        !(op is Word),
    ensures
        token_views(out@) == token_views(tokens@).push(op@),
        words_nonempty(token_views(out@)),
{
    let mut out = tokens;
    proof {
        assert(token_views(out@.push(op)) =~= token_views(out@).push(op@));
    }
    out.push(op);
    out
}

/// Splits a line into tokens.
///
/// Never fails: a quote that is left open simply lasts to the end of the line.
/// No word of the result is empty.
pub fn tokenize(input: &str) -> (r: Result<Vec<Token>, ShellError>)
    ensures
        r matches Ok(tokens) && token_views(tokens@) == tokenize_spec(input@) && words_nonempty(
            token_views(tokens@),
        ),
{
    let chars = chars_of(input);
    let mut tokens: Vec<Token> = Vec::new();
    let mut current = String::new();
    let mut in_single = false;
    let mut in_double = false;
    let mut i: usize = 0;
    assert(token_views(tokens@) =~= Seq::<TokenView>::empty());
    while i < chars.len()
        invariant
            i <= chars.len(),
            chars@ == input@,
            words_nonempty(token_views(tokens@)),
            tokenize_spec(input@) == lex_from(
                chars@,
                i as int,
                token_views(tokens@),
                current@,
                in_single,
                in_double,
            ),
        decreases chars.len() - i,
    {
        let ch = chars[i];
        if ch == '\'' && !in_double {
            in_single = !in_single;
            i += 1;
        } else if ch == '"' && !in_single {
            in_double = !in_double;
            i += 1;
        } else if in_single || in_double {
            push_char(&mut current, ch);
            i += 1;
        } else if ch == ' ' || ch == '\t' {
            tokens = flush_word(tokens, current);
            current = String::new();
            i += 1;
        } else if ch == '|' || ch == '&' || ch == '>' || ch == '<' {
            tokens = flush_word(tokens, current);
            current = String::new();
            let twice = i + 1 < chars.len() && chars[i + 1] == ch;
            if ch == '|' {
                if twice {
                    tokens = push_operator(tokens, Token::Or);
                    i += 2;
                } else {
                    tokens = push_operator(tokens, Token::Pipe);
                    i += 1;
                }
            } else if ch == '&' {
                if twice {
                    tokens = push_operator(tokens, Token::And);
                    i += 2;
                } else {
                    tokens = push_operator(tokens, Token::Background);
                    i += 1;
                }
            } else if ch == '>' {
                if twice {
                    tokens = push_operator(tokens, Token::RedirectAppend);
                    i += 2;
                } else {
                    tokens = push_operator(tokens, Token::RedirectOut);
                    i += 1;
                }
            } else {
                tokens = push_operator(tokens, Token::RedirectIn);
                i += 1;
            }
        } else {
            push_char(&mut current, ch);
            i += 1;
        }
    }
    tokens = flush_word(tokens, current);
    Ok(tokens)
}

/// Whether the quote scan of `s`, resumed at position `i` with the flags as
/// given, ends inside a quote. A backslash hides the character after it from
/// the scan.
pub open spec fn ends_in_quote(s: Seq<char>, i: int, single: bool, double: bool, escaped: bool) -> bool
    decreases s.len() - i,
{
    if i < 0 || i >= s.len() {
        single || double
    } else if escaped {
        ends_in_quote(s, i + 1, single, double, false)
    } else if s[i] == '\\' {
        ends_in_quote(s, i + 1, single, double, true)
    } else if s[i] == '\'' && !double {
        ends_in_quote(s, i + 1, !single, double, false)
    } else if s[i] == '"' && !single {
        ends_in_quote(s, i + 1, single, !double, false)
    } else {
        ends_in_quote(s, i + 1, single, double, false)
    }
}

/// Whether the line `s` asks for a continuation line: its last character that
/// is not white space is a backslash or a pipe, or a quote is left open.
pub open spec fn is_incomplete(s: Seq<char>) -> bool {
    let t = crate::text::trim_end(s);
    ||| t.len() > 0 && (t.last() == '\\' || t.last() == '|')
    ||| ends_in_quote(s, 0, false, false, false)
}

/// Whether more input is needed before `line` can be run.
pub fn is_incomplete_command(line: &str) -> (incomplete: bool)
    ensures
        incomplete == is_incomplete(line@),
{
    let chars = chars_of(line);
    let mut in_single = false;
    let mut in_double = false;
    let mut backslash = false;
    let mut i: usize = 0;
    while i < chars.len()
        invariant
            i <= chars.len(),
            ends_in_quote(chars@, 0, false, false, false) == ends_in_quote(
                chars@,
                i as int,
                in_single,
                in_double,
                backslash,
            ),
        decreases chars.len() - i,
    {
        let ch = chars[i];
        if backslash {
            backslash = false;
        } else if ch == '\\' {
            backslash = true;
        } else if ch == '\'' && !in_double {
            in_single = !in_single;
        } else if ch == '"' && !in_single {
            in_double = !in_double;
        }
        i += 1;
    }
    let end = crate::text::trimmed_end(&chars);
    if end > 0 && (chars[end - 1] == '\\' || chars[end - 1] == '|') {
        return true;
    }
    in_single || in_double
}

} // verus!
