//! Word expansion: tilde, environment variables, command substitution, and
//! the step from a glob pattern's matches to argument entries.
//!
//! The environment is a snapshot handed in by the caller. The output of a
//! substituted command cannot be computed here: the expander asks for it by
//! returning the command text, and is called again with the outputs so far.

use vstd::prelude::*;
use vstd::string::*;

use crate::text::{
    chars_of, insert_ordered, ordered, push_char, string_of, texts, trim_end, trimmed_end,
};

verus! {

/// A snapshot of the environment variables: pairs of name and value. Where a
/// name occurs twice the first pair counts.
pub struct Environment {
    pub vars: Vec<(String, String)>,
}

/// The views of pairs of strings, in order.
pub open spec fn pair_views(v: Seq<(String, String)>) -> Seq<(Seq<char>, Seq<char>)> {
    v.map_values(|p: (String, String)| (p.0@, p.1@))
}

impl View for Environment {
    type V = Seq<(Seq<char>, Seq<char>)>;

    open spec fn view(&self) -> Seq<(Seq<char>, Seq<char>)> {
        pair_views(self.vars@)
    }
}

/// The value of the first pair of `vars` at or after position `i` whose name
/// is `name`.
pub open spec fn lookup_from(vars: Seq<(Seq<char>, Seq<char>)>, i: int, name: Seq<char>) -> Option<
    Seq<char>,
>
    decreases vars.len() - i,
{
    if i < 0 || i >= vars.len() {
        None
    } else if vars[i].0 == name {
        Some(vars[i].1)
    } else {
        lookup_from(vars, i + 1, name)
    }
}

/// The value that `vars` gives to `name`, if any.
pub open spec fn lookup(vars: Seq<(Seq<char>, Seq<char>)>, name: Seq<char>) -> Option<Seq<char>> {
    lookup_from(vars, 0, name)
}

/// The value that `vars` gives to `name`, or the empty text.
pub open spec fn value_or_empty(vars: Seq<(Seq<char>, Seq<char>)>, name: Seq<char>) -> Seq<char> {
    match lookup(vars, name) {
        Some(v) => v,
        None => Seq::empty(),
    }
}

impl Environment {
    /// An environment without variables.
    pub fn new() -> (env: Environment)
        ensures
            env@ == Seq::<(Seq<char>, Seq<char>)>::empty(),
    {
        let env = Environment { vars: Vec::new() };
        assert(env@ =~= Seq::<(Seq<char>, Seq<char>)>::empty());
        env
    }

    /// The value of the variable `name`, if it is set.
    pub fn get(&self, name: &str) -> (value: Option<&String>)
        ensures
            match value {
                Some(v) => lookup(self@, name@) == Some(v@),
                None => lookup(self@, name@) is None,
            },
    {
        let wanted = name.to_owned();
        let mut i: usize = 0;
        while i < self.vars.len()
            invariant
                i <= self.vars.len(),
                wanted@ == name@,
                lookup(self@, name@) == lookup_from(self@, i as int, name@),
            decreases self.vars.len() - i,
        {
            if self.vars[i].0 == wanted {
                return Some(&self.vars[i].1);
            }
            i += 1;
        }
        None
    }
}

/// `word` with a leading `~` replaced by the home directory: a word that is
/// `~` alone becomes `home`, a word that starts with `~/` gets `home` in place
/// of the `~`, any other word stays. Without a home directory every word stays.
pub open spec fn tilde_spec(word: Seq<char>, home: Option<Seq<char>>) -> Seq<char> {
    match home {
        None => word,
        Some(h) => if word == seq!['~'] {
            h
        } else if word.len() >= 2 && word[0] == '~' && word[1] == '/' {
            h + word.skip(1)
        } else {
            word
        },
    }
}

/// Replaces a leading `~` of `input` by the value of `HOME` in `env`.
pub fn expand_tilde(input: &str, env: &Environment) -> (out: String)
    ensures
        out@ == tilde_spec(input@, lookup(env@, "HOME"@)),
{
    let chars = chars_of(input);
    match env.get("HOME") {
        None => input.to_owned(),
        Some(home) => {
            if chars.len() == 1 && chars[0] == '~' {
                assert(chars@ =~= seq!['~']);
                home.clone()
            } else if chars.len() >= 2 && chars[0] == '~' && chars[1] == '/' {
                let mut out = home.clone();
                append_range(&mut out, &chars, 1, chars.len());
                assert(chars@.subrange(1, chars.len() as int) =~= chars@.skip(1));
                out
            } else {
                assert(chars@ != seq!['~']) by {
                    if chars@ == seq!['~'] {
                        assert(seq!['~'].len() == 1);
                        assert(seq!['~'][0] == '~');
                    }
                }
                input.to_owned()
            }
        },
    }
}

/// Appends the characters of `v` from `from` up to `to` to `out`.
pub fn append_range(out: &mut String, v: &Vec<char>, from: usize, to: usize)
    requires
        from <= to <= v.len(),
    ensures
        final(out)@ == old(out)@ + v@.subrange(from as int, to as int),
{
    let mut i: usize = from;
    assert(out@ + v@.subrange(from as int, from as int) =~= out@);
    while i < to
        invariant
            from <= i <= to <= v.len(),
            out@ == old(out)@ + v@.subrange(from as int, i as int),
        decreases to - i,
    {
        push_char(out, v[i]);
        assert(old(out)@ + v@.subrange(from as int, i + 1) =~= (old(out)@ + v@.subrange(
            from as int,
            i as int,
        )).push(v@[i as int]));
        i += 1;
    }
}

/// What the standard library's `char::is_alphanumeric` answers for `c`.
pub uninterp spec fn unicode_alphanumeric(c: char) -> bool;

/// Whether `c` may stand in a variable name, where `alphanumeric` says whether
/// Unicode counts `c` as a letter or a digit: below 128 only the ASCII
/// letters, the ASCII digits and `_` may; from 128 on, what Unicode says.
pub open spec fn name_char_given(c: char, alphanumeric: bool) -> bool {
    let n = c as u32;
    if n < 128 {
        ||| 0x30 <= n <= 0x39
        ||| 0x41 <= n <= 0x5A
        ||| 0x61 <= n <= 0x7A
        ||| n == 0x5F
    } else {
        alphanumeric
    }
}

/// Whether `c` may stand in a variable name.
pub open spec fn is_name_char(c: char) -> bool {
    name_char_given(c, unicode_alphanumeric(c))
}

/// Asks the standard library whether `c` is alphanumeric.
///
/// Trusted: the body calls `char::is_alphanumeric`; the contract only gives
/// its answer a name.
#[verifier::external_body]
fn is_alphanumeric(c: char) -> (b: bool)
    ensures
        b == unicode_alphanumeric(c),
{
    c.is_alphanumeric()
}

/// Whether `c` may stand in a variable name, given Unicode's answer for it.
pub fn continues_name(c: char, alphanumeric: bool) -> (b: bool)
    ensures
        b == name_char_given(c, alphanumeric),
{
    let n: u32 = c as u32;
    if n < 128 {
        (0x30 <= n && n <= 0x39) || (0x41 <= n && n <= 0x5A) || (0x61 <= n && n <= 0x7A) || n
            == 0x5F
    } else {
        alphanumeric
    }
}

/// Whether `c` may stand in a variable name.
pub fn name_char(c: char) -> (b: bool)
    ensures
        b == is_name_char(c),
{
    continues_name(c, is_alphanumeric(c))
}

/// The number of characters of `s` from `from` on that stand before the first
/// `c`, or before the end where there is none.
pub open spec fn span_until(s: Seq<char>, from: int, c: char) -> nat
    decreases s.len() - from,
{
    if from < 0 || from >= s.len() || s[from] == c {
        0
    } else {
        1 + span_until(s, from + 1, c)
    }
}

/// The number of characters of `s` from `from` on that stand before the
/// closing parenthesis that brings `depth` open ones to zero, or before the
/// end where there is none.
pub open spec fn span_parens(s: Seq<char>, from: int, depth: nat) -> nat
    decreases s.len() - from,
{
    if from < 0 || from >= s.len() {
        0
    } else if s[from] == '(' {
        1 + span_parens(s, from + 1, depth + 1)
    } else if s[from] == ')' {
        if depth <= 1 {
            0
        } else {
            1 + span_parens(s, from + 1, (depth - 1) as nat)
        }
    } else {
        1 + span_parens(s, from + 1, depth)
    }
}

/// The length of the run of name characters of `s` that starts at `from`.
pub open spec fn span_name(s: Seq<char>, from: int) -> nat
    decreases s.len() - from,
{
    if from < 0 || from >= s.len() || !is_name_char(s[from]) {
        0
    } else {
        1 + span_name(s, from + 1)
    }
}

/// The position after the delimiter at `close`, or `close` itself where the
/// text ended before a delimiter was found.
pub open spec fn past(s: Seq<char>, close: int) -> int {
    if close < s.len() {
        close + 1
    } else {
        close
    }
}

/// The outcome of expanding one word.
pub ghost enum ExpandedView {
    /// The expanded text, and how many substitution outputs are used up.
    Done { text: Seq<char>, used: nat },
    /// A substituted command could not be run.
    Failed,
    /// The output of this command is needed to go on.
    Need { command: Seq<char> },
}

/// The outcome of a command substitution that asks for `command` when `used`
/// outputs are used up: the output to insert, with the white space at its end
/// cut off.
pub open spec fn substitution(
    outputs: Seq<Option<Seq<char>>>,
    used: nat,
    command: Seq<char>,
) -> ExpandedView {
    if used >= outputs.len() {
        ExpandedView::Need { command }
    } else {
        match outputs[used as int] {
            None => ExpandedView::Failed,
            Some(o) => ExpandedView::Done { text: trim_end(o), used: used + 1 },
        }
    }
}

/// The expansion of `s` when the scan resumes at position `i`, with `out`
/// already produced and `used` substitution outputs used up.
///
/// `$(` starts a command that lasts to the matching `)`, a backtick one that
/// lasts to the next backtick; `${` starts a variable name that lasts to the
/// next `}`, a `$` before name characters one that lasts as long as they do.
/// A variable that is not set gives nothing. A `$` before anything else, and
/// every other character, stands for itself.
pub open spec fn expand_from(
    s: Seq<char>,
    i: int,
    env: Seq<(Seq<char>, Seq<char>)>,
    outputs: Seq<Option<Seq<char>>>,
    used: nat,
    out: Seq<char>,
) -> ExpandedView
    decreases s.len() - i,
    via expand_from_terminates
{
    if i < 0 || i >= s.len() {
        ExpandedView::Done { text: out, used }
    } else if s[i] == '$' && i + 1 < s.len() && s[i + 1] == '(' {
        let close = i + 2 + span_parens(s, i + 2, 1);
        match substitution(outputs, used, s.subrange(i + 2, close)) {
            ExpandedView::Done { text, used: u } => expand_from(
                s,
                past(s, close),
                env,
                outputs,
                u,
                out + text,
            ),
            other => other,
        }
    } else if s[i] == '$' && i + 1 < s.len() && s[i + 1] == '{' {
        let close = i + 2 + span_until(s, i + 2, '}');
        expand_from(
            s,
            past(s, close),
            env,
            outputs,
            used,
            out + value_or_empty(env, s.subrange(i + 2, close)),
        )
    } else if s[i] == '$' {
        let end = i + 1 + span_name(s, i + 1);
        if end > i + 1 {
            expand_from(s, end, env, outputs, used, out + value_or_empty(env, s.subrange(i + 1, end)))
        } else {
            expand_from(s, i + 1, env, outputs, used, out.push('$'))
        }
    } else if s[i] == '`' {
        let close = i + 1 + span_until(s, i + 1, '`');
        match substitution(outputs, used, s.subrange(i + 1, close)) {
            ExpandedView::Done { text, used: u } => expand_from(
                s,
                past(s, close),
                env,
                outputs,
                u,
                out + text,
            ),
            other => other,
        }
    } else {
        expand_from(s, i + 1, env, outputs, used, out.push(s[i]))
    }
}

#[via_fn]
proof fn expand_from_terminates(
    s: Seq<char>,
    i: int,
    env: Seq<(Seq<char>, Seq<char>)>,
    outputs: Seq<Option<Seq<char>>>,
    used: nat,
    out: Seq<char>,
) {
    if 0 <= i < s.len() {
        lemma_span_until_bound(s, i + 1, '`');
        lemma_span_name_bound(s, i + 1);
        if i + 1 < s.len() {
            lemma_span_parens_bound(s, i + 2, 1);
            lemma_span_until_bound(s, i + 2, '}');
        }
    }
}

/// A span that stops at a character ends within the text.
pub proof fn lemma_span_until_bound(s: Seq<char>, from: int, c: char)
    requires
        0 <= from <= s.len(),
    ensures
        from + span_until(s, from, c) <= s.len(),
    decreases s.len() - from,
{
    if from < s.len() && s[from] != c {
        lemma_span_until_bound(s, from + 1, c);
    }
}

/// A span stops at the first `c`: where no character from `from` up to `at`
/// is `c`, and `at` holds `c` or is the end, the span from `from` is as long
/// as the way to `at`.
pub proof fn lemma_span_until_first(s: Seq<char>, from: int, at: int, c: char)
    requires
        0 <= from <= at <= s.len(),
        forall|i: int| from <= i < at ==> #[trigger] s[i] != c,
        at < s.len() ==> s[at] == c,
    ensures
        span_until(s, from, c) == at - from,
    decreases at - from,
{
    if from < at {
        lemma_span_until_first(s, from + 1, at, c);
    }
}

/// A span that stops at a closing parenthesis ends within the text.
pub proof fn lemma_span_parens_bound(s: Seq<char>, from: int, depth: nat)
    requires
        0 <= from <= s.len(),
    ensures
        from + span_parens(s, from, depth) <= s.len(),
    decreases s.len() - from,
{
    if from < s.len() {
        if s[from] == '(' {
            lemma_span_parens_bound(s, from + 1, depth + 1);
        } else if s[from] == ')' {
            if depth > 1 {
                lemma_span_parens_bound(s, from + 1, (depth - 1) as nat);
            }
        } else {
            lemma_span_parens_bound(s, from + 1, depth);
        }
    }
}

/// A run of name characters ends within the text.
pub proof fn lemma_span_name_bound(s: Seq<char>, from: int)
    requires
        0 <= from <= s.len(),
    ensures
        from + span_name(s, from) <= s.len(),
    decreases s.len() - from,
{
    if from < s.len() && is_name_char(s[from]) {
        lemma_span_name_bound(s, from + 1);
    }
}

/// The expansion of `word`: first its tilde, then variables and command
/// substitutions from left to right.
pub open spec fn expand_spec(
    word: Seq<char>,
    env: Seq<(Seq<char>, Seq<char>)>,
    outputs: Seq<Option<Seq<char>>>,
    used: nat,
) -> ExpandedView {
    expand_from(tilde_spec(word, lookup(env, "HOME"@)), 0, env, outputs, used, Seq::empty())
}

/// Whether `s` holds nothing that expansion acts on: no `$` and no backtick.
pub open spec fn is_literal(s: Seq<char>) -> bool {
    forall|i: int| 0 <= i < s.len() ==> #[trigger] s[i] != '$' && s[i] != '`'
}

/// Text without `$` and backtick stands for itself: the scan adds it to
/// what was produced, and uses up no output.
pub proof fn lemma_expand_literal(
    s: Seq<char>,
    i: int,
    env: Seq<(Seq<char>, Seq<char>)>,
    outputs: Seq<Option<Seq<char>>>,
    used: nat,
    out: Seq<char>,
)
    requires
        0 <= i <= s.len(),
        is_literal(s),
    ensures
        expand_from(s, i, env, outputs, used, out) == (ExpandedView::Done {
            text: out + s.skip(i),
            used,
        }),
    decreases s.len() - i,
{
    if i < s.len() {
        lemma_expand_literal(s, i + 1, env, outputs, used, out.push(s[i]));
        assert(out.push(s[i]) + s.skip(i + 1) =~= out + s.skip(i));
    } else {
        assert(out + s.skip(i) =~= out);
    }
}

/// A word without `$` and backtick expands to itself with its tilde
/// replaced, whatever the variables and the outputs are.
pub proof fn lemma_expand_plain_word(
    word: Seq<char>,
    env: Seq<(Seq<char>, Seq<char>)>,
    outputs: Seq<Option<Seq<char>>>,
    used: nat,
)
    requires
        is_literal(tilde_spec(word, lookup(env, "HOME"@))),
    ensures
        expand_spec(word, env, outputs, used) == (ExpandedView::Done {
            text: tilde_spec(word, lookup(env, "HOME"@)),
            used,
        }),
{
    let s = tilde_spec(word, lookup(env, "HOME"@));
    lemma_expand_literal(s, 0, env, outputs, used, Seq::empty());
    assert(Seq::<char>::empty() + s.skip(0) =~= s);
}

/// Outputs only ever add: once a word is expanded, or has failed, it stays
/// so whatever outputs follow; and it has used up no more outputs than there
/// were.
pub proof fn lemma_expand_stable(
    s: Seq<char>,
    i: int,
    env: Seq<(Seq<char>, Seq<char>)>,
    outputs: Seq<Option<Seq<char>>>,
    more: Seq<Option<Seq<char>>>,
    used: nat,
    out: Seq<char>,
)
    requires
        used <= outputs.len(),
        !(expand_from(s, i, env, outputs, used, out) is Need),
    ensures
        expand_from(s, i, env, outputs + more, used, out) == expand_from(
            s,
            i,
            env,
            outputs,
            used,
            out,
        ),
        expand_from(s, i, env, outputs, used, out) matches ExpandedView::Done { used: u, .. }
            ==> used <= u <= outputs.len(),
    decreases s.len() - i,
{
    if 0 <= i < s.len() {
        lemma_span_until_bound(s, i + 1, '`');
        lemma_span_name_bound(s, i + 1);
        if i + 1 < s.len() {
            lemma_span_parens_bound(s, i + 2, 1);
            lemma_span_until_bound(s, i + 2, '}');
        }
        if used < outputs.len() {
            assert((outputs + more)[used as int] == outputs[used as int]);
        }
        if s[i] == '$' && i + 1 < s.len() && s[i + 1] == '(' {
            let close = i + 2 + span_parens(s, i + 2, 1);
            match substitution(outputs, used, s.subrange(i + 2, close)) {
                ExpandedView::Done { text, used: u } => {
                    lemma_expand_stable(s, past(s, close), env, outputs, more, u, out + text);
                },
                _ => {},
            }
        } else if s[i] == '$' && i + 1 < s.len() && s[i + 1] == '{' {
            let close = i + 2 + span_until(s, i + 2, '}');
            lemma_expand_stable(
                s,
                past(s, close),
                env,
                outputs,
                more,
                used,
                out + value_or_empty(env, s.subrange(i + 2, close)),
            );
        } else if s[i] == '$' {
            let end = i + 1 + span_name(s, i + 1);
            if end > i + 1 {
                lemma_expand_stable(
                    s,
                    end,
                    env,
                    outputs,
                    more,
                    used,
                    out + value_or_empty(env, s.subrange(i + 1, end)),
                );
            } else {
                lemma_expand_stable(s, i + 1, env, outputs, more, used, out.push('$'));
            }
        } else if s[i] == '`' {
            let close = i + 1 + span_until(s, i + 1, '`');
            match substitution(outputs, used, s.subrange(i + 1, close)) {
                ExpandedView::Done { text, used: u } => {
                    lemma_expand_stable(s, past(s, close), env, outputs, more, u, out + text);
                },
                _ => {},
            }
        } else {
            lemma_expand_stable(s, i + 1, env, outputs, more, used, out.push(s[i]));
        }
    }
}

/// The views of the outputs of substituted commands.
pub open spec fn output_views(v: Seq<Option<String>>) -> Seq<Option<Seq<char>>> {
    v.map_values(
        |o: Option<String>|
            match o {
                Some(s) => Some(s@),
                None => None,
            },
    )
}

/// The outcome of expanding one word.
#[derive(Debug, PartialEq, Eq)]
pub enum Expansion {
    /// The expanded text, and how many substitution outputs are used up.
    Done { text: String, used: usize },
    /// A substituted command could not be run.
    Failed,
    /// The output of this command is needed to go on.
    Need { command: String },
}

impl View for Expansion {
    type V = ExpandedView;

    open spec fn view(&self) -> ExpandedView {
        match self {
            Expansion::Done { text, used } => ExpandedView::Done { text: text@, used: *used as nat },
            Expansion::Failed => ExpandedView::Failed,
            Expansion::Need { command } => ExpandedView::Need { command: command@ },
        }
    }
}

/// The position of the first `c` of `s` at or after `from`, or the length of
/// `s` where there is none.
pub fn find_char(s: &Vec<char>, from: usize, c: char) -> (at: usize)
    requires
        from <= s.len(),
    ensures
        at == from + span_until(s@, from as int, c),
        from <= at <= s.len(),
{
    let mut j: usize = from;
    while j < s.len() && s[j] != c
        invariant
            from <= j <= s.len(),
            span_until(s@, from as int, c) == (j - from) + span_until(s@, j as int, c),
        decreases s.len() - j,
    {
        j += 1;
    }
    j
}

/// The position of the `)` that closes a `(` opened just before `from`, or
/// the length of `s` where there is none.
pub fn find_closing_paren(s: &Vec<char>, from: usize) -> (at: usize)
    requires
        from <= s.len(),
    ensures
        at == from + span_parens(s@, from as int, 1),
        from <= at <= s.len(),
{
    let mut j: usize = from;
    let mut depth: u128 = 1;
    while j < s.len()
        invariant
            from <= j <= s.len(),
            1 <= depth <= 1 + (j - from),
            span_parens(s@, from as int, 1) == (j - from) + span_parens(
                s@,
                j as int,
                depth as nat,
            ),
        decreases s.len() - j,
    {
        if s[j] == '(' {
            depth += 1;
        } else if s[j] == ')' {
            if depth <= 1 {
                return j;
            }
            depth -= 1;
        }
        j += 1;
    }
    j
}

/// The position after the run of name characters of `s` that starts at `from`.
pub fn find_name_end(s: &Vec<char>, from: usize) -> (at: usize)
    requires
        from <= s.len(),
    ensures
        at == from + span_name(s@, from as int),
        from <= at <= s.len(),
{
    let mut j: usize = from;
    while j < s.len() && name_char(s[j])
        invariant
            from <= j <= s.len(),
            span_name(s@, from as int) == (j - from) + span_name(s@, j as int),
        decreases s.len() - j,
    {
        j += 1;
    }
    j
}

/// Appends the value of the variable named by `s[from..to]`, if it is set.
fn append_value(out: &mut String, env: &Environment, s: &Vec<char>, from: usize, to: usize)
    requires
        from <= to <= s.len(),
    ensures
        final(out)@ == old(out)@ + value_or_empty(env@, s@.subrange(from as int, to as int)),
{
    let name = string_of(s, from, to);
    match env.get(name.as_str()) {
        Some(value) => {
            out.append(value.as_str());
        },
        None => {
            assert(out@ + Seq::<char>::empty() =~= out@);
        },
    }
}

/// Appends `output` to `out`, without the white space at the end of `output`.
fn append_trimmed(out: &mut String, output: &String)
    ensures
        final(out)@ == old(out)@ + trim_end(output@),
{
    let chars = chars_of(output.as_str());
    let end = trimmed_end(&chars);
    append_range(out, &chars, 0, end);
    assert(chars@.subrange(0, end as int) =~= chars@.take(end as int));
}

/// Expands one word: tilde first, then `$NAME`, `${NAME}`, `$(command)` and
/// `` `command` `` from left to right.
///
/// `outputs` holds the outputs of the substituted commands that are known so
/// far, in the order in which they were asked for, `None` for a command that
/// could not be run; `used` says how many of them earlier words used up. Where
/// the next output is missing the result names the command to run.
pub fn expand_word_with_subst(
    word: &str,
    env: &Environment,
    outputs: &Vec<Option<String>>,
    used: usize,
) -> (r: Expansion)
    ensures
        r@ == expand_spec(word@, env@, output_views(outputs@), used as nat),
        r matches Expansion::Done { used: u, .. } ==> used <= u && (u <= outputs.len() || u == used),
{
    let tilded = expand_tilde(word, env);
    let s = chars_of(tilded.as_str());
    let mut out = String::new();
    let mut k: usize = used;
    let mut i: usize = 0;
    let ghost ov = output_views(outputs@);
    while i < s.len()
        invariant
            i <= s.len(),
            ov == output_views(outputs@),
            used <= k,
            k <= outputs.len() || k == used,
            expand_spec(word@, env@, ov, used as nat) == expand_from(
                s@,
                i as int,
                env@,
                ov,
                k as nat,
                out@,
            ),
        decreases s.len() - i,
    {
        let ch = s[i];
        let command_end: Option<(usize, usize)> = if ch == '$' && i + 1 < s.len() && s[i + 1]
            == '(' {
            Some((i + 2, find_closing_paren(&s, i + 2)))
        } else if ch == '`' {
            Some((i + 1, find_char(&s, i + 1, '`')))
        } else {
            None
        };
        match command_end {
            Some((start, close)) => {
                let command = string_of(&s, start, close);
                if k >= outputs.len() {
                    return Expansion::Need { command };
                }
                match &outputs[k] {
                    None => {
                        return Expansion::Failed;
                    },
                    Some(output) => {
                        append_trimmed(&mut out, output);
                    },
                }
                k += 1;
                i = if close < s.len() {
                    close + 1
                } else {
                    close
                };
            },
            None => {
                if ch == '$' && i + 1 < s.len() && s[i + 1] == '{' {
                    let close = find_char(&s, i + 2, '}');
                    append_value(&mut out, env, &s, i + 2, close);
                    i = if close < s.len() {
                        close + 1
                    } else {
                        close
                    };
                } else if ch == '$' {
                    let end = find_name_end(&s, i + 1);
                    if end > i + 1 {
                        append_value(&mut out, env, &s, i + 1, end);
                        i = end;
                    } else {
                        push_char(&mut out, '$');
                        i += 1;
                    }
                } else {
                    push_char(&mut out, ch);
                    i += 1;
                }
            },
        }
    }
    Expansion::Done { text: out, used: k }
}

/// Whether `word` holds one of the characters `*`, `?`, `[` that make it a
/// glob pattern.
pub open spec fn has_glob_meta(word: Seq<char>) -> bool {
    word.contains('*') || word.contains('?') || word.contains('[')
}

/// Whether `word` is a glob pattern.
pub fn is_glob_pattern(word: &str) -> (b: bool)
    ensures
        b == has_glob_meta(word@),
{
    let chars = chars_of(word);
    let mut i: usize = 0;
    while i < chars.len()
        invariant
            i <= chars.len(),
            chars@ == word@,
            forall|j: int| 0 <= j < i ==> chars@[j] != '*' && chars@[j] != '?' && chars@[j] != '[',
        decreases chars.len() - i,
    {
        if chars[i] == '*' || chars[i] == '?' || chars[i] == '[' {
            return true;
        }
        i += 1;
    }
    false
}

/// The argument entries that a word gives: its matches where the word is a
/// glob pattern that matched something, else the word itself. Never empty.
pub open spec fn entries_spec(word: Seq<char>, found: Seq<Seq<char>>) -> Seq<Seq<char>> {
    if found.len() == 0 {
        seq![word]
    } else {
        found
    }
}

/// The argument entries for the expanded word `word`, where `found` holds the
/// paths that matched it as a glob pattern: a pattern that matches nothing
/// stays as one literal entry.
pub fn argv_entries(word: String, found: &Vec<String>) -> (entries: Vec<String>)
    ensures
        texts(entries@) == entries_spec(word@, texts(found@)),
        entries.len() >= 1,
{
    let mut entries: Vec<String> = Vec::new();
    if found.len() == 0 {
        entries.push(word);
        assert(texts(entries@) =~= seq![word@]);
    } else {
        let mut i: usize = 0;
        assert(texts(entries@) =~= texts(found@).take(0));
        while i < found.len()
            invariant
                i <= found.len(),
                entries.len() == i,
                texts(entries@) == texts(found@).take(i as int),
            decreases found.len() - i,
        {
            entries.push(found[i].clone());
            assert(texts(entries@) =~= texts(found@).take(i + 1));
            i += 1;
        }
        assert(texts(found@).take(i as int) =~= texts(found@));
    }
    entries
}

/// The paths among `found` that are present, in order.
pub open spec fn present(found: Seq<Option<Seq<char>>>) -> Seq<Seq<char>>
    decreases found.len(),
{
    if found.len() == 0 {
        Seq::empty()
    } else {
        match found.last() {
            Some(p) => present(found.drop_last()).push(p),
            None => present(found.drop_last()),
        }
    }
}

/// Asks the filesystem for the paths that match `pattern`.
///
/// Trusted: the body calls `glob::glob` and turns each item that the iterator
/// yields into text, `None` for an unreadable directory and for a path that is
/// no UTF-8; the outer `None` stands for a pattern that `glob` rejects. The
/// result depends on what is on disk, so nothing is claimed of it.
#[verifier::external_body]
fn glob_paths(pattern: &str) -> (found: Option<Vec<Option<String>>>) {
    match glob::glob(pattern) {
        Ok(paths) => Some(
            paths.map(
                |entry| match entry {
                    Ok(path) => path.to_str().map(|s| s.to_string()),
                    Err(_) => None,
                },
            ).collect(),
        ),
        Err(_) => None,
    }
}

/// The paths that a glob run reported, as argument texts in the order of
/// strings: none for a pattern that was rejected, else the readable paths,
/// each as often as it was reported.
pub fn collect_matches(found: Option<Vec<Option<String>>>) -> (paths: Vec<String>)
    ensures
        ordered(texts(paths@)),
        texts(paths@).to_multiset() == (match found {
            Some(items) => present(output_views(items@)),
            None => Seq::empty(),
        }).to_multiset(),
{
    let mut paths: Vec<String> = Vec::new();
    assert(texts(paths@) =~= Seq::<Seq<char>>::empty());
    match found {
        None => {},
        Some(items) => {
            let mut i: usize = 0;
            let ghost all = output_views(items@);
            assert(all.take(0) =~= Seq::<Option<Seq<char>>>::empty());
            while i < items.len()
                invariant
                    i <= items.len(),
                    all == output_views(items@),
                    ordered(texts(paths@)),
                    texts(paths@).to_multiset() == present(all.take(i as int)).to_multiset(),
                decreases items.len() - i,
            {
                proof {
                    assert(all.take(i + 1).drop_last() =~= all.take(i as int));
                    assert(all.take(i + 1).last() == all[i as int]);
                }
                match &items[i] {
                    Some(p) => {
                        proof {
                            vstd::seq_lib::to_multiset_build(present(all.take(i as int)), p@);
                        }
                        insert_ordered(&mut paths, p.clone());
                    },
                    None => {},
                }
                i += 1;
            }
            assert(all.take(i as int) =~= all);
        },
    }
    paths
}

/// The paths on disk that match `word` as a glob pattern, in the order of
/// strings. A word without `*`, `?` or `[` is no pattern and gives none,
/// without a look at the disk.
pub fn expand_glob(word: &str) -> (paths: Vec<String>)
    ensures
        !has_glob_meta(word@) ==> paths@.len() == 0,
        ordered(texts(paths@)),
{
    if !is_glob_pattern(word) {
        let none: Vec<String> = Vec::new();
        assert(texts(none@) =~= Seq::<Seq<char>>::empty());
        return none;
    }
    collect_matches(glob_paths(word))
}

} // verus!
