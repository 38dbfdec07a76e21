//! The rules of the line editor's helper: when a line is complete, how a
//! line is coloured while it is typed, and which commands complete a prefix.
//!
//! The helper itself, which the line editor calls, belongs to the caller;
//! what it decides is decided here.

use vstd::prelude::*;
use vstd::string::*;

use crate::expand::{is_name_char, name_char};
use crate::lexer::is_incomplete;
use crate::style::{
    bold_rgb, bold_rgb_look, is_number, is_number_text, plain, plain_look, rgb, rgb_look, Look,
    Span, SpanView, span_views,
};
use crate::text::{
    chars_of, is_space, is_whitespace, lowercase, push_char, same_text, starts_with, string_of,
    texts, to_lowercase, trim, trim_start_len, trimmed_start,
};

verus! {

/// The rules of the line editor's helper.
pub struct LineHelper {}

/// The names that are coloured as builtin commands.
pub open spec fn highlighted_builtins() -> Seq<Seq<char>> {
    seq![
        "cd"@,
        "ll"@,
        "freqs"@,
        "help"@,
        "export"@,
        "unset"@,
        "jobs"@,
        "fg"@,
        "bg"@,
        "exit"@,
        "alias"@,
        "unalias"@,
    ]
}

/// Whether every character of `word` may stand in a command name: a name
/// character or `-`.
pub open spec fn is_command_word(word: Seq<char>) -> bool {
    forall|i: int| 0 <= i < word.len() ==> is_name_char(#[trigger] word[i]) || word[i] == '-'
}

/// The look of a word outside quotes, given the commands that can be run.
/// The first rule that fits decides: a path, which holds `/` or starts with
/// `~` or `.`; a builtin; a variable, which starts with `$`; a number; a
/// command that can be run.
pub open spec fn word_look(word: Seq<char>, commands: Seq<Seq<char>>) -> Look {
    if word.contains('/') || (word.len() > 0 && (word[0] == '~' || word[0] == '.')) {
        rgb_look(140, 180, 255)
    } else if highlighted_builtins().contains(word) {
        bold_rgb_look(200, 150, 255)
    } else if word.len() > 0 && word[0] == '$' {
        rgb_look(255, 220, 150)
    } else if is_number_text(word) {
        rgb_look(150, 255, 180)
    } else if is_command_word(word) && commands.contains(word) {
        bold_rgb_look(180, 150, 255)
    } else {
        plain_look()
    }
}

/// The look of text inside quotes.
pub open spec fn quoted_look() -> Look {
    rgb_look(200, 150, 255)
}

/// The look of an operator.
pub open spec fn operator_look() -> Look {
    bold_rgb_look(255, 200, 150)
}

/// Whether `c` is coloured as an operator outside quotes.
pub open spec fn is_operator_mark(c: char) -> bool {
    c == '|' || c == '&' || c == ';' || c == '<' || c == '>'
}

/// `spans` followed by the pending word with its look, where there is one.
pub open spec fn flush_word(spans: Seq<SpanView>, word: Seq<char>, commands: Seq<Seq<char>>) -> Seq<
    SpanView,
> {
    if word.len() > 0 {
        spans.push(SpanView { text: word, look: word_look(word, commands) })
    } else {
        spans
    }
}

/// A piece of text that is shown as it is.
pub open spec fn raw(c: char) -> SpanView {
    SpanView { text: seq![c], look: plain_look() }
}

/// The spans of `s` when the scan resumes at position `i` with `spans`
/// already made, `word` pending, and the quote flags as given.
///
/// A quote character that opens a quote ends the pending word; one that
/// closes a quote ends the quoted text, which is coloured as such; the quote
/// characters themselves are shown as they are. Outside quotes white space
/// ends a word and is shown as it is, and an operator ends a word and is
/// coloured as an operator. At the end a pending word is coloured as quoted
/// text inside an open quote, as a word outside.
pub open spec fn highlight_from(
    s: Seq<char>,
    commands: Seq<Seq<char>>,
    i: int,
    spans: Seq<SpanView>,
    word: Seq<char>,
    single: bool,
    double: bool,
) -> Seq<SpanView>
    decreases s.len() - i,
{
    if i < 0 || i >= s.len() {
        if word.len() == 0 {
            spans
        } else if single || double {
            spans.push(SpanView { text: word, look: quoted_look() })
        } else {
            flush_word(spans, word, commands)
        }
    } else if (s[i] == '\'' && !double) || (s[i] == '"' && !single) {
        if single || double {
            highlight_from(
                s,
                commands,
                i + 1,
                spans.push(SpanView { text: word, look: quoted_look() }).push(raw(s[i])),
                Seq::empty(),
                false,
                false,
            )
        } else {
            highlight_from(
                s,
                commands,
                i + 1,
                flush_word(spans, word, commands).push(raw(s[i])),
                Seq::empty(),
                s[i] == '\'',
                s[i] == '"',
            )
        }
    } else if single || double {
        highlight_from(s, commands, i + 1, spans, word.push(s[i]), single, double)
    } else if s[i] == ' ' || s[i] == '\t' {
        highlight_from(
            s,
            commands,
            i + 1,
            flush_word(spans, word, commands).push(raw(s[i])),
            Seq::empty(),
            single,
            double,
        )
    } else if is_operator_mark(s[i]) {
        highlight_from(
            s,
            commands,
            i + 1,
            flush_word(spans, word, commands).push(
                SpanView { text: seq![s[i]], look: operator_look() },
            ),
            Seq::empty(),
            single,
            double,
        )
    } else {
        highlight_from(s, commands, i + 1, spans, word.push(s[i]), single, double)
    }
}

/// The coloured spans of the line `s`.
pub open spec fn highlight_spec(s: Seq<char>, commands: Seq<Seq<char>>) -> Seq<SpanView> {
    highlight_from(s, commands, 0, Seq::empty(), Seq::empty(), false, false)
}

/// Whether the cursor stands in the first word of the line, where a command
/// is typed: the text before the cursor, without the white space at its
/// ends, holds neither `/` nor a space nor a tab.
pub open spec fn command_position(line: Seq<char>, pos: int) -> bool {
    let t = trim(line.take(pos));
    !t.contains('/') && !t.contains(' ') && !t.contains('\t')
}

/// Whether the line is a `cd` command: its first word is `cd`.
pub open spec fn cd_context(line: Seq<char>) -> bool {
    let t = crate::text::trim_start(line);
    starts_with(t, "cd"@) && (t.len() == 2 || is_space(t[2]))
}

/// Whether `words` holds the text `word`.
fn holds(words: &Vec<String>, word: &String) -> (found: bool)
    ensures
        found == texts(words@).contains(word@),
{
    let mut i: usize = 0;
    while i < words.len()
        invariant
            i <= words.len(),
            forall|j: int| 0 <= j < i ==> texts(words@)[j] != word@,
        decreases words.len() - i,
    {
        assert(texts(words@)[i as int] == words@[i as int]@);
        if words[i] == *word {
            return true;
        }
        i += 1;
    }
    false
}

/// Whether `word` is one of the names coloured as builtin commands.
fn is_highlighted_builtin(word: &str) -> (b: bool)
    ensures
        b == highlighted_builtins().contains(word@),
{
    let b = same_text(word, "cd") || same_text(word, "ll") || same_text(word, "freqs")
        || same_text(word, "help") || same_text(word, "export") || same_text(word, "unset")
        || same_text(word, "jobs") || same_text(word, "fg") || same_text(word, "bg") || same_text(
        word,
        "exit",
    ) || same_text(word, "alias") || same_text(word, "unalias");
    proof {
        let names = highlighted_builtins();
        if b {
            if word@ == "cd"@ {
                assert(names[0] == word@);
            } else if word@ == "ll"@ {
                assert(names[1] == word@);
            } else if word@ == "freqs"@ {
                assert(names[2] == word@);
            } else if word@ == "help"@ {
                assert(names[3] == word@);
            } else if word@ == "export"@ {
                assert(names[4] == word@);
            } else if word@ == "unset"@ {
                assert(names[5] == word@);
            } else if word@ == "jobs"@ {
                assert(names[6] == word@);
            } else if word@ == "fg"@ {
                assert(names[7] == word@);
            } else if word@ == "bg"@ {
                assert(names[8] == word@);
            } else if word@ == "exit"@ {
                assert(names[9] == word@);
            } else if word@ == "alias"@ {
                assert(names[10] == word@);
            } else {
                assert(names[11] == word@);
            }
        }
    }
    b
}

impl LineHelper {
    /// The rules, ready for use.
    pub fn new() -> LineHelper {
        LineHelper {  }
    }

    /// Whether more input is needed before `line` can be run.
    pub fn is_incomplete_command(line: &str) -> (incomplete: bool)
        ensures
            incomplete == is_incomplete(line@),
    {
        crate::lexer::is_incomplete_command(line)
    }

    /// Whether the cursor, which stands after the first `pos` characters of
    /// the line, stands where a command is typed.
    pub fn is_command_position(line: &str, pos: usize) -> (b: bool)
        requires
            pos <= line@.len(),
        ensures
            b == command_position(line@, pos as int),
    {
        let chars = chars_of(line);
        let before = string_of(&chars, 0, pos);
        assert(chars@.subrange(0, pos as int) =~= chars@.take(pos as int));
        let t = chars_of(crate::text::trim_text(before.as_str()).as_str());
        let mut i: usize = 0;
        while i < t.len()
            invariant
                i <= t.len(),
                t@ == trim(line@.take(pos as int)),
                forall|j: int| 0 <= j < i ==> t@[j] != '/' && t@[j] != ' ' && t@[j] != '\t',
            decreases t.len() - i,
        {
            if t[i] == '/' || t[i] == ' ' || t[i] == '\t' {
                assert(t@.contains(t@[i as int]));
                return false;
            }
            i += 1;
        }
        true
    }

    /// The look of a word outside quotes, given the commands that can be run.
    pub fn highlight_word(word: &str, commands: &Vec<String>) -> (look: Look)
        ensures
            look == word_look(word@, texts(commands@)),
    {
        let chars = chars_of(word);
        let mut i: usize = 0;
        let mut slash = false;
        let mut command_word = true;
        while i < chars.len()
            invariant
                i <= chars.len(),
                slash == chars@.take(i as int).contains('/'),
                command_word == is_command_word(chars@.take(i as int)),
            decreases chars.len() - i,
        {
            proof {
                let before = chars@.take(i as int);
                let after = chars@.take(i + 1);
                assert(after =~= before.push(chars@[i as int]));
                if before.contains('/') {
                    let w = choose|w: int| 0 <= w < before.len() && before[w] == '/';
                    assert(after[w] == '/');
                }
                if chars@[i as int] == '/' {
                    assert(after[i as int] == '/');
                }
                if is_command_word(after) {
                    assert forall|k: int| 0 <= k < before.len() implies is_name_char(
                        #[trigger] before[k],
                    ) || before[k] == '-' by {
                        assert(after[k] == before[k]);
                    }
                    assert(after[i as int] == chars@[i as int]);
                }
            }
            if chars[i] == '/' {
                slash = true;
            }
            if !(name_char(chars[i]) || chars[i] == '-') {
                command_word = false;
            }
            i += 1;
        }
        assert(chars@.take(i as int) =~= chars@);
        if slash || (chars.len() > 0 && (chars[0] == '~' || chars[0] == '.')) {
            rgb(140, 180, 255)
        } else if is_highlighted_builtin(word) {
            bold_rgb(200, 150, 255)
        } else if chars.len() > 0 && chars[0] == '$' {
            rgb(255, 220, 150)
        } else if is_number(word) {
            rgb(150, 255, 180)
        } else if command_word && holds(commands, &word.to_owned()) {
            bold_rgb(180, 150, 255)
        } else {
            plain()
        }
    }

    /// Emits the pending word with its look, if there is one.
    fn flush(spans: Vec<Span>, word: String, commands: &Vec<String>) -> (out: Vec<Span>)
        ensures
            span_views(out@) == flush_word(span_views(spans@), word@, texts(commands@)),
    {
        let mut out = spans;
        if !word.as_str().is_empty() {
            let look = LineHelper::highlight_word(word.as_str(), commands);
            let span = Span { text: word, look };
            proof {
                assert(span_views(out@.push(span)) =~= span_views(out@).push(span@));
            }
            out.push(span);
        }
        out
    }

    /// Emits a piece of text with a look.
    fn emit(spans: Vec<Span>, text: String, look: Look) -> (out: Vec<Span>)
        ensures
            span_views(out@) == span_views(spans@).push(SpanView { text: text@, look }),
    {
        let mut out = spans;
        let span = Span { text, look };
        proof {
            assert(span_views(out@.push(span)) =~= span_views(out@).push(span@));
        }
        out.push(span);
        out
    }

    /// The text that holds `c` and nothing else.
    fn one(c: char) -> (text: String)
        ensures
            text@ == seq![c],
    {
        let mut text = String::new();
        push_char(&mut text, c);
        assert(text@ =~= seq![c]);
        text
    }

    /// Colours a line while it is typed: splits it into spans and gives each
    /// its look, given the commands that can be run.
    pub fn highlight_syntax(line: &str, commands: &Vec<String>) -> (spans: Vec<Span>)
        ensures
            span_views(spans@) == highlight_spec(line@, texts(commands@)),
    {
        let chars = chars_of(line);
        let mut spans: Vec<Span> = Vec::new();
        let mut word = String::new();
        let mut single = false;
        let mut double = false;
        let mut i: usize = 0;
        assert(span_views(spans@) =~= Seq::<SpanView>::empty());
        while i < chars.len()
            invariant
                i <= chars.len(),
                chars@ == line@,
                highlight_spec(line@, texts(commands@)) == highlight_from(
                    chars@,
                    texts(commands@),
                    i as int,
                    span_views(spans@),
                    word@,
                    single,
                    double,
                ),
            decreases chars.len() - i,
        {
            let ch = chars[i];
            if (ch == '\'' && !double) || (ch == '"' && !single) {
                if single || double {
                    spans = LineHelper::emit(spans, word, rgb(200, 150, 255));
                    spans = LineHelper::emit(spans, LineHelper::one(ch), plain());
                    single = false;
                    double = false;
                } else {
                    spans = LineHelper::flush(spans, word, commands);
                    spans = LineHelper::emit(spans, LineHelper::one(ch), plain());
                    single = ch == '\'';
                    double = ch == '"';
                }
                word = String::new();
            } else if single || double {
                push_char(&mut word, ch);
            } else if ch == ' ' || ch == '\t' {
                spans = LineHelper::flush(spans, word, commands);
                spans = LineHelper::emit(spans, LineHelper::one(ch), plain());
                word = String::new();
            } else if ch == '|' || ch == '&' || ch == ';' || ch == '<' || ch == '>' {
                spans = LineHelper::flush(spans, word, commands);
                spans = LineHelper::emit(spans, LineHelper::one(ch), bold_rgb(255, 200, 150));
                word = String::new();
            } else {
                push_char(&mut word, ch);
            }
            i += 1;
        }
        if word.as_str().is_empty() {
            spans
        } else if single || double {
            LineHelper::emit(spans, word, rgb(200, 150, 255))
        } else {
            LineHelper::flush(spans, word, commands)
        }
    }
}

/// Whether the line is a `cd` command, so that only directories complete
/// its argument.
pub fn is_cd_context(line: &str) -> (b: bool)
    ensures
        b == cd_context(line@),
{
    let chars = chars_of(line);
    assert(chars@.take(chars.len() as int) =~= chars@);
    let start = trimmed_start(&chars, chars.len());
    proof {
        assert(crate::text::trim_start(chars@) == chars@.skip(start as int));
        reveal_strlit("cd");
        let t = chars@.skip(start as int);
        assert("cd"@ =~= seq!['c', 'd']);
        if t.len() >= 2 {
            if t[0] == 'c' && t[1] == 'd' {
                assert(t.take(2) =~= seq!['c', 'd']);
            } else {
                assert(t.take(2)[0] == t[0]);
                assert(t.take(2)[1] == t[1]);
            }
        }
    }
    if chars.len() - start < 2 {
        return false;
    }
    if chars[start] != 'c' || chars[start + 1] != 'd' {
        return false;
    }
    chars.len() - start == 2 || is_whitespace(chars[start + 2])
}

/// How well a command fits a prefix.
#[derive(Debug, PartialEq, Eq, Clone, Copy, Structural)]
pub enum MatchKind {
    /// The command is the prefix.
    Exact,
    /// The command starts with the prefix.
    Prefix,
    /// The command starts with the prefix once both are in small letters.
    Loose,
    /// The command does not fit.
    Not,
}

/// How well `cmd` fits `prefix`, given the two in small letters.
pub open spec fn match_given(
    prefix: Seq<char>,
    cmd: Seq<char>,
    lowered_prefix: Seq<char>,
    lowered_cmd: Seq<char>,
) -> MatchKind {
    if cmd == prefix {
        MatchKind::Exact
    } else if starts_with(cmd, prefix) {
        MatchKind::Prefix
    } else if starts_with(lowered_cmd, lowered_prefix) {
        MatchKind::Loose
    } else {
        MatchKind::Not
    }
}

/// How well `cmd` fits `prefix`.
pub open spec fn match_kind(prefix: Seq<char>, cmd: Seq<char>) -> MatchKind {
    match_given(prefix, cmd, lowercase(prefix), lowercase(cmd))
}

/// How a command that fits in the given way is shown.
pub open spec fn match_look(kind: MatchKind) -> Look {
    match kind {
        MatchKind::Exact => bold_rgb_look(200, 150, 255),
        MatchKind::Prefix => bold_rgb_look(180, 150, 255),
        MatchKind::Loose => rgb_look(160, 140, 240),
        MatchKind::Not => plain_look(),
    }
}

/// The commands among `commands` that fit `prefix` in the way `kind`, each
/// with its look, in order.
pub open spec fn fitting(prefix: Seq<char>, commands: Seq<Seq<char>>, kind: MatchKind) -> Seq<
    SpanView,
>
    decreases commands.len(),
{
    if commands.len() == 0 {
        Seq::empty()
    } else if match_kind(prefix, commands.last()) == kind {
        fitting(prefix, commands.drop_last(), kind).push(
            SpanView { text: commands.last(), look: match_look(kind) },
        )
    } else {
        fitting(prefix, commands.drop_last(), kind)
    }
}

/// The commands that complete `prefix`: first those that are the prefix,
/// then those that start with it, then those that start with it once capital
/// letters are taken as small ones.
pub open spec fn commands_for(prefix: Seq<char>, commands: Seq<Seq<char>>) -> Seq<SpanView> {
    fitting(prefix, commands, MatchKind::Exact) + fitting(prefix, commands, MatchKind::Prefix)
        + fitting(prefix, commands, MatchKind::Loose)
}

/// Whether `text` starts with `prefix`.
pub fn begins_with(text: &str, prefix: &str) -> (b: bool)
    ensures
        b == starts_with(text@, prefix@),
{
    let chars = chars_of(text);
    assert(chars@.skip(0) =~= chars@);
    crate::text::has_prefix_at(&chars, 0, prefix)
}

/// How well `cmd` fits `prefix`, given the two in small letters.
pub fn classify_match(prefix: &str, cmd: &str, lowered_prefix: &str, lowered_cmd: &str) -> (kind:
    MatchKind)
    ensures
        kind == match_given(prefix@, cmd@, lowered_prefix@, lowered_cmd@),
{
    if same_text(cmd, prefix) {
        MatchKind::Exact
    } else if begins_with(cmd, prefix) {
        MatchKind::Prefix
    } else if begins_with(lowered_cmd, lowered_prefix) {
        MatchKind::Loose
    } else {
        MatchKind::Not
    }
}

/// The look of a command that fits in the given way.
fn look_of(kind: MatchKind) -> (look: Look)
    ensures
        look == match_look(kind),
{
    match kind {
        MatchKind::Exact => bold_rgb(200, 150, 255),
        MatchKind::Prefix => bold_rgb(180, 150, 255),
        MatchKind::Loose => rgb(160, 140, 240),
        MatchKind::Not => plain(),
    }
}

/// Adds to `out` the commands that fit `prefix` in the way `kind`.
fn add_fitting(out: &mut Vec<Span>, prefix: &str, commands: &Vec<String>, kind: MatchKind)
    ensures
        span_views(final(out)@) == span_views(old(out)@) + fitting(prefix@, texts(commands@), kind),
{
    let lowered_prefix = to_lowercase(prefix);
    let ghost all = texts(commands@);
    let ghost start = span_views(out@);
    let mut i: usize = 0;
    assert(all.take(0) =~= Seq::<Seq<char>>::empty());
    assert(start + fitting(prefix@, all.take(0), kind) =~= start);
    while i < commands.len()
        invariant
            i <= commands.len(),
            all == texts(commands@),
            lowered_prefix@ == lowercase(prefix@),
            span_views(out@) == start + fitting(prefix@, all.take(i as int), kind),
        decreases commands.len() - i,
    {
        proof {
            assert(all.take(i + 1).drop_last() =~= all.take(i as int));
            assert(all.take(i + 1).last() == commands@[i as int]@);
        }
        let lowered = to_lowercase(commands[i].as_str());
        let found = classify_match(
            prefix,
            commands[i].as_str(),
            lowered_prefix.as_str(),
            lowered.as_str(),
        );
        if found == kind {
            let span = Span { text: commands[i].clone(), look: look_of(kind) };
            proof {
                assert(span_views(out@.push(span)) =~= span_views(out@).push(span@));
                assert(start + fitting(prefix@, all.take(i as int), kind).push(span@) =~= (start
                    + fitting(prefix@, all.take(i as int), kind)).push(span@));
            }
            out.push(span);
        }
        i += 1;
    }
    assert(all.take(i as int) =~= all);
}

/// The commands among `commands` that complete `prefix`, best first, each
/// with the look in which it is offered.
pub fn find_commands_in_path(prefix: &str, commands: &Vec<String>) -> (found: Vec<Span>)
    ensures
        span_views(found@) == commands_for(prefix@, texts(commands@)),
{
    let mut found: Vec<Span> = Vec::new();
    assert(span_views(found@) =~= Seq::<SpanView>::empty());
    add_fitting(&mut found, prefix, commands, MatchKind::Exact);
    assert(span_views(found@) =~= fitting(prefix@, texts(commands@), MatchKind::Exact));
    add_fitting(&mut found, prefix, commands, MatchKind::Prefix);
    add_fitting(&mut found, prefix, commands, MatchKind::Loose);
    found
}

/// The suffix of the newest entry of `entries` that starts with `line` and
/// is longer than it, looked for among the first `n` entries.
pub open spec fn hint_among(line: Seq<char>, entries: Seq<Seq<char>>, n: int) -> Option<Seq<char>>
    decreases n,
{
    if n <= 0 || n > entries.len() {
        None
    } else if starts_with(entries[n - 1], line) && entries[n - 1].len() > line.len() {
        Some(entries[n - 1].skip(line.len() as int))
    } else {
        hint_among(line, entries, n - 1)
    }
}

/// What the history suggests to go on with after `line`: the rest of the
/// newest entry that starts with `line` and is longer than it. `entries`
/// holds the history, oldest first.
pub fn history_hint(line: &str, entries: &Vec<String>) -> (hint: Option<String>)
    ensures
        match hint {
            Some(h) => hint_among(line@, texts(entries@), entries.len() as int) == Some(h@),
            None => hint_among(line@, texts(entries@), entries.len() as int) is None,
        },
{
    let typed = chars_of(line);
    let mut n: usize = entries.len();
    while n > 0
        invariant
            n <= entries.len(),
            typed@ == line@,
            hint_among(line@, texts(entries@), entries.len() as int) == hint_among(
                line@,
                texts(entries@),
                n as int,
            ),
        decreases n,
    {
        assert(texts(entries@)[n - 1] == entries@[n - 1]@);
        let entry = chars_of(entries[n - 1].as_str());
        assert(entry@.skip(0) =~= entry@);
        if crate::text::has_prefix_at(&entry, 0, line) && entry.len() > typed.len() {
            assert(entry@.subrange(typed.len() as int, entry.len() as int) =~= entry@.skip(
                typed.len() as int,
            ));
            return Some(string_of(&entry, typed.len(), entry.len()));
        }
        n -= 1;
    }
    None
}

/// The replacement that completes the argument of `cd` with the directory
/// `name`, where `typed` is the argument as typed and `partial` the part of
/// it that is the start of the name: the directory replaces that part and
/// gets a `/` at its end, and a `/` before it where one is missing.
pub open spec fn cd_replacement_spec(typed: Seq<char>, partial: Seq<char>, name: Seq<char>) -> Seq<
    char,
> {
    let kept = if partial.len() == 0 {
        typed
    } else if partial.len() >= typed.len() {
        Seq::empty()
    } else {
        typed.take(typed.len() - partial.len())
    };
    if kept.len() == 0 || kept.last() == '/' {
        kept + name + seq!['/']
    } else {
        kept + seq!['/'] + name + seq!['/']
    }
}

/// The replacement that completes the argument of `cd` with a directory.
pub fn cd_replacement(typed: &str, partial: &str, name: &str) -> (replacement: String)
    ensures
        replacement@ == cd_replacement_spec(typed@, partial@, name@),
{
    let t = chars_of(typed);
    let p = chars_of(partial);
    let keep: usize = if p.len() == 0 {
        t.len()
    } else if p.len() >= t.len() {
        0
    } else {
        t.len() - p.len()
    };
    let mut replacement = string_of(&t, 0, keep);
    proof {
        assert(t@.subrange(0, keep as int) =~= t@.take(keep as int));
        if p.len() == 0 {
            assert(t@.take(keep as int) =~= t@);
        }
        if p.len() != 0 && p.len() >= t.len() {
            assert(t@.take(0) =~= Seq::<char>::empty());
        }
    }
    if keep > 0 && t[keep - 1] != '/' {
        push_char(&mut replacement, '/');
    }
    replacement.append(name);
    push_char(&mut replacement, '/');
    replacement
}

/// Whether the directory with `count` visits and the replacement `text` is
/// offered before the one with `other_count` and `other_text`: the one that
/// was visited more often first, and of two that were visited as often the
/// one that comes first in the order of strings.
pub open spec fn offered_before(
    count: u64,
    text: Seq<char>,
    other_count: u64,
    other_text: Seq<char>,
) -> bool {
    count > other_count || (count == other_count && crate::text::text_less(text, other_text))
}

/// Whether one directory is offered before another.
pub fn cd_order(count: u64, text: &str, other_count: u64, other_text: &str) -> (before: bool)
    ensures
        before == offered_before(count, text@, other_count, other_text@),
{
    count > other_count || (count == other_count && crate::text::comes_before(text, other_text))
}

/// The builtin commands that are offered as completions.
pub open spec fn offered_builtins() -> Seq<Seq<char>> {
    seq![
        "cd"@,
        "ll"@,
        "freqs"@,
        "help"@,
        "export"@,
        "unset"@,
        "jobs"@,
        "fg"@,
        "bg"@,
        "exit"@,
        "time"@,
    ]
}

/// Whether a word ends before `c`: white space, `|`, `&` and `;` do that.
pub open spec fn is_separator(c: char) -> bool {
    is_space(c) || c == '|' || c == '&' || c == ';'
}

/// The position at which the last word of `before` starts.
pub open spec fn word_start(before: Seq<char>) -> int
    decreases before.len(),
{
    if before.len() == 0 || is_separator(before.last()) {
        before.len() as int
    } else {
        word_start(before.drop_last())
    }
}

/// The builtins among `names` that are `prefix` itself where `exact` is set,
/// and those that start with `prefix` without being it otherwise.
pub open spec fn fitting_builtins(prefix: Seq<char>, names: Seq<Seq<char>>, exact: bool) -> Seq<
    SpanView,
>
    decreases names.len(),
{
    if names.len() == 0 {
        Seq::empty()
    } else if (names.last() == prefix) == exact && starts_with(names.last(), prefix) {
        fitting_builtins(prefix, names.drop_last(), exact).push(
            SpanView { text: names.last(), look: bold_rgb_look(200, 150, 255) },
        )
    } else {
        fitting_builtins(prefix, names.drop_last(), exact)
    }
}

/// Everything that completes the command `prefix`: the builtin that is the
/// prefix, the builtins that start with it, then the commands that can be
/// run.
pub open spec fn command_candidates(prefix: Seq<char>, commands: Seq<Seq<char>>) -> Seq<SpanView> {
    fitting_builtins(prefix, offered_builtins(), true) + fitting_builtins(
        prefix,
        offered_builtins(),
        false,
    ) + commands_for(prefix, commands)
}

/// The candidates among `candidates` that are not `prefix` itself.
pub open spec fn others(candidates: Seq<SpanView>, prefix: Seq<char>) -> Seq<SpanView>
    decreases candidates.len(),
{
    if candidates.len() == 0 {
        Seq::empty()
    } else if candidates.last().text != prefix {
        others(candidates.drop_last(), prefix).push(candidates.last())
    } else {
        others(candidates.drop_last(), prefix)
    }
}

/// What is offered for the command `prefix`, which starts at `start` and
/// ends at the cursor `pos`: nothing can be offered where nothing fits; a
/// prefix that is complete and fits nothing else gets no offer; where just
/// one candidate differs from the prefix, that one is offered alone; else all
/// are offered.
pub open spec fn offer(candidates: Seq<SpanView>, prefix: Seq<char>, start: int, pos: int) -> Option<
    (int, Seq<SpanView>),
> {
    if candidates.len() == 0 {
        None
    } else if candidates.len() == 1 && candidates[0].text == prefix {
        Some((pos, Seq::empty()))
    } else if others(candidates, prefix).len() == 1 {
        Some((start, others(candidates, prefix)))
    } else {
        Some((start, candidates))
    }
}

/// The position at which the last word of the first `pos` characters of
/// `chars` starts.
fn find_word_start(chars: &Vec<char>, pos: usize) -> (start: usize)
    requires
        pos <= chars.len(),
    ensures
        start == word_start(chars@.take(pos as int)),
        start <= pos,
{
    let mut n: usize = pos;
    while n > 0 && !(is_whitespace(chars[n - 1]) || chars[n - 1] == '|' || chars[n - 1] == '&'
        || chars[n - 1] == ';')
        invariant
            n <= pos <= chars.len(),
            word_start(chars@.take(pos as int)) == word_start(chars@.take(n as int)),
        decreases n,
    {
        assert(chars@.take(n as int).drop_last() =~= chars@.take(n - 1));
        n -= 1;
    }
    n
}

/// Adds to `out` the builtins that fit `prefix`, the one that is the prefix
/// where `exact` is set, the others otherwise.
fn add_builtins(out: &mut Vec<Span>, prefix: &str, exact: bool)
    ensures
        span_views(final(out)@) == span_views(old(out)@) + fitting_builtins(
            prefix@,
            offered_builtins(),
            exact,
        ),
{
    let mut names: Vec<String> = Vec::new();
    names.push("cd".to_owned());
    names.push("ll".to_owned());
    names.push("freqs".to_owned());
    names.push("help".to_owned());
    names.push("export".to_owned());
    names.push("unset".to_owned());
    names.push("jobs".to_owned());
    names.push("fg".to_owned());
    names.push("bg".to_owned());
    names.push("exit".to_owned());
    names.push("time".to_owned());
    let ghost all = texts(names@);
    assert(all =~= offered_builtins());
    let ghost start = span_views(out@);
    let mut i: usize = 0;
    assert(all.take(0) =~= Seq::<Seq<char>>::empty());
    assert(start + fitting_builtins(prefix@, all.take(0), exact) =~= start);
    while i < names.len()
        invariant
            i <= names.len(),
            all == texts(names@),
            span_views(out@) == start + fitting_builtins(prefix@, all.take(i as int), exact),
        decreases names.len() - i,
    {
        proof {
            assert(all.take(i + 1).drop_last() =~= all.take(i as int));
            assert(all.take(i + 1).last() == names@[i as int]@);
        }
        let same = same_text(names[i].as_str(), prefix);
        if same == exact && begins_with(names[i].as_str(), prefix) {
            let span = Span { text: names[i].clone(), look: bold_rgb(200, 150, 255) };
            proof {
                assert(span_views(out@.push(span)) =~= span_views(out@).push(span@));
                assert(start + fitting_builtins(prefix@, all.take(i as int), exact).push(span@)
                    =~= (start + fitting_builtins(prefix@, all.take(i as int), exact)).push(
                    span@,
                ));
            }
            out.push(span);
        }
        i += 1;
    }
    assert(all.take(i as int) =~= all);
}

/// A copy of a span.
fn copy_span(span: &Span) -> (copy: Span)
    ensures
        copy@ == span@,
{
    Span { text: span.text.clone(), look: span.look }
}

/// The candidates among `candidates` that are not `prefix` itself.
fn other_candidates(candidates: &Vec<Span>, prefix: &str) -> (rest: Vec<Span>)
    ensures
        span_views(rest@) == others(span_views(candidates@), prefix@),
{
    let mut rest: Vec<Span> = Vec::new();
    let ghost all = span_views(candidates@);
    let mut i: usize = 0;
    assert(all.take(0) =~= Seq::<SpanView>::empty());
    assert(span_views(rest@) =~= Seq::<SpanView>::empty());
    while i < candidates.len()
        invariant
            i <= candidates.len(),
            all == span_views(candidates@),
            span_views(rest@) == others(all.take(i as int), prefix@),
        decreases candidates.len() - i,
    {
        proof {
            assert(all.take(i + 1).drop_last() =~= all.take(i as int));
            assert(all.take(i + 1).last() == candidates@[i as int]@);
        }
        if !same_text(candidates[i].text.as_str(), prefix) {
            let span = copy_span(&candidates[i]);
            proof {
                assert(span_views(rest@.push(span)) =~= span_views(rest@).push(span@));
            }
            rest.push(span);
        }
        i += 1;
    }
    assert(all.take(i as int) =~= all);
    rest
}

/// What completes the command that ends at the cursor, which stands after
/// the first `pos` characters of `line`, given the commands that can be run:
/// the position at which the replacement starts, and the candidates. `None`
/// where no command fits.
pub fn complete_command(line: &str, pos: usize, commands: &Vec<String>) -> (r: Option<
    (usize, Vec<Span>),
>)
    requires
        pos <= line@.len(),
    ensures
        ({
            let start = word_start(line@.take(pos as int));
            let prefix = line@.subrange(start, pos as int);
            let expected = offer(
                command_candidates(prefix, texts(commands@)),
                prefix,
                start,
                pos as int,
            );
            match r {
                Some((at, found)) => expected == Some((at as int, span_views(found@))),
                None => expected is None,
            }
        }),
{
    let chars = chars_of(line);
    let start = find_word_start(&chars, pos);
    let prefix = string_of(&chars, start, pos);
    let mut candidates: Vec<Span> = Vec::new();
    assert(span_views(candidates@) =~= Seq::<SpanView>::empty());
    add_builtins(&mut candidates, prefix.as_str(), true);
    assert(span_views(candidates@) =~= fitting_builtins(prefix@, offered_builtins(), true));
    add_builtins(&mut candidates, prefix.as_str(), false);
    let found = find_commands_in_path(prefix.as_str(), commands);
    let ghost builtin_part = span_views(candidates@);
    let mut i: usize = 0;
    assert(span_views(found@).take(0) =~= Seq::<SpanView>::empty());
    assert(builtin_part + span_views(found@).take(0) =~= builtin_part);
    while i < found.len()
        invariant
            i <= found.len(),
            span_views(candidates@) == builtin_part + span_views(found@).take(i as int),
        decreases found.len() - i,
    {
        let span = copy_span(&found[i]);
        proof {
            assert(span_views(candidates@.push(span)) =~= span_views(candidates@).push(span@));
            assert(span_views(found@).take(i + 1) =~= span_views(found@).take(i as int).push(
                span@,
            ));
            assert(builtin_part + span_views(found@).take(i as int).push(span@) =~= (builtin_part
                + span_views(found@).take(i as int)).push(span@));
        }
        candidates.push(span);
        i += 1;
    }
    assert(span_views(found@).take(i as int) =~= span_views(found@));
    if candidates.len() == 0 {
        assert(span_views(candidates@).len() == 0);
        return None;
    }
    assert(span_views(candidates@).len() == candidates.len());
    assert(span_views(candidates@)[0] == candidates@[0]@);
    if candidates.len() == 1 && same_text(candidates[0].text.as_str(), prefix.as_str()) {
        let none: Vec<Span> = Vec::new();
        assert(span_views(none@) =~= Seq::<SpanView>::empty());
        return Some((pos, none));
    }
    let rest = other_candidates(&candidates, prefix.as_str());
    assert(span_views(rest@).len() == rest.len());
    if rest.len() == 1 {
        return Some((start, rest));
    }
    Some((start, candidates))
}

/// What the helper does for a request to complete.
#[derive(Debug, PartialEq, Eq)]
pub enum Completion {
    /// Offer these candidates, to replace the text from this position on.
    Candidates(usize, Vec<Span>),
    /// Look for directories that complete the argument of `cd`, and ask
    /// again with what was found.
    Directories,
    /// Leave the request to the completion of file names.
    Filenames,
}

/// The mathematical value of a [`Completion`].
pub ghost enum CompletionView {
    Candidates(int, Seq<SpanView>),
    Directories,
    Filenames,
}

impl View for Completion {
    type V = CompletionView;

    open spec fn view(&self) -> CompletionView {
        match self {
            Completion::Candidates(at, found) => CompletionView::Candidates(
                *at as int,
                span_views(found@),
            ),
            Completion::Directories => CompletionView::Directories,
            Completion::Filenames => CompletionView::Filenames,
        }
    }
}

/// Whether `s` holds a white-space character.
pub open spec fn has_space(s: Seq<char>) -> bool {
    exists|i: int| 0 <= i < s.len() && is_space(#[trigger] s[i])
}

/// What the helper does for a request to complete at the cursor `pos`, where
/// `directories` holds what the search for directories found, if it was
/// made.
///
/// Nothing is offered on an empty line, nor for `cd` without an argument.
/// For `cd` only directories are offered, where there are any. Past the
/// first word file names complete. In the first word commands complete,
/// and file names where no command fits.
pub open spec fn complete_spec(
    line: Seq<char>,
    pos: int,
    commands: Seq<Seq<char>>,
    directories: Option<Option<(int, Seq<SpanView>)>>,
) -> CompletionView {
    let before = line.take(pos);
    let start = word_start(before);
    let prefix = line.subrange(start, pos);
    if trim(before).len() == 0 {
        CompletionView::Candidates(pos, Seq::empty())
    } else if cd_context(line) && trim(crate::text::trim_start(line).skip(2)).len() == 0 {
        CompletionView::Candidates(pos, Seq::empty())
    } else if cd_context(line) && directories is None {
        CompletionView::Directories
    } else if cd_context(line) && directories->Some_0 is Some {
        CompletionView::Candidates(directories->Some_0->Some_0.0, directories->Some_0->Some_0.1)
    } else if has_space(crate::text::trim_start(before)) {
        CompletionView::Filenames
    } else if command_position(line, pos) {
        match offer(command_candidates(prefix, commands), prefix, start, pos) {
            Some((at, found)) => CompletionView::Candidates(at, found),
            None => CompletionView::Filenames,
        }
    } else {
        CompletionView::Filenames
    }
}

/// The value of what a search for directories found.
pub open spec fn directories_view(d: Option<Option<(usize, Vec<Span>)>>) -> Option<
    Option<(int, Seq<SpanView>)>,
> {
    match d {
        None => None,
        Some(None) => Some(None),
        Some(Some((at, found))) => Some(Some((at as int, span_views(found@)))),
    }
}

/// Whether the characters of `chars` from `from` up to `to` hold white space
/// only.
fn blank_between(chars: &Vec<char>, from: usize, to: usize) -> (blank: bool)
    requires
        from <= to <= chars.len(),
    ensures
        blank == (trim(chars@.subrange(from as int, to as int)).len() == 0),
{
    let part = string_of(chars, from, to);
    let t = crate::text::trim_text(part.as_str());
    t.as_str().is_empty()
}

/// Whether the characters of `chars` from `from` up to `to` hold a
/// white-space character.
fn space_between(chars: &Vec<char>, from: usize, to: usize) -> (found: bool)
    requires
        from <= to <= chars.len(),
    ensures
        found == has_space(chars@.subrange(from as int, to as int)),
{
    let ghost part = chars@.subrange(from as int, to as int);
    let mut i: usize = from;
    while i < to
        invariant
            from <= i <= to <= chars.len(),
            part == chars@.subrange(from as int, to as int),
            forall|j: int| 0 <= j < i - from ==> !is_space(#[trigger] part[j]),
        decreases to - i,
    {
        assert(part[i - from] == chars@[i as int]);
        if is_whitespace(chars[i]) {
            return true;
        }
        i += 1;
    }
    false
}

/// Decides what the helper does for a request to complete.
pub fn complete(
    line: &str,
    pos: usize,
    commands: &Vec<String>,
    directories: Option<Option<(usize, Vec<Span>)>>,
) -> (r: Completion)
    requires
        pos <= line@.len(),
    ensures
        r@ == complete_spec(line@, pos as int, texts(commands@), directories_view(directories)),
{
    let chars = chars_of(line);
    proof {
        assert(chars@.subrange(0, pos as int) =~= chars@.take(pos as int));
        assert(chars@.take(chars.len() as int) =~= chars@);
    }
    if blank_between(&chars, 0, pos) {
        let none: Vec<Span> = Vec::new();
        assert(span_views(none@) =~= Seq::<SpanView>::empty());
        return Completion::Candidates(pos, none);
    }
    if is_cd_context(line) {
        let lead = trimmed_start(&chars, chars.len());
        proof {
            let t = crate::text::trim_start(chars@);
            assert(t == chars@.skip(lead as int));
            reveal_strlit("cd");
            assert("cd"@.len() == 2);
            assert(t.len() >= 2);
            assert(chars@.subrange(lead + 2, chars.len() as int) =~= t.skip(2));
        }
        if blank_between(&chars, lead + 2, chars.len()) {
            let none: Vec<Span> = Vec::new();
            assert(span_views(none@) =~= Seq::<SpanView>::empty());
            return Completion::Candidates(pos, none);
        }
        match directories {
            None => {
                return Completion::Directories;
            },
            Some(Some((at, found))) => {
                return Completion::Candidates(at, found);
            },
            Some(None) => {},
        }
    }
    let lead = trimmed_start(&chars, pos);
    proof {
        assert(chars@.subrange(lead as int, pos as int) =~= crate::text::trim_start(
            chars@.take(pos as int),
        ));
    }
    if space_between(&chars, lead, pos) {
        return Completion::Filenames;
    }
    if LineHelper::is_command_position(line, pos) {
        match complete_command(line, pos, commands) {
            Some((at, found)) => Completion::Candidates(at, found),
            None => Completion::Filenames,
        }
    } else {
        Completion::Filenames
    }
}

/// The argument of `cd` up to the cursor `pos`: the position at which it
/// starts, its text as typed, and the prefix to look for, which is the text
/// without the white space at its ends. `None` where the line is no `cd`
/// command or the cursor stands before the argument.
pub open spec fn cd_argument_spec(line: Seq<char>, pos: int) -> Option<(int, Seq<char>, Seq<char>)> {
    let lead = trim_start_len(line) as int;
    let start = lead + 2 + trim_start_len(line.skip(lead + 2));
    if !cd_context(line) || start > pos || pos > line.len() {
        None
    } else {
        Some((start, line.subrange(start, pos), trim(line.subrange(start, pos))))
    }
}

/// Finds the argument of `cd` up to the cursor.
pub fn cd_argument(line: &str, pos: usize) -> (r: Option<(usize, String, String)>)
    ensures
        match r {
            Some((start, typed, prefix)) => cd_argument_spec(line@, pos as int) == Some(
                (start as int, typed@, prefix@),
            ),
            None => cd_argument_spec(line@, pos as int) is None,
        },
{
    if !is_cd_context(line) {
        return None;
    }
    let chars = chars_of(line);
    if pos > chars.len() {
        return None;
    }
    assert(chars@.take(chars.len() as int) =~= chars@);
    let lead = trimmed_start(&chars, chars.len());
    proof {
        let t = crate::text::trim_start(chars@);
        assert(t == chars@.skip(lead as int));
        reveal_strlit("cd");
        assert("cd"@.len() == 2);
        assert(t.len() >= 2);
    }
    let mut start: usize = lead + 2;
    let ghost rest = chars@.skip(lead + 2);
    assert(rest.skip(0) =~= rest);
    while start < chars.len() && is_whitespace(chars[start])
        invariant
            lead + 2 <= start <= chars.len(),
            rest == chars@.skip(lead + 2),
            trim_start_len(rest) == (start - (lead + 2)) + trim_start_len(
                rest.skip(start - (lead + 2)),
            ),
        decreases chars.len() - start,
    {
        assert(rest.skip(start - (lead + 2)).first() == chars@[start as int]);
        assert(rest.skip(start - (lead + 2)).drop_first() =~= rest.skip(start + 1 - (lead + 2)));
        start += 1;
    }
    proof {
        let tail = rest.skip(start - (lead + 2));
        if start < chars.len() {
            assert(tail.first() == chars@[start as int]);
        }
        assert(trim_start_len(tail) == 0);
    }
    if start > pos {
        return None;
    }
    let typed = string_of(&chars, start, pos);
    let prefix = crate::text::trim_text(typed.as_str());
    Some((start, typed, prefix))
}

} // verus!
