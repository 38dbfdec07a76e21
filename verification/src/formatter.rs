//! Text helpers for the decorated output of `ls`, `cat` and `cargo`: widths
//! that do not count colour codes, and the entries of a directory listing.

use vstd::prelude::*;
use vstd::string::*;

use crate::expand::{find_char, is_name_char, name_char, span_until};
use crate::numbers::{parse_u64, parse_unsigned};
use crate::style::{
    bold_rgb, bold_rgb_look, dim, dim_look, is_number, is_number_text, named, named_look, plain,
    plain_look, rgb, rgb_look, ColorName, Look, Span, SpanView, span_views,
};
use crate::text::{
    chars_of, has_prefix_at, is_space, is_whitespace, join_spaced, join_words, push_char,
    same_text, split_whitespace, split_words, starts_with, string_of, texts, trim, trim_start,
    trim_text, trimmed_start,
};

verus! {

/// The escape character that starts a colour code.
pub open spec fn is_escape(c: char) -> bool {
    c == '\u{1b}'
}

/// Whether `c` is an ASCII letter, which ends a colour code.
pub open spec fn is_letter(c: char) -> bool {
    let n = c as u32;
    (0x41 <= n <= 0x5A) || (0x61 <= n <= 0x7A)
}

/// The number of characters of `s` from `from` on that stand before the
/// first ASCII letter, or before the end where there is none.
pub open spec fn span_to_letter(s: Seq<char>, from: int) -> nat
    decreases s.len() - from,
{
    if from < 0 || from >= s.len() || is_letter(s[from]) {
        0
    } else {
        1 + span_to_letter(s, from + 1)
    }
}

/// `s` from position `i` on without its colour codes, after `out`: a code
/// starts with the escape character and `[` and lasts up to and with the next
/// ASCII letter, or to the end.
pub open spec fn strip_from(s: Seq<char>, i: int, out: Seq<char>) -> Seq<char>
    decreases s.len() - i,
{
    if i < 0 || i >= s.len() {
        out
    } else if is_escape(s[i]) && i + 1 < s.len() && s[i + 1] == '[' {
        let letter = i + 2 + span_to_letter(s, i + 2);
        if letter < s.len() {
            strip_from(s, letter + 1, out)
        } else {
            out
        }
    } else {
        strip_from(s, i + 1, out.push(s[i]))
    }
}

/// `s` without its colour codes.
pub open spec fn stripped(s: Seq<char>) -> Seq<char> {
    strip_from(s, 0, Seq::empty())
}

/// Whether `c` is an ASCII letter.
pub fn ends_code(c: char) -> (b: bool)
    ensures
        b == is_letter(c),
{
    let n: u32 = c as u32;
    (0x41 <= n && n <= 0x5A) || (0x61 <= n && n <= 0x7A)
}

/// Removes the colour codes from `s`.
pub fn strip_ansi_codes(s: &str) -> (plain: String)
    ensures
        plain@ == stripped(s@),
{
    let chars = chars_of(s);
    let mut plain = String::new();
    let mut i: usize = 0;
    while i < chars.len()
        invariant
            i <= chars.len(),
            chars@ == s@,
            stripped(s@) == strip_from(chars@, i as int, plain@),
        decreases chars.len() - i,
    {
        if chars[i] == '\u{1b}' && i + 1 < chars.len() && chars[i + 1] == '[' {
            let mut j: usize = i + 2;
            while j < chars.len() && !ends_code(chars[j])
                invariant
                    i + 2 <= j <= chars.len(),
                    span_to_letter(chars@, i + 2) == (j - (i + 2)) + span_to_letter(
                        chars@,
                        j as int,
                    ),
                decreases chars.len() - j,
            {
                j += 1;
            }
            if j < chars.len() {
                i = j + 1;
            } else {
                i = j;
            }
        } else {
            push_char(&mut plain, chars[i]);
            i += 1;
        }
    }
    plain
}

/// The number of characters of `s` that show on the screen: those outside
/// its colour codes.
pub fn visible_width(s: &str) -> (width: usize)
    ensures
        width == stripped(s@).len(),
{
    let plain = strip_ansi_codes(s);
    plain.as_str().unicode_len()
}

/// `s` from position `i` on, cut after `width` characters that show, after
/// `out`: `shown` characters were kept so far, and `inside` says whether the
/// scan is inside a colour code. A code starts with the escape character and
/// lasts up to and with the next ASCII letter; codes are kept and not
/// counted; the first character that no longer fits ends the text.
pub open spec fn truncate_from(
    s: Seq<char>,
    width: nat,
    i: int,
    shown: nat,
    inside: bool,
    out: Seq<char>,
) -> Seq<char>
    decreases s.len() - i,
{
    if i < 0 || i >= s.len() {
        out
    } else if inside {
        truncate_from(s, width, i + 1, shown, !is_letter(s[i]), out.push(s[i]))
    } else if is_escape(s[i]) {
        truncate_from(s, width, i + 1, shown, true, out.push(s[i]))
    } else if shown < width {
        truncate_from(s, width, i + 1, shown + 1, false, out.push(s[i]))
    } else {
        out
    }
}

/// `s` cut after `width` characters that show.
pub open spec fn truncated(s: Seq<char>, width: nat) -> Seq<char> {
    truncate_from(s, width, 0, 0, false, Seq::empty())
}

/// Cuts `s` after `width` characters that show; colour codes are kept and do
/// not count.
pub fn truncate_visual(s: &str, width: usize) -> (cut: String)
    ensures
        cut@ == truncated(s@, width as nat),
{
    let chars = chars_of(s);
    let mut cut = String::new();
    let mut shown: usize = 0;
    let mut inside = false;
    let mut i: usize = 0;
    while i < chars.len()
        invariant
            i <= chars.len(),
            chars@ == s@,
            shown <= width,
            truncated(s@, width as nat) == truncate_from(
                chars@,
                width as nat,
                i as int,
                shown as nat,
                inside,
                cut@,
            ),
        decreases chars.len() - i,
    {
        let ch = chars[i];
        if inside {
            push_char(&mut cut, ch);
            if ends_code(ch) {
                inside = false;
            }
        } else if ch == '\u{1b}' {
            inside = true;
            push_char(&mut cut, ch);
        } else if shown < width {
            push_char(&mut cut, ch);
            shown += 1;
        } else {
            return cut;
        }
        i += 1;
    }
    cut
}

/// `line` without a carriage return at its end.
pub open spec fn without_return(line: Seq<char>) -> Seq<char> {
    if line.len() > 0 && line.last() == '\r' {
        line.drop_last()
    } else {
        line
    }
}

/// The lines of `s` from position `i` on, where `line` holds the characters
/// of the line that is being read.
pub open spec fn lines_from(s: Seq<char>, i: int, line: Seq<char>) -> Seq<Seq<char>>
    decreases s.len() - i,
{
    if i < 0 || i >= s.len() {
        if line.len() > 0 {
            seq![line]
        } else {
            Seq::empty()
        }
    } else if s[i] == '\n' {
        seq![without_return(line)] + lines_from(s, i + 1, Seq::empty())
    } else {
        lines_from(s, i + 1, line.push(s[i]))
    }
}

/// The lines of `s`: the texts between its line feeds, each without a
/// carriage return before the line feed. Text after the last line feed is a
/// line where it is not empty.
pub open spec fn lines_spec(s: Seq<char>) -> Seq<Seq<char>> {
    lines_from(s, 0, Seq::empty())
}

/// The lines of `s`.
pub fn lines_of(s: &str) -> (lines: Vec<String>)
    ensures
        texts(lines@) == lines_spec(s@),
{
    let chars = chars_of(s);
    let mut lines: Vec<String> = Vec::new();
    let mut line: Vec<char> = Vec::new();
    let mut i: usize = 0;
    assert(texts(lines@) =~= Seq::<Seq<char>>::empty());
    while i < chars.len()
        invariant
            i <= chars.len(),
            chars@ == s@,
            lines_spec(s@) == texts(lines@) + lines_from(chars@, i as int, line@),
        decreases chars.len() - i,
    {
        if chars[i] == '\n' {
            let n = line.len();
            let end: usize = if n > 0 && line[n - 1] == '\r' {
                n - 1
            } else {
                n
            };
            let text = crate::text::string_of(&line, 0, end);
            proof {
                assert(line@.subrange(0, end as int) =~= without_return(line@));
                let rest = lines_from(chars@, i + 1, Seq::empty());
                assert(texts(lines@.push(text)) =~= texts(lines@) + seq![text@]);
                assert(texts(lines@) + (seq![text@] + rest) =~= (texts(lines@) + seq![text@])
                    + rest);
            }
            lines.push(text);
            line = Vec::new();
        } else {
            line.push(chars[i]);
        }
        i += 1;
    }
    if line.len() > 0 {
        let text = crate::text::string_of(&line, 0, line.len());
        proof {
            assert(line@.subrange(0, line.len() as int) =~= line@);
            assert(texts(lines@.push(text)) =~= texts(lines@) + seq![text@]);
        }
        lines.push(text);
    } else {
        proof {
            assert(texts(lines@) + Seq::<Seq<char>>::empty() =~= texts(lines@));
        }
    }
    lines
}

/// One entry of a directory listing.
#[derive(Debug, PartialEq, Eq)]
pub struct FileEntry {
    /// The name of the file.
    pub name: String,
    /// Whether it is a directory.
    pub is_dir: bool,
    /// Whether it is a symbolic link.
    pub is_symlink: bool,
    /// Its size in bytes, where the listing gives one.
    pub size: Option<u64>,
}

/// The mathematical value of a [`FileEntry`].
pub ghost struct EntryView {
    pub name: Seq<char>,
    pub is_dir: bool,
    pub is_symlink: bool,
    pub size: Option<u64>,
}

impl View for FileEntry {
    type V = EntryView;

    open spec fn view(&self) -> EntryView {
        EntryView {
            name: self.name@,
            is_dir: self.is_dir,
            is_symlink: self.is_symlink,
            size: self.size,
        }
    }
}

/// The values of the entries of `v`, in order.
pub open spec fn entry_views(v: Seq<FileEntry>) -> Seq<EntryView> {
    v.map_values(|e: FileEntry| e@)
}

/// Whether the text `s` starts with the character `c`.
pub open spec fn first_is(s: Seq<char>, c: char) -> bool {
    s.len() > 0 && s[0] == c
}

/// The entry that a line of a long listing describes: the first field gives
/// the kind, the fifth the size where it is a number, the fields from the
/// ninth on the name. A line of fewer than nine fields describes none.
pub open spec fn long_line_spec(line: Seq<char>) -> Option<EntryView> {
    let parts = split_whitespace(line);
    if parts.len() < 9 {
        None
    } else {
        Some(
            EntryView {
                name: join_spaced(parts.skip(8)),
                is_dir: first_is(parts[0], 'd'),
                is_symlink: first_is(parts[0], 'l'),
                size: match parse_unsigned(parts[4], u64::MAX as nat) {
                    Some(n) => Some(n as u64),
                    None => None,
                },
            },
        )
    }
}

/// The entry for a line that is a file name and nothing else.
pub open spec fn plain_entry(line: Seq<char>) -> EntryView {
    EntryView { name: line, is_dir: false, is_symlink: false, size: None }
}

/// Whether a line holds white space only.
pub open spec fn is_blank(line: Seq<char>) -> bool {
    crate::text::trim(line).len() == 0
}

/// The entry that one line of the output of `ls` stands for: a line that
/// starts like a long listing is read as one where it has the fields of one;
/// any other line is a file name.
pub open spec fn entry_of(line: Seq<char>) -> EntryView {
    if first_is(line, '-') || first_is(line, 'd') || first_is(line, 'l') {
        match long_line_spec(line) {
            Some(entry) => entry,
            None => plain_entry(line),
        }
    } else {
        plain_entry(line)
    }
}

/// The entries that `lines` stand for: one for each line that is not blank.
pub open spec fn entries_of(lines: Seq<Seq<char>>) -> Seq<EntryView>
    decreases lines.len(),
{
    if lines.len() == 0 {
        Seq::empty()
    } else if is_blank(lines.last()) {
        entries_of(lines.drop_last())
    } else {
        entries_of(lines.drop_last()).push(entry_of(lines.last()))
    }
}

/// Whether `s` starts with `c`.
fn starts_with_char(s: &str, c: char) -> (b: bool)
    ensures
        b == first_is(s@, c),
{
    let chars = chars_of(s);
    chars.len() > 0 && chars[0] == c
}

/// Reads one line of a long listing.
pub fn parse_ls_long_line(line: &str) -> (r: Option<FileEntry>)
    ensures
        match r {
            Some(entry) => long_line_spec(line@) == Some(entry@),
            None => long_line_spec(line@) is None,
        },
{
    let parts = split_words(line);
    if parts.len() < 9 {
        return None;
    }
    proof {
        assert(texts(parts@)[0] == parts@[0]@);
        assert(texts(parts@)[4] == parts@[4]@);
    }
    let is_dir = starts_with_char(parts[0].as_str(), 'd');
    let is_symlink = starts_with_char(parts[0].as_str(), 'l');
    let size = parse_u64(parts[4].as_str(), u64::MAX);
    let name = join_words(&parts, 8);
    Some(FileEntry { name, is_dir, is_symlink, size })
}

/// The entries that the output of `ls` stands for.
pub fn parse_ls_output(output: &str) -> (entries: Vec<FileEntry>)
    ensures
        entry_views(entries@) == entries_of(lines_spec(output@)),
{
    let lines = lines_of(output);
    let mut entries: Vec<FileEntry> = Vec::new();
    let mut i: usize = 0;
    let ghost all = texts(lines@);
    assert(all.take(0) =~= Seq::<Seq<char>>::empty());
    assert(entry_views(entries@) =~= Seq::<EntryView>::empty());
    while i < lines.len()
        invariant
            i <= lines.len(),
            all == texts(lines@),
            entry_views(entries@) == entries_of(all.take(i as int)),
        decreases lines.len() - i,
    {
        proof {
            assert(all.take(i + 1).drop_last() =~= all.take(i as int));
            assert(all.take(i + 1).last() == lines@[i as int]@);
        }
        let line = lines[i].as_str();
        let trimmed = crate::text::trim_text(line);
        if !trimmed.as_str().is_empty() {
            let long = starts_with_char(line, '-') || starts_with_char(line, 'd')
                || starts_with_char(line, 'l');
            let parsed = if long {
                parse_ls_long_line(line)
            } else {
                None
            };
            let entry = match parsed {
                Some(entry) => entry,
                None => FileEntry {
                    name: lines[i].clone(),
                    is_dir: false,
                    is_symlink: false,
                    size: None,
                },
            };
            proof {
                assert(entry_views(entries@.push(entry)) =~= entry_views(entries@).push(entry@));
            }
            entries.push(entry);
        }
        i += 1;
    }
    assert(all.take(i as int) =~= all);
    entries
}

/// How the output of a program is decorated.
#[derive(Debug, PartialEq, Eq, Clone, Copy)]
pub enum OutputKind {
    /// A directory listing, shown as a table.
    Listing,
    /// The contents of files, shown with line numbers.
    Contents,
    /// Compiler diagnostics, shown in colour.
    Diagnostics,
    /// Anything else, shown as it is.
    Plain,
}

/// How the output of `program` is decorated: `ls`, `cat` and `cargo` have
/// a decoration of their own.
pub open spec fn output_kind(program: Seq<char>) -> OutputKind {
    if program == "ls"@ {
        OutputKind::Listing
    } else if program == "cat"@ {
        OutputKind::Contents
    } else if program == "cargo"@ {
        OutputKind::Diagnostics
    } else {
        OutputKind::Plain
    }
}

/// How the output of `program` is decorated. The output of a program is
/// collected for decoration exactly where the result is not
/// [`OutputKind::Plain`].
pub fn format_command_output(program: &str) -> (kind: OutputKind)
    ensures
        kind == output_kind(program@),
{
    if same_text(program, "ls") {
        OutputKind::Listing
    } else if same_text(program, "cat") {
        OutputKind::Contents
    } else if same_text(program, "cargo") {
        OutputKind::Diagnostics
    } else {
        OutputKind::Plain
    }
}

/// The keywords that are coloured in source text.
pub open spec fn keywords() -> Seq<Seq<char>> {
    seq![
        "fn"@,
        "let"@,
        "mut"@,
        "pub"@,
        "use"@,
        "mod"@,
        "struct"@,
        "enum"@,
        "impl"@,
        "trait"@,
        "if"@,
        "else"@,
        "match"@,
        "return"@,
        "Ok"@,
        "Err"@,
        "Some"@,
        "None"@,
        "true"@,
        "false"@,
        "self"@,
        "Self"@,
        "async"@,
        "await"@,
        "const"@,
        "static"@,
    ]
}

/// The look of a word of source text: a keyword, a number, or anything else.
pub open spec fn token_look(token: Seq<char>) -> Look {
    if keywords().contains(token) {
        bold_rgb_look(140, 180, 255)
    } else if is_number_text(token) {
        rgb_look(255, 220, 150)
    } else {
        plain_look()
    }
}

/// The look of text inside a string of source text.
pub open spec fn string_look() -> Look {
    rgb_look(150, 255, 180)
}

/// The look of a comment.
pub open spec fn comment_look() -> Look {
    named_look(ColorName::BrightBlack)
}

/// `spans` followed by the pending word with its look, where there is one.
pub open spec fn with_token(spans: Seq<SpanView>, word: Seq<char>) -> Seq<SpanView> {
    if word.len() > 0 {
        spans.push(SpanView { text: word, look: token_look(word) })
    } else {
        spans
    }
}

/// The spans of the source line `s` when the scan resumes at position `i`
/// with `spans` already made and `word` pending, inside a string or inside
/// a comment as the flags say.
///
/// `//` starts a comment, which lasts to the end. A double quote starts and
/// ends a string. Outside both a run of name characters is a word; white
/// space is shown as it is and any other character dimmed.
pub open spec fn source_from(
    s: Seq<char>,
    i: int,
    spans: Seq<SpanView>,
    word: Seq<char>,
    in_string: bool,
    in_comment: bool,
) -> Seq<SpanView>
    decreases s.len() - i,
{
    if i < 0 || i >= s.len() {
        if word.len() == 0 {
            spans
        } else if in_string {
            spans.push(SpanView { text: word, look: string_look() })
        } else {
            with_token(spans, word)
        }
    } else if in_comment {
        source_from(
            s,
            i + 1,
            spans.push(SpanView { text: seq![s[i]], look: comment_look() }),
            word,
            in_string,
            true,
        )
    } else if s[i] == '/' && i + 1 < s.len() && s[i + 1] == '/' {
        source_from(
            s,
            i + 2,
            spans.push(SpanView { text: seq!['/', '/'], look: comment_look() }),
            word,
            in_string,
            true,
        )
    } else if s[i] == '"' && !in_string {
        source_from(
            s,
            i + 1,
            spans.push(SpanView { text: seq!['"'], look: plain_look() }),
            word,
            true,
            false,
        )
    } else if s[i] == '"' {
        source_from(
            s,
            i + 1,
            spans.push(SpanView { text: word, look: string_look() }).push(
                SpanView { text: seq!['"'], look: string_look() },
            ),
            Seq::empty(),
            false,
            false,
        )
    } else if in_string || is_name_char(s[i]) {
        source_from(s, i + 1, spans, word.push(s[i]), in_string, false)
    } else {
        source_from(
            s,
            i + 1,
            with_token(spans, word).push(
                SpanView {
                    text: seq![s[i]],
                    look: if is_space(s[i]) {
                        plain_look()
                    } else {
                        dim_look()
                    },
                },
            ),
            Seq::empty(),
            false,
            false,
        )
    }
}

/// The coloured spans of a line of source text.
pub open spec fn source_spans(s: Seq<char>) -> Seq<SpanView> {
    source_from(s, 0, Seq::empty(), Seq::empty(), false, false)
}

/// The look of a word of source text.
pub fn colorize_rust_token(token: &str) -> (look: Look)
    ensures
        look == token_look(token@),
{
    let keyword = same_text(token, "fn") || same_text(token, "let") || same_text(token, "mut") || same_text(token, "pub") || same_text(token, "use") || same_text(token, "mod") || same_text(token, "struct") || same_text(token, "enum") || same_text(token, "impl") || same_text(token, "trait") || same_text(token, "if") || same_text(token, "else") || same_text(token, "match") || same_text(token, "return") || same_text(token, "Ok") || same_text(token, "Err") || same_text(token, "Some") || same_text(token, "None") || same_text(token, "true") || same_text(token, "false") || same_text(token, "self") || same_text(token, "Self") || same_text(token, "async") || same_text(token, "await") || same_text(token, "const") || same_text(token, "static");
    proof {
        let names = keywords();
        if keyword {
            if token@ == "fn"@ {
                assert(names[0] == token@);
            }
            if token@ == "let"@ {
                assert(names[1] == token@);
            }
            if token@ == "mut"@ {
                assert(names[2] == token@);
            }
            if token@ == "pub"@ {
                assert(names[3] == token@);
            }
            if token@ == "use"@ {
                assert(names[4] == token@);
            }
            if token@ == "mod"@ {
                assert(names[5] == token@);
            }
            if token@ == "struct"@ {
                assert(names[6] == token@);
            }
            if token@ == "enum"@ {
                assert(names[7] == token@);
            }
            if token@ == "impl"@ {
                assert(names[8] == token@);
            }
            if token@ == "trait"@ {
                assert(names[9] == token@);
            }
            if token@ == "if"@ {
                assert(names[10] == token@);
            }
            if token@ == "else"@ {
                assert(names[11] == token@);
            }
            if token@ == "match"@ {
                assert(names[12] == token@);
            }
            if token@ == "return"@ {
                assert(names[13] == token@);
            }
            if token@ == "Ok"@ {
                assert(names[14] == token@);
            }
            if token@ == "Err"@ {
                assert(names[15] == token@);
            }
            if token@ == "Some"@ {
                assert(names[16] == token@);
            }
            if token@ == "None"@ {
                assert(names[17] == token@);
            }
            if token@ == "true"@ {
                assert(names[18] == token@);
            }
            if token@ == "false"@ {
                assert(names[19] == token@);
            }
            if token@ == "self"@ {
                assert(names[20] == token@);
            }
            if token@ == "Self"@ {
                assert(names[21] == token@);
            }
            if token@ == "async"@ {
                assert(names[22] == token@);
            }
            if token@ == "await"@ {
                assert(names[23] == token@);
            }
            if token@ == "const"@ {
                assert(names[24] == token@);
            }
            if token@ == "static"@ {
                assert(names[25] == token@);
            }
        }
    }
    if keyword {
        bold_rgb(140, 180, 255)
    } else if is_number(token) {
        rgb(255, 220, 150)
    } else {
        plain()
    }
}

/// Adds a span to `spans`.
fn put(spans: Vec<Span>, text: String, look: Look) -> (out: Vec<Span>)
    ensures
        span_views(out@) == span_views(spans@).push(SpanView { text: text@, look }),
{
    let mut out = spans;
    let span = Span { text, look };
    proof {
        assert(span_views(out@.push(span)) =~= span_views(out@).push(span@));
    }
    out.push(span);
    out
}

/// Adds the pending word with its look to `spans`, if there is one.
fn put_token(spans: Vec<Span>, word: String) -> (out: Vec<Span>)
    ensures
        span_views(out@) == with_token(span_views(spans@), word@),
{
    if word.as_str().is_empty() {
        spans
    } else {
        let look = colorize_rust_token(word.as_str());
        put(spans, word, look)
    }
}

/// The text that holds `c` and nothing else.
fn single(c: char) -> (text: String)
    ensures
        text@ == seq![c],
{
    let mut text = String::new();
    push_char(&mut text, c);
    assert(text@ =~= seq![c]);
    text
}

/// Colours a line of source text.
pub fn highlight_rust_line(line: &str) -> (spans: Vec<Span>)
    ensures
        span_views(spans@) == source_spans(line@),
{
    let chars = chars_of(line);
    let mut spans: Vec<Span> = Vec::new();
    let mut word = String::new();
    let mut in_string = false;
    let mut in_comment = false;
    let mut i: usize = 0;
    assert(span_views(spans@) =~= Seq::<SpanView>::empty());
    while i < chars.len()
        invariant
            i <= chars.len(),
            chars@ == line@,
            source_spans(line@) == source_from(
                chars@,
                i as int,
                span_views(spans@),
                word@,
                in_string,
                in_comment,
            ),
        decreases chars.len() - i,
    {
        let ch = chars[i];
        if in_comment {
            spans = put(spans, single(ch), named(ColorName::BrightBlack));
            i += 1;
        } else if ch == '/' && i + 1 < chars.len() && chars[i + 1] == '/' {
            let mut text = String::new();
            push_char(&mut text, '/');
            push_char(&mut text, '/');
            assert(text@ =~= seq!['/', '/']);
            spans = put(spans, text, named(ColorName::BrightBlack));
            in_comment = true;
            i += 2;
        } else if ch == '"' && !in_string {
            spans = put(spans, single('"'), plain());
            in_string = true;
            i += 1;
        } else if ch == '"' {
            spans = put(spans, word, rgb(150, 255, 180));
            spans = put(spans, single('"'), rgb(150, 255, 180));
            word = String::new();
            in_string = false;
            i += 1;
        } else if in_string || name_char(ch) {
            push_char(&mut word, ch);
            i += 1;
        } else {
            spans = put_token(spans, word);
            word = String::new();
            let look = if is_whitespace(ch) {
                plain()
            } else {
                dim()
            };
            spans = put(spans, single(ch), look);
            i += 1;
        }
    }
    if word.as_str().is_empty() {
        spans
    } else if in_string {
        put(spans, word, rgb(150, 255, 180))
    } else {
        put_token(spans, word)
    }
}

/// The kind of a line of compiler output.
#[derive(Debug, PartialEq, Eq, Clone, Copy)]
pub enum LineKind {
    /// An error.
    Error,
    /// A warning.
    Warning,
    /// Advice or a note.
    Advice,
    /// A line that points into the source text.
    Pointer,
    /// Anything else.
    Other,
}

/// The kind of the line of compiler output `line`, which its start decides
/// once the white space before it is set aside.
pub open spec fn line_kind(line: Seq<char>) -> LineKind {
    let t = trim_start(line);
    if starts_with(t, "error["@) || starts_with(t, "error:"@) {
        LineKind::Error
    } else if starts_with(t, "warning["@) || starts_with(t, "warning:"@) {
        LineKind::Warning
    } else if starts_with(t, "help:"@) || starts_with(t, "note:"@) {
        LineKind::Advice
    } else if starts_with(t, "--> "@) || starts_with(t, "| "@) || starts_with(t, "  = "@) {
        LineKind::Pointer
    } else {
        LineKind::Other
    }
}

/// The look of a line of compiler output of the given kind.
pub open spec fn kind_look(kind: LineKind) -> Look {
    match kind {
        LineKind::Error => bold_rgb_look(255, 120, 180),
        LineKind::Warning => bold_rgb_look(255, 220, 150),
        LineKind::Advice => rgb_look(180, 160, 255),
        LineKind::Pointer => dim_look(),
        LineKind::Other => plain_look(),
    }
}

/// The kind of a line of compiler output.
pub fn diagnostic_kind(line: &str) -> (kind: LineKind)
    ensures
        kind == line_kind(line@),
{
    let chars = chars_of(line);
    assert(chars@.take(chars.len() as int) =~= chars@);
    let at = trimmed_start(&chars, chars.len());
    if has_prefix_at(&chars, at, "error[") || has_prefix_at(&chars, at, "error:") {
        LineKind::Error
    } else if has_prefix_at(&chars, at, "warning[") || has_prefix_at(&chars, at, "warning:") {
        LineKind::Warning
    } else if has_prefix_at(&chars, at, "help:") || has_prefix_at(&chars, at, "note:") {
        LineKind::Advice
    } else if has_prefix_at(&chars, at, "--> ") || has_prefix_at(&chars, at, "| ")
        || has_prefix_at(&chars, at, "  = ") {
        LineKind::Pointer
    } else {
        LineKind::Other
    }
}

/// The look of a line of compiler output.
pub fn colorize_diagnostic_line(line: &str) -> (look: Look)
    ensures
        look == kind_look(line_kind(line@)),
{
    match diagnostic_kind(line) {
        LineKind::Error => bold_rgb(255, 120, 180),
        LineKind::Warning => bold_rgb(255, 220, 150),
        LineKind::Advice => rgb(180, 160, 255),
        LineKind::Pointer => dim(),
        LineKind::Other => plain(),
    }
}

/// The look of a file name in a listing, given what the file is and the
/// extension of its name: directories and links have looks of their own,
/// other files one that goes by the extension.
pub open spec fn name_look(is_dir: bool, is_symlink: bool, extension: Option<Seq<char>>) -> Look {
    if is_dir {
        bold_rgb_look(140, 180, 255)
    } else if is_symlink {
        rgb_look(200, 150, 255)
    } else {
        match extension {
            Some(e) => if e == "rs"@ {
                rgb_look(255, 150, 180)
            } else if e == "md"@ {
                rgb_look(240, 160, 255)
            } else if e == "toml"@ {
                rgb_look(255, 220, 150)
            } else if e == "png"@ || e == "jpg"@ || e == "jpeg"@ || e == "gif"@ {
                rgb_look(150, 255, 180)
            } else if e == "zip"@ || e == "tar"@ || e == "gz"@ {
                rgb_look(255, 220, 150)
            } else if e == "sh"@ {
                rgb_look(150, 255, 180)
            } else {
                plain_look()
            },
            None => plain_look(),
        }
    }
}

/// The look of a file name in a listing.
pub fn colorize_name(is_dir: bool, is_symlink: bool, extension: Option<&str>) -> (look: Look)
    ensures
        look == name_look(
            is_dir,
            is_symlink,
            match extension {
                Some(e) => Some(e@),
                None => None,
            },
        ),
{
    if is_dir {
        bold_rgb(140, 180, 255)
    } else if is_symlink {
        rgb(200, 150, 255)
    } else {
        match extension {
            Some(e) => {
                if same_text(e, "rs") {
                    rgb(255, 150, 180)
                } else if same_text(e, "md") {
                    rgb(240, 160, 255)
                } else if same_text(e, "toml") {
                    rgb(255, 220, 150)
                } else if same_text(e, "png") || same_text(e, "jpg") || same_text(e, "jpeg")
                    || same_text(e, "gif") {
                    rgb(150, 255, 180)
                } else if same_text(e, "zip") || same_text(e, "tar") || same_text(e, "gz") {
                    rgb(255, 220, 150)
                } else if same_text(e, "sh") {
                    rgb(150, 255, 180)
                } else {
                    plain()
                }
            },
            None => plain(),
        }
    }
}

/// The mark and the look of the kind of a file in a listing.
pub open spec fn type_mark(is_dir: bool, is_symlink: bool) -> (char, Look) {
    if is_dir {
        ('d', rgb_look(140, 180, 255))
    } else if is_symlink {
        ('l', rgb_look(200, 150, 255))
    } else {
        ('-', dim_look())
    }
}

/// The mark and the look of the kind of a file in a listing.
pub fn style_type(is_dir: bool, is_symlink: bool) -> (mark: (char, Look))
    ensures
        mark == type_mark(is_dir, is_symlink),
{
    if is_dir {
        ('d', rgb(140, 180, 255))
    } else if is_symlink {
        ('l', rgb(200, 150, 255))
    } else {
        ('-', dim())
    }
}

/// The spans of a line of a settings file in the `key = value` style: a
/// section header, which starts with `[`, and a comment, which starts with
/// `#`, are one span; a line with a `=` gives its key, the sign and its
/// value, the key and the value without white space at their ends; any other
/// line is shown as it is.
pub open spec fn settings_spans(line: Seq<char>) -> Seq<SpanView> {
    let t = trim_start(line);
    let eq = span_until(line, 0, '=') as int;
    if t.len() > 0 && t[0] == '[' {
        seq![SpanView { text: line, look: bold_rgb_look(200, 150, 255) }]
    } else if t.len() > 0 && t[0] == '#' {
        seq![SpanView { text: line, look: comment_look() }]
    } else if eq < line.len() {
        seq![
            SpanView { text: trim(line.take(eq)), look: bold_rgb_look(255, 220, 150) },
            SpanView { text: seq![' ', '=', ' '], look: dim_look() },
            SpanView { text: trim(line.skip(eq + 1)), look: rgb_look(150, 255, 180) },
        ]
    } else {
        seq![SpanView { text: line, look: plain_look() }]
    }
}

/// Colours a line of a settings file in the `key = value` style.
pub fn highlight_toml_line(line: &str) -> (spans: Vec<Span>)
    ensures
        span_views(spans@) == settings_spans(line@),
{
    let chars = chars_of(line);
    assert(chars@.take(chars.len() as int) =~= chars@);
    let at = trimmed_start(&chars, chars.len());
    let mut spans: Vec<Span> = Vec::new();
    assert(span_views(spans@) =~= Seq::<SpanView>::empty());
    proof {
        if at < chars.len() {
            assert(trim_start(chars@)[0] == chars@[at as int]);
        }
    }
    if at < chars.len() && chars[at] == '[' {
        spans = put(spans, line.to_owned(), bold_rgb(200, 150, 255));
        assert(span_views(spans@) =~= settings_spans(line@));
        return spans;
    }
    if at < chars.len() && chars[at] == '#' {
        spans = put(spans, line.to_owned(), named(ColorName::BrightBlack));
        assert(span_views(spans@) =~= settings_spans(line@));
        return spans;
    }
    let eq = find_char(&chars, 0, '=');
    if eq < chars.len() {
        let key = string_of(&chars, 0, eq);
        let value = string_of(&chars, eq + 1, chars.len());
        proof {
            assert(chars@.subrange(0, eq as int) =~= chars@.take(eq as int));
            assert(chars@.subrange(eq + 1, chars.len() as int) =~= chars@.skip(eq + 1));
        }
        spans = put(spans, trim_text(key.as_str()), bold_rgb(255, 220, 150));
        let mut sign = String::new();
        push_char(&mut sign, ' ');
        push_char(&mut sign, '=');
        push_char(&mut sign, ' ');
        assert(sign@ =~= seq![' ', '=', ' ']);
        spans = put(spans, sign, dim());
        spans = put(spans, trim_text(value.as_str()), rgb(150, 255, 180));
        assert(span_views(spans@) =~= settings_spans(line@));
        return spans;
    }
    spans = put(spans, line.to_owned(), plain());
    assert(span_views(spans@) =~= settings_spans(line@));
    spans
}

/// Whether a line of a shell script is a comment: it starts with `#` once
/// the white space before it is set aside.
pub open spec fn is_comment_line(line: Seq<char>) -> bool {
    trim_start(line).len() > 0 && trim_start(line)[0] == '#'
}

/// The look of a line of a shell script.
pub fn highlight_shell_line(line: &str) -> (look: Look)
    ensures
        look == if is_comment_line(line@) {
            comment_look()
        } else {
            plain_look()
        },
{
    let chars = chars_of(line);
    assert(chars@.take(chars.len() as int) =~= chars@);
    let at = trimmed_start(&chars, chars.len());
    proof {
        if at < chars.len() {
            assert(trim_start(chars@)[0] == chars@[at as int]);
        }
    }
    if at < chars.len() && chars[at] == '#' {
        named(ColorName::BrightBlack)
    } else {
        plain()
    }
}

/// What `humansize::format_size` gives for a number of bytes with its
/// decimal options.
pub uninterp spec fn human_size(bytes: u64) -> Seq<char>;

/// A number of bytes in the form that people read, such as `1.50 kB`.
///
/// Trusted: the body calls `humansize::format_size` with the options
/// `DECIMAL`; the contract only gives its result a name.
#[verifier::external_body]
fn format_size(bytes: u64) -> (text: String)
    ensures
        text@ == human_size(bytes),
{
    humansize::format_size(bytes, humansize::DECIMAL)
}

/// The text of the size column for an entry, where `size` is its size in
/// the form that people read: a dash for a directory and for an entry
/// without a size.
pub open spec fn size_cell_given(entry: EntryView, size: Seq<char>) -> Seq<char> {
    if entry.is_dir || entry.size is None {
        seq!['-']
    } else {
        size
    }
}

/// The text of the size column for an entry.
pub open spec fn size_cell(entry: EntryView) -> Seq<char> {
    size_cell_given(
        entry,
        human_size(
            match entry.size {
                Some(n) => n,
                None => 0,
            },
        ),
    )
}

/// The text of the size column for an entry, given its size in the form that
/// people read.
pub fn size_text_given(entry: &FileEntry, size: String) -> (text: String)
    ensures
        text@ == size_cell_given(entry@, size@),
{
    if entry.is_dir || entry.size.is_none() {
        single('-')
    } else {
        size
    }
}

/// The text of the size column for an entry.
pub fn size_text(entry: &FileEntry) -> (text: String)
    ensures
        text@ == size_cell(entry@),
{
    let bytes: u64 = match entry.size {
        Some(n) => n,
        None => 0,
    };
    size_text_given(entry, format_size(bytes))
}

/// The width of a column that holds `cells` and is at least `least` wide:
/// the number of characters of its longest cell, or `least` where that is
/// more.
pub open spec fn column_width_spec(cells: Seq<Seq<char>>, least: nat) -> nat
    decreases cells.len(),
{
    if cells.len() == 0 {
        least
    } else if cells.last().len() > column_width_spec(cells.drop_last(), least) {
        cells.last().len()
    } else {
        column_width_spec(cells.drop_last(), least)
    }
}

/// The width of a column that holds `cells` and is at least `least` wide.
pub fn column_width(cells: &Vec<String>, least: usize) -> (width: usize)
    ensures
        width == column_width_spec(texts(cells@), least as nat),
{
    let mut width: usize = least;
    let mut i: usize = 0;
    let ghost all = texts(cells@);
    assert(all.take(0) =~= Seq::<Seq<char>>::empty());
    while i < cells.len()
        invariant
            i <= cells.len(),
            all == texts(cells@),
            width == column_width_spec(all.take(i as int), least as nat),
        decreases cells.len() - i,
    {
        proof {
            assert(all.take(i + 1).drop_last() =~= all.take(i as int));
            assert(all.take(i + 1).last() == cells@[i as int]@);
        }
        let n = cells[i].as_str().unicode_len();
        if n > width {
            width = n;
        }
        i += 1;
    }
    assert(all.take(i as int) =~= all);
    width
}

} // verus!
