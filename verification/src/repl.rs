//! What the interactive loop decides: the prompt and its colours, which
//! lines of the settings file are commands, and what goes into the history.

use vstd::prelude::*;
use vstd::string::*;

use crate::formatter::{lines_of, lines_spec};
use crate::numbers::{parse_u64, parse_unsigned};
use crate::shell_config::{optional_text, ColorsView, PromptColors};
use crate::style::{plain, plain_look, ColorName, Ink, Look, Span, SpanView, span_views};
use crate::text::{
    chars_of, has_prefix_at, lowercase, push_char, same_text, starts_with, string_of, texts,
    to_lowercase, trim, trim_text,
};

verus! {

/// The parts of `s` between its commas and spaces, from position `i` on,
/// where `part` holds the characters of the part that is being read.
pub open spec fn color_parts_from(s: Seq<char>, i: int, part: Seq<char>) -> Seq<Seq<char>>
    decreases s.len() - i,
{
    if i < 0 || i >= s.len() {
        seq![part]
    } else if s[i] == ',' || s[i] == ' ' {
        seq![part] + color_parts_from(s, i + 1, Seq::empty())
    } else {
        color_parts_from(s, i + 1, part.push(s[i]))
    }
}

/// The number between 0 and 255 that `part` spells, white space at its ends
/// set aside.
pub open spec fn color_part(part: Seq<char>) -> Option<u8> {
    match parse_unsigned(trim(part), 255) {
        Some(n) => Some(n as u8),
        None => None,
    }
}

/// The red, green and blue parts that `s` spells: three numbers between 0
/// and 255 with one comma or one space between each two.
pub open spec fn rgb_spec(s: Seq<char>) -> Option<(u8, u8, u8)> {
    let parts = color_parts_from(s, 0, Seq::empty());
    if parts.len() == 3 && color_part(parts[0]) is Some && color_part(parts[1]) is Some
        && color_part(parts[2]) is Some {
        Some((color_part(parts[0])->0, color_part(parts[1])->0, color_part(parts[2])->0))
    } else {
        None
    }
}

/// Reads one part of a colour.
fn read_part(part: &str) -> (r: Option<u8>)
    ensures
        r == color_part(part@),
{
    let t = trim_text(part);
    match parse_u64(t.as_str(), 255) {
        Some(n) => Some(n as u8),
        None => None,
    }
}

/// Reads a colour given by its red, green and blue parts.
pub fn parse_rgb(color: &str) -> (r: Option<(u8, u8, u8)>)
    ensures
        r == rgb_spec(color@),
{
    let chars = chars_of(color);
    let mut parts: Vec<String> = Vec::new();
    let mut part = String::new();
    let mut i: usize = 0;
    assert(texts(parts@) =~= Seq::<Seq<char>>::empty());
    while i < chars.len()
        invariant
            i <= chars.len(),
            chars@ == color@,
            color_parts_from(color@, 0, Seq::empty()) == texts(parts@) + color_parts_from(
                chars@,
                i as int,
                part@,
            ),
        decreases chars.len() - i,
    {
        if chars[i] == ',' || chars[i] == ' ' {
            let ghost rest = color_parts_from(chars@, i + 1, Seq::empty());
            proof {
                assert(texts(parts@.push(part)) =~= texts(parts@) + seq![part@]);
                assert(texts(parts@) + (seq![part@] + rest) =~= (texts(parts@) + seq![part@]) + rest);
            }
            parts.push(part);
            part = String::new();
        } else {
            push_char(&mut part, chars[i]);
        }
        i += 1;
    }
    proof {
        assert(texts(parts@.push(part)) =~= texts(parts@) + seq![part@]);
    }
    parts.push(part);
    if parts.len() != 3 {
        return None;
    }
    proof {
        assert(texts(parts@)[0] == parts@[0]@);
        assert(texts(parts@)[1] == parts@[1]@);
        assert(texts(parts@)[2] == parts@[2]@);
    }
    match (
        read_part(parts[0].as_str()),
        read_part(parts[1].as_str()),
        read_part(parts[2].as_str()),
    ) {
        (Some(r), Some(g), Some(b)) => Some((r, g, b)),
        _ => None,
    }
}

/// The colour with the name `lowered`, which is in small letters.
pub open spec fn color_named(lowered: Seq<char>) -> Option<ColorName> {
    if lowered == "black"@ {
        Some(ColorName::Black)
    } else if lowered == "red"@ {
        Some(ColorName::Red)
    } else if lowered == "green"@ {
        Some(ColorName::Green)
    } else if lowered == "yellow"@ {
        Some(ColorName::Yellow)
    } else if lowered == "blue"@ {
        Some(ColorName::Blue)
    } else if lowered == "magenta"@ {
        Some(ColorName::Magenta)
    } else if lowered == "cyan"@ {
        Some(ColorName::Cyan)
    } else if lowered == "white"@ {
        Some(ColorName::White)
    } else if lowered == "bright_black"@ || lowered == "brightblack"@ {
        Some(ColorName::BrightBlack)
    } else if lowered == "bright_red"@ || lowered == "brightred"@ {
        Some(ColorName::BrightRed)
    } else if lowered == "bright_green"@ || lowered == "brightgreen"@ {
        Some(ColorName::BrightGreen)
    } else if lowered == "bright_yellow"@ || lowered == "brightyellow"@ {
        Some(ColorName::BrightYellow)
    } else if lowered == "bright_blue"@ || lowered == "brightblue"@ {
        Some(ColorName::BrightBlue)
    } else if lowered == "bright_magenta"@ || lowered == "brightmagenta"@ {
        Some(ColorName::BrightMagenta)
    } else if lowered == "bright_cyan"@ || lowered == "brightcyan"@ {
        Some(ColorName::BrightCyan)
    } else if lowered == "bright_white"@ || lowered == "brightwhite"@ {
        Some(ColorName::BrightWhite)
    } else {
        None
    }
}

/// The colour that the setting `color` stands for, given its text in small
/// letters: red, green and blue parts where it spells them, else a named
/// colour where it is the name of one, else the terminal's own colour.
pub open spec fn ink_given(color: Seq<char>, lowered: Seq<char>) -> Ink {
    match rgb_spec(color) {
        Some((r, g, b)) => Ink::Rgb(r, g, b),
        None => match color_named(lowered) {
            Some(name) => Ink::Named(name),
            None => Ink::Default,
        },
    }
}

/// The colour that the setting `color` stands for.
pub open spec fn ink_of(color: Seq<char>) -> Ink {
    ink_given(color, lowercase(color))
}

/// The colour with the name `lowered`, which is in small letters.
pub fn named_color(lowered: &str) -> (r: Option<ColorName>)
    ensures
        r == color_named(lowered@),
{
    if same_text(lowered, "black") {
        Some(ColorName::Black)
    } else if same_text(lowered, "red") {
        Some(ColorName::Red)
    } else if same_text(lowered, "green") {
        Some(ColorName::Green)
    } else if same_text(lowered, "yellow") {
        Some(ColorName::Yellow)
    } else if same_text(lowered, "blue") {
        Some(ColorName::Blue)
    } else if same_text(lowered, "magenta") {
        Some(ColorName::Magenta)
    } else if same_text(lowered, "cyan") {
        Some(ColorName::Cyan)
    } else if same_text(lowered, "white") {
        Some(ColorName::White)
    } else if same_text(lowered, "bright_black") || same_text(lowered, "brightblack") {
        Some(ColorName::BrightBlack)
    } else if same_text(lowered, "bright_red") || same_text(lowered, "brightred") {
        Some(ColorName::BrightRed)
    } else if same_text(lowered, "bright_green") || same_text(lowered, "brightgreen") {
        Some(ColorName::BrightGreen)
    } else if same_text(lowered, "bright_yellow") || same_text(lowered, "brightyellow") {
        Some(ColorName::BrightYellow)
    } else if same_text(lowered, "bright_blue") || same_text(lowered, "brightblue") {
        Some(ColorName::BrightBlue)
    } else if same_text(lowered, "bright_magenta") || same_text(lowered, "brightmagenta") {
        Some(ColorName::BrightMagenta)
    } else if same_text(lowered, "bright_cyan") || same_text(lowered, "brightcyan") {
        Some(ColorName::BrightCyan)
    } else if same_text(lowered, "bright_white") || same_text(lowered, "brightwhite") {
        Some(ColorName::BrightWhite)
    } else {
        None
    }
}

/// The colour that the setting `color` stands for, given its text in small
/// letters.
pub fn color_from(color: &str, lowered: &str) -> (ink: Ink)
    ensures
        ink == ink_given(color@, lowered@),
{
    match parse_rgb(color) {
        Some((r, g, b)) => Ink::Rgb(r, g, b),
        None => match named_color(lowered) {
            Some(name) => Ink::Named(name),
            None => Ink::Default,
        },
    }
}

/// The colour that the setting `color` stands for.
pub fn apply_color(color: &str) -> (ink: Ink)
    ensures
        ink == ink_of(color@),
{
    let lowered = to_lowercase(color);
    color_from(color, lowered.as_str())
}

/// The colour of a text whose colour setting is `color`: the terminal's own
/// where nothing is set.
pub open spec fn text_ink(color: Option<Seq<char>>) -> Ink {
    match color {
        Some(c) => ink_of(c),
        None => Ink::Default,
    }
}

/// The look of a segment with the colour settings `text` and `background`:
/// where a background is set, the text colour is the one set and the
/// background the one set, unless its setting stands for no colour; where
/// none is set, the text is black on `fallback`.
pub open spec fn segment_look(
    text: Option<Seq<char>>,
    background: Option<Seq<char>>,
    fallback: ColorName,
) -> Look {
    match background {
        Some(bg) => Look { text: text_ink(text), background: ink_of(bg), ..plain_look() },
        None => Look {
            text: Ink::Named(ColorName::Black),
            background: Ink::Named(fallback),
            ..plain_look()
        },
    }
}

/// The look of the separator after a segment whose background setting is
/// `own`, before a segment whose background setting is `next`: the separator
/// has the colour of the segment before it on the background of the one
/// after it.
pub open spec fn separator_look(
    own: Option<Seq<char>>,
    own_fallback: ColorName,
    next: Option<Seq<char>>,
    next_fallback: ColorName,
) -> Look {
    Look {
        text: match own {
            Some(c) => ink_of(c),
            None => Ink::Named(own_fallback),
        },
        background: match next {
            Some(c) => ink_of(c),
            None => Ink::Named(next_fallback),
        },
        ..plain_look()
    }
}

/// The look of the separator after the last segment, whose background
/// setting is `own`.
pub open spec fn closing_look(own: Option<Seq<char>>, own_fallback: ColorName) -> Look {
    Look {
        text: match own {
            Some(c) => ink_of(c),
            None => Ink::Named(own_fallback),
        },
        ..plain_look()
    }
}

/// The look of the prompt's arrow: the colour set for success after a status
/// of 0 and the one set for failure after any other, bright green and bright
/// red where none is set.
pub open spec fn arrow_look(colors: ColorsView, status: int) -> Look {
    Look {
        text: if status == 0 {
            match colors.arrow_success {
                Some(c) => ink_of(c),
                None => Ink::Named(ColorName::BrightGreen),
            }
        } else {
            match colors.arrow_error {
                Some(c) => ink_of(c),
                None => Ink::Named(ColorName::BrightRed),
            }
        },
        ..plain_look()
    }
}

/// The text of a segment: `inner` with a space on either side.
pub open spec fn padded(inner: Seq<char>) -> Seq<char> {
    seq![' '] + inner + seq![' ']
}

/// The built-in prompt: a line of segments for the system, the user and
/// host, the directory and, inside a repository, its state; then the arrow
/// on a line of its own.
pub open spec fn prompt_spec(
    colors: ColorsView,
    status: int,
    icon: Seq<char>,
    user_host: Seq<char>,
    dir: Seq<char>,
    git: Option<Seq<char>>,
) -> Seq<SpanView> {
    let sep = seq!['\u{e0b0}'];
    let frame = Look { text: Ink::Named(ColorName::BrightBlack), ..plain_look() };
    let head = seq![
        SpanView { text: seq!['\u{256d}', '\u{2500}'], look: frame },
        SpanView { text: seq![' '], look: plain_look() },
        SpanView {
            text: padded(icon),
            look: segment_look(colors.distro_text, colors.distro_bg, ColorName::BrightYellow),
        },
        SpanView {
            text: sep,
            look: separator_look(
                colors.distro_bg,
                ColorName::BrightYellow,
                colors.user_host_bg,
                ColorName::White,
            ),
        },
        SpanView {
            text: padded(user_host),
            look: segment_look(colors.user_host_text, colors.user_host_bg, ColorName::White),
        },
        SpanView {
            text: sep,
            look: separator_look(
                colors.user_host_bg,
                ColorName::White,
                colors.dir_bg,
                ColorName::BrightCyan,
            ),
        },
        SpanView {
            text: padded(dir),
            look: segment_look(colors.dir_text, colors.dir_bg, ColorName::BrightCyan),
        },
    ];
    let middle = match git {
        Some(g) => seq![
            SpanView {
                text: sep,
                look: separator_look(
                    colors.dir_bg,
                    ColorName::BrightCyan,
                    colors.git_bg,
                    ColorName::BrightMagenta,
                ),
            },
            SpanView {
                text: padded(g),
                look: segment_look(colors.git_text, colors.git_bg, ColorName::BrightMagenta),
            },
            SpanView { text: sep, look: closing_look(colors.git_bg, ColorName::BrightMagenta) },
        ],
        None => seq![
            SpanView { text: sep, look: closing_look(colors.dir_bg, ColorName::BrightCyan) },
        ],
    };
    let tail = seq![
        SpanView { text: seq!['\n'], look: plain_look() },
        SpanView { text: seq!['\u{2570}', '\u{2500}'], look: frame },
        SpanView { text: seq!['\u{276f}'], look: arrow_look(colors, status) },
        SpanView { text: seq![' '], look: plain_look() },
    ];
    head + middle + tail
}

/// The colour of a setting that may be missing, or a named colour in its
/// place.
fn ink_or(color: &Option<String>, fallback: ColorName) -> (ink: Ink)
    ensures
        ink == match optional_text(*color) {
            Some(c) => ink_of(c),
            None => Ink::Named(fallback),
        },
{
    match color {
        Some(c) => apply_color(c.as_str()),
        None => Ink::Named(fallback),
    }
}

/// The look of a segment.
fn look_of_segment(text: &Option<String>, background: &Option<String>, fallback: ColorName) -> (look:
    Look)
    ensures
        look == segment_look(optional_text(*text), optional_text(*background), fallback),
{
    match background {
        Some(bg) => Look {
            text: match text {
                Some(t) => apply_color(t.as_str()),
                None => Ink::Default,
            },
            background: apply_color(bg.as_str()),
            bold: false,
            dimmed: false,
        },
        None => Look {
            text: Ink::Named(ColorName::Black),
            background: Ink::Named(fallback),
            bold: false,
            dimmed: false,
        },
    }
}

/// A span of the given characters.
fn span_of(a: char, b: Option<char>, look: Look) -> (span: Span)
    ensures
        span@ == (SpanView {
            text: match b {
                Some(second) => seq![a, second],
                None => seq![a],
            },
            look,
        }),
{
    let mut text = String::new();
    push_char(&mut text, a);
    match b {
        Some(second) => {
            push_char(&mut text, second);
            assert(text@ =~= seq![a, second]);
        },
        None => {
            assert(text@ =~= seq![a]);
        },
    }
    Span { text, look }
}

/// A segment: `inner` with a space on either side, and its look.
fn segment(inner: &str, look: Look) -> (span: Span)
    ensures
        span@ == (SpanView { text: padded(inner@), look }),
{
    let mut text = String::new();
    push_char(&mut text, ' ');
    text.append(inner);
    push_char(&mut text, ' ');
    assert(text@ =~= padded(inner@));
    Span { text, look }
}

/// Builds the built-in prompt from the colour settings, the status of the
/// last line, the icon of the system, the user and host, the directory, and
/// the state of the repository where there is one.
pub fn prompt(
    colors: &PromptColors,
    last_status: i32,
    icon: &str,
    user_host: &str,
    dir: &str,
    git: Option<&str>,
) -> (spans: Vec<Span>)
    ensures
        span_views(spans@) == prompt_spec(
            colors@,
            last_status as int,
            icon@,
            user_host@,
            dir@,
            match git {
                Some(g) => Some(g@),
                None => None,
            },
        ),
{
    let sep = '\u{e0b0}';
    let frame = Look {
        text: Ink::Named(ColorName::BrightBlack),
        background: Ink::Default,
        bold: false,
        dimmed: false,
    };
    let mut spans: Vec<Span> = Vec::new();
    spans.push(span_of('\u{256d}', Some('\u{2500}'), frame));
    spans.push(span_of(' ', None, plain()));
    spans.push(
        segment(
            icon,
            look_of_segment(&colors.distro_text, &colors.distro_bg, ColorName::BrightYellow),
        ),
    );
    spans.push(
        span_of(
            sep,
            None,
            Look {
                text: ink_or(&colors.distro_bg, ColorName::BrightYellow),
                background: ink_or(&colors.user_host_bg, ColorName::White),
                bold: false,
                dimmed: false,
            },
        ),
    );
    spans.push(
        segment(
            user_host,
            look_of_segment(&colors.user_host_text, &colors.user_host_bg, ColorName::White),
        ),
    );
    spans.push(
        span_of(
            sep,
            None,
            Look {
                text: ink_or(&colors.user_host_bg, ColorName::White),
                background: ink_or(&colors.dir_bg, ColorName::BrightCyan),
                bold: false,
                dimmed: false,
            },
        ),
    );
    spans.push(
        segment(dir, look_of_segment(&colors.dir_text, &colors.dir_bg, ColorName::BrightCyan)),
    );
    match git {
        Some(g) => {
            spans.push(
                span_of(
                    sep,
                    None,
                    Look {
                        text: ink_or(&colors.dir_bg, ColorName::BrightCyan),
                        background: ink_or(&colors.git_bg, ColorName::BrightMagenta),
                        bold: false,
                        dimmed: false,
                    },
                ),
            );
            spans.push(
                segment(
                    g,
                    look_of_segment(&colors.git_text, &colors.git_bg, ColorName::BrightMagenta),
                ),
            );
            spans.push(
                span_of(
                    sep,
                    None,
                    Look {
                        text: ink_or(&colors.git_bg, ColorName::BrightMagenta),
                        background: Ink::Default,
                        bold: false,
                        dimmed: false,
                    },
                ),
            );
        },
        None => {
            spans.push(
                span_of(
                    sep,
                    None,
                    Look {
                        text: ink_or(&colors.dir_bg, ColorName::BrightCyan),
                        background: Ink::Default,
                        bold: false,
                        dimmed: false,
                    },
                ),
            );
        },
    }
    spans.push(span_of('\n', None, plain()));
    spans.push(span_of('\u{2570}', Some('\u{2500}'), frame));
    let arrow = if last_status == 0 {
        ink_or(&colors.arrow_success, ColorName::BrightGreen)
    } else {
        ink_or(&colors.arrow_error, ColorName::BrightRed)
    };
    spans.push(
        span_of(
            '\u{276f}',
            None,
            Look { text: arrow, background: Ink::Default, bold: false, dimmed: false },
        ),
    );
    spans.push(span_of(' ', None, plain()));
    assert(span_views(spans@) =~= prompt_spec(
        colors@,
        last_status as int,
        icon@,
        user_host@,
        dir@,
        match git {
            Some(g) => Some(g@),
            None => None,
        },
    ));
    spans
}

/// `s` from position `i` on, after `out`, with each `%` that is followed by
/// `letter` replaced, together with the letter, by `with`.
pub open spec fn fill_from(s: Seq<char>, letter: char, with: Seq<char>, i: int, out: Seq<char>) -> Seq<
    char,
>
    decreases s.len() - i,
{
    if i < 0 || i >= s.len() {
        out
    } else if s[i] == '%' && i + 1 < s.len() && s[i + 1] == letter {
        fill_from(s, letter, with, i + 2, out + with)
    } else {
        fill_from(s, letter, with, i + 1, out.push(s[i]))
    }
}

/// `s` with each `%` and `letter` replaced by `with`.
pub open spec fn filled(s: Seq<char>, letter: char, with: Seq<char>) -> Seq<char> {
    fill_from(s, letter, with, 0, Seq::empty())
}

/// The mark that shows the status of the last line in a prompt format.
pub open spec fn status_mark(status: int) -> Seq<char> {
    if status == 0 {
        seq!['\u{2713}']
    } else {
        seq!['\u{2717}']
    }
}

/// The prompt for the format `format`: `%u` gives the user, `%h` the host,
/// `%d` the directory and `%s` the mark of the last status, filled in in
/// this order, each in what the ones before it left.
pub open spec fn format_prompt(
    format: Seq<char>,
    user: Seq<char>,
    host: Seq<char>,
    dir: Seq<char>,
    status: int,
) -> Seq<char> {
    filled(filled(filled(filled(format, 'u', user), 'h', host), 'd', dir), 's', status_mark(status))
}

/// `s` with each `%` and `letter` replaced by `with`.
pub fn fill(s: &str, letter: char, with: &str) -> (out: String)
    ensures
        out@ == filled(s@, letter, with@),
{
    let chars = chars_of(s);
    let mut out = String::new();
    let mut i: usize = 0;
    while i < chars.len()
        invariant
            i <= chars.len(),
            chars@ == s@,
            filled(s@, letter, with@) == fill_from(chars@, letter, with@, i as int, out@),
        decreases chars.len() - i,
    {
        if chars[i] == '%' && i + 1 < chars.len() && chars[i + 1] == letter {
            out.append(with);
            i += 2;
        } else {
            push_char(&mut out, chars[i]);
            i += 1;
        }
    }
    out
}

/// Fills in a prompt format.
pub fn generate_prompt(format: &str, user: &str, host: &str, dir: &str, last_status: i32) -> (text:
    String)
    ensures
        text@ == format_prompt(format@, user@, host@, dir@, last_status as int),
{
    let mut mark = String::new();
    if last_status == 0 {
        push_char(&mut mark, '\u{2713}');
    } else {
        push_char(&mut mark, '\u{2717}');
    }
    assert(mark@ =~= status_mark(last_status as int));
    let a = fill(format, 'u', user);
    let b = fill(a.as_str(), 'h', host);
    let c = fill(b.as_str(), 'd', dir);
    fill(c.as_str(), 's', mark.as_str())
}

/// The command that a line of the settings file is, where it is one: blank
/// lines and comment lines are none, nor are settings, which hold a `=` and
/// no space, nor lines that start with `autostart ` or `autostart=`.
pub open spec fn startup_command_spec(line: Seq<char>) -> Option<Seq<char>> {
    let t = trim(line);
    if t.len() == 0 || t[0] == '#' {
        None
    } else if t.contains('=') && !t.contains(' ') {
        None
    } else if starts_with(t, "autostart "@) || starts_with(t, "autostart="@) {
        None
    } else {
        Some(t)
    }
}

/// The command that a line of the settings file is, where it is one.
pub fn startup_command(line: &str) -> (r: Option<String>)
    ensures
        match r {
            Some(c) => startup_command_spec(line@) == Some(c@),
            None => startup_command_spec(line@) is None,
        },
{
    let t = trim_text(line);
    let chars = chars_of(t.as_str());
    if chars.len() == 0 || chars[0] == '#' {
        return None;
    }
    let mut equals = false;
    let mut space = false;
    let mut i: usize = 0;
    while i < chars.len()
        invariant
            i <= chars.len(),
            equals == exists|j: int| 0 <= j < i && chars@[j] == '=',
            space == exists|j: int| 0 <= j < i && chars@[j] == ' ',
        decreases chars.len() - i,
    {
        if chars[i] == '=' {
            equals = true;
        }
        if chars[i] == ' ' {
            space = true;
        }
        i += 1;
    }
    proof {
        if chars@.contains('=') {
            let j = choose|j: int| 0 <= j < chars@.len() && chars@[j] == '=';
            assert(chars@[j] == '=');
        }
        if chars@.contains(' ') {
            let j = choose|j: int| 0 <= j < chars@.len() && chars@[j] == ' ';
            assert(chars@[j] == ' ');
        }
        if equals {
            let j = choose|j: int| 0 <= j < i && chars@[j] == '=';
            assert(chars@.contains(chars@[j]));
        }
        if space {
            let j = choose|j: int| 0 <= j < i && chars@[j] == ' ';
            assert(chars@.contains(chars@[j]));
        }
        assert(chars@.skip(0) =~= chars@);
    }
    if equals && !space {
        return None;
    }
    if has_prefix_at(&chars, 0, "autostart ") || has_prefix_at(&chars, 0, "autostart=") {
        return None;
    }
    Some(t)
}

/// Whether a line goes into the history: a line that is the same as the
/// newest entry, white space at the ends of the entry set aside, does not.
pub open spec fn recorded(newest: Option<Seq<char>>, line: Seq<char>) -> bool {
    match newest {
        Some(entry) => trim(entry) != line,
        None => true,
    }
}

/// Whether a line goes into the history, given its newest entry.
pub fn should_record(newest: Option<&str>, line: &str) -> (record: bool)
    ensures
        record == recorded(
            match newest {
                Some(entry) => Some(entry@),
                None => None,
            },
            line@,
        ),
{
    match newest {
        Some(entry) => {
            let t = trim_text(entry);
            !same_text(t.as_str(), line)
        },
        None => true,
    }
}

/// The icon of the system with the id `lowered`, which is in small letters.
pub open spec fn icon_of(lowered: Seq<char>) -> char {
    if lowered == "arch"@ || lowered == "archlinux"@ {
        '\u{f303}'
    } else if lowered == "ubuntu"@ {
        '\u{f31b}'
    } else if lowered == "debian"@ {
        '\u{e77d}'
    } else if lowered == "fedora"@ {
        '\u{f31a}'
    } else if lowered == "centos"@ {
        '\u{f304}'
    } else if lowered == "gentoo"@ {
        '\u{f30d}'
    } else if lowered == "nixos"@ {
        '\u{f313}'
    } else if lowered == "alpine"@ {
        '\u{f300}'
    } else if lowered == "manjaro"@ {
        '\u{f312}'
    } else if lowered == "opensuse"@ || lowered == "suse"@ {
        '\u{f314}'
    } else if lowered == "mint"@ || lowered == "linuxmint"@ {
        '\u{f30e}'
    } else if lowered == "pop"@ {
        '\u{f32a}'
    } else if lowered == "kali"@ {
        '\u{f327}'
    } else if lowered == "elementary"@ {
        '\u{f309}'
    } else if lowered == "void"@ {
        '\u{f32e}'
    } else if lowered == "raspbian"@ {
        '\u{f315}'
    } else if lowered == "redhat"@ || lowered == "rhel"@ {
        '\u{f316}'
    } else if lowered == "slackware"@ {
        '\u{f318}'
    } else {
        '\u{f17c}'
    }
}

/// The icon of the system with the id `lowered`, which is in small letters;
/// the icon of a penguin for a system that is not known.
pub fn icon_for(lowered: &str) -> (icon: char)
    ensures
        icon == icon_of(lowered@),
{
    if same_text(lowered, "arch") || same_text(lowered, "archlinux") {
        '\u{f303}'
    } else if same_text(lowered, "ubuntu") {
        '\u{f31b}'
    } else if same_text(lowered, "debian") {
        '\u{e77d}'
    } else if same_text(lowered, "fedora") {
        '\u{f31a}'
    } else if same_text(lowered, "centos") {
        '\u{f304}'
    } else if same_text(lowered, "gentoo") {
        '\u{f30d}'
    } else if same_text(lowered, "nixos") {
        '\u{f313}'
    } else if same_text(lowered, "alpine") {
        '\u{f300}'
    } else if same_text(lowered, "manjaro") {
        '\u{f312}'
    } else if same_text(lowered, "opensuse") || same_text(lowered, "suse") {
        '\u{f314}'
    } else if same_text(lowered, "mint") || same_text(lowered, "linuxmint") {
        '\u{f30e}'
    } else if same_text(lowered, "pop") {
        '\u{f32a}'
    } else if same_text(lowered, "kali") {
        '\u{f327}'
    } else if same_text(lowered, "elementary") {
        '\u{f309}'
    } else if same_text(lowered, "void") {
        '\u{f32e}'
    } else if same_text(lowered, "raspbian") {
        '\u{f315}'
    } else if same_text(lowered, "redhat") || same_text(lowered, "rhel") {
        '\u{f316}'
    } else if same_text(lowered, "slackware") {
        '\u{f318}'
    } else {
        '\u{f17c}'
    }
}

/// The number of double quotes at the start of `s`.
pub open spec fn quotes_at_start(s: Seq<char>) -> nat
    decreases s.len(),
{
    if s.len() > 0 && s.first() == '"' {
        1 + quotes_at_start(s.drop_first())
    } else {
        0
    }
}

/// The length of `s` without the double quotes at its end.
pub open spec fn length_without_quotes(s: Seq<char>) -> nat
    decreases s.len(),
{
    if s.len() > 0 && s.last() == '"' {
        length_without_quotes(s.drop_last())
    } else {
        s.len()
    }
}

/// `s` without the double quotes at its start and at its end.
pub open spec fn unquoted(s: Seq<char>) -> Seq<char> {
    let start = quotes_at_start(s) as int;
    let end = length_without_quotes(s) as int;
    if start >= end {
        Seq::empty()
    } else {
        s.subrange(start, end)
    }
}

/// The id of the system that the lines of the system's description give,
/// looked for among the lines from `i` on: what follows `ID=` in the first
/// line that starts with it, every `ID=` at its start and the double quotes
/// at its ends set aside.
pub open spec fn system_id_from(lines: Seq<Seq<char>>, i: int) -> Option<Seq<char>>
    decreases lines.len() - i,
{
    if i < 0 || i >= lines.len() {
        None
    } else if starts_with(lines[i], "ID="@) {
        Some(unquoted(crate::shell_config::strip_all(lines[i], "ID="@)))
    } else {
        system_id_from(lines, i + 1)
    }
}

/// The id of the system that its description gives.
pub open spec fn system_id_spec(description: Seq<char>) -> Option<Seq<char>> {
    system_id_from(lines_spec(description), 0)
}

/// Finds the id of the system in its description, the contents of
/// `/etc/os-release`.
pub fn system_id(description: &str) -> (id: Option<String>)
    ensures
        match id {
            Some(text) => system_id_spec(description@) == Some(text@),
            None => system_id_spec(description@) is None,
        },
{
    let lines = lines_of(description);
    let mut i: usize = 0;
    while i < lines.len()
        invariant
            i <= lines.len(),
            texts(lines@) == lines_spec(description@),
            system_id_spec(description@) == system_id_from(texts(lines@), i as int),
        decreases lines.len() - i,
    {
        assert(texts(lines@)[i as int] == lines@[i as int]@);
        let chars = chars_of(lines[i].as_str());
        assert(chars@.skip(0) =~= chars@);
        if has_prefix_at(&chars, 0, "ID=") {
            let rest = chars_of(crate::shell_config::strip_prefixes(&chars, "ID=").as_str());
            let mut start: usize = 0;
            assert(rest@.skip(0) =~= rest@);
            while start < rest.len() && rest[start] == '"'
                invariant
                    start <= rest.len(),
                    quotes_at_start(rest@) == start + quotes_at_start(rest@.skip(start as int)),
                decreases rest.len() - start,
            {
                assert(rest@.skip(start as int).drop_first() =~= rest@.skip(start + 1));
                start += 1;
            }
            let mut end: usize = rest.len();
            assert(rest@.take(end as int) =~= rest@);
            while end > 0 && rest[end - 1] == '"'
                invariant
                    end <= rest.len(),
                    length_without_quotes(rest@) == length_without_quotes(rest@.take(end as int)),
                decreases end,
            {
                assert(rest@.take(end as int).drop_last() =~= rest@.take(end - 1));
                end -= 1;
            }
            if start >= end {
                return Some(String::new());
            }
            return Some(string_of(&rest, start, end));
        }
        i += 1;
    }
    None
}

/// The label of a repository in the prompt: its icon, the name of the
/// branch or revision, and a star where something is changed.
pub open spec fn git_label_spec(name: Seq<char>, dirty: bool) -> Seq<char> {
    seq!['\u{e725}', ' '] + name + if dirty {
        seq!['*']
    } else {
        Seq::empty()
    }
}

/// The label of a repository in the prompt.
pub fn git_segment(name: &str, dirty: bool) -> (label: String)
    ensures
        label@ == git_label_spec(name@, dirty),
{
    let mut label = String::new();
    push_char(&mut label, '\u{e725}');
    push_char(&mut label, ' ');
    label.append(name);
    if dirty {
        push_char(&mut label, '*');
    }
    assert(label@ =~= git_label_spec(name@, dirty));
    label
}

/// The icon of the system that its description gives: that of its id in
/// small letters, and the penguin where the description gives no id.
pub open spec fn distro_icon_spec(description: Seq<char>) -> char {
    match system_id_spec(description) {
        Some(id) => icon_of(lowercase(id)),
        None => '\u{f17c}',
    }
}

/// The icon of the system, given its description.
pub fn get_distro_icon(description: &str) -> (icon: char)
    ensures
        icon == distro_icon_spec(description@),
{
    match system_id(description) {
        Some(id) => {
            let lowered = to_lowercase(id.as_str());
            icon_for(lowered.as_str())
        },
        None => '\u{f17c}',
    }
}

} // verus!
