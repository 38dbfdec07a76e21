//! How text is to look on the screen. The interpreter decides on the looks;
//! turning a look into colour codes is left to the caller.

use vstd::prelude::*;
use vstd::string::*;

use crate::numbers::is_digit;
use crate::text::chars_of;

verus! {

/// The sixteen colours that a terminal knows by name.
#[derive(Debug, PartialEq, Eq, Clone, Copy)]
pub enum ColorName {
    Black,
    Red,
    Green,
    Yellow,
    Blue,
    Magenta,
    Cyan,
    White,
    BrightBlack,
    BrightRed,
    BrightGreen,
    BrightYellow,
    BrightBlue,
    BrightMagenta,
    BrightCyan,
    BrightWhite,
}

/// A colour.
#[derive(Debug, PartialEq, Eq, Clone, Copy)]
pub enum Ink {
    /// The terminal's own colour.
    Default,
    /// A colour given by its red, green and blue parts.
    Rgb(u8, u8, u8),
    /// One of the named colours.
    Named(ColorName),
}

/// The look of a piece of text.
#[derive(Debug, PartialEq, Eq, Clone, Copy)]
pub struct Look {
    /// The colour of the text.
    pub text: Ink,
    /// The colour behind the text.
    pub background: Ink,
    /// Whether the text is bold.
    pub bold: bool,
    /// Whether the text is dimmed.
    pub dimmed: bool,
}

/// A piece of text with its look.
#[derive(Debug, PartialEq, Eq)]
pub struct Span {
    pub text: String,
    pub look: Look,
}

/// The mathematical value of a [`Span`].
pub ghost struct SpanView {
    pub text: Seq<char>,
    pub look: Look,
}

impl View for Span {
    type V = SpanView;

    open spec fn view(&self) -> SpanView {
        SpanView { text: self.text@, look: self.look }
    }
}

/// The values of the spans of `v`, in order.
pub open spec fn span_views(v: Seq<Span>) -> Seq<SpanView> {
    v.map_values(|s: Span| s@)
}

/// The look of text that is left as it is.
pub open spec fn plain_look() -> Look {
    Look { text: Ink::Default, background: Ink::Default, bold: false, dimmed: false }
}

/// The look of text in the given colour.
pub open spec fn rgb_look(r: u8, g: u8, b: u8) -> Look {
    Look { text: Ink::Rgb(r, g, b), ..plain_look() }
}

/// The look of bold text in the given colour.
pub open spec fn bold_rgb_look(r: u8, g: u8, b: u8) -> Look {
    Look { text: Ink::Rgb(r, g, b), bold: true, ..plain_look() }
}

/// The look of dimmed text.
pub open spec fn dim_look() -> Look {
    Look { dimmed: true, ..plain_look() }
}

/// The look of text in a named colour.
pub open spec fn named_look(name: ColorName) -> Look {
    Look { text: Ink::Named(name), ..plain_look() }
}

/// The look of text that is left as it is.
pub fn plain() -> (look: Look)
    ensures
        look == plain_look(),
{
    Look { text: Ink::Default, background: Ink::Default, bold: false, dimmed: false }
}

/// The look of text in the given colour.
pub fn rgb(r: u8, g: u8, b: u8) -> (look: Look)
    ensures
        look == rgb_look(r, g, b),
{
    Look { text: Ink::Rgb(r, g, b), background: Ink::Default, bold: false, dimmed: false }
}

/// The look of bold text in the given colour.
pub fn bold_rgb(r: u8, g: u8, b: u8) -> (look: Look)
    ensures
        look == bold_rgb_look(r, g, b),
{
    Look { text: Ink::Rgb(r, g, b), background: Ink::Default, bold: true, dimmed: false }
}

/// The look of dimmed text.
pub fn dim() -> (look: Look)
    ensures
        look == dim_look(),
{
    Look { text: Ink::Default, background: Ink::Default, bold: false, dimmed: true }
}

/// The look of text in a named colour.
pub fn named(name: ColorName) -> (look: Look)
    ensures
        look == named_look(name),
{
    Look { text: Ink::Named(name), background: Ink::Default, bold: false, dimmed: false }
}

/// The length of the run of digits of `s` that starts at `from`.
pub open spec fn span_digits(s: Seq<char>, from: int) -> nat
    decreases s.len() - from,
{
    if from < 0 || from >= s.len() || !is_digit(s[from]) {
        0
    } else {
        1 + span_digits(s, from + 1)
    }
}

/// The code point of `c`, or of its small letter where `c` is an ASCII
/// capital letter.
pub open spec fn lower_ascii(c: char) -> u32 {
    if 0x41 <= c as u32 <= 0x5A {
        ((c as u32) + 32) as u32
    } else {
        c as u32
    }
}

/// Whether `s` from `from` on is `word`, capital and small ASCII letters
/// taken as the same.
pub open spec fn is_word_at(s: Seq<char>, from: int, word: Seq<char>) -> bool {
    &&& s.len() - from == word.len()
    &&& forall|i: int|
        0 <= i < word.len() ==> lower_ascii(#[trigger] s[from + i]) == word[i] as u32
}

/// Whether `s` holds a sign at position `at`.
pub open spec fn sign_at(s: Seq<char>, at: int) -> bool {
    0 <= at < s.len() && (s[at] == '+' || s[at] == '-')
}

/// Whether `s` from `at` on is an exponent: `e` or `E`, an optional sign,
/// and one digit or more up to the end.
pub open spec fn is_exponent(s: Seq<char>, at: int) -> bool {
    let digits = if sign_at(s, at + 1) {
        at + 2
    } else {
        at + 1
    };
    &&& 0 <= at < s.len()
    &&& (s[at] == 'e' || s[at] == 'E')
    &&& span_digits(s, digits) >= 1
    &&& digits + span_digits(s, digits) == s.len()
}

/// Whether `s` from `from` on is a decimal number: digits with at most one
/// point among them, at least one digit in all, and an optional exponent.
pub open spec fn is_decimal_at(s: Seq<char>, from: int) -> bool {
    let whole = span_digits(s, from);
    let point = from + whole < s.len() && s[from + whole] == '.';
    let fraction = if point {
        span_digits(s, from + whole + 1)
    } else {
        0
    };
    let end = if point {
        from + whole + 1 + fraction
    } else {
        from + whole
    };
    whole + fraction >= 1 && (end == s.len() || is_exponent(s, end))
}

/// Whether `s` is the text of a number with or without a fraction: an
/// optional sign, then `inf`, `infinity` or `nan` in capital or small
/// letters, or a decimal number.
pub open spec fn is_number_text(s: Seq<char>) -> bool {
    let from: int = if sign_at(s, 0) {
        1
    } else {
        0
    };
    ||| is_word_at(s, from, "inf"@)
    ||| is_word_at(s, from, "infinity"@)
    ||| is_word_at(s, from, "nan"@)
    ||| is_decimal_at(s, from)
}

/// The position after the run of digits of `s` that starts at `from`.
fn skip_digits(s: &Vec<char>, from: usize) -> (at: usize)
    requires
        from <= s.len(),
    ensures
        at == from + span_digits(s@, from as int),
        from <= at <= s.len(),
{
    let mut j: usize = from;
    while j < s.len() && 0x30 <= (s[j] as u32) && (s[j] as u32) <= 0x39
        invariant
            from <= j <= s.len(),
            span_digits(s@, from as int) == (j - from) + span_digits(s@, j as int),
        decreases s.len() - j,
    {
        j += 1;
    }
    j
}

/// Whether `s` from `from` on is `word`, letters of either case alike.
fn word_at(s: &Vec<char>, from: usize, word: &str) -> (b: bool)
    requires
        from <= s.len(),
    ensures
        b == is_word_at(s@, from as int, word@),
{
    let w = chars_of(word);
    if s.len() - from != w.len() {
        return false;
    }
    let mut i: usize = 0;
    while i < w.len()
        invariant
            i <= w.len(),
            w@ == word@,
            s.len() - from == w.len(),
            forall|k: int| 0 <= k < i ==> lower_ascii(#[trigger] s@[from + k]) == w@[k] as u32,
        decreases w.len() - i,
    {
        let c = s[from + i];
        let code: u32 = c as u32;
        let lowered: u32 = if 0x41 <= code && code <= 0x5A {
            code + 32
        } else {
            code
        };
        if lowered != (w[i] as u32) {
            assert(lower_ascii(s@[from + i]) != word@[i as int] as u32);
            return false;
        }
        i += 1;
    }
    true
}

/// Whether `text` is the text of a number with or without a fraction.
pub fn is_number(text: &str) -> (b: bool)
    ensures
        b == is_number_text(text@),
{
    let s = chars_of(text);
    let from: usize = if s.len() > 0 && (s[0] == '+' || s[0] == '-') {
        1
    } else {
        0
    };
    if word_at(&s, from, "inf") || word_at(&s, from, "infinity") || word_at(&s, from, "nan") {
        return true;
    }
    let whole_end = skip_digits(&s, from);
    let point = whole_end < s.len() && s[whole_end] == '.';
    let end = if point {
        skip_digits(&s, whole_end + 1)
    } else {
        whole_end
    };
    let digits = if point {
        (whole_end - from) + (end - (whole_end + 1))
    } else {
        whole_end - from
    };
    if digits < 1 {
        return false;
    }
    if end == s.len() {
        return true;
    }
    if s[end] != 'e' && s[end] != 'E' {
        return false;
    }
    let start: usize = if end + 1 < s.len() && (s[end + 1] == '+' || s[end + 1] == '-') {
        end + 2
    } else {
        end + 1
    };
    let last = skip_digits(&s, start);
    last > start && last == s.len()
}

} // verus!
