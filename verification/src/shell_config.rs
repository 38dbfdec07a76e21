//! The interpreter's settings and the lines of the settings file.

use vstd::prelude::*;
use vstd::string::*;

use crate::expand::{find_char, span_until};
use crate::numbers::{parse_u64, parse_unsigned};
use crate::text::{
    chars_of, has_prefix_at, same_text, starts_with, string_of, texts, trim, trim_text,
};

verus! {

/// The colours of the prompt's segments; `None` leaves a colour at its
/// built-in value.
#[derive(Debug, PartialEq, Eq)]
pub struct PromptColors {
    /// The text colour of the distribution icon.
    pub distro_text: Option<String>,
    /// The background colour of the distribution icon.
    pub distro_bg: Option<String>,
    /// The text colour of the user and host segment.
    pub user_host_text: Option<String>,
    /// The background colour of the user and host segment.
    pub user_host_bg: Option<String>,
    /// The text colour of the directory segment.
    pub dir_text: Option<String>,
    /// The background colour of the directory segment.
    pub dir_bg: Option<String>,
    /// The text colour of the git segment.
    pub git_text: Option<String>,
    /// The background colour of the git segment.
    pub git_bg: Option<String>,
    /// The colour of the prompt arrow after a status of 0.
    pub arrow_success: Option<String>,
    /// The colour of the prompt arrow after any other status.
    pub arrow_error: Option<String>,
}

/// The mathematical value of [`PromptColors`].
pub ghost struct ColorsView {
    pub distro_text: Option<Seq<char>>,
    pub distro_bg: Option<Seq<char>>,
    pub user_host_text: Option<Seq<char>>,
    pub user_host_bg: Option<Seq<char>>,
    pub dir_text: Option<Seq<char>>,
    pub dir_bg: Option<Seq<char>>,
    pub git_text: Option<Seq<char>>,
    pub git_bg: Option<Seq<char>>,
    pub arrow_success: Option<Seq<char>>,
    pub arrow_error: Option<Seq<char>>,
}

/// The view of a text that may be missing.
pub open spec fn optional_text(s: Option<String>) -> Option<Seq<char>> {
    match s {
        Some(t) => Some(t@),
        None => None,
    }
}

impl View for PromptColors {
    type V = ColorsView;

    open spec fn view(&self) -> ColorsView {
        ColorsView {
            distro_text: optional_text(self.distro_text),
            distro_bg: optional_text(self.distro_bg),
            user_host_text: optional_text(self.user_host_text),
            user_host_bg: optional_text(self.user_host_bg),
            dir_text: optional_text(self.dir_text),
            dir_bg: optional_text(self.dir_bg),
            git_text: optional_text(self.git_text),
            git_bg: optional_text(self.git_bg),
            arrow_success: optional_text(self.arrow_success),
            arrow_error: optional_text(self.arrow_error),
        }
    }
}

impl ColorsView {
    /// The colours with none of them set.
    pub open spec fn unset() -> ColorsView {
        ColorsView {
            distro_text: None,
            distro_bg: None,
            user_host_text: None,
            user_host_bg: None,
            dir_text: None,
            dir_bg: None,
            git_text: None,
            git_bg: None,
            arrow_success: None,
            arrow_error: None,
        }
    }

    /// Whether `key` is the key of one of the colours.
    pub open spec fn has_key(key: Seq<char>) -> bool {
        ||| key == "prompt.distro_text"@
        ||| key == "prompt.distro_bg"@
        ||| key == "prompt.user_host_text"@
        ||| key == "prompt.user_host_bg"@
        ||| key == "prompt.dir_text"@
        ||| key == "prompt.dir_bg"@
        ||| key == "prompt.git_text"@
        ||| key == "prompt.git_bg"@
        ||| key == "prompt.arrow_success"@
        ||| key == "prompt.arrow_error"@
    }

    /// The colours after the colour with the key `key` was set to `value`.
    pub open spec fn with(self, key: Seq<char>, value: Seq<char>) -> ColorsView {
        if key == "prompt.distro_text"@ {
            ColorsView { distro_text: Some(value), ..self }
        } else if key == "prompt.distro_bg"@ {
            ColorsView { distro_bg: Some(value), ..self }
        } else if key == "prompt.user_host_text"@ {
            ColorsView { user_host_text: Some(value), ..self }
        } else if key == "prompt.user_host_bg"@ {
            ColorsView { user_host_bg: Some(value), ..self }
        } else if key == "prompt.dir_text"@ {
            ColorsView { dir_text: Some(value), ..self }
        } else if key == "prompt.dir_bg"@ {
            ColorsView { dir_bg: Some(value), ..self }
        } else if key == "prompt.git_text"@ {
            ColorsView { git_text: Some(value), ..self }
        } else if key == "prompt.git_bg"@ {
            ColorsView { git_bg: Some(value), ..self }
        } else if key == "prompt.arrow_success"@ {
            ColorsView { arrow_success: Some(value), ..self }
        } else if key == "prompt.arrow_error"@ {
            ColorsView { arrow_error: Some(value), ..self }
        } else {
            self
        }
    }
}

impl Default for PromptColors {
    /// No colour is set.
    fn default() -> (colors: PromptColors)
        ensures
            colors@ == ColorsView::unset(),
    {
        PromptColors {
            distro_text: None,
            distro_bg: None,
            user_host_text: None,
            user_host_bg: None,
            dir_text: None,
            dir_bg: None,
            git_text: None,
            git_bg: None,
            arrow_success: None,
            arrow_error: None,
        }
    }
}

impl PromptColors {
    /// Sets the colour with the key `key` to `value`. Says whether `key` is
    /// the key of a colour; any other key changes nothing.
    pub fn set(&mut self, key: &str, value: String) -> (known: bool)
        ensures
            known == ColorsView::has_key(key@),
            final(self)@ == old(self)@.with(key@, value@),
    {
        if same_text(key, "prompt.distro_text") {
            self.distro_text = Some(value);
            true
        } else if same_text(key, "prompt.distro_bg") {
            self.distro_bg = Some(value);
            true
        } else if same_text(key, "prompt.user_host_text") {
            self.user_host_text = Some(value);
            true
        } else if same_text(key, "prompt.user_host_bg") {
            self.user_host_bg = Some(value);
            true
        } else if same_text(key, "prompt.dir_text") {
            self.dir_text = Some(value);
            true
        } else if same_text(key, "prompt.dir_bg") {
            self.dir_bg = Some(value);
            true
        } else if same_text(key, "prompt.git_text") {
            self.git_text = Some(value);
            true
        } else if same_text(key, "prompt.git_bg") {
            self.git_bg = Some(value);
            true
        } else if same_text(key, "prompt.arrow_success") {
            self.arrow_success = Some(value);
            true
        } else if same_text(key, "prompt.arrow_error") {
            self.arrow_error = Some(value);
            true
        } else {
            false
        }
    }
}

/// The interpreter's settings.
#[derive(Debug, PartialEq, Eq)]
pub struct ShellConfig {
    /// The prompt's format, where the built-in prompt is not wanted.
    pub prompt_format: Option<String>,
    /// Whether the time that a line took is shown.
    pub show_timing: bool,
    /// The time in milliseconds from which on it is shown; 0 shows it always.
    pub timing_threshold_ms: u64,
    /// Whether output is decorated.
    pub fancy_mode: bool,
    /// The colours of the prompt.
    pub prompt_colors: PromptColors,
    /// The lines to run when the interpreter starts.
    pub autostart: Vec<String>,
}

/// The mathematical value of a [`ShellConfig`].
pub ghost struct ConfigView {
    pub prompt_format: Option<Seq<char>>,
    pub show_timing: bool,
    pub timing_threshold_ms: u64,
    pub fancy_mode: bool,
    pub prompt_colors: ColorsView,
    pub autostart: Seq<Seq<char>>,
}

impl View for ShellConfig {
    type V = ConfigView;

    open spec fn view(&self) -> ConfigView {
        ConfigView {
            prompt_format: optional_text(self.prompt_format),
            show_timing: self.show_timing,
            timing_threshold_ms: self.timing_threshold_ms,
            fancy_mode: self.fancy_mode,
            prompt_colors: self.prompt_colors@,
            autostart: texts(self.autostart@),
        }
    }
}

/// The truth value that `s` spells: `true` or `false`, and nothing else.
pub open spec fn parse_bool(s: Seq<char>) -> Option<bool> {
    if s == "true"@ {
        Some(true)
    } else if s == "false"@ {
        Some(false)
    } else {
        None
    }
}

/// `s` without every copy of `prefix` at its start.
pub open spec fn strip_all(s: Seq<char>, prefix: Seq<char>) -> Seq<char>
    decreases s.len(),
{
    if prefix.len() > 0 && starts_with(s, prefix) {
        strip_all(s.skip(prefix.len() as int), prefix)
    } else {
        s
    }
}

impl ConfigView {
    /// The settings before any line of the settings file is read.
    pub open spec fn initial() -> ConfigView {
        ConfigView {
            prompt_format: None,
            show_timing: true,
            timing_threshold_ms: 50,
            fancy_mode: true,
            prompt_colors: ColorsView::unset(),
            autostart: Seq::empty(),
        }
    }

    /// The settings after the setting `key` was given the value `value`. A
    /// truth value that cannot be read counts as `true`, a threshold that
    /// cannot be read as 100. An unknown key changes nothing.
    pub open spec fn with_setting(self, key: Seq<char>, value: Seq<char>) -> ConfigView {
        if key == "prompt"@ {
            ConfigView { prompt_format: Some(value), ..self }
        } else if key == "show_timing"@ {
            ConfigView {
                show_timing: match parse_bool(value) {
                    Some(b) => b,
                    None => true,
                },
                ..self
            }
        } else if key == "timing_threshold_ms"@ {
            ConfigView {
                timing_threshold_ms: match parse_unsigned(value, u64::MAX as nat) {
                    Some(n) => n as u64,
                    None => 100,
                },
                ..self
            }
        } else if key == "fancy_mode"@ {
            ConfigView {
                fancy_mode: match parse_bool(value) {
                    Some(b) => b,
                    None => true,
                },
                ..self
            }
        } else if ColorsView::has_key(key) {
            ConfigView { prompt_colors: self.prompt_colors.with(key, value), ..self }
        } else if key == "autostart"@ {
            ConfigView { autostart: self.autostart.push(value), ..self }
        } else {
            self
        }
    }

    /// The settings after one line of the settings file was read. Blank lines
    /// and lines that start with `#` change nothing. A line with a `=` sets
    /// the key before the first `=` to the value after it, both without
    /// white space at their ends. A line without a `=` that starts with
    /// `autostart ` adds what follows to the lines to run at the start,
    /// unless nothing follows.
    pub open spec fn with_line(self, line: Seq<char>) -> ConfigView {
        let t = trim(line);
        let eq = span_until(t, 0, '=') as int;
        if t.len() == 0 || t[0] == '#' {
            self
        } else if eq < t.len() {
            self.with_setting(trim(t.take(eq)), trim(t.skip(eq + 1)))
        } else if starts_with(t, "autostart "@) {
            let command = trim(strip_all(t, "autostart "@));
            if command.len() > 0 {
                ConfigView { autostart: self.autostart.push(command), ..self }
            } else {
                self
            }
        } else {
            self
        }
    }
}

impl Default for ShellConfig {
    /// The settings before any line of the settings file is read: timing is
    /// shown from 50 milliseconds on, output is decorated.
    fn default() -> (config: ShellConfig)
        ensures
            config@ == ConfigView::initial(),
    {
        let config = ShellConfig {
            prompt_format: None,
            show_timing: true,
            timing_threshold_ms: 50,
            fancy_mode: true,
            prompt_colors: PromptColors::default(),
            autostart: Vec::new(),
        };
        assert(texts(config.autostart@) =~= Seq::<Seq<char>>::empty());
        config
    }
}

/// Reads a truth value.
pub fn read_bool(text: &str) -> (r: Option<bool>)
    ensures
        r == parse_bool(text@),
{
    if same_text(text, "true") {
        Some(true)
    } else if same_text(text, "false") {
        Some(false)
    } else {
        None
    }
}

/// The characters of `chars` from the end of the last copy of `prefix` at
/// their start on.
pub fn strip_prefixes(chars: &Vec<char>, prefix: &str) -> (rest: String)
    ensures
        rest@ == strip_all(chars@, prefix@),
{
    let p = chars_of(prefix);
    let mut at: usize = 0;
    assert(chars@.skip(0) =~= chars@);
    if p.len() == 0 {
        assert(chars@.subrange(0, chars.len() as int) =~= chars@);
        return string_of(chars, 0, chars.len());
    }
    while has_prefix_at(chars, at, prefix)
        invariant
            at <= chars.len(),
            p@ == prefix@,
            p.len() > 0,
            strip_all(chars@, prefix@) == strip_all(chars@.skip(at as int), prefix@),
        decreases chars.len() - at,
    {
        assert(chars@.skip(at as int).skip(p.len() as int) =~= chars@.skip(at + p.len()));
        at += p.len();
    }
    assert(chars@.subrange(at as int, chars.len() as int) =~= chars@.skip(at as int));
    string_of(chars, at, chars.len())
}

impl ShellConfig {
    /// Gives the setting `key` the value `value`.
    pub fn apply_setting(&mut self, key: &str, value: String)
        ensures
            final(self)@ == old(self)@.with_setting(key@, value@),
    {
        if same_text(key, "prompt") {
            self.prompt_format = Some(value);
        } else if same_text(key, "show_timing") {
            self.show_timing = match read_bool(value.as_str()) {
                Some(b) => b,
                None => true,
            };
        } else if same_text(key, "timing_threshold_ms") {
            self.timing_threshold_ms = match parse_u64(value.as_str(), u64::MAX) {
                Some(n) => n,
                None => 100,
            };
        } else if same_text(key, "fancy_mode") {
            self.fancy_mode = match read_bool(value.as_str()) {
                Some(b) => b,
                None => true,
            };
        } else if same_text(key, "autostart") {
            proof {
                assert(!ColorsView::has_key(key@)) by {
                    reveal_strlit("autostart");
                    reveal_strlit("prompt.distro_text");
                    reveal_strlit("prompt.distro_bg");
                    reveal_strlit("prompt.user_host_text");
                    reveal_strlit("prompt.user_host_bg");
                    reveal_strlit("prompt.dir_text");
                    reveal_strlit("prompt.dir_bg");
                    reveal_strlit("prompt.git_text");
                    reveal_strlit("prompt.git_bg");
                    reveal_strlit("prompt.arrow_success");
                    reveal_strlit("prompt.arrow_error");
                    assert("autostart"@[0] == 'a');
                }
                assert(texts(self.autostart@.push(value)) =~= texts(self.autostart@).push(value@));
            }
            self.autostart.push(value);
        } else {
            let ghost before = self.prompt_colors@;
            let known = self.prompt_colors.set(key, value);
            proof {
                if !known {
                    assert(self.prompt_colors@ == before);
                }
            }
        }
    }

    /// Takes in one line of the settings file.
    pub fn apply_line(&mut self, line: &str)
        ensures
            final(self)@ == old(self)@.with_line(line@),
    {
        let trimmed = trim_text(line);
        let chars = chars_of(trimmed.as_str());
        if chars.len() == 0 || chars[0] == '#' {
            return ;
        }
        let eq = find_char(&chars, 0, '=');
        if eq < chars.len() {
            let raw_key = string_of(&chars, 0, eq);
            let raw_value = string_of(&chars, eq + 1, chars.len());
            proof {
                assert(chars@.subrange(0, eq as int) =~= chars@.take(eq as int));
                assert(chars@.subrange(eq + 1, chars.len() as int) =~= chars@.skip(eq + 1));
            }
            let key = trim_text(raw_key.as_str());
            let value = trim_text(raw_value.as_str());
            self.apply_setting(key.as_str(), value);
        } else {
            assert(chars@.skip(0) =~= chars@);
            if has_prefix_at(&chars, 0, "autostart ") {
                let rest = strip_prefixes(&chars, "autostart ");
                let command = trim_text(rest.as_str());
                if !command.as_str().is_empty() {
                    proof {
                        assert(texts(self.autostart@.push(command)) =~= texts(
                            self.autostart@,
                        ).push(command@));
                    }
                    self.autostart.push(command);
                }
            }
        }
    }
}

} // verus!
