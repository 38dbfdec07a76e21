use squish::formatter::{
    colorize_diagnostic_line, colorize_name, colorize_rust_token, diagnostic_kind,
    format_command_output, highlight_rust_line, highlight_shell_line, highlight_toml_line,
    lines_of, parse_ls_long_line, parse_ls_output, strip_ansi_codes, style_type, truncate_visual,
    visible_width, FileEntry, LineKind, OutputKind,
};
use squish::style::{bold_rgb, dim, named, plain, rgb, ColorName, Look, Span};

fn span(text: &str, look: Look) -> Span {
    Span { text: text.to_string(), look }
}

fn entry(name: &str, is_dir: bool, is_symlink: bool, size: Option<u64>) -> FileEntry {
    FileEntry { name: name.to_string(), is_dir, is_symlink, size }
}

fn strings(words: &[&str]) -> Vec<String> {
    words.iter().map(|w| w.to_string()).collect()
}

#[test]
fn strip_removes_colour_codes() {
    assert_eq!(strip_ansi_codes("\u{1b}[1;31mred\u{1b}[0m plain"), "red plain");
    assert_eq!(strip_ansi_codes("no codes"), "no codes");
    assert_eq!(strip_ansi_codes(""), "");
}

#[test]
fn strip_keeps_an_escape_that_starts_no_code() {
    assert_eq!(strip_ansi_codes("a\u{1b}b"), "a\u{1b}b");
    assert_eq!(strip_ansi_codes("a\u{1b}"), "a\u{1b}");
}

#[test]
fn strip_code_without_an_end_lasts_to_the_end() {
    assert_eq!(strip_ansi_codes("ab\u{1b}[12;34"), "ab");
    assert_eq!(strip_ansi_codes("ab\u{1b}["), "ab");
}

#[test]
fn width_does_not_count_codes() {
    assert_eq!(visible_width("\u{1b}[38;2;1;2;3mhé\u{1b}[0m"), 2);
    assert_eq!(visible_width(""), 0);
    assert_eq!(visible_width("abc"), 3);
}

#[test]
fn truncate_counts_what_shows() {
    assert_eq!(truncate_visual("hello", 3), "hel");
    assert_eq!(truncate_visual("hello", 9), "hello");
    assert_eq!(truncate_visual("hello", 0), "");
    assert_eq!(truncate_visual("\u{1b}[1mhello\u{1b}[0m", 2), "\u{1b}[1mhe");
    assert_eq!(truncate_visual("he\u{1b}[0mllo", 2), "he\u{1b}[0m");
    assert_eq!(truncate_visual("\u{1b}[1m", 0), "\u{1b}[1m");
}

#[test]
fn truncate_takes_a_code_to_end_with_a_letter_even_without_bracket() {
    assert_eq!(truncate_visual("\u{1b}12xab", 1), "\u{1b}12xa");
}

#[test]
fn lines_split_at_line_feeds() {
    assert_eq!(lines_of("a\nb\r\nc"), strings(&["a", "b", "c"]));
    assert_eq!(lines_of("a\n"), strings(&["a"]));
    assert_eq!(lines_of("a\n\nb"), strings(&["a", "", "b"]));
    assert_eq!(lines_of(""), Vec::<String>::new());
    assert_eq!(lines_of("\n"), strings(&[""]));
    assert_eq!(lines_of("a\r"), strings(&["a\r"]));
    assert_eq!(lines_of("a\r\r\n"), strings(&["a\r"]));
}

#[test]
fn lines_agree_with_the_standard_library() {
    for text in ["", "\n", "a", "a\n", "a\r\n", "a\r", "\r\n\r\n", "x\n\ny\r\nz\r", "\r", "a\nb"] {
        let expected: Vec<String> = text.lines().map(|l| l.to_string()).collect();
        assert_eq!(lines_of(text), expected, "{:?}", text);
    }
}

#[test]
fn long_listing_line() {
    assert_eq!(
        parse_ls_long_line("-rw-r--r-- 1 u g 1234 Jan  1 12:00 file.txt"),
        Some(entry("file.txt", false, false, Some(1234)))
    );
    assert_eq!(
        parse_ls_long_line("drwxr-xr-x 2 u g 4096 Jan  1 12:00 my dir"),
        Some(entry("my dir", true, false, Some(4096)))
    );
    assert_eq!(
        parse_ls_long_line("lrwxrwxrwx 1 u g 7 Jan 1 12:00 link -> target"),
        Some(entry("link -> target", false, true, Some(7)))
    );
    assert_eq!(
        parse_ls_long_line("-rw-r--r-- 1 u g big Jan 1 12:00 f"),
        Some(entry("f", false, false, None))
    );
}

#[test]
fn long_listing_line_needs_nine_fields() {
    assert_eq!(parse_ls_long_line("-rw-r--r-- 1 u g 1234 Jan 1 12:00"), None);
    assert_eq!(parse_ls_long_line(""), None);
}

#[test]
fn listing_output_in_both_forms() {
    let output = "total 8\n-rw-r--r-- 1 u g 10 Jan 1 12:00 a.txt\nplain name\n\n   \ndocs\n-odd\n";
    assert_eq!(
        parse_ls_output(output),
        vec![
            entry("total 8", false, false, None),
            entry("a.txt", false, false, Some(10)),
            entry("plain name", false, false, None),
            entry("docs", false, false, None),
            entry("-odd", false, false, None),
        ]
    );
    assert_eq!(parse_ls_output(""), Vec::<FileEntry>::new());
}

#[test]
fn output_kinds() {
    assert_eq!(format_command_output("ls"), OutputKind::Listing);
    assert_eq!(format_command_output("cat"), OutputKind::Contents);
    assert_eq!(format_command_output("cargo"), OutputKind::Diagnostics);
    assert_eq!(format_command_output("grep"), OutputKind::Plain);
    assert_eq!(format_command_output("/bin/ls"), OutputKind::Plain);
}

#[test]
fn source_token_looks() {
    assert_eq!(colorize_rust_token("fn"), bold_rgb(140, 180, 255));
    assert_eq!(colorize_rust_token("static"), bold_rgb(140, 180, 255));
    assert_eq!(colorize_rust_token("Self"), bold_rgb(140, 180, 255));
    assert_eq!(colorize_rust_token("42"), rgb(255, 220, 150));
    assert_eq!(colorize_rust_token("1e9"), rgb(255, 220, 150));
    assert_eq!(colorize_rust_token("nan"), rgb(255, 220, 150));
    assert_eq!(colorize_rust_token("name"), plain());
    assert_eq!(colorize_rust_token("Fn"), plain());
}

#[test]
fn source_line_spans() {
    assert_eq!(
        highlight_rust_line("let x = 5; // five"),
        vec![
            span("let", bold_rgb(140, 180, 255)),
            span(" ", plain()),
            span("x", plain()),
            span(" ", plain()),
            span("=", dim()),
            span(" ", plain()),
            span("5", rgb(255, 220, 150)),
            span(";", dim()),
            span(" ", plain()),
            span("//", named(ColorName::BrightBlack)),
            span(" ", named(ColorName::BrightBlack)),
            span("f", named(ColorName::BrightBlack)),
            span("i", named(ColorName::BrightBlack)),
            span("v", named(ColorName::BrightBlack)),
            span("e", named(ColorName::BrightBlack)),
        ]
    );
}

#[test]
fn source_line_strings() {
    assert_eq!(
        highlight_rust_line("p(\"a b\")"),
        vec![
            span("p", plain()),
            span("(", dim()),
            span("\"", plain()),
            span("a b", rgb(150, 255, 180)),
            span("\"", rgb(150, 255, 180)),
            span(")", dim()),
        ]
    );
    assert_eq!(
        highlight_rust_line("\"open"),
        vec![span("\"", plain()), span("open", rgb(150, 255, 180))]
    );
    assert_eq!(highlight_rust_line(""), Vec::<Span>::new());
}

#[test]
fn diagnostic_line_kinds() {
    assert_eq!(diagnostic_kind("error[E0308]: mismatched types"), LineKind::Error);
    assert_eq!(diagnostic_kind("  error: aborting"), LineKind::Error);
    assert_eq!(diagnostic_kind("warning: unused"), LineKind::Warning);
    assert_eq!(diagnostic_kind("warning[x]"), LineKind::Warning);
    assert_eq!(diagnostic_kind("   help: try this"), LineKind::Advice);
    assert_eq!(diagnostic_kind("note: see"), LineKind::Advice);
    assert_eq!(diagnostic_kind("  --> src/main.rs:1:1"), LineKind::Pointer);
    assert_eq!(diagnostic_kind("   | let x"), LineKind::Pointer);
    assert_eq!(diagnostic_kind("   = note: x"), LineKind::Other);
    assert_eq!(diagnostic_kind("errors"), LineKind::Other);
    assert_eq!(diagnostic_kind(""), LineKind::Other);
}

#[test]
fn diagnostic_line_looks() {
    assert_eq!(colorize_diagnostic_line("error: x"), bold_rgb(255, 120, 180));
    assert_eq!(colorize_diagnostic_line("warning: x"), bold_rgb(255, 220, 150));
    assert_eq!(colorize_diagnostic_line("help: x"), rgb(180, 160, 255));
    assert_eq!(colorize_diagnostic_line("--> x"), dim());
    assert_eq!(colorize_diagnostic_line("x"), plain());
}

#[test]
fn file_name_looks() {
    assert_eq!(colorize_name(true, false, Some("rs")), bold_rgb(140, 180, 255));
    assert_eq!(colorize_name(false, true, Some("rs")), rgb(200, 150, 255));
    assert_eq!(colorize_name(false, false, Some("rs")), rgb(255, 150, 180));
    assert_eq!(colorize_name(false, false, Some("md")), rgb(240, 160, 255));
    assert_eq!(colorize_name(false, false, Some("toml")), rgb(255, 220, 150));
    assert_eq!(colorize_name(false, false, Some("jpeg")), rgb(150, 255, 180));
    assert_eq!(colorize_name(false, false, Some("gz")), rgb(255, 220, 150));
    assert_eq!(colorize_name(false, false, Some("sh")), rgb(150, 255, 180));
    assert_eq!(colorize_name(false, false, Some("txt")), plain());
    assert_eq!(colorize_name(false, false, None), plain());
}

#[test]
fn file_type_marks() {
    assert_eq!(style_type(true, false), ('d', rgb(140, 180, 255)));
    assert_eq!(style_type(true, true), ('d', rgb(140, 180, 255)));
    assert_eq!(style_type(false, true), ('l', rgb(200, 150, 255)));
    assert_eq!(style_type(false, false), ('-', dim()));
}

#[test]
fn settings_line_spans() {
    assert_eq!(highlight_toml_line("[package]"), vec![span("[package]", bold_rgb(200, 150, 255))]);
    assert_eq!(highlight_toml_line("  # note"), vec![span("  # note", named(ColorName::BrightBlack))]);
    assert_eq!(
        highlight_toml_line(" name = \"x=y\" "),
        vec![span("name", bold_rgb(255, 220, 150)), span(" = ", dim()), span("\"x=y\"", rgb(150, 255, 180))]
    );
    assert_eq!(highlight_toml_line("plain"), vec![span("plain", plain())]);
    assert_eq!(highlight_toml_line(""), vec![span("", plain())]);
}

#[test]
fn script_line_looks() {
    assert_eq!(highlight_shell_line("  # note"), named(ColorName::BrightBlack));
    assert_eq!(highlight_shell_line("echo # note"), plain());
    assert_eq!(highlight_shell_line(""), plain());
}

#[test]
fn size_column_text() {
    assert_eq!(squish::formatter::size_text(&entry("a", false, false, Some(999))), "999 B");
    assert_eq!(squish::formatter::size_text(&entry("a", false, false, Some(1000))), "1 kB");
    assert_eq!(squish::formatter::size_text(&entry("a", false, false, Some(1500))), "1.50 kB");
    assert_eq!(squish::formatter::size_text(&entry("a", false, false, Some(0))), "0 B");
    assert_eq!(squish::formatter::size_text(&entry("a", false, false, Some(u64::MAX))), "18.45 EB");
    assert_eq!(squish::formatter::size_text(&entry("d", true, false, Some(4096))), "-");
    assert_eq!(squish::formatter::size_text(&entry("a", false, false, None)), "-");
    assert_eq!(
        squish::formatter::size_text_given(&entry("a", false, true, Some(1)), "one".to_string()),
        "one"
    );
}

#[test]
fn column_widths() {
    assert_eq!(squish::formatter::column_width(&strings(&["a", "abc", "ab"]), 2), 3);
    assert_eq!(squish::formatter::column_width(&strings(&["a", "abc"]), 8), 8);
    assert_eq!(squish::formatter::column_width(&vec![], 20), 20);
    assert_eq!(squish::formatter::column_width(&strings(&["héllo"]), 0), 5);
}
