use squish::repl::{
    apply_color, color_from, fill, generate_prompt, get_distro_icon, git_segment, icon_for,
    named_color, parse_rgb, prompt, should_record, startup_command, system_id,
};
use squish::shell_config::PromptColors;
use squish::style::{bold_rgb, dim, is_number, named, plain, rgb, ColorName, Ink, Look, Span};

fn span(text: &str, text_ink: Ink, background: Ink) -> Span {
    Span { text: text.to_string(), look: Look { text: text_ink, background, bold: false, dimmed: false } }
}

#[test]
fn rgb_colors() {
    assert_eq!(parse_rgb("255,0,10"), Some((255, 0, 10)));
    assert_eq!(parse_rgb("1 2 3"), Some((1, 2, 3)));
    assert_eq!(parse_rgb("1,2 3"), Some((1, 2, 3)));
    assert_eq!(parse_rgb("+1,2,3"), Some((1, 2, 3)));
    assert_eq!(parse_rgb("\t1,2,3\n"), Some((1, 2, 3)));
}

#[test]
fn rgb_colors_that_are_none() {
    assert_eq!(parse_rgb("255, 0, 0"), None);
    assert_eq!(parse_rgb("256,0,0"), None);
    assert_eq!(parse_rgb("1,2"), None);
    assert_eq!(parse_rgb("1,2,3,4"), None);
    assert_eq!(parse_rgb("1,,3"), None);
    assert_eq!(parse_rgb("red"), None);
    assert_eq!(parse_rgb(""), None);
    assert_eq!(parse_rgb("-1,2,3"), None);
}

#[test]
fn named_colors() {
    assert_eq!(named_color("black"), Some(ColorName::Black));
    assert_eq!(named_color("red"), Some(ColorName::Red));
    assert_eq!(named_color("green"), Some(ColorName::Green));
    assert_eq!(named_color("yellow"), Some(ColorName::Yellow));
    assert_eq!(named_color("blue"), Some(ColorName::Blue));
    assert_eq!(named_color("magenta"), Some(ColorName::Magenta));
    assert_eq!(named_color("cyan"), Some(ColorName::Cyan));
    assert_eq!(named_color("white"), Some(ColorName::White));
    assert_eq!(named_color("bright_black"), Some(ColorName::BrightBlack));
    assert_eq!(named_color("brightred"), Some(ColorName::BrightRed));
    assert_eq!(named_color("bright_green"), Some(ColorName::BrightGreen));
    assert_eq!(named_color("brightyellow"), Some(ColorName::BrightYellow));
    assert_eq!(named_color("bright_blue"), Some(ColorName::BrightBlue));
    assert_eq!(named_color("brightmagenta"), Some(ColorName::BrightMagenta));
    assert_eq!(named_color("bright_cyan"), Some(ColorName::BrightCyan));
    assert_eq!(named_color("brightwhite"), Some(ColorName::BrightWhite));
    assert_eq!(named_color("Red"), None);
    assert_eq!(named_color("bright-red"), None);
    assert_eq!(named_color(""), None);
}

#[test]
fn colors_of_settings() {
    assert_eq!(apply_color("10,20,30"), Ink::Rgb(10, 20, 30));
    assert_eq!(apply_color("RED"), Ink::Named(ColorName::Red));
    assert_eq!(apply_color("Bright_Cyan"), Ink::Named(ColorName::BrightCyan));
    assert_eq!(apply_color("purple"), Ink::Default);
    assert_eq!(color_from("RED", "RED"), Ink::Default);
    assert_eq!(color_from("1,2,3", "red"), Ink::Rgb(1, 2, 3));
}

#[test]
fn prompt_format_fill() {
    assert_eq!(fill("a%ub%u", 'u', "me"), "amebme");
    assert_eq!(fill("%%u", 'u', "me"), "%me");
    assert_eq!(fill("100%", 'u', "me"), "100%");
    assert_eq!(fill("%U", 'u', "me"), "%U");
    assert_eq!(generate_prompt("%u@%h:%d %s> ", "me", "box", "~/src", 0), "me@box:~/src \u{2713}> ");
    assert_eq!(generate_prompt("%s", "me", "box", "~", 2), "\u{2717}");
    assert_eq!(generate_prompt("%u", "%h", "box", "~", 0), "box");
}

#[test]
fn prompt_fill_agrees_with_replace() {
    for format in ["", "%u%u", "%%u%", "a%h%ub", "%", "%d%s%x"] {
        assert_eq!(fill(format, 'u', "U%h"), format.replace("%u", "U%h"), "{:?}", format);
    }
}

#[test]
fn prompt_with_built_in_colors() {
    let colors = PromptColors::default();
    let black = Ink::Named(ColorName::Black);
    let none = Ink::Default;
    let frame = Ink::Named(ColorName::BrightBlack);
    let yellow = Ink::Named(ColorName::BrightYellow);
    let white = Ink::Named(ColorName::White);
    let cyan = Ink::Named(ColorName::BrightCyan);
    assert_eq!(
        prompt(&colors, 0, "I", "me@box", "~/src", None),
        vec![
            span("\u{256d}\u{2500}", frame, none),
            span(" ", none, none),
            span(" I ", black, yellow),
            span("\u{e0b0}", yellow, white),
            span(" me@box ", black, white),
            span("\u{e0b0}", white, cyan),
            span(" ~/src ", black, cyan),
            span("\u{e0b0}", cyan, none),
            span("\n", none, none),
            span("\u{2570}\u{2500}", frame, none),
            span("\u{276f}", Ink::Named(ColorName::BrightGreen), none),
            span(" ", none, none),
        ]
    );
}

#[test]
fn prompt_with_repository_and_failure() {
    let colors = PromptColors::default();
    let spans = prompt(&colors, 1, "I", "me@box", "~", Some("main*"));
    let magenta = Ink::Named(ColorName::BrightMagenta);
    let cyan = Ink::Named(ColorName::BrightCyan);
    assert_eq!(spans.len(), 14);
    assert_eq!(spans[7], span("\u{e0b0}", cyan, magenta));
    assert_eq!(spans[8], span(" main* ", Ink::Named(ColorName::Black), magenta));
    assert_eq!(spans[9], span("\u{e0b0}", magenta, Ink::Default));
    assert_eq!(spans[12], span("\u{276f}", Ink::Named(ColorName::BrightRed), Ink::Default));
}

#[test]
fn prompt_with_colors_from_the_settings() {
    let mut colors = PromptColors::default();
    colors.distro_text = Some("red".to_string());
    colors.distro_bg = Some("1,2,3".to_string());
    colors.user_host_bg = Some("nonsense".to_string());
    colors.dir_text = Some("blue".to_string());
    colors.arrow_success = Some("9,9,9".to_string());
    let spans = prompt(&colors, 0, "I", "u@h", "/", None);
    assert_eq!(spans[2], span(" I ", Ink::Named(ColorName::Red), Ink::Rgb(1, 2, 3)));
    assert_eq!(spans[3], span("\u{e0b0}", Ink::Rgb(1, 2, 3), Ink::Default));
    assert_eq!(spans[4], span(" u@h ", Ink::Default, Ink::Default));
    assert_eq!(spans[5], span("\u{e0b0}", Ink::Default, Ink::Named(ColorName::BrightCyan)));
    assert_eq!(spans[6], span(" / ", Ink::Named(ColorName::Black), Ink::Named(ColorName::BrightCyan)));
    assert_eq!(spans[10], span("\u{276f}", Ink::Rgb(9, 9, 9), Ink::Default));
}

#[test]
fn startup_commands() {
    assert_eq!(startup_command("  echo hi  "), Some("echo hi".to_string()));
    assert_eq!(startup_command("export A=1"), Some("export A=1".to_string()));
    assert_eq!(startup_command(""), None);
    assert_eq!(startup_command("# x"), None);
    assert_eq!(startup_command("show_timing=false"), None);
    assert_eq!(startup_command("prompt = x"), Some("prompt = x".to_string()));
    assert_eq!(startup_command("autostart ls"), None);
    assert_eq!(startup_command("autostart=ls -l"), None);
    assert_eq!(startup_command("autostartx y"), Some("autostartx y".to_string()));
}

#[test]
fn history_records_what_differs_from_the_newest() {
    assert!(should_record(None, "ls"));
    assert!(should_record(Some("pwd"), "ls"));
    assert!(!should_record(Some("ls"), "ls"));
    assert!(!should_record(Some(" ls \n"), "ls"));
    assert!(should_record(Some("ls"), " ls"));
}

#[test]
fn system_icons() {
    assert_eq!(icon_for("arch"), '\u{f303}');
    assert_eq!(icon_for("archlinux"), '\u{f303}');
    assert_eq!(icon_for("ubuntu"), '\u{f31b}');
    assert_eq!(icon_for("debian"), '\u{e77d}');
    assert_eq!(icon_for("fedora"), '\u{f31a}');
    assert_eq!(icon_for("centos"), '\u{f304}');
    assert_eq!(icon_for("gentoo"), '\u{f30d}');
    assert_eq!(icon_for("nixos"), '\u{f313}');
    assert_eq!(icon_for("alpine"), '\u{f300}');
    assert_eq!(icon_for("manjaro"), '\u{f312}');
    assert_eq!(icon_for("suse"), '\u{f314}');
    assert_eq!(icon_for("linuxmint"), '\u{f30e}');
    assert_eq!(icon_for("pop"), '\u{f32a}');
    assert_eq!(icon_for("kali"), '\u{f327}');
    assert_eq!(icon_for("elementary"), '\u{f309}');
    assert_eq!(icon_for("void"), '\u{f32e}');
    assert_eq!(icon_for("raspbian"), '\u{f315}');
    assert_eq!(icon_for("rhel"), '\u{f316}');
    assert_eq!(icon_for("slackware"), '\u{f318}');
    assert_eq!(icon_for("plan9"), '\u{f17c}');
}

#[test]
fn system_id_from_its_description() {
    assert_eq!(system_id("NAME=\"Ubuntu\"\nID=ubuntu\nID_LIKE=debian\n"), Some("ubuntu".to_string()));
    assert_eq!(system_id("ID=\"Arch\"\n"), Some("Arch".to_string()));
    assert_eq!(system_id("ID=ID=x\nID=y"), Some("x".to_string()));
    assert_eq!(system_id("ID=\"\""), Some("".to_string()));
    assert_eq!(system_id("ID="), Some("".to_string()));
    assert_eq!(system_id("VERSION_ID=1\n id=x\n"), None);
    assert_eq!(system_id(""), None);
}

#[test]
fn system_icon_from_its_description() {
    assert_eq!(get_distro_icon("ID=\"Arch\"\n"), '\u{f303}');
    assert_eq!(get_distro_icon("ID=UBUNTU"), '\u{f31b}');
    assert_eq!(get_distro_icon("ID=plan9"), '\u{f17c}');
    assert_eq!(get_distro_icon(""), '\u{f17c}');
}

#[test]
fn repository_label() {
    assert_eq!(git_segment("main", false), "\u{e725} main");
    assert_eq!(git_segment("main", true), "\u{e725} main*");
}

#[test]
fn looks() {
    assert_eq!(plain(), Look { text: Ink::Default, background: Ink::Default, bold: false, dimmed: false });
    assert_eq!(rgb(1, 2, 3), Look { text: Ink::Rgb(1, 2, 3), background: Ink::Default, bold: false, dimmed: false });
    assert_eq!(bold_rgb(1, 2, 3), Look { text: Ink::Rgb(1, 2, 3), background: Ink::Default, bold: true, dimmed: false });
    assert_eq!(dim(), Look { text: Ink::Default, background: Ink::Default, bold: false, dimmed: true });
    assert_eq!(
        named(ColorName::Red),
        Look { text: Ink::Named(ColorName::Red), background: Ink::Default, bold: false, dimmed: false }
    );
}

#[test]
fn number_texts() {
    for text in ["0", "12", "-3", "+3", "1.5", "1.", ".5", "-.5", "1e5", "1E5", "1e+5", "1.5e-3", "inf", "-inf", "+Infinity", "NaN", "nan", "INF", "007"] {
        assert!(is_number(text), "{:?}", text);
    }
    for text in ["", "+", "-", ".", "e5", "1e", "1e+", "1.5.2", "1_000", " 1", "1 ", "0x10", "infinit", "nanx", "--1", "1f", "٣", "1e5x", "+-1", "in"] {
        assert!(!is_number(text), "{:?}", text);
    }
}

#[test]
fn number_texts_agree_with_the_standard_library() {
    for text in ["", "0", "-0", "1.", ".1", ".", "1e1", "1e", "e1", "1E-2", "+.5e+3", "inf", "Inf", "iNfInItY", "infinit", "nan", "-nan", "+nan", "NAN", "1d", "0x1", "1__0", "9999999999999999999999999", "1e999", "-", "+"] {
        assert_eq!(is_number(text), text.parse::<f64>().is_ok(), "{:?}", text);
    }
}
