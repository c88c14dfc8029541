use logger::layout::{bar_line, header, hint_line, location_line};
use logger::paint::paint;
use logger::utils::{bold_highlight, highlight};
use logger::{highlight_source, Color, Location, Log, LogLevel, Paint, Section};

fn colors() {
    colored::control::set_override(true);
}

const RESET: &str = "\x1b[0m";
const BAD_CODE: &str = "fn main() {\n    println!(\"Hello!\\n\");\n}\n";

#[test]
fn paint_wraps_the_text_in_escape_codes() {
    colors();
    assert_eq!(paint("text", Paint::Bold), "\x1b[1mtext\x1b[0m");
    assert_eq!(paint("text", Paint::Tint(Color::Red)), "\x1b[31mtext\x1b[0m");
    assert_eq!(paint("text", Paint::BoldTint(Color::Red)), "\x1b[1;31mtext\x1b[0m");
    assert_eq!(paint("", Paint::Bold), "\x1b[1m\x1b[0m");
}

fn start_of(painted: &str, text: &str) -> String {
    let rest = painted.strip_prefix("\x1b[").expect("no start code");
    let rest = rest.strip_suffix(&format!("m{}\x1b[0m", text)).expect("no text and reset code");
    rest.to_string()
}

fn is_named_code(code: &str) -> bool {
    let chars: Vec<char> = code.chars().collect();
    chars.len() == 2 && (chars[0] == '3' || chars[0] == '9') && ('0'..='7').contains(&chars[1])
}

#[test]
fn paint_knows_the_bright_colours() {
    colors();
    let colours = [
        (Color::BrightBlack, "90"),
        (Color::BrightRed, "91"),
        (Color::BrightGreen, "92"),
        (Color::BrightYellow, "93"),
        (Color::BrightBlue, "94"),
        (Color::BrightMagenta, "95"),
        (Color::BrightCyan, "96"),
        (Color::BrightWhite, "97"),
    ];
    for (colour, code) in colours {
        assert_eq!(paint("x", Paint::Tint(colour)), format!("\x1b[{}mx\x1b[0m", code));
        assert_eq!(paint("x", Paint::BoldTint(colour)), format!("\x1b[1;{}mx\x1b[0m", code));
    }
}

#[test]
fn paint_knows_the_colours_of_the_palette() {
    colors();
    for index in [0u8, 7, 9, 10, 99, 100, 200, 255] {
        assert_eq!(
            paint("x", Paint::Tint(Color::AnsiColor(index))),
            format!("\x1b[38;5;{}mx\x1b[0m", index)
        );
        assert_eq!(
            paint("x", Paint::BoldTint(Color::AnsiColor(index))),
            format!("\x1b[1;38;5;{}mx\x1b[0m", index)
        );
    }
}

#[test]
fn paint_shows_a_colour_by_its_parts_or_the_nearest_named_one() {
    colors();
    for (r, g, b) in [(0u8, 0u8, 0u8), (1, 2, 3), (255, 128, 0), (255, 255, 255)] {
        let colour = Color::TrueColor { r, g, b };
        let code = start_of(&paint("x", Paint::Tint(colour)), "x");
        assert!(code == format!("38;2;{};{};{}", r, g, b) || is_named_code(&code));
        let bold = start_of(&paint("x", Paint::BoldTint(colour)), "x");
        let bold = bold.strip_prefix("1;").expect("not bold");
        assert!(bold == format!("38;2;{};{};{}", r, g, b) || is_named_code(bold));
    }
}

#[test]
fn highlight_takes_any_colour() {
    colors();
    let section = Section::new(0..=0, 2..=4);
    assert_eq!(highlight("abcdef", &section, Color::BrightCyan), "ab\x1b[1;96mcd\x1b[0mef");
    assert_eq!(
        highlight("abcdef", &section, Color::AnsiColor(208)),
        "ab\x1b[1;38;5;208mcd\x1b[0mef"
    );
}

#[test]
fn paint_knows_the_eight_colours() {
    colors();
    let colours = [
        (Color::Black, "30"),
        (Color::Red, "31"),
        (Color::Green, "32"),
        (Color::Yellow, "33"),
        (Color::Blue, "34"),
        (Color::Magenta, "35"),
        (Color::Cyan, "36"),
        (Color::White, "37"),
    ];
    for (colour, code) in colours {
        assert_eq!(paint("x", Paint::Tint(colour)), format!("\x1b[{}mx\x1b[0m", code));
        assert_eq!(paint("x", Paint::BoldTint(colour)), format!("\x1b[1;{}mx\x1b[0m", code));
    }
}

#[test]
fn paint_takes_the_style_up_again_after_a_reset() {
    colors();
    let inner = paint("in", Paint::Tint(Color::Green));
    let text = format!("a{}b", inner);
    assert_eq!(paint(&text, Paint::Bold), "\x1b[1ma\x1b[32min\x1b[0m\x1b[1mb\x1b[0m");
    assert_eq!(
        paint("x\x1b[0m\x1b[0my", Paint::BoldTint(Color::Blue)),
        "\x1b[1;34mx\x1b[0m\x1b[1;34m\x1b[0m\x1b[1;34my\x1b[0m"
    );
}

#[test]
fn warning_with_snippet_and_hint_in_colours() {
    colors();
    let location = Location::from_source("examples/highlighted/bad_code.rs", BAD_CODE)
        .section(Section::new(1..=1, 20..=22));
    let log = Log::new(LogLevel::Warning, "Using new line in println! call")
        .location(location)
        .hint("Remove '\\n' in 'println!' call");
    let bar = "\x1b[1;34m|\x1b[0m";
    let expected = [
        "\x1b[1;33mWarning\x1b[0m\x1b[1m: Using new line in println! call\x1b[0m\n".to_string(),
        " \x1b[1;34m-->\x1b[0m examples/highlighted/bad_code.rs:2:23\n".to_string(),
        format!("  {}\n", bar),
        format!(
            "\x1b[1;34m2\x1b[0m {}     println!(\"Hello!\x1b[1;33m\\n\x1b[0m\");\n",
            bar
        ),
        format!("  {}\n", bar),
        format!("  {} \x1b[1mhelp:\x1b[0m Remove '\\n' in 'println!' call\n", bar),
    ]
    .concat();
    let rendered = log.render("");
    assert_eq!(rendered, expected);
    assert!(rendered.starts_with("\x1b[1;33mWarning\x1b[0m\x1b[1m: Using new line"));
    assert!(rendered.contains("bad_code.rs:2:23"));
    assert!(rendered.contains("help:\x1b[0m Remove '\\n' in 'println!' call"));
}

#[test]
fn header_with_app_name_in_colours() {
    colors();
    assert_eq!(
        header(LogLevel::Warning, "msg", "app"),
        "\x1b[1m\x1b[33mWarning\x1b[0m\x1b[1m[app]\x1b[0m\x1b[1m: msg\x1b[0m\n"
    );
    assert_eq!(header(LogLevel::Error, "msg", ""), "\x1b[1;31mError\x1b[0m\x1b[1m: msg\x1b[0m\n");
}

#[test]
fn every_level_has_its_colour() {
    colors();
    let levels = [
        (LogLevel::Trace, "Trace", "36"),
        (LogLevel::Debug, "Debug", "34"),
        (LogLevel::Info, "Info", "32"),
        (LogLevel::Warning, "Warning", "33"),
        (LogLevel::Error, "Error", "31"),
        (LogLevel::Fatal, "Fatal", "35"),
    ];
    for (level, name, code) in levels {
        let head = header(level, "m", "");
        assert_eq!(head, format!("\x1b[1;{}m{}{}\x1b[1m: m{}\n", code, name, RESET, RESET));
        assert!(head.contains(name));
    }
}

#[test]
fn gutter_blocks_in_colours() {
    colors();
    assert_eq!(location_line(" ", "a.rs:2:23"), " \x1b[1;34m-->\x1b[0m a.rs:2:23\n");
    assert_eq!(bar_line("  "), "  \x1b[1;34m|\x1b[0m\n");
    assert_eq!(hint_line("  ", "h"), "  \x1b[1;34m|\x1b[0m \x1b[1mhelp:\x1b[0m h\n");
}

#[test]
fn bold_highlight_changes_the_window_only() {
    colors();
    let source = "println!(\"\\n\")";
    let out = bold_highlight(source, &Section::new(0..=0, 10..=12));
    assert_eq!(out, "println!(\"\x1b[1m\\n\x1b[0m\")");
    assert!(out.starts_with(&source[..10]));
    assert!(out.ends_with(&source[12..]));
}

#[test]
fn highlight_uses_the_colour() {
    colors();
    let out = highlight("abcdef", &Section::new(0..=0, 2..=4), Color::Magenta);
    assert_eq!(out, "ab\x1b[1;35mcd\x1b[0mef");
}

#[test]
fn highlight_over_several_lines() {
    colors();
    let source = "hello world\nsecond line\nthird line\nfourth";
    let out = bold_highlight(source, &Section::new(0..=2, 5..=3));
    assert_eq!(
        out,
        "hello\x1b[1m world\x1b[0m\n\x1b[1msecond line\x1b[0m\n\x1b[1mthi\x1b[0mrd line\nfourth"
    );
}

#[test]
fn informational_levels_are_marked_in_bold_alone() {
    colors();
    let source = "abcdef";
    let location = Location::from_text(source).section(Section::new(0..=0, 1..=3));
    let number = "\x1b[1;34m1\x1b[0m";
    let bar = "\x1b[1;34m|\x1b[0m";
    for level in [LogLevel::Trace, LogLevel::Debug, LogLevel::Info] {
        assert_eq!(
            highlight_source(source, &location, "  ", level),
            format!("{} {} a\x1b[1mbc\x1b[0mdef\n", number, bar)
        );
    }
    assert_eq!(
        highlight_source(source, &location, "  ", LogLevel::Error),
        format!("{} {} a\x1b[1;31mbc\x1b[0mdef\n", number, bar)
    );
    assert_eq!(
        highlight_source(source, &location, "  ", LogLevel::Fatal),
        format!("{} {} a\x1b[1;35mbc\x1b[0mdef\n", number, bar)
    );
}

#[test]
fn multi_line_snippet_in_colours() {
    colors();
    let source = "hello world\nsecond line\nthird line\nfourth";
    let log = Log::new(LogLevel::Error, "spans")
        .location(Location::from_text(source).section(Section::new(0..=2, 5..=3)));
    let bar = "\x1b[1;34m|\x1b[0m";
    let expected = [
        "\x1b[1;31mError\x1b[0m\x1b[1m: spans\x1b[0m\n".to_string(),
        " \x1b[1;34m-->\x1b[0m unknown:3:4\n".to_string(),
        format!("  {}\n", bar),
        format!("\x1b[1;34m1\x1b[0m {} hello\x1b[1;31m world\x1b[0m\n", bar),
        format!("\x1b[1;34m2\x1b[0m {} \x1b[1;31msecond line\x1b[0m\n", bar),
        format!("\x1b[1;34m3\x1b[0m {} \x1b[1;31mthi\x1b[0mrd line\n", bar),
        format!("  {}\n", bar),
    ]
    .concat();
    let rendered = log.render("");
    assert_eq!(rendered, expected);
    assert!(!rendered.contains("fourth"));
}

#[test]
fn message_with_a_reset_code_is_broken_up() {
    colors();
    let head = header(LogLevel::Info, "a\x1b[0mb", "");
    assert_eq!(head, "\x1b[1;32mInfo\x1b[0m\x1b[1m: a\x1b[0m\x1b[1mb\x1b[0m\n");
    assert!(!head.contains("a\x1b[0mb"));
}
